//! The events that a callback can be registered for.

use crate::text::same;
use vstd::prelude::*;

verus! {

/// A label under which payloads are delivered.
#[derive(Debug, Clone)]
pub enum Event {
    Message,
    Error,
    Custom(Vec<u8>),
    Connect,
    Close,
}

/// What an event is, as a mathematical value.
pub enum EventView {
    Message,
    Error,
    Custom(Seq<u8>),
    Connect,
    Close,
}

impl View for Event {
    type V = EventView;

    open spec fn view(&self) -> EventView {
        match self {
            Event::Message => EventView::Message,
            Event::Error => EventView::Error,
            Event::Custom(name) => EventView::Custom(name@),
            Event::Connect => EventView::Connect,
            Event::Close => EventView::Close,
        }
    }
}

/// The name `message`.
pub open spec fn message_name() -> Seq<u8> {
    seq![109u8, 101u8, 115u8, 115u8, 97u8, 103u8, 101u8]
}

/// The name `error`.
pub open spec fn error_name() -> Seq<u8> {
    seq![101u8, 114u8, 114u8, 111u8, 114u8]
}

/// The name `connect`.
pub open spec fn connect_name() -> Seq<u8> {
    seq![99u8, 111u8, 110u8, 110u8, 101u8, 99u8, 116u8]
}

/// The name `close`.
pub open spec fn close_name() -> Seq<u8> {
    seq![99u8, 108u8, 111u8, 115u8, 101u8]
}

/// The event that a name stands for: one of the four common events for its
/// own name, a custom event for any other.
pub open spec fn named(name: Seq<u8>) -> EventView {
    if name == message_name() {
        EventView::Message
    } else if name == error_name() {
        EventView::Error
    } else if name == connect_name() {
        EventView::Connect
    } else if name == close_name() {
        EventView::Close
    } else {
        EventView::Custom(name)
    }
}

impl EventView {
    /// The name under which the event goes over the wire.
    pub open spec fn name(self) -> Seq<u8> {
        match self {
            EventView::Message => message_name(),
            EventView::Error => error_name(),
            EventView::Custom(name) => name,
            EventView::Connect => connect_name(),
            EventView::Close => close_name(),
        }
    }
}

fn message_bytes() -> (v: Vec<u8>)
    ensures
        v@ == message_name(),
{
    let v: Vec<u8> = vec![109u8, 101u8, 115u8, 115u8, 97u8, 103u8, 101u8];
    assert(v@ =~= message_name());
    v
}

fn error_bytes() -> (v: Vec<u8>)
    ensures
        v@ == error_name(),
{
    let v: Vec<u8> = vec![101u8, 114u8, 114u8, 111u8, 114u8];
    assert(v@ =~= error_name());
    v
}

fn connect_bytes() -> (v: Vec<u8>)
    ensures
        v@ == connect_name(),
{
    let v: Vec<u8> = vec![99u8, 111u8, 110u8, 110u8, 101u8, 99u8, 116u8];
    assert(v@ =~= connect_name());
    v
}

fn close_bytes() -> (v: Vec<u8>)
    ensures
        v@ == close_name(),
{
    let v: Vec<u8> = vec![99u8, 108u8, 111u8, 115u8, 101u8];
    assert(v@ =~= close_name());
    v
}

impl Event {
    /// The event that `name` stands for.
    pub fn from_name(name: &[u8]) -> (e: Event)
        ensures
            e@ == named(name@),
    {
        if same(name, message_bytes().as_slice()) {
            Event::Message
        } else if same(name, error_bytes().as_slice()) {
            Event::Error
        } else if same(name, connect_bytes().as_slice()) {
            Event::Connect
        } else if same(name, close_bytes().as_slice()) {
            Event::Close
        } else {
            Event::Custom(vstd::slice::slice_to_vec(name))
        }
    }

    /// The name under which the event goes over the wire.
    pub fn name(&self) -> (n: Vec<u8>)
        ensures
            n@ == self@.name(),
    {
        match self {
            Event::Message => message_bytes(),
            Event::Error => error_bytes(),
            Event::Custom(name) => vstd::slice::slice_to_vec(name.as_slice()),
            Event::Connect => connect_bytes(),
            Event::Close => close_bytes(),
        }
    }

    /// Whether two events are the same.
    pub fn same_as(&self, other: &Event) -> (r: bool)
        ensures
            r == (self@ == other@),
    {
        match (self, other) {
            (Event::Message, Event::Message) => true,
            (Event::Error, Event::Error) => true,
            (Event::Connect, Event::Connect) => true,
            (Event::Close, Event::Close) => true,
            (Event::Custom(a), Event::Custom(b)) => same(a.as_slice(), b.as_slice()),
            _ => false,
        }
    }
}

/// A name gives the event whose name it is, but for a custom event that
/// bears the name of a common one.
pub proof fn lemma_named_name(e: EventView)
    requires
        e matches EventView::Custom(n) ==> named(n) == e,
    ensures
        named(e.name()) == e,
{
    assert(message_name().len() == 7 && error_name().len() == 5);
    assert(message_name()[0] == 109 && connect_name()[0] == 99);
    assert(error_name()[0] == 101 && close_name()[0] == 99);
    assert(error_name()[1] == 114 && close_name()[1] == 108);
}

} // verus!
