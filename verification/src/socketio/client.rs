//! The decisions of a Socket.IO client: what to send, whom to call, which
//! acks are outstanding. It performs no I/O: what it wants sent waits in an
//! outbox, and what it wants called comes back as a list of invocations.

use crate::engineio::packet::Packet as EnginePacket;
use crate::engineio::packet::PacketView as EnginePacketView;
use crate::engineio::packet::views;
use crate::error::Error;
use crate::outside::{
    is_utf8, items_view, json_array, parse_json_array, random_below, JsonItem,
};
use crate::socketio::event::{named, Event, EventView};
use crate::socketio::packet::{blobs, Packet, PacketId, PacketView, COMMA, SLASH};
use crate::socketio::payload::{Payload, PayloadView};
use crate::text::{append, copy_range};
use vstd::prelude::*;
use vstd::string::{StrSliceExecFns, StringSliceAdditionalSpecFns};
use vstd::utf8::valid_utf8;

verus! {

/// An ack that the server has not answered yet.
#[derive(Debug, Clone, Copy, PartialEq, Eq, Structural)]
pub struct Ack {
    pub id: i32,
    /// How long the server may take, in milliseconds.
    pub timeout: u64,
    /// The reading of the clock when the event was sent, in milliseconds.
    pub time_started: u64,
}

impl Ack {
    /// Whether an answer at `now` still comes in time.
    pub open spec fn live(self, now: u64) -> bool {
        now - self.time_started < self.timeout
    }

    /// The moment from which an answer comes too late.
    pub open spec fn deadline(self) -> int {
        self.time_started + self.timeout
    }

    /// Whether an answer at `now` still comes in time.
    pub fn is_live(&self, now: u64) -> (r: bool)
        ensures
            r == self.live(now),
            r == (now < self.deadline()),
    {
        now < self.time_started || now - self.time_started < self.timeout
    }
}

/// Where a namespace stands.
#[derive(Debug, Clone, Copy, PartialEq, Eq, Structural)]
pub enum State {
    Closed,
    Connecting,
    Open,
}

/// Whom to call: the callback of an event, or the callback of an ack.
#[derive(Debug, Clone)]
pub enum Target {
    Event(Event),
    Ack(i32),
}

pub enum TargetView {
    Event(EventView),
    Ack(i32),
}

impl View for Target {
    type V = TargetView;

    open spec fn view(&self) -> TargetView {
        match self {
            Target::Event(e) => TargetView::Event(e@),
            Target::Ack(id) => TargetView::Ack(*id),
        }
    }
}

/// One call that the client asks for: a callback and what to hand it.
#[derive(Debug, Clone)]
pub struct Invocation {
    pub target: Target,
    pub payload: Payload,
}

pub struct InvocationView {
    pub target: TargetView,
    pub payload: PayloadView,
}

impl View for Invocation {
    type V = InvocationView;

    open spec fn view(&self) -> InvocationView {
        InvocationView { target: self.target@, payload: self.payload@ }
    }
}

/// The views of a list of invocations.
pub open spec fn calls(v: Seq<Invocation>) -> Seq<InvocationView> {
    v.map_values(|i: Invocation| i@)
}

/// The views of a list of events.
pub open spec fn events(v: Seq<Event>) -> Seq<EventView> {
    v.map_values(|e: Event| e@)
}

/// Whether no two acks of the list share an id.
pub open spec fn distinct_ids(acks: Seq<Ack>) -> bool {
    forall|i: int, j: int| 0 <= i < j < acks.len() ==> acks[i].id != acks[j].id
}

/// Whether an ack with this id is in the list.
pub open spec fn has_id(acks: Seq<Ack>, id: i32) -> bool {
    exists|i: int| 0 <= i < acks.len() && acks[i].id == id
}

/// The body of an event with a text payload: `["<event>",<data>]`.
pub open spec fn text_body(name: Seq<u8>, data: Seq<u8>) -> Seq<u8> {
    seq![91u8, 34u8] + name + seq![34u8, 44u8] + data + seq![93u8]
}

/// The body of an event with a binary payload: `"<event>"`.
pub open spec fn binary_body(name: Seq<u8>) -> Seq<u8> {
    seq![34u8] + name + seq![34u8]
}

/// The packet that carries a payload under an event: an EVENT for text, a
/// BINARY_EVENT with one attachment for bytes.
pub open spec fn event_packet(
    payload: PayloadView,
    event: EventView,
    nsp: Seq<u8>,
    id: Option<i32>,
) -> PacketView {
    match payload {
        PayloadView::String(s) => PacketView {
            packet_type: PacketId::Event,
            nsp,
            data: Some(text_body(event.name(), s)),
            id,
            attachment_count: 0,
            attachments: None,
        },
        PayloadView::Binary(b) => PacketView {
            packet_type: PacketId::BinaryEvent,
            nsp,
            data: Some(binary_body(event.name())),
            id,
            attachment_count: 1,
            attachments: Some(seq![b]),
        },
    }
}

/// Builds the packet that carries a payload under an event.
pub fn build_packet_for_payload(payload: Payload, event: &Event, nsp: &[u8], id: Option<i32>) -> (p:
    Packet)
    ensures
        p@ == event_packet(payload@, event@, nsp@, id),
{
    let name = event.name();
    let nsp_copy = copy_range(nsp, 0, nsp.len());
    assert(nsp_copy@ =~= nsp@);
    match payload {
        Payload::String(s) => {
            let mut body: Vec<u8> = Vec::new();
            body.push(91u8);
            body.push(34u8);
            append(&mut body, name.as_slice());
            body.push(34u8);
            body.push(44u8);
            append(&mut body, s.as_slice());
            body.push(93u8);
            assert(body@ =~= text_body(name@, s@));
            Packet::new(PacketId::Event, nsp_copy, Some(body), id, 0, None)
        },
        Payload::Binary(b) => {
            let mut body: Vec<u8> = Vec::new();
            body.push(34u8);
            append(&mut body, name.as_slice());
            body.push(34u8);
            assert(body@ =~= binary_body(name@));
            let mut list: Vec<Vec<u8>> = Vec::new();
            list.push(b);
            assert(blobs(list@) =~= seq![b@]);
            Packet::new(PacketId::BinaryEvent, nsp_copy, Some(body), id, 1, Some(list))
        },
    }
}

/// A packet without body, id or attachments.
pub open spec fn plain_packet(kind: PacketId, nsp: Seq<u8>) -> PacketView {
    PacketView {
        packet_type: kind,
        nsp,
        data: None,
        id: None,
        attachment_count: 0,
        attachments: None,
    }
}

/// Whether a packet can go out: its header can be written and is UTF-8, and
/// it has the attachments that it announces.
pub open spec fn sendable(p: PacketView) -> bool {
    p.header_wf() && p.complete() && valid_utf8(p.header())
}

/// How many ack ids there are: an id is drawn from `0..ACK_IDS`.
pub const ACK_IDS: i32 = 1000;

/// How often a draw that collides with an outstanding ack is repeated before
/// the ids are searched in order.
pub const DRAWS: usize = 8;

/// The acks that stay on the list when it is walked at `now` for an answer
/// to `id`: those that are still in time and are not the one answered.
pub open spec fn kept(acks: Seq<Ack>, id: Option<i32>, now: u64) -> Seq<Ack>
    decreases acks.len(),
{
    if acks.len() == 0 {
        Seq::empty()
    } else if acks.last().live(now) && Some(acks.last().id) != id {
        kept(acks.drop_last(), id, now).push(acks.last())
    } else {
        kept(acks.drop_last(), id, now)
    }
}

/// The ack that an answer to `id` at `now` resolves: the one with that id,
/// if it is still in time.
pub open spec fn answered(acks: Seq<Ack>, id: i32, now: u64) -> Option<Ack>
    decreases acks.len(),
{
    if acks.len() == 0 {
        None
    } else if acks.last().id == id {
        if acks.last().live(now) {
            Some(acks.last())
        } else {
            None
        }
    } else {
        answered(acks.drop_last(), id, now)
    }
}

/// The smallest id from `from` on that no ack of the list has.
pub open spec fn first_free(acks: Seq<Ack>, from: int) -> Option<i32>
    decreases ACK_IDS - from,
{
    if from < 0 || from >= ACK_IDS {
        None
    } else if !has_id(acks, from as i32) {
        Some(from as i32)
    } else {
        first_free(acks, from + 1)
    }
}

/// The id for a new ack, given the number that was drawn: the number itself
/// where it is an id that no ack of the list has, else the smallest such id,
/// and none where every id is taken.
pub open spec fn chosen(acks: Seq<Ack>, drawn: i32) -> Option<i32> {
    if 0 <= drawn < ACK_IDS && !has_id(acks, drawn) {
        Some(drawn)
    } else {
        first_free(acks, 0)
    }
}

/// What stays on the list is in time, is not the ack answered, and was on
/// the list; and ids stay distinct.
pub proof fn lemma_kept(acks: Seq<Ack>, id: Option<i32>, now: u64)
    ensures
        forall|k: int|
            0 <= k < kept(acks, id, now).len() ==> (#[trigger] kept(acks, id, now)[k]).live(now)
                && Some(kept(acks, id, now)[k].id) != id && acks.contains(kept(acks, id, now)[k]),
        forall|x: i32| has_id(kept(acks, id, now), x) ==> has_id(acks, x),
        distinct_ids(acks) ==> distinct_ids(kept(acks, id, now)),
        kept(acks, id, now).len() <= acks.len(),
    decreases acks.len(),
{
    let out = kept(acks, id, now);
    if acks.len() == 0 {
    } else {
        let head = acks.drop_last();
        let sub = kept(head, id, now);
        lemma_kept(head, id, now);
        assert forall|k: int| 0 <= k < out.len() implies (#[trigger] out[k]).live(now) && Some(
            out[k].id,
        ) != id && acks.contains(out[k]) by {
            if k < sub.len() {
                assert(out[k] == sub[k]);
                assert(head.contains(sub[k]));
                let j = choose|j: int| 0 <= j < head.len() && head[j] == sub[k];
                assert(acks[j] == sub[k]);
            } else {
                assert(out[k] == acks.last());
                assert(acks[acks.len() - 1] == acks.last());
            }
        }
        assert forall|x: i32| has_id(out, x) implies has_id(acks, x) by {
            let k = choose|k: int| 0 <= k < out.len() && out[k].id == x;
            assert(acks.contains(out[k]));
            let j = choose|j: int| 0 <= j < acks.len() && acks[j] == out[k];
            assert(acks[j].id == x);
        }
        if distinct_ids(acks) {
            assert(distinct_ids(head)) by {
                assert forall|i: int, j: int| 0 <= i < j < head.len() implies head[i].id
                    != head[j].id by {
                    assert(head[i] == acks[i] && head[j] == acks[j]);
                }
            }
            assert forall|i: int, j: int| 0 <= i < j < out.len() implies out[i].id
                != out[j].id by {
                if j < sub.len() {
                    assert(out[i] == sub[i] && out[j] == sub[j]);
                } else {
                    assert(out[j] == acks.last());
                    assert(out[i] == sub[i]);
                    assert(head.contains(sub[i]));
                    let m = choose|m: int| 0 <= m < head.len() && head[m] == sub[i];
                    assert(acks[m] == sub[i]);
                    assert(acks[acks.len() - 1] == acks.last());
                }
            }
        }
    }
}

/// An ack is resolved only in time: the answer comes before its deadline,
/// and the ack was outstanding under that id.
pub proof fn lemma_answered(acks: Seq<Ack>, id: i32, now: u64)
    ensures
        answered(acks, id, now) matches Some(a) ==> {
            &&& now - a.time_started < a.timeout
            &&& a.id == id
            &&& acks.contains(a)
        },
        !has_id(acks, id) ==> answered(acks, id, now) is None,
    decreases acks.len(),
{
    if acks.len() == 0 {
    } else {
        assert(acks[acks.len() - 1] == acks.last());
        if acks.last().id == id {
        } else {
            lemma_answered(acks.drop_last(), id, now);
            if answered(acks, id, now) is Some {
                let a = answered(acks, id, now)->0;
                let j = choose|j: int| 0 <= j < acks.drop_last().len() && acks.drop_last()[j] == a;
                assert(acks[j] == a);
            }
            if !has_id(acks, id) {
                if has_id(acks.drop_last(), id) {
                    let j = choose|j: int|
                        0 <= j < acks.drop_last().len() && acks.drop_last()[j].id == id;
                    assert(acks[j].id == id);
                }
            }
        }
    }
}

/// `first_free` gives an id that is free, and none only where all are taken.
pub proof fn lemma_first_free(acks: Seq<Ack>, from: int)
    requires
        0 <= from,
    ensures
        match first_free(acks, from) {
            Some(id) => from <= id < ACK_IDS && !has_id(acks, id),
            None => forall|x: i32| from <= x < ACK_IDS ==> has_id(acks, x),
        },
    decreases ACK_IDS - from,
{
    if from >= ACK_IDS {
    } else if !has_id(acks, from as i32) {
    } else {
        lemma_first_free(acks, from + 1);
    }
}

/// Whether an ack with this id is in the list.
pub fn contains_id(acks: &Vec<Ack>, id: i32) -> (r: bool)
    ensures
        r == has_id(acks@, id),
{
    let n = acks.len();
    let mut i: usize = 0;
    while i < n
        invariant
            n == acks@.len(),
            i <= n,
            forall|j: int| 0 <= j < i ==> acks@[j].id != id,
        decreases n - i,
    {
        if acks[i].id == id {
            return true;
        }
        i = i + 1;
    }
    false
}

/// The id for a new ack, given the number that was drawn.
pub fn choose_ack_id(acks: &Vec<Ack>, drawn: i32) -> (r: Option<i32>)
    ensures
        r == chosen(acks@, drawn),
        r matches Some(id) ==> 0 <= id < ACK_IDS && !has_id(acks@, id),
        r is None ==> forall|x: i32| 0 <= x < ACK_IDS ==> has_id(acks@, x),
{
    proof {
        lemma_first_free(acks@, 0);
    }
    if 0 <= drawn && drawn < ACK_IDS && !contains_id(acks, drawn) {
        return Some(drawn);
    }
    let mut id: i32 = 0;
    while id < ACK_IDS
        invariant
            0 <= id <= ACK_IDS,
            chosen(acks@, drawn) == first_free(acks@, 0),
            first_free(acks@, 0) == first_free(acks@, id as int),
        decreases ACK_IDS - id,
    {
        if !contains_id(acks, id) {
            return Some(id);
        }
        id = id + 1;
    }
    None
}

/// Walks the list at `now` for an answer to `id`: gives what stays on it,
/// and the ack that the answer resolves.
pub fn reap(acks: &Vec<Ack>, id: Option<i32>, now: u64) -> (r: (Vec<Ack>, Option<Ack>))
    ensures
        r.0@ == kept(acks@, id, now),
        r.1 == match id {
            Some(i) => answered(acks@, i, now),
            None => None,
        },
{
    let n = acks.len();
    let mut out: Vec<Ack> = Vec::new();
    let mut found: Option<Ack> = None;
    let mut i: usize = 0;
    assert(acks@.take(0) =~= Seq::empty());
    while i < n
        invariant
            n == acks@.len(),
            i <= n,
            out@ == kept(acks@.take(i as int), id, now),
            found == match id {
                Some(x) => answered(acks@.take(i as int), x, now),
                None => None,
            },
        decreases n - i,
    {
        let a = acks[i];
        proof {
            let t = acks@.take(i + 1);
            assert(t.drop_last() =~= acks@.take(i as int));
            assert(t.last() == a);
        }
        let live = a.is_live(now);
        let hit = match id {
            Some(x) => a.id == x,
            None => false,
        };
        if hit {
            found = if live {
                Some(a)
            } else {
                None
            };
        }
        if live && !hit {
            out.push(a);
        }
        i = i + 1;
    }
    assert(acks@.take(n as int) =~= acks@);
    (out, found)
}

/// A client of one namespace.
pub struct Client {
    nsp: Vec<u8>,
    on: Vec<Event>,
    outstanding_acks: Vec<Ack>,
    state: State,
    outbox: Vec<EnginePacket>,
}

/// What a client is, as a mathematical value.
pub struct ClientView {
    /// The namespace.
    pub nsp: Seq<u8>,
    /// The events that a callback is registered for.
    pub registered: Seq<EventView>,
    /// The acks that wait for an answer, oldest first.
    pub outstanding: Seq<Ack>,
    pub state: State,
    /// The Engine.IO packets that wait to be sent, oldest first.
    pub outbound: Seq<EnginePacketView>,
}

impl View for Client {
    type V = ClientView;

    closed spec fn view(&self) -> ClientView {
        ClientView {
            nsp: self.nsp@,
            registered: events(self.on@),
            outstanding: self.outstanding_acks@,
            state: self.state,
            outbound: views(self.outbox@),
        }
    }
}

impl ClientView {
    /// The namespace begins with `/`, and no two outstanding acks share an id.
    pub open spec fn wf(self) -> bool {
        &&& self.nsp.len() > 0
        &&& self.nsp[0] == SLASH
        &&& distinct_ids(self.outstanding)
    }

    /// The client after `p` was put into the outbox.
    pub open spec fn sent(self, p: PacketView) -> ClientView {
        ClientView { outbound: self.outbound + p.messages(), ..self }
    }
}

impl Client {
    /// A client for `namespace` with callbacks for the events of `on`, not
    /// yet connected. A namespace that does not begin with `/` is refused
    /// with `IllegalNamespace`.
    pub fn new(namespace: Vec<u8>, on: Vec<Event>) -> (r: Result<Client, Error>)
        ensures
            match r {
                Ok(c) => {
                    &&& namespace@.len() > 0 && namespace@[0] == SLASH
                    &&& c@.wf()
                    &&& c@ == (ClientView {
                        nsp: namespace@,
                        registered: events(on@),
                        outstanding: Seq::empty(),
                        state: State::Closed,
                        outbound: Seq::empty(),
                    })
                },
                Err(e) => {
                    &&& !(namespace@.len() > 0 && namespace@[0] == SLASH)
                    &&& e matches Error::IllegalNamespace(n) && n@ == namespace@
                },
            },
    {
        if namespace.len() == 0 || namespace[0] != SLASH {
            return Err(Error::IllegalNamespace(namespace));
        }
        let c = Client {
            nsp: namespace,
            on,
            outstanding_acks: Vec::new(),
            state: State::Closed,
            outbox: Vec::new(),
        };
        assert(c@.outbound =~= Seq::empty());
        Ok(c)
    }

    /// Changes the namespace. One that does not begin with `/` is refused
    /// with `IllegalNamespace`, and after `connect` any is refused with
    /// `IllegalActionAfterOpen`; nothing changes then.
    pub fn set_namespace(&mut self, namespace: Vec<u8>) -> (r: Result<(), Error>)
        ensures
            old(self)@.wf() ==> final(self)@.wf(),
            match r {
                Ok(_) => {
                    &&& namespace@.len() > 0 && namespace@[0] == SLASH
                    &&& old(self)@.state == State::Closed
                    &&& final(self)@ == (ClientView { nsp: namespace@, ..old(self)@ })
                },
                Err(e) => final(self)@ == old(self)@ && if !(namespace@.len() > 0 && namespace@[0]
                    == SLASH) {
                    e matches Error::IllegalNamespace(n) && n@ == namespace@
                } else {
                    old(self)@.state != State::Closed && e == Error::IllegalActionAfterOpen
                },
            },
    {
        if namespace.len() == 0 || namespace[0] != SLASH {
            return Err(Error::IllegalNamespace(namespace));
        }
        if !(self.state == State::Closed) {
            return Err(Error::IllegalActionAfterOpen);
        }
        self.nsp = namespace;
        Ok(())
    }

    /// The namespace.
    pub fn nsp(&self) -> (n: &Vec<u8>)
        ensures
            n@ == self@.nsp,
    {
        &self.nsp
    }

    /// Where the namespace stands.
    pub fn state(&self) -> (s: State)
        ensures
            s == self@.state,
    {
        self.state
    }

    /// The acks that wait for an answer, oldest first.
    pub fn outstanding_acks(&self) -> (a: &Vec<Ack>)
        ensures
            a@ == self@.outstanding,
    {
        &self.outstanding_acks
    }

    /// Whether a callback is registered for `event`.
    pub fn is_registered(&self, event: &Event) -> (r: bool)
        ensures
            r == self@.registered.contains(event@),
    {
        let n = self.on.len();
        let mut i: usize = 0;
        while i < n
            invariant
                n == self.on@.len(),
                i <= n,
                forall|j: int| 0 <= j < i ==> events(self.on@)[j] != event@,
            decreases n - i,
        {
            if self.on[i].same_as(event) {
                assert(events(self.on@)[i as int] == event@);
                return true;
            }
            i = i + 1;
        }
        false
    }

    /// Registers a callback for `event`. After `connect` this is refused
    /// with `IllegalActionAfterOpen`, and nothing changes.
    pub fn on(&mut self, event: Event) -> (r: Result<(), Error>)
        ensures
            old(self)@.wf() ==> final(self)@.wf(),
            match r {
                Ok(_) => old(self)@.state == State::Closed && final(self)@ == (ClientView {
                    registered: old(self)@.registered.push(event@),
                    ..old(self)@
                }),
                Err(e) => old(self)@.state != State::Closed && e == Error::IllegalActionAfterOpen
                    && final(self)@ == old(self)@,
            },
    {
        if !(self.state == State::Closed) {
            return Err(Error::IllegalActionAfterOpen);
        }
        self.on.push(event);
        assert(events(self.on@) =~= events(old(self).on@).push(event@));
        Ok(())
    }

    /// Puts the messages of `packet` into the outbox, behind what waits
    /// there. A packet that cannot go out is refused with `InvalidPacket`.
    fn send(&mut self, packet: &Packet) -> (r: Result<(), Error>)
        ensures
            match r {
                Ok(_) => sendable(packet@) && final(self)@ == old(self)@.sent(packet@),
                Err(e) => !sendable(packet@) && e == Error::InvalidPacket && final(self)@
                    == old(self)@,
            },
    {
        match packet.encode() {
            Err(e) => Err(e),
            Ok(mut ms) => {
                assert(ms@[0]@ == packet@.messages()[0]);
                if !is_utf8(ms[0].data.as_slice()) {
                    return Err(Error::InvalidPacket);
                }
                let ghost before = views(self.outbox@);
                let ghost added = views(ms@);
                self.outbox.append(&mut ms);
                assert(views(self.outbox@) =~= before + added);
                Ok(())
            },
        }
    }

    /// Takes everything out of the outbox, oldest first.
    pub fn take_outbound(&mut self) -> (ms: Vec<EnginePacket>)
        ensures
            old(self)@.wf() ==> final(self)@.wf(),
            views(ms@) == old(self)@.outbound,
            final(self)@ == (ClientView { outbound: Seq::empty(), ..old(self)@ }),
    {
        let mut ms: Vec<EnginePacket> = Vec::new();
        core::mem::swap(&mut ms, &mut self.outbox);
        assert(views(self.outbox@) =~= Seq::empty());
        ms
    }

    /// Opens the namespace: a CONNECT packet for it goes into the outbox,
    /// and from now on no callback can be registered. A namespace that no
    /// header can carry is refused with `InvalidPacket`, and nothing changes.
    pub fn connect(&mut self) -> (r: Result<(), Error>)
        ensures
            old(self)@.wf() ==> final(self)@.wf(),
            match r {
                Ok(_) => sendable(plain_packet(PacketId::Connect, old(self)@.nsp)) && final(self)@
                    == (ClientView {
                    state: State::Connecting,
                    ..old(self)@.sent(plain_packet(PacketId::Connect, old(self)@.nsp))
                }),
                Err(e) => !sendable(plain_packet(PacketId::Connect, old(self)@.nsp)) && e
                    == Error::InvalidPacket && final(self)@ == old(self)@,
            },
    {
        let nsp = copy_range(self.nsp.as_slice(), 0, self.nsp.len());
        assert(nsp@ =~= self.nsp@);
        let open_packet = Packet::new(PacketId::Connect, nsp, None, None, 0, None);
        match self.send(&open_packet) {
            Err(e) => Err(e),
            Ok(_) => {
                self.state = State::Connecting;
                Ok(())
            },
        }
    }

    /// Leaves the namespace: a DISCONNECT packet for it goes into the
    /// outbox, and the namespace is closed.
    pub fn disconnect(&mut self) -> (r: Result<(), Error>)
        ensures
            old(self)@.wf() ==> final(self)@.wf(),
            match r {
                Ok(_) => sendable(plain_packet(PacketId::Disconnect, old(self)@.nsp))
                    && final(self)@ == (ClientView {
                    state: State::Closed,
                    ..old(self)@.sent(plain_packet(PacketId::Disconnect, old(self)@.nsp))
                }),
                Err(e) => !sendable(plain_packet(PacketId::Disconnect, old(self)@.nsp)) && e
                    == Error::InvalidPacket && final(self)@ == old(self)@,
            },
    {
        let nsp = copy_range(self.nsp.as_slice(), 0, self.nsp.len());
        assert(nsp@ =~= self.nsp@);
        let disconnect_packet = Packet::new(PacketId::Disconnect, nsp, None, None, 0, None);
        match self.send(&disconnect_packet) {
            Err(e) => Err(e),
            Ok(_) => {
                self.state = State::Closed;
                Ok(())
            },
        }
    }

    /// Sends `data` under `event`: the packet goes into the outbox, behind
    /// what waits there. Before `connect` this is refused with
    /// `ActionBeforeOpen`, a packet that cannot go out with `InvalidPacket`;
    /// nothing changes then.
    pub fn emit(&mut self, event: Event, data: Payload) -> (r: Result<(), Error>)
        ensures
            old(self)@.wf() ==> final(self)@.wf(),
            match r {
                Ok(_) => {
                    &&& old(self)@.state != State::Closed
                    &&& sendable(event_packet(data@, event@, old(self)@.nsp, None))
                    &&& final(self)@ == old(self)@.sent(
                        event_packet(data@, event@, old(self)@.nsp, None),
                    )
                },
                Err(e) => {
                    &&& final(self)@ == old(self)@
                    &&& if old(self)@.state == State::Closed {
                        e == Error::ActionBeforeOpen
                    } else {
                        e == Error::InvalidPacket && !sendable(
                            event_packet(data@, event@, old(self)@.nsp, None),
                        )
                    }
                },
            },
    {
        if self.state == State::Closed {
            return Err(Error::ActionBeforeOpen);
        }
        let packet = build_packet_for_payload(data, &event, self.nsp.as_slice(), None);
        self.send(&packet)
    }
}

/// What sending `data` under `event` with an ack does to a client, given the
/// number that was drawn for the id: the client afterwards, and the id that
/// the ack got.
///
/// A closed client refuses with `ActionBeforeOpen` and stays as it was.
/// Otherwise the list of outstanding acks is walked, and those out of time
/// leave it. The id is `chosen` among the ids that remain free; where none
/// is, `AcksExhausted`. A packet that cannot go out is `InvalidPacket`.
/// Otherwise the packet goes into the outbox, and the ack is recorded as the
/// last of the outstanding ones, with `now` as its start.
pub open spec fn ack_emission(
    c: ClientView,
    event: EventView,
    data: PayloadView,
    timeout: u64,
    now: u64,
    drawn: i32,
) -> (ClientView, Result<i32, Error>) {
    if c.state == State::Closed {
        (c, Err(Error::ActionBeforeOpen))
    } else {
        let acks = kept(c.outstanding, None, now);
        let walked = ClientView { outstanding: acks, ..c };
        match chosen(acks, drawn) {
            None => (walked, Err(Error::AcksExhausted)),
            Some(id) => {
                let p = event_packet(data, event, c.nsp, Some(id));
                if sendable(p) {
                    (
                        ClientView {
                            outstanding: acks.push(Ack { id, timeout, time_started: now }),
                            ..walked.sent(p)
                        },
                        Ok(id),
                    )
                } else {
                    (walked, Err(Error::InvalidPacket))
                }
            },
        }
    }
}

/// No two outstanding acks share an id after an event was sent with an ack,
/// and the new ack's deadline is `now + timeout`.
pub proof fn lemma_ack_emission_distinct(
    c: ClientView,
    event: EventView,
    data: PayloadView,
    timeout: u64,
    now: u64,
    drawn: i32,
)
    requires
        c.wf(),
    ensures
        ack_emission(c, event, data, timeout, now, drawn).0.wf(),
        ack_emission(c, event, data, timeout, now, drawn).1 matches Ok(id) ==> {
            let after = ack_emission(c, event, data, timeout, now, drawn).0.outstanding;
            &&& 0 <= id < ACK_IDS
            &&& !has_id(kept(c.outstanding, None, now), id)
            &&& after.last().id == id
            &&& after.last().deadline() == now + timeout
        },
{
    let acks = kept(c.outstanding, None, now);
    lemma_kept(c.outstanding, None, now);
    lemma_first_free(acks, 0);
    if c.state != State::Closed && chosen(acks, drawn) is Some {
        let id = chosen(acks, drawn)->0;
        let more = acks.push(Ack { id, timeout, time_started: now });
        assert forall|i: int, j: int| 0 <= i < j < more.len() implies more[i].id != more[j].id by {
            if j == acks.len() {
                assert(more[i] == acks[i]);
            } else {
                assert(more[i] == acks[i] && more[j] == acks[j]);
            }
        }
    }
}

impl Client {
    /// Whether the client is well formed.
    pub open spec fn wf(&self) -> bool {
        self@.wf()
    }

    /// Sends `data` under `event` and records an ack for the answer, with
    /// `drawn` as the number that was drawn for its id. The client
    /// afterwards and the id are those of `ack_emission`.
    pub fn emit_with_ack_drawn(
        &mut self,
        event: Event,
        data: Payload,
        timeout: u64,
        now: u64,
        drawn: i32,
    ) -> (r: Result<i32, Error>)
        ensures
            old(self)@.wf() ==> final(self)@.wf(),
            (final(self)@, r) == ack_emission(old(self)@, event@, data@, timeout, now, drawn),
    {
        proof {
            if old(self)@.wf() {
                lemma_ack_emission_distinct(old(self)@, event@, data@, timeout, now, drawn);
            }
        }
        if self.state == State::Closed {
            return Err(Error::ActionBeforeOpen);
        }
        let (acks, _) = reap(&self.outstanding_acks, None, now);
        self.outstanding_acks = acks;
        let id = match choose_ack_id(&self.outstanding_acks, drawn) {
            None => {
                return Err(Error::AcksExhausted);
            },
            Some(id) => id,
        };
        let packet = build_packet_for_payload(data, &event, self.nsp.as_slice(), Some(id));
        match self.send(&packet) {
            Err(e) => Err(e),
            Ok(_) => {
                self.outstanding_acks.push(Ack { id, timeout, time_started: now });
                Ok(id)
            },
        }
    }

    /// Sends `data` under `event` and records an ack for the answer, which
    /// may take `timeout` milliseconds from `now`. The id of the ack is
    /// drawn at random from `0..ACK_IDS`, again as long as it collides with
    /// an outstanding ack, at most `DRAWS` times. Whatever was drawn, the
    /// client afterwards and the id are those of `ack_emission` for a number
    /// in that range.
    pub fn emit_with_ack(&mut self, event: Event, data: Payload, timeout: u64, now: u64) -> (r:
        Result<i32, Error>)
        ensures
            old(self)@.wf() ==> final(self)@.wf(),
            exists|drawn: i32|
                0 <= drawn < ACK_IDS && (final(self)@, r) == #[trigger] ack_emission(
                    old(self)@,
                    event@,
                    data@,
                    timeout,
                    now,
                    drawn,
                ),
    {
        let mut drawn = random_below(ACK_IDS);
        let mut tries: usize = 1;
        while tries < DRAWS && contains_id(&self.outstanding_acks, drawn)
            invariant
                0 <= drawn < ACK_IDS,
                tries <= DRAWS,
                *self == *old(self),
            decreases DRAWS - tries,
        {
            drawn = random_below(ACK_IDS);
            tries = tries + 1;
        }
        self.emit_with_ack_drawn(event, data, timeout, now, drawn)
    }
}

pub const QUOTE: u8 = 34;

pub const BRACKET_OPEN: u8 = 91;

pub const BRACKET_CLOSE: u8 = 93;

/// `s` without the square brackets around it, if it stands in brackets.
pub open spec fn unbracketed(s: Seq<u8>) -> Seq<u8> {
    if s.len() >= 2 && s[0] == BRACKET_OPEN && s.last() == BRACKET_CLOSE {
        s.subrange(1, s.len() - 1)
    } else {
        s
    }
}

/// `s` without its double quotes.
pub open spec fn unquoted(s: Seq<u8>) -> Seq<u8>
    decreases s.len(),
{
    if s.len() == 0 {
        Seq::empty()
    } else if s.last() == QUOTE {
        unquoted(s.drop_last())
    } else {
        unquoted(s.drop_last()).push(s.last())
    }
}

/// The event that the body of a binary event names: the body without
/// brackets and quotes, and `Message` where there is no body.
pub open spec fn binary_event_name(data: Option<Seq<u8>>) -> EventView {
    match data {
        Some(d) => named(unquoted(unbracketed(d))),
        None => EventView::Message,
    }
}

/// One call of the callback of `event`.
pub open spec fn event_call(event: EventView, payload: PayloadView) -> InvocationView {
    InvocationView { target: TargetView::Event(event), payload }
}

/// One call of the callback of the ack `id`.
pub open spec fn ack_call(id: i32, payload: PayloadView) -> InvocationView {
    InvocationView { target: TargetView::Ack(id), payload }
}

/// The call of the callback of `event`, if one is registered.
pub open spec fn call_if(registered: Seq<EventView>, event: EventView, payload: PayloadView) -> Seq<
    InvocationView,
> {
    if registered.contains(event) {
        seq![event_call(event, payload)]
    } else {
        Seq::empty()
    }
}

/// The first attachment of a packet, if it has one.
pub open spec fn first_attachment(p: PacketView) -> Option<Seq<u8>> {
    match p.attachments {
        Some(a) => if a.len() > 0 {
            Some(a[0])
        } else {
            None
        },
        None => None,
    }
}

/// The calls for a BINARY_EVENT: its first attachment goes to the callback
/// of the event that its body names.
pub open spec fn binary_event_calls(registered: Seq<EventView>, p: PacketView) -> Seq<
    InvocationView,
> {
    match first_attachment(p) {
        Some(b) => call_if(registered, binary_event_name(p.data), PayloadView::Binary(b)),
        None => Seq::empty(),
    }
}

/// The calls for an EVENT whose body is the JSON array `items`. With more
/// than one element, the first names the event (`Message` where it is no
/// string) and the second is the payload; a single element is the payload
/// of `Message`. The callback of the event is called, or that of `Message`
/// where the event has none. A body that is no array, and an empty array,
/// give no call.
pub open spec fn event_calls(
    registered: Seq<EventView>,
    items: Option<Seq<(Option<Seq<u8>>, Seq<u8>)>>,
) -> Seq<InvocationView> {
    match items {
        None => Seq::empty(),
        Some(it) => if it.len() == 0 {
            Seq::empty()
        } else {
            let event = if it.len() > 1 {
                match it[0].0 {
                    Some(t) => named(t),
                    None => EventView::Message,
                }
            } else {
                EventView::Message
            };
            let payload = PayloadView::String(
                if it.len() > 1 {
                    it[1].1
                } else {
                    it[0].1
                },
            );
            if registered.contains(event) {
                seq![event_call(event, payload)]
            } else {
                call_if(registered, EventView::Message, payload)
            }
        },
    }
}

/// The calls for an ACK or BINARY_ACK at `now`: where its id resolves an
/// outstanding ack in time, the callback of that ack is called with the body
/// as text, without its brackets, and then with the first attachment as
/// bytes, each as far as it is there.
pub open spec fn ack_calls(p: PacketView, acks: Seq<Ack>, now: u64) -> Seq<InvocationView> {
    match p.id {
        None => Seq::empty(),
        Some(id) => if answered(acks, id, now) is None {
            Seq::empty()
        } else {
            (match p.data {
                Some(d) => seq![ack_call(id, PayloadView::String(unbracketed(d)))],
                None => Seq::empty(),
            }) + (match first_attachment(p) {
                Some(b) => seq![ack_call(id, PayloadView::Binary(b))],
                None => Seq::empty(),
            })
        },
    }
}

/// What is handed to the `Error` callback for a CONNECT_ERROR: a fixed
/// sentence, followed by the body, or by `No error message provided` where
/// the packet has none.
pub open spec fn connect_error_text(data: Option<Seq<u8>>) -> Seq<u8> {
    "Received a ConnectError frame: ".spec_bytes() + (match data {
        Some(d) => d,
        None => "No error message provided".spec_bytes(),
    })
}

/// What an inbound packet does to a client at `now`, where `items` is the
/// JSON array of its body: the client afterwards, and the calls to make, in
/// order. A packet of another namespace does nothing.
pub open spec fn dispatch(
    c: ClientView,
    p: PacketView,
    items: Option<Seq<(Option<Seq<u8>>, Seq<u8>)>>,
    now: u64,
) -> (ClientView, Seq<InvocationView>) {
    if p.nsp != c.nsp {
        (c, Seq::empty())
    } else {
        match p.packet_type {
            PacketId::Ack | PacketId::BinaryAck => (
                ClientView {
                    outstanding: match p.id {
                        Some(id) => kept(c.outstanding, Some(id), now),
                        None => c.outstanding,
                    },
                    ..c
                },
                ack_calls(p, c.outstanding, now),
            ),
            PacketId::BinaryEvent => (c, binary_event_calls(c.registered, p)),
            PacketId::Connect => (
                ClientView {
                    state: if c.state == State::Connecting {
                        State::Open
                    } else {
                        c.state
                    },
                    ..c
                },
                call_if(c.registered, EventView::Connect, PayloadView::String(Seq::empty())),
            ),
            PacketId::Disconnect => (
                ClientView { state: State::Closed, ..c },
                call_if(c.registered, EventView::Close, PayloadView::String(Seq::empty())),
            ),
            PacketId::ConnectError => (
                c,
                call_if(
                    c.registered,
                    EventView::Error,
                    PayloadView::String(connect_error_text(p.data)),
                ),
            ),
            PacketId::Event => (c, event_calls(c.registered, items)),
        }
    }
}

/// The JSON array of the body of a packet, as `serde_json` reads it.
pub open spec fn body_items(p: PacketView) -> Option<Seq<(Option<Seq<u8>>, Seq<u8>)>> {
    match p.data {
        Some(d) => json_array(d),
        None => None,
    }
}

/// `s` without the square brackets around it.
pub fn strip_brackets(s: &[u8]) -> (r: Vec<u8>)
    ensures
        r@ == unbracketed(s@),
{
    let n = s.len();
    if n >= 2 && s[0] == BRACKET_OPEN && s[n - 1] == BRACKET_CLOSE {
        copy_range(s, 1, n - 1)
    } else {
        let r = copy_range(s, 0, n);
        assert(r@ =~= s@);
        r
    }
}

/// `s` without its double quotes.
pub fn strip_quotes(s: &[u8]) -> (r: Vec<u8>)
    ensures
        r@ == unquoted(s@),
{
    let n = s.len();
    let mut r: Vec<u8> = Vec::new();
    let mut i: usize = 0;
    assert(s@.take(0) =~= Seq::empty());
    while i < n
        invariant
            n == s@.len(),
            i <= n,
            r@ == unquoted(s@.take(i as int)),
        decreases n - i,
    {
        proof {
            let t = s@.take(i + 1);
            assert(t.drop_last() =~= s@.take(i as int));
            assert(t.last() == s@[i as int]);
        }
        if s[i] != QUOTE {
            r.push(s[i]);
        }
        i = i + 1;
    }
    assert(s@.take(n as int) =~= s@);
    r
}

/// A copy of a byte string.
fn copy_of(v: &Vec<u8>) -> (r: Vec<u8>)
    ensures
        r@ == v@,
{
    let r = copy_range(v.as_slice(), 0, v.len());
    assert(r@ =~= v@);
    r
}

/// A copy of the first attachment of a packet, if it has one.
fn first_attachment_of(packet: &Packet) -> (r: Option<Vec<u8>>)
    ensures
        match r {
            Some(b) => first_attachment(packet@) == Some(b@),
            None => first_attachment(packet@) is None,
        },
{
    match &packet.attachments {
        Some(a) => {
            assert(blobs(a@).len() == a@.len());
            if a.len() > 0 {
                Some(copy_of(&a[0]))
            } else {
                None
            }
        },
        None => None,
    }
}

impl Client {
    /// The call of the callback of `event` with `payload`, if one is
    /// registered.
    pub fn callback(&self, event: Event, payload: Payload) -> (r: Vec<Invocation>)
        ensures
            calls(r@) == call_if(self@.registered, event@, payload@),
    {
        let mut r: Vec<Invocation> = Vec::new();
        if self.is_registered(&event) {
            r.push(Invocation { target: Target::Event(event), payload });
            assert(calls(r@) =~= seq![event_call(event@, payload@)]);
        } else {
            assert(calls(r@) =~= Seq::empty());
        }
        r
    }

    /// Takes an ACK or BINARY_ACK at `now`. The list of outstanding acks is
    /// walked for its id: the ack with that id and those out of time leave
    /// it. The calls are those of `ack_calls`. A packet without an id does
    /// nothing.
    pub fn handle_ack(&mut self, socket_packet: &Packet, now: u64) -> (r: Vec<Invocation>)
        ensures
            old(self)@.wf() ==> final(self)@.wf(),
            calls(r@) == ack_calls(socket_packet@, old(self)@.outstanding, now),
            final(self)@ == (ClientView {
                outstanding: match socket_packet@.id {
                    Some(id) => kept(old(self)@.outstanding, Some(id), now),
                    None => old(self)@.outstanding,
                },
                ..old(self)@
            }),
    {
        let mut r: Vec<Invocation> = Vec::new();
        assert(calls(r@) =~= Seq::empty());
        proof {
            if socket_packet@.id is Some {
                lemma_kept(old(self)@.outstanding, socket_packet@.id, now);
            }
        }
        let id = match socket_packet.id {
            Some(id) => id,
            None => {
                return r;
            },
        };
        let (acks, found) = reap(&self.outstanding_acks, Some(id), now);
        self.outstanding_acks = acks;
        if found.is_none() {
            return r;
        }
        let ghost text_part: Seq<InvocationView> = match socket_packet@.data {
            Some(d) => seq![ack_call(id, PayloadView::String(unbracketed(d)))],
            None => Seq::empty(),
        };
        match &socket_packet.data {
            Some(d) => {
                let text = strip_brackets(d.as_slice());
                r.push(Invocation { target: Target::Ack(id), payload: Payload::String(text) });
            },
            None => {},
        }
        assert(calls(r@) =~= text_part);
        match first_attachment_of(socket_packet) {
            Some(b) => {
                r.push(Invocation { target: Target::Ack(id), payload: Payload::Binary(b) });
                assert(calls(r@) =~= text_part + seq![ack_call(id, PayloadView::Binary(b@))]);
            },
            None => {
                assert(calls(r@) =~= text_part + Seq::<InvocationView>::empty());
            },
        }
        r
    }

    /// The calls for a BINARY_EVENT.
    pub fn handle_binary_event(&self, packet: &Packet) -> (r: Vec<Invocation>)
        ensures
            calls(r@) == binary_event_calls(self@.registered, packet@),
    {
        let event = match &packet.data {
            Some(d) => {
                let inner = strip_brackets(d.as_slice());
                let name = strip_quotes(inner.as_slice());
                Event::from_name(name.as_slice())
            },
            None => Event::Message,
        };
        match first_attachment_of(packet) {
            Some(b) => self.callback(event, Payload::Binary(b)),
            None => {
                let r: Vec<Invocation> = Vec::new();
                assert(calls(r@) =~= Seq::empty());
                r
            },
        }
    }

    /// The calls for an EVENT whose body was read as the JSON array `items`.
    pub fn event_invocations(&self, items: &Option<Vec<JsonItem>>) -> (r: Vec<Invocation>)
        ensures
            calls(r@) == event_calls(self@.registered, items_view(*items)),
    {
        let mut r: Vec<Invocation> = Vec::new();
        assert(calls(r@) =~= Seq::empty());
        let it = match items {
            None => {
                return r;
            },
            Some(it) => it,
        };
        if it.len() == 0 {
            return r;
        }
        let event = if it.len() > 1 {
            match &it[0].text {
                Some(t) => Event::from_name(t.as_slice()),
                None => Event::Message,
            }
        } else {
            Event::Message
        };
        let payload = Payload::String(
            if it.len() > 1 {
                copy_of(&it[1].json)
            } else {
                copy_of(&it[0].json)
            },
        );
        if self.is_registered(&event) {
            r.push(Invocation { target: Target::Event(event), payload });
            assert(calls(r@) =~= seq![event_call(event@, payload@)]);
            r
        } else {
            self.callback(Event::Message, payload)
        }
    }

    /// The calls for an EVENT: its body is read as JSON, and the calls are
    /// those of `event_invocations` for the array that it holds.
    pub fn handle_event(&self, packet: &Packet) -> (r: Vec<Invocation>)
        ensures
            calls(r@) == event_calls(self@.registered, body_items(packet@)),
    {
        let items = match &packet.data {
            Some(d) => parse_json_array(d.as_slice()),
            None => None,
        };
        self.event_invocations(&items)
    }

    /// Takes an inbound packet at `now`, where `items` is the JSON array of
    /// its body. The client afterwards and the calls are those of
    /// `dispatch`: a packet of another namespace changes nothing and calls
    /// nobody.
    pub fn dispatch_packet(
        &mut self,
        packet: &Packet,
        items: &Option<Vec<JsonItem>>,
        now: u64,
    ) -> (r: Vec<Invocation>)
        ensures
            old(self)@.wf() ==> final(self)@.wf(),
            (final(self)@, calls(r@)) == dispatch(old(self)@, packet@, items_view(*items), now),
    {
        if !crate::text::same(packet.nsp.as_slice(), self.nsp.as_slice()) {
            let r: Vec<Invocation> = Vec::new();
            assert(calls(r@) =~= Seq::empty());
            return r;
        }
        match packet.packet_type {
            PacketId::Ack | PacketId::BinaryAck => self.handle_ack(packet, now),
            PacketId::BinaryEvent => self.handle_binary_event(packet),
            PacketId::Connect => {
                if self.state == State::Connecting {
                    self.state = State::Open;
                }
                self.callback(Event::Connect, Payload::String(Vec::new()))
            },
            PacketId::Disconnect => {
                self.state = State::Closed;
                self.callback(Event::Close, Payload::String(Vec::new()))
            },
            PacketId::ConnectError => {
                let mut text = "Received a ConnectError frame: ".as_bytes_vec();
                match &packet.data {
                    Some(d) => {
                        append(&mut text, d.as_slice());
                    },
                    None => {
                        let none = "No error message provided".as_bytes_vec();
                        append(&mut text, none.as_slice());
                    },
                }
                self.callback(Event::Error, Payload::String(text))
            },
            PacketId::Event => self.event_invocations(items),
        }
    }

    /// Takes an inbound packet at `now`. The client afterwards and the calls
    /// are those of `dispatch`, with the body of an EVENT read as JSON.
    pub fn handle_socketio_packet(&mut self, packet: &Packet, now: u64) -> (r: Vec<Invocation>)
        ensures
            old(self)@.wf() ==> final(self)@.wf(),
            (final(self)@, calls(r@)) == dispatch(old(self)@, packet@, body_items(packet@), now),
    {
        let items = match packet.packet_type {
            PacketId::Event => match &packet.data {
                Some(d) => parse_json_array(d.as_slice()),
                None => None,
            },
            _ => None,
        };
        self.dispatch_packet(packet, &items, now)
    }
}

/// What the stream of a client hands on for one inbound item.
#[derive(Debug)]
pub struct Polled {
    /// The calls to make, in order.
    pub calls: Vec<Invocation>,
    /// The item to yield; `None` where the packet was of another namespace
    /// and the next item is to be polled.
    pub item: Option<Result<Packet, Error>>,
}

/// What one item of the inbound stream does to a client at `now`: the client
/// afterwards, the calls to make, and the item to yield. An error goes to
/// the `Error` callback, as text, and is yielded. A packet of the client's
/// namespace is dispatched and yielded. A packet of another namespace is
/// passed over: nothing changes, nobody is called, nothing is yielded.
pub open spec fn polled(
    c: ClientView,
    next: Result<PacketView, Error>,
    items: Option<Seq<(Option<Seq<u8>>, Seq<u8>)>>,
    now: u64,
) -> (ClientView, Seq<InvocationView>, Option<Result<PacketView, Error>>) {
    match next {
        Err(e) => (
            c,
            call_if(c.registered, EventView::Error, PayloadView::String(e.text())),
            Some(Err(e)),
        ),
        Ok(p) => if p.nsp == c.nsp {
            (dispatch(c, p, items, now).0, dispatch(c, p, items, now).1, Some(Ok(p)))
        } else {
            (c, Seq::empty(), None)
        },
    }
}

/// An inbound item, as a mathematical value.
pub open spec fn item_view(item: Result<Packet, Error>) -> Result<PacketView, Error> {
    match item {
        Ok(p) => Ok(p@),
        Err(e) => Err(e),
    }
}

/// A yielded item, as a mathematical value.
pub open spec fn yielded(item: Option<Result<Packet, Error>>) -> Option<Result<PacketView, Error>> {
    match item {
        Some(i) => Some(item_view(i)),
        None => None,
    }
}

/// The JSON array of the body of an inbound item.
pub open spec fn next_items(next: Result<PacketView, Error>) -> Option<
    Seq<(Option<Seq<u8>>, Seq<u8>)>,
> {
    match next {
        Ok(p) => body_items(p),
        Err(_) => None,
    }
}

impl Client {
    /// Takes the next item of the inbound stream at `now`. The client
    /// afterwards, the calls and the item to yield are those of `polled`.
    pub fn poll_next(&mut self, next: Result<Packet, Error>, now: u64) -> (r: Polled)
        ensures
            old(self)@.wf() ==> final(self)@.wf(),
            (final(self)@, calls(r.calls@), yielded(r.item)) == polled(
                old(self)@,
                item_view(next),
                next_items(item_view(next)),
                now,
            ),
    {
        match next {
            Err(err) => {
                let list = self.callback(Event::Error, Payload::String(err.message()));
                Polled { calls: list, item: Some(Err(err)) }
            },
            Ok(packet) => {
                if crate::text::same(packet.nsp.as_slice(), self.nsp.as_slice()) {
                    let list = self.handle_socketio_packet(&packet, now);
                    Polled { calls: list, item: Some(Ok(packet)) }
                } else {
                    let list: Vec<Invocation> = Vec::new();
                    assert(calls(list@) =~= Seq::empty());
                    Polled { calls: list, item: None }
                }
            },
        }
    }
}

/// A packet whose namespace differs from the client's is delivered to no
/// callback and changes nothing, whatever its kind.
pub proof fn lemma_foreign_namespace(
    c: ClientView,
    p: PacketView,
    items: Option<Seq<(Option<Seq<u8>>, Seq<u8>)>>,
    now: u64,
)
    requires
        p.nsp != c.nsp,
    ensures
        dispatch(c, p, items, now) == (c, Seq::<InvocationView>::empty()),
        polled(c, Ok(p), items, now) == (
            c,
            Seq::<InvocationView>::empty(),
            None::<Result<PacketView, Error>>,
        ),
{
}

/// An ack is resolved only before its deadline: where an inbound ack leads
/// to a call, an outstanding ack had its id, and `now` minus its start is
/// less than its timeout.
pub proof fn lemma_resolved_in_time(p: PacketView, acks: Seq<Ack>, now: u64)
    requires
        ack_calls(p, acks, now).len() > 0,
    ensures
        p.id is Some,
        exists|a: Ack| #[trigger]
            acks.contains(a) && a.id == p.id->0 && now - a.time_started < a.timeout,
{
    lemma_answered(acks, p.id->0, now);
    let a = answered(acks, p.id->0, now)->0;
    assert(acks.contains(a) && a.id == p.id->0 && now - a.time_started < a.timeout);
}

/// An ack that is out of time calls nobody, and is gone from the list
/// afterwards together with every other ack out of time.
pub proof fn lemma_late_ack(c: ClientView, p: PacketView, now: u64)
    requires
        c.wf(),
        p.nsp == c.nsp,
        p.packet_type == PacketId::Ack || p.packet_type == PacketId::BinaryAck,
        p.id is Some,
        forall|i: int|
            0 <= i < c.outstanding.len() && (#[trigger] c.outstanding[i]).id == p.id->0
                ==> !c.outstanding[i].live(now),
    ensures
        dispatch(c, p, None, now).1 == Seq::<InvocationView>::empty(),
        !has_id(dispatch(c, p, None, now).0.outstanding, p.id->0),
        forall|i: int|
            0 <= i < dispatch(c, p, None, now).0.outstanding.len() ==> (#[trigger] dispatch(
                c,
                p,
                None,
                now,
            ).0.outstanding[i]).live(now),
{
    let id = p.id->0;
    lemma_answered(c.outstanding, id, now);
    lemma_kept(c.outstanding, Some(id), now);
    if answered(c.outstanding, id, now) is Some {
        let a = answered(c.outstanding, id, now)->0;
        let j = choose|j: int| 0 <= j < c.outstanding.len() && c.outstanding[j] == a;
        assert(!c.outstanding[j].live(now));
    }
}

/// The calls for an ack that is resolved: with only an attachment, one call
/// with the bytes; with a body and an attachment, two calls, the text first.
pub proof fn lemma_ack_payloads(p: PacketView, acks: Seq<Ack>, now: u64)
    requires
        p.id matches Some(id) && answered(acks, id, now) is Some,
    ensures
        p.data is None && first_attachment(p) is Some ==> ack_calls(p, acks, now) == seq![
            ack_call(p.id->0, PayloadView::Binary(first_attachment(p)->0)),
        ],
        p.data is Some && first_attachment(p) is Some ==> ack_calls(p, acks, now) == seq![
            ack_call(p.id->0, PayloadView::String(unbracketed(p.data->0))),
            ack_call(p.id->0, PayloadView::Binary(first_attachment(p)->0)),
        ],
        p.data is Some && first_attachment(p) is None ==> ack_calls(p, acks, now) == seq![
            ack_call(p.id->0, PayloadView::String(unbracketed(p.data->0))),
        ],
{
    let id = p.id->0;
    if p.data is None && first_attachment(p) is Some {
        assert(ack_calls(p, acks, now) =~= seq![
            ack_call(id, PayloadView::Binary(first_attachment(p)->0)),
        ]);
    }
    if p.data is Some && first_attachment(p) is Some {
        assert(ack_calls(p, acks, now) =~= seq![
            ack_call(id, PayloadView::String(unbracketed(p.data->0))),
            ack_call(id, PayloadView::Binary(first_attachment(p)->0)),
        ]);
    }
    if p.data is Some && first_attachment(p) is None {
        assert(ack_calls(p, acks, now) =~= seq![
            ack_call(id, PayloadView::String(unbracketed(p.data->0))),
        ]);
    }
}

/// Whatever packet comes in, a well-formed client stays well formed: no two
/// outstanding acks share an id.
pub proof fn lemma_dispatch_wf(
    c: ClientView,
    p: PacketView,
    items: Option<Seq<(Option<Seq<u8>>, Seq<u8>)>>,
    now: u64,
)
    requires
        c.wf(),
    ensures
        dispatch(c, p, items, now).0.wf(),
        dispatch(c, p, items, now).0.nsp == c.nsp,
        dispatch(c, p, items, now).0.outbound == c.outbound,
{
    if p.id is Some {
        lemma_kept(c.outstanding, Some(p.id->0), now);
    }
}

/// The Engine.IO messages of some packets, one packet after the other.
pub open spec fn all_messages(ps: Seq<PacketView>) -> Seq<EnginePacketView>
    decreases ps.len(),
{
    if ps.len() == 0 {
        Seq::empty()
    } else {
        all_messages(ps.drop_last()) + ps.last().messages()
    }
}

/// The client after the packets of `ps` were put into the outbox in turn.
pub open spec fn sent_all(c: ClientView, ps: Seq<PacketView>) -> ClientView
    decreases ps.len(),
{
    if ps.len() == 0 {
        c
    } else {
        sent_all(c, ps.drop_last()).sent(ps.last())
    }
}

/// Packets leave in the order in which they were issued: after the packets
/// of `ps` were put into the outbox in turn, the outbox holds what it held,
/// then the messages of the first packet, then those of the second, and so
/// on, and nothing else of the client has changed.
pub proof fn lemma_outbox_fifo(c: ClientView, ps: Seq<PacketView>)
    ensures
        sent_all(c, ps) == (ClientView { outbound: c.outbound + all_messages(ps), ..c }),
    decreases ps.len(),
{
    if ps.len() == 0 {
        assert(c.outbound + all_messages(ps) =~= c.outbound);
    } else {
        lemma_outbox_fifo(c, ps.drop_last());
        assert(c.outbound + all_messages(ps.drop_last()) + ps.last().messages() =~= c.outbound
            + all_messages(ps));
    }
}

/// The body of an event is UTF-8 where the name of the event and the text
/// are, and it begins with a bracket or a quote.
pub proof fn lemma_event_body(name: Seq<u8>, data: Seq<u8>)
    requires
        valid_utf8(name),
    ensures
        valid_utf8(data) ==> valid_utf8(text_body(name, data)),
        valid_utf8(binary_body(name)),
        text_body(name, data).len() > 0 && text_body(name, data)[0] == BRACKET_OPEN,
        binary_body(name).len() > 0 && binary_body(name)[0] == QUOTE,
{
    crate::text::lemma_ascii_is_utf8(seq![91u8, 34u8]);
    crate::text::lemma_ascii_is_utf8(seq![34u8, 44u8]);
    crate::text::lemma_ascii_is_utf8(seq![93u8]);
    crate::text::lemma_ascii_is_utf8(seq![34u8]);
    vstd::utf8::valid_utf8_concat(seq![91u8, 34u8], name);
    vstd::utf8::valid_utf8_concat(seq![91u8, 34u8] + name, seq![34u8, 44u8]);
    if valid_utf8(data) {
        vstd::utf8::valid_utf8_concat(seq![91u8, 34u8] + name + seq![34u8, 44u8], data);
        vstd::utf8::valid_utf8_concat(
            seq![91u8, 34u8] + name + seq![34u8, 44u8] + data,
            seq![93u8],
        );
    }
    vstd::utf8::valid_utf8_concat(seq![34u8], name);
    vstd::utf8::valid_utf8_concat(seq![34u8] + name, seq![34u8]);
    assert(text_body(name, data)[0] == 91u8);
    assert(binary_body(name)[0] == 34u8);
}

/// When sending is owed: in a namespace that is UTF-8 and holds no comma,
/// every payload can go out under every event whose name is UTF-8, with or
/// without an id, where a text payload is UTF-8 too; and so can the packets
/// that open and leave the namespace.
pub proof fn lemma_sendable(c: ClientView, event: EventView, data: PayloadView, id: Option<i32>)
    requires
        c.wf(),
        !crate::text::occurs(c.nsp, COMMA),
        valid_utf8(c.nsp),
        valid_utf8(event.name()),
        data matches PayloadView::String(s) ==> valid_utf8(s),
        id matches Some(i) ==> i >= 0,
    ensures
        sendable(event_packet(data, event, c.nsp, id)),
        sendable(plain_packet(PacketId::Connect, c.nsp)),
        sendable(plain_packet(PacketId::Disconnect, c.nsp)),
{
    let p = event_packet(data, event, c.nsp, id);
    match data {
        PayloadView::String(s) => {
            lemma_event_body(event.name(), s);
        },
        PayloadView::Binary(b) => {
            lemma_event_body(event.name(), Seq::empty());
        },
    }
    crate::socketio::packet::lemma_header_is_utf8(p);
    crate::socketio::packet::lemma_header_is_utf8(plain_packet(PacketId::Connect, c.nsp));
    crate::socketio::packet::lemma_header_is_utf8(plain_packet(PacketId::Disconnect, c.nsp));
}

} // verus!
