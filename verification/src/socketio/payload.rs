//! What a callback receives.

use vstd::prelude::*;

verus! {

/// A payload: JSON text, or raw bytes.
#[derive(Debug, Clone)]
pub enum Payload {
    String(Vec<u8>),
    Binary(Vec<u8>),
}

/// What a payload is, as a mathematical value.
pub enum PayloadView {
    String(Seq<u8>),
    Binary(Seq<u8>),
}

impl View for Payload {
    type V = PayloadView;

    open spec fn view(&self) -> PayloadView {
        match self {
            Payload::String(s) => PayloadView::String(s@),
            Payload::Binary(b) => PayloadView::Binary(b@),
        }
    }
}

} // verus!
