//! What leaves a room: frames for sockets, and the effects that handling a message has.
use vstd::prelude::*;

use crate::entity::{EntityView, JBEntity};

verus! {

/// A frame for a socket.
#[derive(Debug)]
pub enum Outgoing {
    Ecast(crate::ecast::ws::JBMessage),
    Blobcast(crate::blobcast::ws::JBMessage),
    Text(String),
    Pong(Vec<u8>),
    Close { code: u16, reason: String },
}

/// What a frame says.
#[verifier::ext_equal]
pub enum OutgoingView {
    Ecast(crate::ecast::ws::MessageView),
    Blobcast(crate::blobcast::ws::MessageView),
    Text(Seq<char>),
    Pong(Seq<u8>),
    Close { code: u16, reason: Seq<char> },
}

impl View for Outgoing {
    type V = OutgoingView;

    open spec fn view(&self) -> OutgoingView {
        match self {
            Outgoing::Ecast(m) => OutgoingView::Ecast(m@),
            Outgoing::Blobcast(m) => OutgoingView::Blobcast(m@),
            Outgoing::Text(t) => OutgoingView::Text(t@),
            Outgoing::Pong(d) => OutgoingView::Pong(d@),
            Outgoing::Close { code, reason } => OutgoingView::Close { code: *code, reason: reason@ },
        }
    }
}

/// One thing that handling a message does: it sends to a client, changes the entities, closes a
/// client's socket, or ends the room. Effects are carried out in their order; one that fails to be
/// sent is the last.
#[derive(Debug)]
pub enum Effect {
    Send { to: i64, message: crate::ecast::ws::JBMessage },
    SendBlobcast { to: i64, notice: crate::blobcast::ws::JBMessage },
    Put { key: String, entity: JBEntity },
    Forget { key: String },
    Close { to: i64 },
    Exit,
}

/// What an effect says.
#[verifier::ext_equal]
pub enum EffectView {
    Send { to: i64, message: crate::ecast::ws::MessageView },
    SendBlobcast { to: i64, notice: crate::blobcast::ws::MessageView },
    Put { key: Seq<char>, entity: EntityView },
    Forget { key: Seq<char> },
    Close { to: i64 },
    Exit,
}

impl View for Effect {
    type V = EffectView;

    open spec fn view(&self) -> EffectView {
        match self {
            Effect::Send { to, message } => EffectView::Send { to: *to, message: message@ },
            Effect::SendBlobcast { to, notice } => EffectView::SendBlobcast {
                to: *to,
                notice: notice@,
            },
            Effect::Put { key, entity } => EffectView::Put { key: key@, entity: entity@ },
            Effect::Forget { key } => EffectView::Forget { key: key@ },
            Effect::Close { to } => EffectView::Close { to: *to },
            Effect::Exit => EffectView::Exit,
        }
    }
}

/// What a row of effects says.
pub open spec fn effect_views(v: Seq<Effect>) -> Seq<EffectView> {
    Seq::new(v.len(), |i: int| v[i]@)
}

/// A request that is turned away: the status and the text of the answer.
#[derive(Debug)]
pub struct Refusal {
    pub status: u16,
    pub text: String,
}

impl Refusal {
    /// The refusal has the given status and text.
    pub open spec fn says(self, status: u16, text: Seq<char>) -> bool {
        self.status == status && self.text@ == text
    }

    /// A refusal with the given status and text.
    pub fn new(status: u16, text: &str) -> (r: Refusal)
        ensures
            r.says(status, text@),
    {
        Refusal { status, text: text.to_owned() }
    }
}

/// Something that happens at the socket of a client.
#[derive(Debug)]
pub enum SocketEvent {
    Text,
    Close,
    Ping(Vec<u8>),
    Other,
    ReadError,
    Ended,
    Tick,
    RoomEnded,
}

/// What is done about it.
#[derive(Debug)]
pub enum SocketStep {
    Handle,
    Pong(Vec<u8>),
    Say(String),
    Wait,
    Leave { drop_room: bool },
}

} // verus!
