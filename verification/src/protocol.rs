//! The data model of the wire protocol: envelopes, bodies, tagged payloads
//! and the fixed error-code taxonomy, together with their mathematical
//! models (views) used by every contract in this crate.

use vstd::prelude::*;

verus! {

/// The fixed error taxonomy of the protocol. The numeric value of each
/// code (see [`code_value_spec`]) is part of the wire contract and is
/// never renumbered.
#[derive(Clone, Copy, Debug, PartialEq, Eq, Structural)]
pub enum ErrorCode {
    Timeout,
    NodeNotFound,
    NotSupported,
    TemporarilyUnavailable,
    MalformedRequest,
    Crash,
    Abort,
    KeyDoesNotExist,
    KeyAlreadyExists,
    PreconditionFailed,
    TxnConflict,
}

/// The stable numeric value each error code has on the wire.
pub open spec fn code_value_spec(c: ErrorCode) -> u32 {
    match c {
        ErrorCode::Timeout => 0,
        ErrorCode::NodeNotFound => 1,
        ErrorCode::NotSupported => 10,
        ErrorCode::TemporarilyUnavailable => 11,
        ErrorCode::MalformedRequest => 12,
        ErrorCode::Crash => 13,
        ErrorCode::Abort => 14,
        ErrorCode::KeyDoesNotExist => 20,
        ErrorCode::KeyAlreadyExists => 21,
        ErrorCode::PreconditionFailed => 22,
        ErrorCode::TxnConflict => 30,
    }
}

/// The error code with the given numeric value, if any.
pub open spec fn code_of_value_spec(v: u32) -> Option<ErrorCode> {
    if v == 0 {
        Some(ErrorCode::Timeout)
    } else if v == 1 {
        Some(ErrorCode::NodeNotFound)
    } else if v == 10 {
        Some(ErrorCode::NotSupported)
    } else if v == 11 {
        Some(ErrorCode::TemporarilyUnavailable)
    } else if v == 12 {
        Some(ErrorCode::MalformedRequest)
    } else if v == 13 {
        Some(ErrorCode::Crash)
    } else if v == 14 {
        Some(ErrorCode::Abort)
    } else if v == 20 {
        Some(ErrorCode::KeyDoesNotExist)
    } else if v == 21 {
        Some(ErrorCode::KeyAlreadyExists)
    } else if v == 22 {
        Some(ErrorCode::PreconditionFailed)
    } else if v == 30 {
        Some(ErrorCode::TxnConflict)
    } else {
        None
    }
}

impl ErrorCode {
    /// The stable numeric value of this code on the wire.
    pub fn code_value(&self) -> (r: u32)
        ensures
            r == code_value_spec(*self),
    {
        match self {
            ErrorCode::Timeout => 0,
            ErrorCode::NodeNotFound => 1,
            ErrorCode::NotSupported => 10,
            ErrorCode::TemporarilyUnavailable => 11,
            ErrorCode::MalformedRequest => 12,
            ErrorCode::Crash => 13,
            ErrorCode::Abort => 14,
            ErrorCode::KeyDoesNotExist => 20,
            ErrorCode::KeyAlreadyExists => 21,
            ErrorCode::PreconditionFailed => 22,
            ErrorCode::TxnConflict => 30,
        }
    }

    /// The error code with the given numeric value, if any.
    pub fn from_value(v: u32) -> (r: Option<ErrorCode>)
        ensures
            r == code_of_value_spec(v),
    {
        match v {
            0 => Some(ErrorCode::Timeout),
            1 => Some(ErrorCode::NodeNotFound),
            10 => Some(ErrorCode::NotSupported),
            11 => Some(ErrorCode::TemporarilyUnavailable),
            12 => Some(ErrorCode::MalformedRequest),
            13 => Some(ErrorCode::Crash),
            14 => Some(ErrorCode::Abort),
            20 => Some(ErrorCode::KeyDoesNotExist),
            21 => Some(ErrorCode::KeyAlreadyExists),
            22 => Some(ErrorCode::PreconditionFailed),
            30 => Some(ErrorCode::TxnConflict),
            _ => None,
        }
    }
}

/// Numeric values identify their error code uniquely: reading a code's
/// value back yields that code.
pub proof fn lemma_code_value_round(c: ErrorCode)
    ensures
        code_of_value_spec(code_value_spec(c)) == Some(c),
{
}

/// The mathematical model of a [`Payload`].
pub enum PayloadV {
    Echo { echo: Seq<char> },
    EchoOk { echo: Seq<char> },
    Generate,
    GenerateOk { id: Seq<char> },
    Init { node_id: Seq<char>, node_ids: Seq<Seq<char>> },
    InitOk,
    Broadcast { message: u32 },
    BroadcastOk,
    Read,
    ReadOk { messages: Seq<u32> },
    Topology,
    TopologyOk,
    Error { code: ErrorCode, text: Option<Seq<char>> },
}

/// The mathematical model of a [`Body`].
pub struct BodyV {
    pub msg_id: Option<u32>,
    pub in_reply_to: Option<u32>,
    pub payload: PayloadV,
}

/// The mathematical model of an [`Envelope`].
pub struct EnvelopeV {
    pub src: Seq<char>,
    pub dest: Seq<char>,
    pub body: BodyV,
}

/// One kind of request or response, the closed tagged union carried by a
/// [`Body`]. On the wire each variant is discriminated by its snake-case
/// `type` string. The content of a `topology` request is deliberately
/// accepted and discarded: the dispatcher ignores it.
#[derive(Clone, Debug, PartialEq, Eq)]
pub enum Payload {
    Echo { echo: String },
    EchoOk { echo: String },
    Generate,
    GenerateOk { id: String },
    Init { node_id: String, node_ids: Vec<String> },
    InitOk,
    Broadcast { message: u32 },
    BroadcastOk,
    Read,
    ReadOk { messages: Vec<u32> },
    Topology,
    TopologyOk,
    Error { code: ErrorCode, text: Option<String> },
}

impl View for Payload {
    type V = PayloadV;

    open spec fn view(&self) -> PayloadV {
        match self {
            Payload::Echo { echo } => PayloadV::Echo { echo: echo@ },
            Payload::EchoOk { echo } => PayloadV::EchoOk { echo: echo@ },
            Payload::Generate => PayloadV::Generate,
            Payload::GenerateOk { id } => PayloadV::GenerateOk { id: id@ },
            Payload::Init { node_id, node_ids } => PayloadV::Init {
                node_id: node_id@,
                node_ids: node_ids.deep_view(),
            },
            Payload::InitOk => PayloadV::InitOk,
            Payload::Broadcast { message } => PayloadV::Broadcast { message: *message },
            Payload::BroadcastOk => PayloadV::BroadcastOk,
            Payload::Read => PayloadV::Read,
            Payload::ReadOk { messages } => PayloadV::ReadOk { messages: messages@ },
            Payload::Topology => PayloadV::Topology,
            Payload::TopologyOk => PayloadV::TopologyOk,
            Payload::Error { code, text } => PayloadV::Error {
                code: *code,
                text: match text {
                    Some(t) => Some(t@),
                    None => None,
                },
            },
        }
    }
}

/// The body of a message: correlation ids and the payload. `msg_id` is
/// present on originating messages; `in_reply_to` is present on responses
/// and names the `msg_id` being answered.
#[derive(Clone, Debug, PartialEq, Eq)]
pub struct Body {
    pub msg_id: Option<u32>,
    pub in_reply_to: Option<u32>,
    pub payload: Payload,
}

impl View for Body {
    type V = BodyV;

    open spec fn view(&self) -> BodyV {
        BodyV { msg_id: self.msg_id, in_reply_to: self.in_reply_to, payload: self.payload@ }
    }
}

/// One routed message: sender, recipient and body. Immutable once
/// constructed; a reply is a new envelope, never a mutation of the request.
#[derive(Clone, Debug, PartialEq, Eq)]
pub struct Envelope {
    pub src: String,
    pub dest: String,
    pub body: Body,
}

impl View for Envelope {
    type V = EnvelopeV;

    open spec fn view(&self) -> EnvelopeV {
        EnvelopeV { src: self.src@, dest: self.dest@, body: self.body@ }
    }
}

} // verus!
