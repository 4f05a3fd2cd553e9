//! Wire-level data model: envelopes, bodies, payloads and error codes.
//!
//! One envelope carries one payload, a closed tagged union.  Map-shaped
//! payload fields (poll offsets, commit offsets, a topology) are held as
//! vectors of pairs.  Their keys need not be distinct: the pairs are
//! processed in order, so for commits the last pair for a key wins, a poll
//! yields one result entry per request entry, and a topology lookup takes
//! the first entry for the node's id.

use vstd::prelude::*;

verus! {

/// Numeric error codes of the protocol, stable across all nodes.
#[derive(Clone, Copy, Debug, PartialEq, Eq, Structural)]
pub enum ErrorCode {
    Timeout,
    NodeNotFound,
    NotSupported,
    TemporarilyUnavailable,
    MalformedRequest,
    Crash,
    Abort,
    KeyDoesNotExist,
    KeyAlreadyExists,
    PreconditionFailed,
    TxnConflict,
}

impl ErrorCode {
    /// The fixed numeric value of this code on the wire.
    pub open spec fn spec_code(self) -> u8 {
        match self {
            ErrorCode::Timeout => 0,
            ErrorCode::NodeNotFound => 1,
            ErrorCode::NotSupported => 10,
            ErrorCode::TemporarilyUnavailable => 11,
            ErrorCode::MalformedRequest => 12,
            ErrorCode::Crash => 13,
            ErrorCode::Abort => 14,
            ErrorCode::KeyDoesNotExist => 20,
            ErrorCode::KeyAlreadyExists => 21,
            ErrorCode::PreconditionFailed => 22,
            ErrorCode::TxnConflict => 30,
        }
    }

    /// Numeric value of this code.
    pub fn code(&self) -> (c: u8)
        ensures
            c == self.spec_code(),
    {
        match self {
            ErrorCode::Timeout => 0,
            ErrorCode::NodeNotFound => 1,
            ErrorCode::NotSupported => 10,
            ErrorCode::TemporarilyUnavailable => 11,
            ErrorCode::MalformedRequest => 12,
            ErrorCode::Crash => 13,
            ErrorCode::Abort => 14,
            ErrorCode::KeyDoesNotExist => 20,
            ErrorCode::KeyAlreadyExists => 21,
            ErrorCode::PreconditionFailed => 22,
            ErrorCode::TxnConflict => 30,
        }
    }
}

/// Every payload variant of the protocol, one variant per wire tag.
///
/// `DontReply` never crosses the wire: it is the state machine's way of
/// saying that an inbound payload is absorbed without an answer.
#[derive(Debug)]
pub enum Payload {
    Init { node_id: String, node_ids: Vec<String> },
    InitOk,
    Echo { echo: String },
    EchoOk { echo: String },
    Generate,
    GenerateOk { id: u128 },
    Add { delta: u64 },
    AddOk,
    Broadcast { message: u64 },
    BroadcastOk,
    Rumor { rumor_id: u128, message: u64 },
    RumorOk,
    Read,
    ReadOk { messages: Vec<u64> },
    Topology { topology: Vec<(String, Vec<String>)> },
    TopologyOk,
    Send { key: String, msg: usize },
    SendOk { offset: usize },
    Poll { offsets: Vec<(String, usize)> },
    PollOk { messages: Vec<(String, Vec<(usize, usize)>)> },
    CommitOffsets { offsets: Vec<(String, usize)> },
    CommitOffsetsOk,
    ListCommittedOffsets { keys: Vec<String> },
    ListCommittedOffsetsOk { offsets: Vec<(String, usize)> },
    DontReply,
    Error { code: ErrorCode, text: String },
}

/// Body of an envelope: optional request id, optional reply reference,
/// and the payload itself.
#[derive(Debug)]
pub struct Body {
    pub msg_id: Option<i32>,
    pub in_reply_to: Option<i32>,
    pub payload: Payload,
}

/// One wire-level message: source node, destination node, body.
#[derive(Debug)]
pub struct Message {
    pub src: String,
    pub dst: String,
    pub body: Body,
}

/// Ways the state machine can reject an inbound payload.
#[derive(Clone, Debug)]
pub enum NodeError {
    /// The payload is not legal in the node's current lifecycle state.
    UnacceptablePayloadForState,
    /// The payload's tag is understood but no handler is installed for it.
    CurrentlyUnsupported,
    /// A payload kind that must never arrive as a fresh request.
    IllegalPayloadType,
    /// The payload's content is malformed (a topology without a self entry).
    IllegalPayload,
    /// The envelope is addressed to a different node.
    NodeIdMismatch,
}

impl NodeError {
    /// The protocol error code this rejection is reported under.
    pub open spec fn spec_error_code(self) -> ErrorCode {
        match self {
            NodeError::CurrentlyUnsupported => ErrorCode::NotSupported,
            _ => ErrorCode::MalformedRequest,
        }
    }

    /// The protocol error code this rejection is reported under.
    pub fn error_code(&self) -> (c: ErrorCode)
        ensures
            c == self.spec_error_code(),
    {
        match self {
            NodeError::CurrentlyUnsupported => ErrorCode::NotSupported,
            NodeError::UnacceptablePayloadForState => ErrorCode::MalformedRequest,
            NodeError::IllegalPayloadType => ErrorCode::MalformedRequest,
            NodeError::IllegalPayload => ErrorCode::MalformedRequest,
            NodeError::NodeIdMismatch => ErrorCode::MalformedRequest,
        }
    }

    /// A short description of the rejection, for the error reply's text.
    pub fn describe(&self) -> (s: String)
        ensures
            s@.len() > 0,
    {
        let text = match self {
            NodeError::UnacceptablePayloadForState => "unacceptable payload for current state",
            NodeError::CurrentlyUnsupported => "payload type is not supported",
            NodeError::IllegalPayloadType => "bad payload type",
            NodeError::IllegalPayload => "bad payload",
            NodeError::NodeIdMismatch => "node id mismatch",
        };
        proof {
            reveal_strlit("unacceptable payload for current state");
            reveal_strlit("payload type is not supported");
            reveal_strlit("bad payload type");
            reveal_strlit("bad payload");
            reveal_strlit("node id mismatch");
        }
        text.to_owned()
    }
}

} // verus!
