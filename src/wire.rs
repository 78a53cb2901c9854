//! The outer envelope of every round-phase message: a tag byte, then the
//! payload. Unknown tags are refused rather than guessed at.
use crate::error::GossipError;
use crate::key::append_bytes;
use vstd::prelude::*;

verus! {

/// Tag byte of a remote call.
pub const CALL_REMOTE_TAG: u8 = 0;

/// A message on the wire between two peers.
#[derive(Clone, Debug)]
pub enum WireMessage {
    /// A remote call carrying an opaque payload.
    CallRemote { data: Vec<u8> },
}

/// The bytes of a message.
pub open spec fn wire_bytes(m: WireMessage) -> Seq<u8> {
    match m {
        WireMessage::CallRemote { data } => seq![CALL_REMOTE_TAG] + data@,
    }
}

/// The payload of a message, whatever its kind.
pub open spec fn wire_payload(m: WireMessage) -> Seq<u8> {
    match m {
        WireMessage::CallRemote { data } => data@,
    }
}

/// The message that bytes hold: `None` for no bytes or an unknown tag.
pub open spec fn wire_decode(b: Seq<u8>) -> Option<Seq<u8>> {
    if b.len() > 0 && b[0] == CALL_REMOTE_TAG {
        Some(b.subrange(1, b.len() as int))
    } else {
        None
    }
}

impl WireMessage {
    /// The envelope's bytes: its tag, then its payload.
    pub fn encode(self) -> (r: Vec<u8>)
        ensures
            r@ == wire_bytes(self),
    {
        match self {
            WireMessage::CallRemote { data } => {
                let mut out: Vec<u8> = Vec::new();
                out.push(CALL_REMOTE_TAG);
                append_bytes(&mut out, &data);
                out
            },
        }
    }

    /// Reads an envelope. Empty bytes and unknown tags give `DecodeFailure`.
    pub fn decode(data: Vec<u8>) -> (r: Result<WireMessage, GossipError>)
        ensures
            match r {
                Ok(m) => wire_decode(data@) == Some(wire_payload(m)) && m is CallRemote,
                Err(e) => wire_decode(data@) is None && e == GossipError::DecodeFailure,
            },
    {
        let mut data = data;
        if data.len() == 0 {
            return Err(GossipError::DecodeFailure);
        }
        let ghost all = data@;
        let tag = data.remove(0);
        if tag != CALL_REMOTE_TAG {
            return Err(GossipError::DecodeFailure);
        }
        assert(data@ =~= all.subrange(1, all.len() as int));
        Ok(WireMessage::CallRemote { data })
    }

    /// Wraps a payload as a remote call.
    pub fn call_remote(request: Vec<u8>) -> (r: WireMessage)
        ensures
            r is CallRemote,
            wire_payload(r) == request@,
    {
        WireMessage::CallRemote { data: request }
    }
}

/// Reading the bytes of a message gives its payload back.
pub proof fn lemma_wire_round_trip(m: WireMessage)
    ensures
        wire_decode(wire_bytes(m)) == Some(wire_payload(m)),
{
    match m {
        WireMessage::CallRemote { data } => {
            assert(wire_bytes(m).subrange(1, wire_bytes(m).len() as int) =~= data@);
        },
    }
}

} // verus!
