//! The PINGRESP packet: an empty body.

use vstd::prelude::*;

use bytes::BytesMut;

use crate::bytebuf::bytes_view;
use crate::error::DecodeError;
use crate::error::EncodeError;
use crate::types::DecodedPacket;

verus! {

broadcast use
    vstd::seq_lib::lemma_seq_skip_of_skip,
    vstd::seq_lib::lemma_seq_skip_len,
    vstd::seq_lib::lemma_seq_skip_index,
;

/// A pingresp packet; it carries nothing.
#[derive(Clone, Debug, PartialEq)]
pub struct PingRespPacket {}

impl View for PingRespPacket {
    type V = PingRespPacket;

    open spec fn view(&self) -> PingRespPacket {
        PingRespPacket {  }
    }
}

impl PingRespPacket {
    /// Appends this packet's body, which is empty.
    pub fn encode(&self, buffer: &mut BytesMut) -> (r: Result<(), EncodeError>)
        ensures
            r == Ok::<(), EncodeError>(()),
            bytes_view(*final(buffer)) == bytes_view(*old(buffer)),
    {
        Ok(())
    }

    /// Reads this packet's body, which is empty; it always succeeds and
    /// consumes nothing.
    pub fn decode(buffer: &mut BytesMut) -> (r: Result<DecodedPacket, DecodeError>)
        ensures
            r == Ok::<DecodedPacket, DecodeError>(DecodedPacket::PingResp(PingRespPacket {  })),
            bytes_view(*final(buffer)) == bytes_view(*old(buffer)),
    {
        Ok(DecodedPacket::PingResp(PingRespPacket {  }))
    }
}

} // verus!
