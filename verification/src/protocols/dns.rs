//! DNS identification: the header of a standard query.
use crate::engine::types::{MatchView, ProtocolMatch, Transport};
use crate::protocols::{Protocol, ProtocolView, RefractiumProtocol};
use vstd::prelude::*;

verus! {

/// The data holds a full DNS header (12 bytes) whose flags mark a query
/// (QR bit clear) with the standard opcode (0).
pub open spec fn dns_query(data: Seq<u8>) -> bool {
    &&& data.len() >= 12
    &&& data[2] & 0x80u8 == 0
    &&& (data[2] >> 3u8) & 0x0fu8 == 0
}

/// DNS protocol identifier.
pub struct Dns;

impl Dns {
    /// Returns whether `data` is the header of a standard DNS query.
    pub fn matches(data: &[u8]) -> (r: bool)
        ensures
            r == dns_query(data@),
    {
        if data.len() < 12 {
            return false;
        }
        let hi: u8 = data[2];
        let lo: u8 = data[3];
        let flags: u16 = ((hi as u16) << 8u16) | (lo as u16);
        let is_query = (flags & 0x8000u16) == 0;
        let op_code: u16 = (flags >> 11u16) & 0x0fu16;
        assert(((((hi as u16) << 8u16) | (lo as u16)) & 0x8000u16 == 0) == (hi & 0x80u8 == 0))
            by (bit_vector);
        assert((((((hi as u16) << 8u16) | (lo as u16)) >> 11u16) & 0x0fu16 == 0) == ((hi >> 3u8)
            & 0x0fu8 == 0)) by (bit_vector);
        is_query && op_code == 0
    }
}

impl RefractiumProtocol for Dns {
    open spec fn protocol_view(&self) -> ProtocolView {
        ProtocolView::Dns
    }

    fn name(&self) -> (r: String) {
        String::from_str("dns")
    }

    fn identify(&self, data: &[u8]) -> (r: Option<ProtocolMatch>) {
        if Dns::matches(data) {
            Some(
                ProtocolMatch {
                    name: String::from_str("dns"),
                    metadata: None,
                    implementation: Protocol::Dns(Dns),
                },
            )
        } else {
            None
        }
    }

    fn transport(&self) -> (r: Transport) {
        Transport::Udp
    }
}

} // verus!
