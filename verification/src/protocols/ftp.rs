//! FTP identification: common first commands and the server greeting.
use crate::engine::types::{MatchView, ProtocolMatch, Transport};
use crate::protocols::{to_snake_case, Protocol, ProtocolView, RefractiumProtocol};
use crate::util::{ascii_lower, simple_word};
use crate::util::{ascii_bytes, starts_with_literal, starts_with_spec};
use vstd::prelude::*;

verus! {

/// The data begins with `USER ` (login), `AUTH TLS` (secure FTP) or `220 `
/// (server greeting).
pub open spec fn ftp_signature(data: Seq<u8>) -> bool {
    ||| starts_with_spec(data, ascii_bytes("USER "@))
    ||| starts_with_spec(data, ascii_bytes("AUTH TLS"@))
    ||| starts_with_spec(data, ascii_bytes("220 "@))
}

/// The name of this protocol: what `heck` makes of the type's name `Ftp`.
fn protocol_name() -> (r: String)
    ensures
        r@ == "ftp"@,
{
    proof {
        reveal_strlit("Ftp");
        reveal_strlit("ftp");
        assert(simple_word("Ftp"@));
        assert(ascii_lower("Ftp"@) =~= "ftp"@);
    }
    to_snake_case("Ftp")
}

/// FTP protocol identifier.
pub struct Ftp;

impl Ftp {
    /// Returns whether `data` carries the FTP signature.
    pub fn matches(data: &[u8]) -> (r: bool)
        ensures
            r == ftp_signature(data@),
    {
        proof {
            reveal_strlit("USER ");
            reveal_strlit("AUTH TLS");
            reveal_strlit("220 ");
        }
        starts_with_literal(data, "USER ") || starts_with_literal(data, "AUTH TLS")
            || starts_with_literal(data, "220 ")
    }
}

impl RefractiumProtocol for Ftp {
    open spec fn protocol_view(&self) -> ProtocolView {
        ProtocolView::Ftp
    }

    fn name(&self) -> (r: String) {
        protocol_name()
    }

    fn identify(&self, data: &[u8]) -> (r: Option<ProtocolMatch>) {
        if Ftp::matches(data) {
            Some(
                ProtocolMatch {
                    name: protocol_name(),
                    metadata: None,
                    implementation: Protocol::Ftp(Ftp),
                },
            )
        } else {
            None
        }
    }

    fn transport(&self) -> (r: Transport) {
        Transport::Tcp
    }
}

} // verus!
