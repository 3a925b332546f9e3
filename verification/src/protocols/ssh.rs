//! SSH identification: the version string that a client sends first.
use crate::engine::types::{MatchView, ProtocolMatch, Transport};
use crate::protocols::{to_snake_case, Protocol, ProtocolView, RefractiumProtocol};
use crate::util::{ascii_lower, simple_word};
use crate::util::{ascii_bytes, starts_with_literal, starts_with_spec};
use vstd::prelude::*;

verus! {

/// The data begins with `SSH-2.0-` or with `SSH-1.99-`.
pub open spec fn ssh_signature(data: Seq<u8>) -> bool {
    ||| starts_with_spec(data, ascii_bytes("SSH-2.0-"@))
    ||| starts_with_spec(data, ascii_bytes("SSH-1.99-"@))
}

/// The name of this protocol: what `heck` makes of the type's name `Ssh`.
fn protocol_name() -> (r: String)
    ensures
        r@ == "ssh"@,
{
    proof {
        reveal_strlit("Ssh");
        reveal_strlit("ssh");
        assert(simple_word("Ssh"@));
        assert(ascii_lower("Ssh"@) =~= "ssh"@);
    }
    to_snake_case("Ssh")
}

/// SSH protocol identifier.
pub struct Ssh;

impl Ssh {
    /// Returns whether `data` carries the SSH signature.
    pub fn matches(data: &[u8]) -> (r: bool)
        ensures
            r == ssh_signature(data@),
    {
        proof {
            reveal_strlit("SSH-2.0-");
            reveal_strlit("SSH-1.99-");
        }
        starts_with_literal(data, "SSH-2.0-") || starts_with_literal(data, "SSH-1.99-")
    }
}

impl RefractiumProtocol for Ssh {
    open spec fn protocol_view(&self) -> ProtocolView {
        ProtocolView::Ssh
    }

    fn name(&self) -> (r: String) {
        protocol_name()
    }

    fn identify(&self, data: &[u8]) -> (r: Option<ProtocolMatch>) {
        if Ssh::matches(data) {
            Some(
                ProtocolMatch {
                    name: protocol_name(),
                    metadata: None,
                    implementation: Protocol::Ssh(Ssh),
                },
            )
        } else {
            None
        }
    }

    fn transport(&self) -> (r: Transport) {
        Transport::Tcp
    }
}

} // verus!
