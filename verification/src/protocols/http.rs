//! HTTP identification: standard request methods at the start of the stream,
//! and the HTTP/2 connection preface.
use crate::engine::types::{MatchView, ProtocolMatch, Transport};
use crate::protocols::{to_snake_case, Protocol, ProtocolView, RefractiumProtocol};
use crate::util::{ascii_lower, simple_word};
use crate::util::{ascii_bytes, starts_with_literal, starts_with_spec};
use vstd::prelude::*;

verus! {

/// The data begins with an HTTP method followed by a space
/// (`GET`, `POST`, `PUT`, `DELETE`, `HEAD`, `OPTIONS`, `CONNECT`, `TRACE`,
/// `PATCH`) or with the HTTP/2 preface `PRI * HTTP/2.0`.
pub open spec fn http_signature(data: Seq<u8>) -> bool {
    ||| starts_with_spec(data, ascii_bytes("GET "@))
    ||| starts_with_spec(data, ascii_bytes("POST "@))
    ||| starts_with_spec(data, ascii_bytes("PUT "@))
    ||| starts_with_spec(data, ascii_bytes("DELETE "@))
    ||| starts_with_spec(data, ascii_bytes("HEAD "@))
    ||| starts_with_spec(data, ascii_bytes("OPTIONS "@))
    ||| starts_with_spec(data, ascii_bytes("CONNECT "@))
    ||| starts_with_spec(data, ascii_bytes("TRACE "@))
    ||| starts_with_spec(data, ascii_bytes("PATCH "@))
    ||| starts_with_spec(data, ascii_bytes("PRI * HTTP/2.0"@))
}

/// The name of this protocol: what `heck` makes of the type's name `Http`.
fn protocol_name() -> (r: String)
    ensures
        r@ == "http"@,
{
    proof {
        reveal_strlit("Http");
        reveal_strlit("http");
        assert(simple_word("Http"@));
        assert(ascii_lower("Http"@) =~= "http"@);
    }
    to_snake_case("Http")
}

/// HTTP protocol identifier.
pub struct Http;

impl Http {
    /// Returns whether `data` carries the HTTP signature.
    pub fn matches(data: &[u8]) -> (r: bool)
        ensures
            r == http_signature(data@),
    {
        proof {
            reveal_strlit("GET ");
            reveal_strlit("POST ");
            reveal_strlit("PUT ");
            reveal_strlit("DELETE ");
            reveal_strlit("HEAD ");
            reveal_strlit("OPTIONS ");
            reveal_strlit("CONNECT ");
            reveal_strlit("TRACE ");
            reveal_strlit("PATCH ");
            reveal_strlit("PRI * HTTP/2.0");
        }
        starts_with_literal(data, "GET ") || starts_with_literal(data, "POST ")
            || starts_with_literal(data, "PUT ") || starts_with_literal(data, "DELETE ")
            || starts_with_literal(data, "HEAD ") || starts_with_literal(data, "OPTIONS ")
            || starts_with_literal(data, "CONNECT ") || starts_with_literal(data, "TRACE ")
            || starts_with_literal(data, "PATCH ") || starts_with_literal(data, "PRI * HTTP/2.0")
    }
}

impl RefractiumProtocol for Http {
    open spec fn protocol_view(&self) -> ProtocolView {
        ProtocolView::Http
    }

    fn name(&self) -> (r: String) {
        protocol_name()
    }

    fn identify(&self, data: &[u8]) -> (r: Option<ProtocolMatch>) {
        if Http::matches(data) {
            Some(
                ProtocolMatch {
                    name: protocol_name(),
                    metadata: None,
                    implementation: Protocol::Http(Http),
                },
            )
        } else {
            None
        }
    }

    fn transport(&self) -> (r: Transport) {
        Transport::Tcp
    }
}

} // verus!
