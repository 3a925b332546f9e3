//! HTTPS identification: a TLS Client Hello, from which the Server Name
//! Indication is extracted for domain-based routing.
//!
//! The record is read as TLS 1.2/1.3 lays it out: content type `0x16`
//! (handshake), a version starting with `0x03`, handshake type `0x01`
//! (Client Hello) at offset 5, then from offset 43 the session id, the cipher
//! suites and the compression methods, each preceded by its length, and the
//! extension block, preceded by its two-byte length.
use crate::engine::types::{MatchView, ProtocolMatch, Transport};
use crate::protocols::{Protocol, ProtocolView, RefractiumProtocol};
use vstd::prelude::*;
use vstd::utf8::*;

verus! {

// ---------------------------------------------------------------------------
// Outside call
// ---------------------------------------------------------------------------

/// The text that `String::from_utf8_lossy` makes of some bytes.
pub uninterp spec fn utf8_lossy(bytes: Seq<u8>) -> Seq<char>;

/// Calls `String::from_utf8_lossy` and takes the result as an owned string.
/// The contract names the result `utf8_lossy` of the bytes; of valid UTF-8 it
/// states, as std documents, that the result is the decoded text.
#[verifier::external_body]
fn from_utf8_lossy(bytes: &[u8]) -> (r: String)
    ensures
        r@ == utf8_lossy(bytes@),
        valid_utf8(bytes@) ==> r@ == decode_utf8(bytes@),
{
    String::from_utf8_lossy(bytes).to_string()
}

// ---------------------------------------------------------------------------
// Specification
// ---------------------------------------------------------------------------

/// The text of a host name's bytes: the decoded text where they are valid
/// UTF-8, otherwise what `String::from_utf8_lossy` makes of them.
pub open spec fn host_text(bytes: Seq<u8>) -> Seq<char> {
    if valid_utf8(bytes) {
        decode_utf8(bytes)
    } else {
        utf8_lossy(bytes)
    }
}

/// The big-endian 16-bit number at `p`.
pub open spec fn be16(d: Seq<u8>, p: int) -> int {
    d[p] as int * 256 + d[p + 1] as int
}

/// `x`, or 0 where `x` is negative.
pub open spec fn nonneg(x: int) -> nat {
    if x < 0 {
        0
    } else {
        x as nat
    }
}

/// The bounds `(start, end)` of the extension block of a Client Hello, or
/// `None` where a length field before it lies past the end of the data. The
/// block ends where its length says, or at the end of the data if that
/// comes first.
pub open spec fn extension_block(d: Seq<u8>) -> Option<(int, int)> {
    let session_at = 43int;
    if d.len() < session_at + 1 {
        None
    } else {
        let suites_at = session_at + 1 + d[session_at] as int;
        if d.len() < suites_at + 2 {
            None
        } else {
            let compression_at = suites_at + 2 + be16(d, suites_at);
            if d.len() < compression_at + 1 {
                None
            } else {
                let ext_len_at = compression_at + 1 + d[compression_at] as int;
                if d.len() < ext_len_at + 2 {
                    None
                } else {
                    let start = ext_len_at + 2;
                    let end = if start + be16(d, ext_len_at) <= d.len() {
                        start + be16(d, ext_len_at)
                    } else {
                        d.len() as int
                    };
                    Some((start, end))
                }
            }
        }
    }
}

/// Walks the extensions from `pos` to `end` (type, two bytes; length, two
/// bytes; body) and gives the host name of the first server-name extension
/// (type 0) that lies within the block and carries one.
pub open spec fn sni_in_extensions(d: Seq<u8>, pos: int, end: int) -> Option<Seq<char>>
    decreases nonneg(end - pos),
{
    if pos < 0 || pos + 4 > end || end > d.len() {
        None
    } else {
        let ext_type = be16(d, pos);
        let ext_len = be16(d, pos + 2);
        let body = pos + 4;
        if ext_type == 0 && body + ext_len <= end && server_name(d.subrange(body, body + ext_len))
            is Some {
            server_name(d.subrange(body, body + ext_len))
        } else {
            sni_in_extensions(d, body + ext_len, end)
        }
    }
}

/// The host name of a server-name extension body: a list (its length, two
/// bytes) of entries (type, one byte; length, two bytes; name), of which the
/// first of type 0 (host name) that lies within the body is taken.
pub open spec fn server_name(d: Seq<u8>) -> Option<Seq<char>> {
    if d.len() < 5 {
        None
    } else {
        let list_len = be16(d, 0);
        if d.len() < 2 + list_len || list_len < 3 {
            None
        } else {
            server_name_entries(d, 2, 2 + list_len)
        }
    }
}

/// The first host-name entry of the list between `pos` and `limit`.
pub open spec fn server_name_entries(d: Seq<u8>, pos: int, limit: int) -> Option<Seq<char>>
    decreases nonneg(limit - pos),
{
    if pos < 0 || pos + 3 > limit || limit > d.len() {
        None
    } else {
        let name_type = d[pos];
        let name_len = be16(d, pos + 1);
        let name_at = pos + 3;
        if name_type == 0 && name_at + name_len <= d.len() {
            Some(host_text(d.subrange(name_at, name_at + name_len)))
        } else {
            server_name_entries(d, name_at + name_len, limit)
        }
    }
}

/// What HTTPS identification gives: `None` where the data is not a Client
/// Hello that can be read up to its extension block, otherwise the host name
/// found there, if any.
pub open spec fn client_hello_sni(d: Seq<u8>) -> Option<Option<Seq<char>>> {
    if d.len() < 43 || d[0] != 0x16 || d[1] != 0x03 || d[5] != 0x01 {
        None
    } else {
        match extension_block(d) {
            None => None,
            Some((start, end)) => Some(sni_in_extensions(d, start, end)),
        }
    }
}

// ---------------------------------------------------------------------------
// Implementation
// ---------------------------------------------------------------------------

/// Reads the big-endian 16-bit number at `p`.
fn read_be16(d: &[u8], p: usize) -> (r: usize)
    requires
        p + 1 < d@.len(),
    ensures
        r as int == be16(d@, p as int),
        r <= 0xffff,
{
    (d[p] as usize) * 256 + (d[p + 1] as usize)
}

/// HTTPS protocol identifier with SNI extraction.
pub struct Https;

impl Https {
    /// Parses the body of a server-name extension and returns its first host
    /// name.
    pub fn parse_sni(data: &[u8]) -> (r: Option<String>)
        ensures
            match r {
                Some(s) => server_name(data@) == Some(s@),
                None => server_name(data@) is None,
            },
    {
        if data.len() < 5 {
            return None;
        }
        let list_len = read_be16(data, 0);
        if data.len() - 2 < list_len || list_len < 3 {
            return None;
        }
        let limit: usize = 2 + list_len;
        let mut pos: usize = 2;
        while pos <= limit && limit - pos >= 3
            invariant
                2 <= pos,
                limit <= data@.len(),
                limit == 2 + list_len,
                server_name(data@) == server_name_entries(data@, pos as int, limit as int),
            decreases limit - pos,
        {
            let name_type = data[pos];
            let name_len = read_be16(data, pos + 1);
            let name_at = pos + 3;
            if name_type == 0 && name_len <= data.len() - name_at {
                return Some(from_utf8_lossy(&data[name_at..name_at + name_len]));
            }
            if name_len > limit - name_at {
                assert(server_name_entries(data@, (name_at + name_len) as int, limit as int) is None);
                return None;
            }
            pos = name_at + name_len;
        }
        None
    }

    /// Reads a Client Hello up to its extension block and returns the block's
    /// bounds.
    fn extension_bounds(data: &[u8]) -> (r: Option<(usize, usize)>)
        requires
            data@.len() >= 43,
        ensures
            match r {
                Some((s, e)) => extension_block(data@) == Some((s as int, e as int)),
                None => extension_block(data@) is None,
            },
    {
        let len = data.len();
        let mut pos: usize = 43;
        if len < pos + 1 {
            return None;
        }
        let session_id_len = data[pos] as usize;
        pos = pos + 1;
        if session_id_len > len - pos {
            return None;
        }
        pos = pos + session_id_len;
        if len - pos < 2 {
            return None;
        }
        let cipher_suites_len = read_be16(data, pos);
        pos = pos + 2;
        if cipher_suites_len > len - pos {
            return None;
        }
        pos = pos + cipher_suites_len;
        if len - pos < 1 {
            return None;
        }
        let compression_methods_len = data[pos] as usize;
        pos = pos + 1;
        if compression_methods_len > len - pos {
            return None;
        }
        pos = pos + compression_methods_len;
        if len - pos < 2 {
            return None;
        }
        let extensions_len = read_be16(data, pos);
        pos = pos + 2;
        let end = if extensions_len <= len - pos {
            pos + extensions_len
        } else {
            len
        };
        Some((pos, end))
    }

    /// Walks the extension block and returns the first host name found.
    fn find_sni(data: &[u8], start: usize, end: usize) -> (r: Option<String>)
        requires
            start <= end <= data@.len(),
        ensures
            match r {
                Some(s) => sni_in_extensions(data@, start as int, end as int) == Some(s@),
                None => sni_in_extensions(data@, start as int, end as int) is None,
            },
    {
        let mut pos: usize = start;
        while end - pos >= 4
            invariant
                pos <= end <= data@.len(),
                sni_in_extensions(data@, start as int, end as int) == sni_in_extensions(
                    data@,
                    pos as int,
                    end as int,
                ),
            decreases end - pos,
        {
            let ext_type = read_be16(data, pos);
            let ext_len = read_be16(data, pos + 2);
            let body = pos + 4;
            if ext_type == 0 && ext_len <= end - body {
                let sni = Https::parse_sni(&data[body..body + ext_len]);
                if sni.is_some() {
                    return sni;
                }
            }
            if ext_len > end - body {
                assert(sni_in_extensions(data@, (body + ext_len) as int, end as int) is None);
                return None;
            }
            pos = body + ext_len;
        }
        None
    }

    /// Returns `None` where the data is not a readable Client Hello,
    /// otherwise the host name it carries, if any.
    pub fn client_hello(data: &[u8]) -> (r: Option<Option<String>>)
        ensures
            match r {
                Some(Some(s)) => client_hello_sni(data@) == Some(Some(s@)),
                Some(None) => client_hello_sni(data@) == Some(None::<Seq<char>>),
                None => client_hello_sni(data@) is None,
            },
    {
        if data.len() < 43 || data[0] != 0x16 || data[1] != 0x03 || data[5] != 0x01 {
            return None;
        }
        match Https::extension_bounds(data) {
            None => None,
            Some((start, end)) => Some(Https::find_sni(data, start, end)),
        }
    }
}

impl RefractiumProtocol for Https {
    open spec fn protocol_view(&self) -> ProtocolView {
        ProtocolView::Https
    }

    fn name(&self) -> (r: String) {
        String::from_str("https")
    }

    fn identify(&self, data: &[u8]) -> (r: Option<ProtocolMatch>) {
        match Https::client_hello(data) {
            Some(metadata) => Some(
                ProtocolMatch {
                    name: String::from_str("https"),
                    metadata,
                    implementation: Protocol::Https(Https),
                },
            ),
            None => None,
        }
    }

    fn transport(&self) -> (r: Transport) {
        Transport::Tcp
    }
}


// ---------------------------------------------------------------------------
// Laws
// ---------------------------------------------------------------------------

/// The two bytes of a 16-bit number, big-endian.
pub open spec fn u16_be(n: nat) -> Seq<u8> {
    seq![(n / 256) as u8, (n % 256) as u8]
}

/// A server-name extension body whose list holds one host name.
pub open spec fn server_name_body(host: Seq<u8>) -> Seq<u8> {
    u16_be(host.len() + 3) + seq![0u8] + u16_be(host.len()) + host
}

/// A Client Hello: a 43-byte record and handshake header, the session id,
/// the cipher suites and the compression methods, each preceded by its
/// length, and an extension block holding one server-name extension.
pub open spec fn client_hello_bytes(
    header: Seq<u8>,
    session: Seq<u8>,
    suites: Seq<u8>,
    compression: Seq<u8>,
    host: Seq<u8>,
) -> Seq<u8> {
    let body = server_name_body(host);
    header + seq![session.len() as u8] + session + u16_be(suites.len()) + suites + seq![
        compression.len() as u8,
    ] + compression + u16_be(body.len() + 4) + u16_be(0) + u16_be(body.len()) + body
}

proof fn lemma_u16_be(n: nat)
    requires
        n < 65536,
    ensures
        u16_be(n).len() == 2,
        be16(u16_be(n), 0) == n,
{
}

/// The host name of a server-name extension body is what parsing it gives.
pub proof fn lemma_server_name_body(host: Seq<u8>)
    requires
        host.len() + 3 < 65536,
    ensures
        server_name(server_name_body(host)) == Some(host_text(host)),
{
    let b = server_name_body(host);
    let n = host.len();
    lemma_u16_be(n + 3);
    lemma_u16_be(n);
    assert(b.len() == n + 5);
    assert(be16(b, 0) == n + 3);
    assert(b[2] == 0);
    assert(be16(b, 3) == n);
    assert(b.subrange(5, 5 + n as int) =~= host);
}

/// SNI extraction: the host name that a Client Hello carries in its
/// server-name extension is the metadata that HTTPS identification gives.
pub proof fn lemma_client_hello_sni(
    header: Seq<u8>,
    session: Seq<u8>,
    suites: Seq<u8>,
    compression: Seq<u8>,
    host: Seq<u8>,
)
    requires
        header.len() == 43,
        header[0] == 0x16,
        header[1] == 0x03,
        header[5] == 0x01,
        session.len() < 256,
        suites.len() < 65536,
        compression.len() < 256,
        host.len() + 9 < 65536,
    ensures
        client_hello_sni(client_hello_bytes(header, session, suites, compression, host)) == Some(
            Some(host_text(host)),
        ),
{
    let body = server_name_body(host);
    let s = session.len() as int;
    let c = suites.len() as int;
    let m = compression.len() as int;
    let bl = body.len() as int;
    lemma_u16_be(c as nat);
    lemma_u16_be((bl + 4) as nat);
    lemma_u16_be(0);
    lemma_u16_be(bl as nat);
    lemma_server_name_body(host);
    let p1 = header + seq![s as u8];
    let p2 = p1 + session;
    let p3 = p2 + u16_be(c as nat);
    let p4 = p3 + suites;
    let p5 = p4 + seq![m as u8];
    let p6 = p5 + compression;
    let p7 = p6 + u16_be((bl + 4) as nat);
    let p8 = p7 + u16_be(0);
    let p9 = p8 + u16_be(bl as nat);
    let d = p9 + body;
    assert(d == client_hello_bytes(header, session, suites, compression, host));
    assert(d[0] == 0x16 && d[1] == 0x03 && d[5] == 0x01) by {
        assert(d[0] == p9[0] && p9[0] == p8[0] && p8[0] == p7[0] && p7[0] == p6[0]);
        assert(p6[0] == p5[0] && p5[0] == p4[0] && p4[0] == p3[0] && p3[0] == p2[0]);
        assert(p2[0] == p1[0] && p1[0] == header[0]);
        assert(d[1] == p9[1] && p9[1] == p8[1] && p8[1] == p7[1] && p7[1] == p6[1]);
        assert(p6[1] == p5[1] && p5[1] == p4[1] && p4[1] == p3[1] && p3[1] == p2[1]);
        assert(p2[1] == p1[1] && p1[1] == header[1]);
        assert(d[5] == p9[5] && p9[5] == p8[5] && p8[5] == p7[5] && p7[5] == p6[5]);
        assert(p6[5] == p5[5] && p5[5] == p4[5] && p4[5] == p3[5] && p3[5] == p2[5]);
        assert(p2[5] == p1[5] && p1[5] == header[5]);
    }
    assert(d[43] == s) by {
        assert(d[43] == p9[43] && p9[43] == p8[43] && p8[43] == p7[43] && p7[43] == p6[43]);
        assert(p6[43] == p5[43] && p5[43] == p4[43] && p4[43] == p3[43] && p3[43] == p2[43]);
        assert(p2[43] == p1[43]);
    }
    let suites_at = 44 + s;
    assert(be16(d, suites_at) == c) by {
        assert(d.subrange(0, p3.len() as int) =~= p3) by {
            assert(p9.subrange(0, p3.len() as int) =~= p3);
        }
        assert(d[suites_at] == p3[suites_at] && d[suites_at + 1] == p3[suites_at + 1]);
        assert(p3[suites_at] == u16_be(c as nat)[0] && p3[suites_at + 1] == u16_be(c as nat)[1]);
    }
    let compression_at = suites_at + 2 + c;
    assert(d[compression_at] == m) by {
        assert(d.subrange(0, p5.len() as int) =~= p5) by {
            assert(p9.subrange(0, p5.len() as int) =~= p5);
        }
        assert(d[compression_at] == p5[compression_at]);
    }
    let ext_len_at = compression_at + 1 + m;
    let start = ext_len_at + 2;
    assert(d.subrange(ext_len_at, d.len() as int) =~= u16_be((bl + 4) as nat) + u16_be(0) + u16_be(bl as nat) + body);
    assert(be16(d, ext_len_at) == bl + 4) by {
        assert(d[ext_len_at] == u16_be((bl + 4) as nat)[0]);
        assert(d[ext_len_at + 1] == u16_be((bl + 4) as nat)[1]);
    }
    assert(d.len() == start + bl + 4);
    assert(extension_block(d) == Some((start, start + bl + 4)));
    assert(be16(d, start) == 0) by {
        assert(d[start] == u16_be(0)[0]);
        assert(d[start + 1] == u16_be(0)[1]);
    }
    assert(be16(d, start + 2) == bl) by {
        assert(d[start + 2] == u16_be(bl as nat)[0]);
        assert(d[start + 3] == u16_be(bl as nat)[1]);
    }
    assert(d.subrange(start + 4, start + 4 + bl) =~= body);
}


/// An extension: its type and its body's length, two bytes each, then the
/// body.
pub open spec fn extension_bytes(ext_type: nat, body: Seq<u8>) -> Seq<u8> {
    u16_be(ext_type) + u16_be(body.len()) + body
}

/// Extensions laid out one after the other, in order.
pub open spec fn extensions_bytes(exts: Seq<(nat, Seq<u8>)>) -> Seq<u8>
    decreases exts.len(),
{
    if exts.len() == 0 {
        Seq::empty()
    } else {
        extension_bytes(exts[0].0, exts[0].1) + extensions_bytes(exts.drop_first())
    }
}

/// Extensions that are not server-name extensions and that fit their
/// two-byte fields.
pub open spec fn other_extensions(exts: Seq<(nat, Seq<u8>)>) -> bool {
    forall|i: int|
        0 <= i < exts.len() ==> (#[trigger] exts[i]).0 != 0 && exts[i].0 < 65536 && exts[i].1.len()
            < 65536
}

/// A Client Hello like [`client_hello_bytes`] whose extension block holds
/// the extensions `others` and then a server-name extension for `host`.
pub open spec fn client_hello_after(
    header: Seq<u8>,
    session: Seq<u8>,
    suites: Seq<u8>,
    compression: Seq<u8>,
    others: Seq<(nat, Seq<u8>)>,
    host: Seq<u8>,
) -> Seq<u8> {
    let block = extensions_bytes(others) + extension_bytes(0, server_name_body(host));
    header + seq![session.len() as u8] + session + u16_be(suites.len()) + suites + seq![
        compression.len() as u8,
    ] + compression + u16_be(block.len()) + block
}

proof fn lemma_be16_in(d: Seq<u8>, pos: int, end: int, n: nat, rest: Seq<u8>)
    requires
        0 <= pos <= end,
        end <= d.len(),
        n < 65536,
        d.subrange(pos, end) == u16_be(n) + rest,
    ensures
        pos + 2 <= end,
        be16(d, pos) == n,
{
    lemma_u16_be(n);
    let sub = d.subrange(pos, end);
    assert(sub.len() == end - pos);
    assert((u16_be(n) + rest).len() == 2 + rest.len());
    assert(sub[0] == u16_be(n)[0] && sub[1] == u16_be(n)[1]);
    assert(d[pos] == sub[0] && d[pos + 1] == sub[1]);
}

proof fn lemma_subrange_suffix(d: Seq<u8>, pos: int, end: int, a: Seq<u8>, b: Seq<u8>)
    requires
        0 <= pos <= end,
        end <= d.len(),
        d.subrange(pos, end) == a + b,
    ensures
        pos + a.len() <= end,
        d.subrange(pos + a.len(), end) == b,
{
    let sub = d.subrange(pos, end);
    assert(sub.len() == a.len() + b.len());
    assert forall|k: int| 0 <= k < b.len() implies d.subrange(pos + a.len(), end)[k] == b[k] by {
        assert(sub[a.len() + k] == (a + b)[a.len() + k]);
    }
    assert(d.subrange(pos + a.len(), end) =~= b);
}

proof fn lemma_extensions_walk(d: Seq<u8>, pos: int, end: int, others: Seq<(nat, Seq<u8>)>, host: Seq<u8>)
    requires
        0 <= pos <= end,
        end <= d.len(),
        other_extensions(others),
        host.len() + 9 < 65536,
        d.subrange(pos, end) == extensions_bytes(others) + extension_bytes(0, server_name_body(host)),
    ensures
        sni_in_extensions(d, pos, end) == Some(host_text(host)),
    decreases others.len(),
{
    let body = server_name_body(host);
    let bl = body.len();
    lemma_server_name_body(host);
    lemma_u16_be(0);
    lemma_u16_be(bl);
    let sub = d.subrange(pos, end);
    if others.len() == 0 {
        assert(extensions_bytes(others) =~= Seq::<u8>::empty());
        assert(sub =~= u16_be(0) + (u16_be(bl) + body));
        lemma_be16_in(d, pos, end, 0, u16_be(bl) + body);
        lemma_subrange_suffix(d, pos, end, u16_be(0), u16_be(bl) + body);
        lemma_be16_in(d, pos + 2, end, bl, body);
        assert(end == pos + 4 + bl);
        lemma_subrange_suffix(d, pos + 2, end, u16_be(bl), body);
    } else {
        let t = others[0].0;
        let b = others[0].1;
        let rest = others.drop_first();
        let tail = extensions_bytes(rest) + extension_bytes(0, body);
        assert(other_extensions(rest)) by {
            assert forall|i: int| 0 <= i < rest.len() implies (#[trigger] rest[i]).0 != 0 && rest[i].0
                < 65536 && rest[i].1.len() < 65536 by {
                assert(rest[i] == others[i + 1]);
            }
        }
        assert(others[0].0 != 0 && others[0].0 < 65536 && others[0].1.len() < 65536);
        assert(sub =~= u16_be(t) + (u16_be(b.len()) + b + tail));
        lemma_be16_in(d, pos, end, t, u16_be(b.len()) + b + tail);
        lemma_subrange_suffix(d, pos, end, u16_be(t), u16_be(b.len()) + b + tail);
        assert(u16_be(b.len()) + b + tail =~= u16_be(b.len()) + (b + tail));
        lemma_be16_in(d, pos + 2, end, b.len(), b + tail);
        lemma_subrange_suffix(d, pos + 2, end, u16_be(b.len()), b + tail);
        let next = pos + 4 + b.len();
        lemma_subrange_suffix(d, pos + 4, end, b, tail);
        lemma_extensions_walk(d, next, end, rest, host);
    }
}

/// SNI extraction past other extensions: however many extensions that are
/// not server-name extensions come first in the block, the host name that
/// the following server-name extension carries is the metadata that HTTPS
/// identification gives.
pub proof fn lemma_client_hello_sni_after(
    header: Seq<u8>,
    session: Seq<u8>,
    suites: Seq<u8>,
    compression: Seq<u8>,
    others: Seq<(nat, Seq<u8>)>,
    host: Seq<u8>,
)
    requires
        header.len() == 43,
        header[0] == 0x16,
        header[1] == 0x03,
        header[5] == 0x01,
        session.len() < 256,
        suites.len() < 65536,
        compression.len() < 256,
        host.len() + 9 < 65536,
        other_extensions(others),
        extensions_bytes(others).len() + host.len() + 9 < 65536,
    ensures
        client_hello_sni(client_hello_after(header, session, suites, compression, others, host)) == Some(
            Some(host_text(host)),
        ),
{
    let body = server_name_body(host);
    let block = extensions_bytes(others) + extension_bytes(0, body);
    let s = session.len() as int;
    let c = suites.len() as int;
    let m = compression.len() as int;
    let kl = block.len() as int;
    lemma_u16_be(c as nat);
    lemma_u16_be(kl as nat);
    let p1 = header + seq![s as u8];
    let p2 = p1 + session;
    let p3 = p2 + u16_be(c as nat);
    let p4 = p3 + suites;
    let p5 = p4 + seq![m as u8];
    let p6 = p5 + compression;
    let p7 = p6 + u16_be(kl as nat);
    let d = p7 + block;
    assert(d == client_hello_after(header, session, suites, compression, others, host));
    assert(d.subrange(0, 43) =~= header) by {
        assert(p7.subrange(0, 43) =~= header);
    }
    assert(d[0] == header[0] && d[1] == header[1] && d[5] == header[5]) by {
        assert(d.subrange(0, 43)[0] == d[0]);
        assert(d.subrange(0, 43)[1] == d[1]);
        assert(d.subrange(0, 43)[5] == d[5]);
    }
    assert(d[43] == s) by {
        assert(d.subrange(0, p1.len() as int) =~= p1) by {
            assert(p7.subrange(0, p1.len() as int) =~= p1);
        }
        assert(d[43] == d.subrange(0, p1.len() as int)[43]);
    }
    let suites_at = 44 + s;
    assert(be16(d, suites_at) == c) by {
        assert(d.subrange(0, p3.len() as int) =~= p3) by {
            assert(p7.subrange(0, p3.len() as int) =~= p3);
        }
        assert(d[suites_at] == p3[suites_at] && d[suites_at + 1] == p3[suites_at + 1]);
        assert(p3[suites_at] == u16_be(c as nat)[0] && p3[suites_at + 1] == u16_be(c as nat)[1]);
    }
    let compression_at = suites_at + 2 + c;
    assert(d[compression_at] == m) by {
        assert(d.subrange(0, p5.len() as int) =~= p5) by {
            assert(p7.subrange(0, p5.len() as int) =~= p5);
        }
        assert(d[compression_at] == p5[compression_at]);
    }
    let ext_len_at = compression_at + 1 + m;
    let start = ext_len_at + 2;
    assert(d.subrange(ext_len_at, d.len() as int) =~= u16_be(kl as nat) + block);
    lemma_be16_in(d, ext_len_at, d.len() as int, kl as nat, block);
    assert(d.len() == start + kl);
    assert(extension_block(d) == Some((start, start + kl)));
    assert(d.subrange(start, start + kl) =~= block);
    lemma_extensions_walk(d, start, start + kl, others, host);
}

} // verus!
