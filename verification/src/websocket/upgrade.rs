//! The HTTP upgrade handshake that opens the WebSocket tunnel: header lines
//! are split out of the request text, the required headers are checked, and
//! the accept token is computed from the client's key.

use vstd::prelude::*;
use vstd::string::StrSliceExecFns;

use bytes::BytesMut;
use sha1::Digest;

use crate::bytebuf::buf_len;
use crate::bytebuf::buf_put_slice;
use crate::bytebuf::bytes_view;
use crate::error::DecodeError;
use crate::error::EncodeError;
use crate::utils::decode_utf8_with_length;

verus! {

broadcast use
    vstd::seq_lib::lemma_seq_skip_of_skip,
    vstd::seq_lib::lemma_seq_skip_len,
    vstd::seq_lib::lemma_seq_skip_index,
;

/// The fixed GUID that the accept token mixes into the client's key.
pub open spec fn websocket_guid() -> Seq<char> {
    "258EAFA5-E914-47DA-95CA-C5AB0DC85B11"@
}

/// The SHA-1 digest of a byte sequence.  Its value is fixed by the SHA-1
/// standard; only the hashing call below speaks for it.
pub uninterp spec fn sha1_of(data: Seq<u8>) -> Seq<u8>;

/// The base64 text of a byte sequence.  Its value is fixed by the base64
/// alphabet; only the encoding call below speaks for it.
pub uninterp spec fn base64_of(data: Seq<u8>) -> Seq<char>;

/// Relies on `sha1::Sha1` via the `Digest` trait: the digest is a function
/// of the input bytes alone.
#[verifier::external_body]
fn sha1_digest(data: &[u8]) -> (r: Vec<u8>)
    ensures
        r@ == sha1_of(data@),
{
    let mut hasher = sha1::Sha1::new();
    hasher.update(data);
    hasher.finalize().to_vec()
}

/// Relies on `base64::encode`: the text is a function of the input bytes
/// alone.
#[verifier::external_body]
fn base64_encode(data: &[u8]) -> (r: String)
    ensures
        r@ == base64_of(data@),
{
    base64::encode(data)
}

/// The index of the first CRLF pair in `s`, or past the end when none is
/// left.
pub open spec fn first_crlf(s: Seq<u8>) -> int
    decreases s.len(),
{
    if s.len() < 2 {
        s.len() as int
    } else if s[0] == 13 && s[1] == 10 {
        0
    } else {
        1 + first_crlf(s.skip(1))
    }
}

/// The lines of `s`, split on CRLF pairs; the delimiters are dropped.
pub open spec fn split_crlf(s: Seq<u8>) -> Seq<Seq<u8>>
    decreases s.len(),
{
    let i = first_crlf(s);
    if 0 <= i && i + 2 <= s.len() {
        seq![s.take(i)] + split_crlf(s.skip(i + 2))
    } else {
        seq![s]
    }
}

/// The index of the first ": " pair in `s`, or past the end when none is
/// left.
pub open spec fn first_sep(s: Seq<u8>) -> int
    decreases s.len(),
{
    if s.len() < 2 {
        s.len() as int
    } else if s[0] == 58 && s[1] == 32 {
        0
    } else {
        1 + first_sep(s.skip(1))
    }
}

/// One header line's name and value, split at the first ": "; a line
/// without one carries no header.
pub open spec fn split_kv(line: Seq<u8>) -> Option<(Seq<u8>, Seq<u8>)> {
    let i = first_sep(line);
    if 0 <= i && i + 2 <= line.len() {
        Some((line.take(i), line.skip(i + 2)))
    } else {
        None
    }
}

/// The header pairs of the given lines, in order; lines without a ": " are
/// passed over.
pub open spec fn headers_of(lines: Seq<Seq<u8>>) -> Seq<(Seq<u8>, Seq<u8>)>
    decreases lines.len(),
{
    if lines.len() == 0 {
        Seq::empty()
    } else {
        match split_kv(lines[0]) {
            Some(kv) => seq![kv] + headers_of(lines.skip(1)),
            None => headers_of(lines.skip(1)),
        }
    }
}

/// The value of the last header with the given name, as a lookup table
/// filled in order would hold it.
pub open spec fn header_lookup(hs: Seq<(Seq<u8>, Seq<u8>)>, key: Seq<u8>) -> Option<Seq<u8>>
    decreases hs.len(),
{
    if hs.len() == 0 {
        None
    } else if hs.last().0 == key {
        Some(hs.last().1)
    } else {
        header_lookup(hs.drop_last(), key)
    }
}

/// What decoding an upgrade request yields: the accept token's characters,
/// or why the request was refused.  The whole buffered text must be UTF-8;
/// `Upgrade`, `Connection` and `Sec-WebSocket-Protocol` must hold exactly
/// `websocket`, `Upgrade` and `mqtt`; the token is the base64 text of the
/// SHA-1 digest of the client's key joined with the protocol GUID.
pub open spec fn parse_upgrade(s: Seq<u8>) -> Result<Seq<char>, DecodeError> {
    if !vstd::utf8::valid_utf8(s) {
        Err(DecodeError::Utf8Error)
    } else {
        let hs = headers_of(split_crlf(s));
        if header_lookup(hs, vstd::utf8::encode_utf8("Upgrade"@)) != Some(
            vstd::utf8::encode_utf8("websocket"@),
        ) {
            Err(DecodeError::FormatError)
        } else if header_lookup(hs, vstd::utf8::encode_utf8("Connection"@)) != Some(
            vstd::utf8::encode_utf8("Upgrade"@),
        ) {
            Err(DecodeError::FormatError)
        } else if header_lookup(hs, vstd::utf8::encode_utf8("Sec-WebSocket-Protocol"@)) != Some(
            vstd::utf8::encode_utf8("mqtt"@),
        ) {
            Err(DecodeError::FormatError)
        } else {
            match header_lookup(hs, vstd::utf8::encode_utf8("Sec-WebSocket-Key"@)) {
                None => Err(DecodeError::FormatError),
                Some(key) => Ok(
                    base64_of(sha1_of(key + vstd::utf8::encode_utf8(websocket_guid()))),
                ),
            }
        }
    }
}

/// The views of a collected header table.
pub open spec fn view_headers(hs: Seq<(Vec<u8>, Vec<u8>)>) -> Seq<(Seq<u8>, Seq<u8>)> {
    hs.map_values(|p: (Vec<u8>, Vec<u8>)| (p.0@, p.1@))
}

/// Finds the next CRLF pair at or after `pos`.
fn find_crlf(s: &[u8], pos: usize) -> (r: usize)
    requires
        pos <= s@.len(),
    ensures
        r as int == pos + first_crlf(s@.skip(pos as int)),
        pos <= r <= s@.len(),
    decreases s@.len() - pos,
{
    if s.len() < 2 || pos > s.len() - 2 {
        proof {
            assert(s@.skip(pos as int).len() < 2);
        }
        return s.len();
    }
    let b0 = *vstd::slice::slice_index_get(s, pos);
    let b1 = *vstd::slice::slice_index_get(s, pos + 1);
    proof {
        assert(s@.skip(pos as int)[0] == s@[pos as int]);
        assert(s@.skip(pos as int)[1] == s@[pos as int + 1]);
    }
    if b0 == 13 && b1 == 10 {
        pos
    } else {
        let r = find_crlf(s, pos + 1);
        proof {
            assert(s@.skip(pos as int).skip(1) =~= s@.skip(pos as int + 1));
        }
        r
    }
}

/// Finds the next ": " pair at or after `pos`.
fn find_sep(s: &[u8], pos: usize) -> (r: usize)
    requires
        pos <= s@.len(),
    ensures
        r as int == pos + first_sep(s@.skip(pos as int)),
        pos <= r <= s@.len(),
    decreases s@.len() - pos,
{
    if s.len() < 2 || pos > s.len() - 2 {
        proof {
            assert(s@.skip(pos as int).len() < 2);
        }
        return s.len();
    }
    let b0 = *vstd::slice::slice_index_get(s, pos);
    let b1 = *vstd::slice::slice_index_get(s, pos + 1);
    proof {
        assert(s@.skip(pos as int)[0] == s@[pos as int]);
        assert(s@.skip(pos as int)[1] == s@[pos as int + 1]);
    }
    if b0 == 58 && b1 == 32 {
        pos
    } else {
        let r = find_sep(s, pos + 1);
        proof {
            assert(s@.skip(pos as int).skip(1) =~= s@.skip(pos as int + 1));
        }
        r
    }
}

/// Splits one line at its first ": ".
fn split_line(line: &[u8]) -> (r: Option<(Vec<u8>, Vec<u8>)>)
    ensures
        match (r, split_kv(line@)) {
            (Some(p), Some(kv)) => p.0@ == kv.0 && p.1@ == kv.1,
            (None, None) => true,
            _ => false,
        },
{
    let i = find_sep(line, 0);
    proof {
        assert(line@.skip(0) =~= line@);
    }
    if line.len() >= 2 && i <= line.len() - 2 {
        let key = vstd::slice::slice_to_vec(vstd::slice::slice_subrange(line, 0, i));
        let value = vstd::slice::slice_to_vec(vstd::slice::slice_subrange(line, i + 2, line.len()));
        proof {
            assert(line@.subrange(0, i as int) =~= line@.take(i as int));
            assert(line@.subrange(i as int + 2, line@.len() as int) =~= line@.skip(i as int + 2));
        }
        Some((key, value))
    } else {
        None
    }
}

/// Collects the header pairs of the text from `pos` on into `out`.
fn collect_headers(s: &[u8], pos: usize, out: &mut Vec<(Vec<u8>, Vec<u8>)>)
    requires
        pos <= s@.len(),
    ensures
        view_headers(final(out)@) == view_headers(old(out)@) + headers_of(
            split_crlf(s@.skip(pos as int)),
        ),
    decreases s@.len() - pos,
{
    let ghost t = s@.skip(pos as int);
    let i = find_crlf(s, pos);
    let ghost fc = first_crlf(t);
    let ghost lines = split_crlf(t);
    if s.len() >= 2 && i <= s.len() - 2 {
        let line = vstd::slice::slice_subrange(s, pos, i);
        proof {
            assert(line@ =~= t.take(fc));
            assert(lines == seq![t.take(fc)] + split_crlf(t.skip(fc + 2)));
            assert(lines[0] == t.take(fc));
            assert(lines.skip(1) =~= split_crlf(t.skip(fc + 2)));
        }
        let ghost mid = out@;
        match split_line(line) {
            Some(p) => {
                out.push(p);
                proof {
                    assert(view_headers(out@) =~= view_headers(mid) + seq![(p.0@, p.1@)]);
                }
            },
            None => {},
        }
        let ghost mid2 = out@;
        collect_headers(s, i + 2, out);
        proof {
            assert(s@.skip(i as int + 2) =~= t.skip(fc + 2));
            assert(view_headers(out@) =~= view_headers(old(out)@) + headers_of(lines));
        }
    } else {
        let line = vstd::slice::slice_subrange(s, pos, s.len());
        proof {
            assert(line@ =~= t);
            assert(lines == seq![t]);
            assert(lines[0] == t);
            assert(lines.skip(1) =~= Seq::<Seq<u8>>::empty());
            assert(headers_of(Seq::<Seq<u8>>::empty()) == Seq::<(Seq<u8>, Seq<u8>)>::empty());
        }
        let ghost mid = out@;
        match split_line(line) {
            Some(p) => {
                out.push(p);
                proof {
                    assert(view_headers(out@) =~= view_headers(mid) + seq![(p.0@, p.1@)]);
                    assert(headers_of(lines) =~= seq![(p.0@, p.1@)]);
                    assert(view_headers(out@) =~= view_headers(old(out)@) + headers_of(lines));
                }
            },
            None => {
                proof {
                    assert(headers_of(lines) =~= Seq::<(Seq<u8>, Seq<u8>)>::empty());
                    assert(view_headers(out@) =~= view_headers(old(out)@) + headers_of(lines));
                }
            },
        }
    }
}

/// Splits CRLF-delimited `Key: Value` lines into a lookup table; a later
/// line with the same name shadows an earlier one, as a table filled in
/// order would.
pub fn convert_headers_to_hashmap(headers: &[u8]) -> (r: Vec<(Vec<u8>, Vec<u8>)>)
    ensures
        view_headers(r@) == headers_of(split_crlf(headers@)),
{
    let mut out: Vec<(Vec<u8>, Vec<u8>)> = Vec::new();
    proof {
        assert(headers@.skip(0) =~= headers@);
        assert(view_headers(Seq::<(Vec<u8>, Vec<u8>)>::empty()) =~= Seq::<
            (Seq<u8>, Seq<u8>),
        >::empty());
    }
    collect_headers(headers, 0, &mut out);
    proof {
        assert(view_headers(out@) =~= headers_of(split_crlf(headers@)));
    }
    out
}

/// Whether two byte strings hold the same bytes.
fn bytes_eq(a: &[u8], b: &[u8]) -> (r: bool)
    ensures
        r == (a@ == b@),
{
    if a.len() != b.len() {
        proof {
            assert(a@ != b@);
        }
        return false;
    }
    let mut i: usize = 0;
    while i < a.len()
        invariant
            i <= a@.len(),
            a@.len() == b@.len(),
            forall|j: int| 0 <= j < i ==> a@[j] == b@[j],
        decreases a@.len() - i,
    {
        if *vstd::slice::slice_index_get(a, i) != *vstd::slice::slice_index_get(b, i) {
            proof {
                assert(a@[i as int] != b@[i as int]);
            }
            return false;
        }
        i = i + 1;
    }
    proof {
        assert(a@ =~= b@);
    }
    true
}

/// The value of the last header with the given name, if any.
fn get_header<'a>(headers: &'a Vec<(Vec<u8>, Vec<u8>)>, key: &[u8]) -> (r: Option<&'a Vec<u8>>)
    ensures
        match (r, header_lookup(view_headers(headers@), key@)) {
            (Some(v), Some(sv)) => v@ == sv,
            (None, None) => true,
            _ => false,
        },
{
    let ghost hs = view_headers(headers@);
    let mut i: usize = headers.len();
    proof {
        assert(hs.take(i as int) =~= hs);
    }
    while i > 0
        invariant
            i <= headers@.len(),
            hs == view_headers(headers@),
            hs.len() == headers@.len(),
            header_lookup(hs, key@) == header_lookup(hs.take(i as int), key@),
        decreases i,
    {
        i = i - 1;
        if bytes_eq(headers[i].0.as_slice(), key) {
            proof {
                assert(hs.take(i as int + 1).last() == hs[i as int]);
                assert(hs[i as int].0 == headers@[i as int].0@);
            }
            return Some(&headers[i].1);
        }
        proof {
            assert(hs.take(i as int + 1).last() == hs[i as int]);
            assert(hs.take(i as int + 1).drop_last() =~= hs.take(i as int));
        }
    }
    proof {
        assert(hs.take(0) =~= Seq::<(Seq<u8>, Seq<u8>)>::empty());
    }
    None
}

/// The upgrade handshake codec: requests in, the accept token out.
pub struct WebsocketUpgradeCodec {}

/// The fixed response text before the accept token.
pub open spec fn response_prefix() -> Seq<char> {
    "HTTP/1.1 101 Switching Protocols\r\nUpgrade: websocket\r\nConnection: Upgrade\r\nSec-WebSocket-Protocol: mqtt\r\nSec-WebSocket-Accept: "@
}

/// The response bytes for a given accept token.
pub open spec fn upgrade_response_bytes(token: Seq<char>) -> Seq<u8> {
    vstd::utf8::encode_utf8(response_prefix()) + vstd::utf8::encode_utf8(token)
        + vstd::utf8::encode_utf8("\r\n\r\n"@)
}

impl WebsocketUpgradeCodec {
    /// Reads the whole buffered request text and computes the accept token
    /// from its headers, consuming the buffer.
    #[verifier::rlimit(100)]
    #[verifier::spinoff_prover]
    pub fn decode(&mut self, buffer: &mut BytesMut) -> (r: Result<Option<String>, DecodeError>)
        ensures
            match parse_upgrade(bytes_view(*old(buffer))) {
                Ok(tok) => r matches Ok(Some(t)) && t@ == tok && bytes_view(*final(buffer)).len()
                    == 0,
                Err(e) => r matches Err(e2) && e2 == e,
            },
    {
        broadcast use vstd::utf8::decode_utf8_encode_utf8;

        let ghost s = bytes_view(*buffer);
        let len = buf_len(buffer);
        let text = match decode_utf8_with_length(buffer, len) {
            Ok(t) => t,
            Err(e) => { return Err(e) },
        };
        proof {
            assert(s.take(len as int) =~= s);
            assert(text@ == vstd::utf8::decode_utf8(s));
            assert(vstd::utf8::encode_utf8(text@) == s);
        }
        let bytes = text.as_str().as_bytes_vec();
        let headers = convert_headers_to_hashmap(bytes.as_slice());
        let upgrade_ok = match get_header(&headers, "Upgrade".as_bytes()) {
            Some(v) => bytes_eq(v.as_slice(), "websocket".as_bytes()),
            None => false,
        };
        if !upgrade_ok {
            return Err(DecodeError::FormatError);
        }
        let connection_ok = match get_header(&headers, "Connection".as_bytes()) {
            Some(v) => bytes_eq(v.as_slice(), "Upgrade".as_bytes()),
            None => false,
        };
        if !connection_ok {
            return Err(DecodeError::FormatError);
        }
        let protocol_ok = match get_header(&headers, "Sec-WebSocket-Protocol".as_bytes()) {
            Some(v) => bytes_eq(v.as_slice(), "mqtt".as_bytes()),
            None => false,
        };
        if !protocol_ok {
            return Err(DecodeError::FormatError);
        }
        let websocket_key = match get_header(&headers, "Sec-WebSocket-Key".as_bytes()) {
            Some(k) => k,
            None => { return Err(DecodeError::FormatError) },
        };
        let mut data: Vec<u8> = vstd::slice::slice_to_vec(websocket_key.as_slice());
        let mut guid = "258EAFA5-E914-47DA-95CA-C5AB0DC85B11".as_bytes_vec();
        data.append(&mut guid);
        let digest = sha1_digest(data.as_slice());
        let token = base64_encode(digest.as_slice());
        Ok(Some(token))
    }

    /// Writes the fixed `101 Switching Protocols` response with the accept
    /// token filled in; this always succeeds.
    pub fn encode(&mut self, websocket_key: String, buffer: &mut BytesMut) -> (r: Result<
        (),
        EncodeError,
    >)
        ensures
            r == Ok::<(), EncodeError>(()),
            bytes_view(*final(buffer)) == bytes_view(*old(buffer)) + upgrade_response_bytes(
                websocket_key@,
            ),
    {
        buf_put_slice(
            buffer,
            "HTTP/1.1 101 Switching Protocols\r\nUpgrade: websocket\r\nConnection: Upgrade\r\nSec-WebSocket-Protocol: mqtt\r\nSec-WebSocket-Accept: ".as_bytes(),
        );
        buf_put_slice(buffer, websocket_key.as_str().as_bytes());
        buf_put_slice(buffer, "\r\n\r\n".as_bytes());
        proof {
            assert(bytes_view(*buffer) =~= bytes_view(*old(buffer)) + upgrade_response_bytes(
                websocket_key@,
            ));
        }
        Ok(())
    }
}

} // verus!
