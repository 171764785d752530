//! The WebSocket frame tunnel: binary data frames, client masking on the
//! way in, fragment reassembly, and one MQTT packet out per successful call.

use vstd::prelude::*;

use bytes::BytesMut;

use crate::bytebuf::buf_advance;
use crate::bytebuf::buf_append;
use crate::bytebuf::buf_clone;
use crate::bytebuf::buf_get_u16;
use crate::bytebuf::buf_get_u64;
use crate::bytebuf::buf_get_u8;
use crate::bytebuf::buf_len;
use crate::bytebuf::buf_new;
use crate::bytebuf::buf_put_slice;
use crate::bytebuf::buf_put_u16;
use crate::bytebuf::buf_put_u64;
use crate::bytebuf::buf_put_u8;
use crate::bytebuf::buf_take;
use crate::bytebuf::bytes_view;
use crate::bytebuf::u16_be_bytes;
use crate::bytebuf::u64_be_bytes;
use crate::codec::frame_bytes;
use crate::codec::parse_frame;
use crate::codec::FrameParse;
use crate::codec::MQTTCodec;
use crate::error::DecodeError;
use crate::error::EncodeError;
use crate::types::body_bytes;
use crate::types::packet_body_err;
use crate::types::packet_enc_req;
use crate::types::DecodedPacket;
use crate::types::DecodedPacketV;
use crate::variable_integer::VLI_MAX;

verus! {

broadcast use
    vstd::seq_lib::lemma_seq_skip_of_skip,
    vstd::seq_lib::lemma_seq_skip_len,
    vstd::seq_lib::lemma_seq_skip_index,
;

/// What reading one WebSocket frame from the front of a byte sequence
/// yields: its FIN bit and unmasked payload with the frame's byte count, a
/// request for more bytes, or a malformed frame.
pub enum WsFrameParse {
    Frame { fin: bool, payload: Seq<u8>, used: int },
    Incomplete,
    Bad,
}

/// Reads one frame: FIN, the reserved bits, which must be clear, the binary
/// opcode, the mask bit, the 7-bit length with its 16-bit and 64-bit
/// extensions, the mask key when masked, and the payload, unmasked by
/// XOR-ing each byte with the key byte at its index modulo four.
pub open spec fn parse_ws_frame(s: Seq<u8>) -> WsFrameParse {
    if s.len() < 2 {
        WsFrameParse::Incomplete
    } else {
        let b0 = s[0];
        let fin = (b0 as int / 128) % 2 == 1;
        let rsv = (b0 as int / 16) % 8;
        let opcode = b0 as int % 16;
        if rsv != 0 || opcode != 2 {
            WsFrameParse::Bad
        } else {
            let b1 = s[1];
            let mask = (b1 as int / 128) % 2 == 1;
            let l7 = b1 as int % 128;
            let need_len: int = if l7 < 126 {
                0
            } else if l7 == 126 {
                2
            } else {
                8
            };
            if s.len() < 2 + need_len {
                WsFrameParse::Incomplete
            } else {
                let plen: int = if l7 < 126 {
                    l7
                } else if l7 == 126 {
                    s[2] as int * 0x100 + s[3] as int
                } else {
                    s[2] as int * 0x100000000000000 + s[3] as int * 0x1000000000000 + s[4] as int
                        * 0x10000000000 + s[5] as int * 0x100000000 + s[6] as int * 0x1000000
                        + s[7] as int * 0x10000 + s[8] as int * 0x100 + s[9] as int
                };
                let loff = 2 + need_len;
                if mask && s.len() < loff + 4 {
                    WsFrameParse::Incomplete
                } else {
                    let off: int = if mask {
                        loff + 4
                    } else {
                        loff
                    };
                    if s.len() - off < plen {
                        WsFrameParse::Incomplete
                    } else {
                        let raw = s.subrange(off, off + plen);
                        let payload = if mask {
                            let key = s.subrange(loff, loff + 4);
                            Seq::new(plen as nat, |i: int| raw[i] ^ key[i % 4])
                        } else {
                            raw
                        };
                        WsFrameParse::Frame { fin, payload, used: off + plen }
                    }
                }
            }
        }
    }
}

/// What accumulating frames until a FIN frame yields: the reassembled bytes
/// and the count of outer bytes consumed, or a request for more bytes, or a
/// malformed frame.
pub enum WsFragments {
    Assembled { data: Seq<u8>, consumed: int },
    Incomplete,
    Bad,
}

/// Appends frame payloads to `acc`, starting `consumed` bytes into `s`,
/// until a frame with FIN set ends the message.
pub open spec fn ws_fragments(s: Seq<u8>, consumed: int, acc: Seq<u8>) -> WsFragments
    decreases s.len() - consumed,
{
    match parse_ws_frame(s.skip(consumed)) {
        WsFrameParse::Incomplete => WsFragments::Incomplete,
        WsFrameParse::Bad => WsFragments::Bad,
        WsFrameParse::Frame { fin, payload, used } => {
            if used <= 0 || consumed + used > s.len() {
                WsFragments::Bad
            } else if fin {
                WsFragments::Assembled { data: acc + payload, consumed: consumed + used }
            } else {
                ws_fragments(s, consumed + used, acc + payload)
            }
        },
    }
}

/// What one decode attempt on the outer buffer yields.
pub enum WsParse {
    Pkt { p: DecodedPacketV, used: int },
    Incomplete,
    Bad,
}

/// Accumulates whole messages into `acc` and tries one MQTT packet on the
/// reassembled bytes after each; a packet commits the outer bytes consumed
/// so far, anything else keeps accumulating until the bytes run out.
pub open spec fn ws_parse_at(s: Seq<u8>, consumed: int, acc: Seq<u8>) -> WsParse
    decreases s.len() - consumed,
{
    if consumed >= s.len() {
        WsParse::Incomplete
    } else {
        match ws_fragments(s, consumed, acc) {
            WsFragments::Incomplete => WsParse::Incomplete,
            WsFragments::Bad => WsParse::Bad,
            WsFragments::Assembled { data, consumed: c2 } => {
                match parse_frame(data) {
                    FrameParse::Pkt { p, used: _ } => WsParse::Pkt { p, used: c2 },
                    _ => {
                        if c2 <= consumed || c2 > s.len() {
                            WsParse::Bad
                        } else {
                            ws_parse_at(s, c2, data)
                        }
                    },
                }
            },
        }
    }
}

/// Reads one WebSocket-framed MQTT stream from the front of `s`.
pub open spec fn parse_ws(s: Seq<u8>) -> WsParse {
    ws_parse_at(s, 0, Seq::empty())
}

/// The single unmasked binary frame the encoder wraps a payload in.
pub open spec fn ws_frame_wrap(payload: Seq<u8>) -> Seq<u8> {
    seq![0x82u8] + (if payload.len() < 126 {
        seq![payload.len() as u8]
    } else if payload.len() < 0x10000 {
        seq![126u8] + u16_be_bytes(payload.len() as u16)
    } else {
        u64_be_bytes(payload.len() as u64)
    }) + payload
}

/// The in-flight result of reading one frame from the buffer.
pub enum WsFrameStatus {
    Frame(bool, Vec<u8>),
    NeedMore,
    Malformed,
}

/// Reads one frame, consuming it only when it is whole and well formed.
#[verifier::rlimit(100)]
#[verifier::spinoff_prover]
fn read_ws_frame(buffer: &mut BytesMut) -> (r: WsFrameStatus)
    ensures
        match parse_ws_frame(bytes_view(*old(buffer))) {
            WsFrameParse::Frame { fin, payload, used } => r matches WsFrameStatus::Frame(f, pl)
                && f == fin && pl@ == payload && 2 <= used <= bytes_view(*old(buffer)).len()
                && bytes_view(*final(buffer)) == bytes_view(*old(buffer)).skip(used),
            WsFrameParse::Incomplete => r == WsFrameStatus::NeedMore,
            WsFrameParse::Bad => r == WsFrameStatus::Malformed,
        },
{
    let ghost s = bytes_view(*buffer);
    if buf_len(buffer) < 2 {
        return WsFrameStatus::NeedMore;
    }
    let first_byte = buf_get_u8(buffer);
    let fin = (first_byte / 128) % 2 == 1;
    if (first_byte / 16) % 8 != 0 || first_byte % 16 != 2 {
        return WsFrameStatus::Malformed;
    }
    let second_byte = buf_get_u8(buffer);
    let mask = (second_byte / 128) % 2 == 1;
    let l7 = second_byte % 128;
    let payload_length: u64 = if l7 < 126 {
        l7 as u64
    } else if l7 == 126 {
        if buf_len(buffer) < 2 {
            return WsFrameStatus::NeedMore;
        }
        buf_get_u16(buffer) as u64
    } else {
        if buf_len(buffer) < 8 {
            return WsFrameStatus::NeedMore;
        }
        buf_get_u64(buffer)
    };
    let key: Vec<u8> = if mask {
        if buf_len(buffer) < 4 {
            return WsFrameStatus::NeedMore;
        }
        buf_take(buffer, 4)
    } else {
        Vec::new()
    };
    if (buf_len(buffer) as u64) < payload_length {
        return WsFrameStatus::NeedMore;
    }
    let plen = payload_length as usize;
    let raw = buf_take(buffer, plen);
    if !mask {
        return WsFrameStatus::Frame(fin, raw);
    }
    let mut message: Vec<u8> = Vec::new();
    let mut i: usize = 0;
    while i < plen
        invariant
            plen == raw@.len(),
            key@.len() == 4,
            i <= plen,
            message@ == Seq::new(i as nat, |j: int| raw@[j] ^ key@[j % 4]),
        decreases plen - i,
    {
        message.push(raw[i] ^ key[i % 4]);
        proof {
            assert(message@ =~= Seq::new((i + 1) as nat, |j: int| raw@[j] ^ key@[j % 4]));
        }
        i = i + 1;
    }
    WsFrameStatus::Frame(fin, message)
}

/// The WebSocket tunnel around the MQTT stream codec.
pub struct WebsocketCodec {}

impl WebsocketCodec {
    /// Attempts to read one MQTT packet through the tunnel.  Outer bytes are
    /// consumed only when an inner packet comes out; too few bytes for a
    /// whole message yield nothing and leave the buffer untouched; a
    /// malformed frame is a terminal error that also leaves it untouched.
    #[verifier::rlimit(100)]
    #[verifier::spinoff_prover]
    pub fn decode(&mut self, buffer: &mut BytesMut) -> (r: Result<
        Option<DecodedPacket>,
        DecodeError,
    >)
        ensures
            match parse_ws(bytes_view(*old(buffer))) {
                WsParse::Pkt { p, used } => r matches Ok(Some(pkt)) && pkt@ == p && 0 <= used
                    <= bytes_view(*old(buffer)).len() && bytes_view(*final(buffer)) == bytes_view(
                    *old(buffer),
                ).skip(used),
                WsParse::Incomplete => r == Ok::<Option<DecodedPacket>, DecodeError>(None)
                    && bytes_view(*final(buffer)) == bytes_view(*old(buffer)),
                WsParse::Bad => r == Err::<Option<DecodedPacket>, DecodeError>(
                    DecodeError::FormatError,
                ) && bytes_view(*final(buffer)) == bytes_view(*old(buffer)),
            },
    {
        let ghost s = bytes_view(*buffer);
        let mut read_buffer = buf_clone(buffer);
        let mut mqtt_buffer = buf_new();
        let ghost mut consumed: int = 0;
        proof {
            assert(s.skip(0) =~= s);
            assert(bytes_view(mqtt_buffer) =~= Seq::<u8>::empty());
        }
        loop
            invariant
                s == bytes_view(*old(buffer)),
                bytes_view(*buffer) == s,
                0 <= consumed <= s.len(),
                bytes_view(read_buffer) == s.skip(consumed),
                parse_ws(s) == ws_parse_at(s, consumed, bytes_view(mqtt_buffer)),
            decreases s.len() - consumed,
        {
            let ghost c_outer = consumed;
            let ghost acc_outer = bytes_view(mqtt_buffer);
            if buf_len(&read_buffer) == 0 {
                return Ok(None);
            }
            let mut fin = false;
            while !fin
                invariant
                    s == bytes_view(*old(buffer)),
                    bytes_view(*buffer) == s,
                    0 <= consumed <= s.len(),
                    bytes_view(read_buffer) == s.skip(consumed),
                    parse_ws(s) == ws_parse_at(s, c_outer, acc_outer),
                    c_outer < s.len(),
                    c_outer <= consumed,
                    !fin ==> ws_fragments(s, c_outer, acc_outer) == ws_fragments(
                        s,
                        consumed,
                        bytes_view(mqtt_buffer),
                    ),
                    fin ==> c_outer < consumed && ws_fragments(s, c_outer, acc_outer)
                        == (WsFragments::Assembled {
                        data: bytes_view(mqtt_buffer),
                        consumed,
                    }),
                decreases (if fin {
                    0int
                } else {
                    1int
                }) + s.len() - consumed,
            {
                let ghost before = bytes_view(read_buffer);
                let len_before = buf_len(&read_buffer);
                let (frame_fin, payload) = match read_ws_frame(&mut read_buffer) {
                    WsFrameStatus::Frame(f, p) => (f, p),
                    WsFrameStatus::NeedMore => { return Ok(None) },
                    WsFrameStatus::Malformed => { return Err(DecodeError::FormatError) },
                };
                let len_after = buf_len(&read_buffer);
                let used = len_before - len_after;
                buf_put_slice(&mut mqtt_buffer, payload.as_slice());
                proof {
                    consumed = consumed + used as int;
                    assert(bytes_view(read_buffer) =~= s.skip(consumed));
                }
                fin = frame_fin;
            }
            let mut codec = MQTTCodec {  };
            let decoded = match codec.decode(&mut mqtt_buffer) {
                Ok(d) => d,
                Err(_) => None,
            };
            match decoded {
                Some(packet) => {
                    let commit = buf_len(buffer) - buf_len(&read_buffer);
                    buf_advance(buffer, commit);
                    return Ok(Some(packet));
                },
                None => {},
            }
        }
    }

    /// Wraps one packet's MQTT frame in a single unmasked binary WebSocket
    /// frame: FIN plus the binary opcode, then the payload length as one
    /// byte below 126, as a marker byte and two bytes below 65,536, or as
    /// eight bytes, then the payload.
    pub fn encode(&mut self, packet: DecodedPacket, buffer: &mut BytesMut) -> (r: Result<
        (),
        EncodeError,
    >)
        requires
            packet_enc_req(packet@),
        ensures
            match packet_body_err(packet@) {
                Some(e) => r == Err::<(), EncodeError>(e) && bytes_view(*final(buffer))
                    == bytes_view(*old(buffer)),
                None => {
                    if body_bytes(packet@).len() > VLI_MAX {
                        r == Err::<(), EncodeError>(EncodeError::VariableIntegerOutOfRangeError)
                            && bytes_view(*final(buffer)) == bytes_view(*old(buffer))
                    } else {
                        r == Ok::<(), EncodeError>(()) && bytes_view(*final(buffer)) == bytes_view(
                            *old(buffer),
                        ) + ws_frame_wrap(frame_bytes(packet@))
                    }
                },
            },
    {
        let mut codec = MQTTCodec {  };
        let mut mqtt_buffer = buf_new();
        match codec.encode(packet, &mut mqtt_buffer) {
            Ok(u) => u,
            Err(e) => { return Err(e) },
        };
        buf_put_u8(buffer, 0x82);
        let payload_length = buf_len(&mqtt_buffer);
        if payload_length < 126 {
            buf_put_u8(buffer, payload_length as u8);
        } else if payload_length < 65536 {
            buf_put_u8(buffer, 126);
            buf_put_u16(buffer, payload_length as u16);
        } else {
            buf_put_u64(buffer, payload_length as u64);
        }
        buf_append(buffer, &mqtt_buffer);
        proof {
            assert(bytes_view(*buffer) =~= bytes_view(*old(buffer)) + ws_frame_wrap(
                frame_bytes(packet@),
            ));
        }
        Ok(())
    }
}

/// A masked binary frame as a client would send it: FIN as requested, the
/// binary opcode, the mask bit over the length, the key, and the payload
/// XOR-masked with the key.
pub open spec fn ws_masked_frame(fin: bool, key: Seq<u8>, payload: Seq<u8>) -> Seq<u8>
    recommends
        key.len() == 4,
{
    seq![(if fin {
        0x82u8
    } else {
        0x02u8
    })] + (if payload.len() < 126 {
        seq![(128 + payload.len()) as u8]
    } else if payload.len() < 0x10000 {
        seq![254u8] + u16_be_bytes(payload.len() as u16)
    } else {
        seq![255u8] + u64_be_bytes(payload.len() as u64)
    }) + key + Seq::new(payload.len(), |i: int| payload[i] ^ key[i % 4])
}

proof fn lemma_xor_cancel(x: u8, y: u8)
    by (bit_vector)
    ensures
        (x ^ y) ^ y == x,
{
}

proof fn lemma_u64_be_digits(x: u64)
    ensures
        ({
            let d = u64_be_bytes(x);
            d[0] as int * 0x100000000000000 + d[1] as int * 0x1000000000000 + d[2] as int
                * 0x10000000000 + d[3] as int * 0x100000000 + d[4] as int * 0x1000000 + d[5] as int
                * 0x10000 + d[6] as int * 0x100 + d[7] as int == x as int
        }),
{
    let xi = x as int;
    vstd::arithmetic::div_mod::lemma_fundamental_div_mod(xi, 0x100);
    vstd::arithmetic::div_mod::lemma_fundamental_div_mod(xi / 0x100, 0x100);
    vstd::arithmetic::div_mod::lemma_div_denominator(xi, 0x100, 0x100);
    vstd::arithmetic::div_mod::lemma_fundamental_div_mod(xi / 0x10000, 0x100);
    vstd::arithmetic::div_mod::lemma_div_denominator(xi, 0x10000, 0x100);
    vstd::arithmetic::div_mod::lemma_fundamental_div_mod(xi / 0x1000000, 0x100);
    vstd::arithmetic::div_mod::lemma_div_denominator(xi, 0x1000000, 0x100);
    vstd::arithmetic::div_mod::lemma_fundamental_div_mod(xi / 0x100000000, 0x100);
    vstd::arithmetic::div_mod::lemma_div_denominator(xi, 0x100000000, 0x100);
    vstd::arithmetic::div_mod::lemma_fundamental_div_mod(xi / 0x10000000000, 0x100);
    vstd::arithmetic::div_mod::lemma_div_denominator(xi, 0x10000000000, 0x100);
    vstd::arithmetic::div_mod::lemma_fundamental_div_mod(xi / 0x1000000000000, 0x100);
    vstd::arithmetic::div_mod::lemma_div_denominator(xi, 0x1000000000000, 0x100);
}

/// Decoding a masked frame, whatever follows it, recovers its FIN bit and
/// its unmasked payload and consumes exactly the frame.
#[verifier::rlimit(100)]
#[verifier::spinoff_prover]
proof fn lemma_ws_masked_frame_parse(fin: bool, key: Seq<u8>, payload: Seq<u8>, rest: Seq<u8>)
    requires
        key.len() == 4,
        payload.len() < 0x10000000000000000,
    ensures
        parse_ws_frame(ws_masked_frame(fin, key, payload) + rest) == (WsFrameParse::Frame {
            fin,
            payload,
            used: ws_masked_frame(fin, key, payload).len() as int,
        }),
        ws_masked_frame(fin, key, payload).len() >= 2,
{
    let f = ws_masked_frame(fin, key, payload);
    let s = f + rest;
    let l = payload.len() as int;
    let lenf: Seq<u8> = if l < 126 {
        seq![(128 + l) as u8]
    } else if l < 0x10000 {
        seq![254u8] + u16_be_bytes(l as u16)
    } else {
        seq![255u8] + u64_be_bytes(l as u64)
    };
    let masked = Seq::new(payload.len(), |i: int| payload[i] ^ key[i % 4]);
    assert(s =~= seq![(if fin {
        0x82u8
    } else {
        0x02u8
    })] + lenf + key + masked + rest);
    let loff: int = 1 + lenf.len() as int;
    if l < 126 {
        assert(s[1] == (128 + l) as u8);
    } else if l < 0x10000 {
        assert(s[1] == 254u8);
        assert(s[2] == u16_be_bytes(l as u16)[0] && s[3] == u16_be_bytes(l as u16)[1]);
        assert(s[2] as int * 0x100 + s[3] as int == l);
    } else {
        assert(s[1] == 255u8);
        let d = u64_be_bytes(l as u64);
        assert(s[2] == d[0] && s[3] == d[1] && s[4] == d[2] && s[5] == d[3] && s[6] == d[4] && s[7]
            == d[5] && s[8] == d[6] && s[9] == d[7]);
        lemma_u64_be_digits(l as u64);
    }
    assert(s.subrange(loff, loff + 4) =~= key);
    let off = loff + 4;
    assert(s.subrange(off, off + l) =~= masked);
    let raw = s.subrange(off, off + l);
    let unmasked = Seq::new(l as nat, |i: int| raw[i] ^ s.subrange(loff, loff + 4)[i % 4]);
    assert forall|i: int| 0 <= i < l implies unmasked[i] == payload[i] by {
        lemma_xor_cancel(payload[i], key[i % 4]);
    }
    assert(unmasked =~= payload);
}

/// A single masked frame and a fragmented pair carrying the same payload
/// reassemble the same bytes for the inner decode: with FIN clear then set,
/// the two fragments' payloads arrive concatenated, exactly as one frame
/// carrying the concatenation would deliver them.
#[verifier::rlimit(100)]
#[verifier::spinoff_prover]
pub proof fn lemma_ws_fragmentation_equivalence(
    a: Seq<u8>,
    b: Seq<u8>,
    key: Seq<u8>,
    k1: Seq<u8>,
    k2: Seq<u8>,
    acc: Seq<u8>,
    rest: Seq<u8>,
)
    requires
        key.len() == 4,
        k1.len() == 4,
        k2.len() == 4,
        a.len() + b.len() < 0x10000000000000000,
    ensures
        ({
            let single = ws_masked_frame(true, key, a + b);
            let frag = ws_masked_frame(false, k1, a) + ws_masked_frame(true, k2, b);
            &&& ws_fragments(single + rest, 0, acc) == (WsFragments::Assembled {
                data: acc + (a + b),
                consumed: single.len() as int,
            })
            &&& ws_fragments(frag + rest, 0, acc) == (WsFragments::Assembled {
                data: acc + (a + b),
                consumed: frag.len() as int,
            })
        }),
{
    let single = ws_masked_frame(true, key, a + b);
    let f1 = ws_masked_frame(false, k1, a);
    let f2 = ws_masked_frame(true, k2, b);
    let frag = f1 + f2;
    // the single frame delivers its whole payload at once
    lemma_ws_masked_frame_parse(true, key, a + b, rest);
    let s1 = single + rest;
    assert(s1.skip(0) =~= s1);
    // the first fragment, then the second
    lemma_ws_masked_frame_parse(false, k1, a, f2 + rest);
    lemma_ws_masked_frame_parse(true, k2, b, rest);
    let s2 = frag + rest;
    assert(s2.skip(0) =~= s2);
    assert(s2 =~= f1 + (f2 + rest));
    crate::wire::lemma_concat_skip(f1, f2 + rest);
    assert(s2.skip(f1.len() as int) == f2 + rest);
    assert((acc + a) + b =~= acc + (a + b));
    assert(ws_fragments(s2, 0, acc) == ws_fragments(s2, f1.len() as int, acc + a));
    assert(ws_fragments(s2, f1.len() as int, acc + a) == (WsFragments::Assembled {
        data: (acc + a) + b,
        consumed: f1.len() as int + f2.len() as int,
    }));
}

} // verus!
