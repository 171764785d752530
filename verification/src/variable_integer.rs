//! The MQTT variable-length integer: 7 bits of value per byte, high bit as
//! continuation marker, at most 4 bytes, greatest value 268,435,455.

use vstd::prelude::*;

use bytes::BytesMut;

use crate::bytebuf::buf_get_u8;
use crate::bytebuf::buf_len;
use crate::bytebuf::buf_put_u8;
use crate::bytebuf::bytes_view;
use crate::error::DecodeError;
use crate::error::EncodeError;

verus! {

broadcast use vstd::seq_lib::group_seq_properties, vstd::seq_lib::lemma_seq_skip_of_skip;

/// Greatest value a variable-length integer can carry.
pub const VLI_MAX: u64 = 268435455;

/// What reading a variable-length integer from the front of a byte sequence
/// yields: a value and the count of bytes it occupied, or one of two
/// non-values: the 4-byte ceiling was exceeded, or the bytes ran out first.
pub enum VliParse {
    Val { v: int, used: int },
    TooLong,
    Short,
}

/// 128 to the power `i` (1 when `i <= 0`).
pub open spec fn pow128(i: int) -> int
    decreases i,
{
    if i <= 0 {
        1
    } else {
        128 * pow128(i - 1)
    }
}

/// Reads a variable-length integer whose first `depth` bytes, contributing
/// `acc`, were already consumed; `s` holds the bytes not yet read.
pub open spec fn parse_vli_rec(s: Seq<u8>, depth: int, acc: int) -> VliParse
    decreases 5 - depth,
{
    if s.len() == 0 {
        VliParse::Short
    } else if depth >= 4 {
        VliParse::TooLong
    } else {
        let b = s[0];
        let acc2 = acc + (b as int % 128) * pow128(depth);
        if b < 128 {
            VliParse::Val { v: acc2, used: depth + 1 }
        } else {
            parse_vli_rec(s.skip(1), depth + 1, acc2)
        }
    }
}

/// Reads a variable-length integer from the front of `s`.
pub open spec fn parse_vli(s: Seq<u8>) -> VliParse {
    parse_vli_rec(s, 0, 0)
}

/// The minimal encoding of `v`: low 7 bits first, continuation bit on every
/// byte but the last.
pub open spec fn vli_bytes(v: int) -> Seq<u8>
    recommends
        0 <= v,
    decreases v,
{
    if v < 128 {
        seq![v as u8]
    } else {
        seq![(128 + v % 128) as u8] + vli_bytes(v / 128)
    }
}

proof fn lemma_pow128_values()
    ensures
        pow128(0) == 1,
        pow128(1) == 128,
        pow128(2) == 16384,
        pow128(3) == 2097152,
        pow128(4) == 268435456,
{
    assert(pow128(0) == 1);
    assert(pow128(1) == 128 * pow128(0));
    assert(pow128(2) == 128 * pow128(1));
    assert(pow128(3) == 128 * pow128(2));
    assert(pow128(4) == 128 * pow128(3));
}

/// The in-flight result of reading a variable-length integer.
pub enum VliStatus {
    Value(u64),
    TooLong,
    Short,
}

/// Reads one variable-length integer, consuming exactly its bytes on
/// success, and telling an overlong integer apart from a buffer that ended
/// inside one.
pub(crate) fn try_decode(buffer: &mut BytesMut) -> (r: VliStatus)
    ensures
        match parse_vli(bytes_view(*old(buffer))) {
            VliParse::Val { v, used } => r matches VliStatus::Value(x) && x as int == v && x
                <= VLI_MAX && 1 <= used <= bytes_view(*old(buffer)).len() && bytes_view(
                *final(buffer),
            ) == bytes_view(*old(buffer)).skip(used),
            VliParse::TooLong => r == VliStatus::TooLong,
            VliParse::Short => r == VliStatus::Short,
        },
{
    let ghost s = bytes_view(*buffer);
    let mut value: u64 = 0;
    let mut mult: u64 = 1;
    let mut i: usize = 0;
    loop
        invariant
            s == bytes_view(*old(buffer)),
            0 <= i <= 4,
            i as int <= s.len(),
            mult == pow128(i as int),
            0 <= value < pow128(i as int),
            pow128(i as int) <= 268435456,
            bytes_view(*buffer) == s.skip(i as int),
            parse_vli_rec(s, 0, 0) == parse_vli_rec(s.skip(i as int), i as int, value as int),
        decreases 5 - i,
    {
        proof {
            lemma_pow128_values();
        }
        if buf_len(buffer) == 0 {
            return VliStatus::Short;
        }
        let byte = buf_get_u8(buffer);
        proof {
            assert(byte == s.skip(i as int)[0]);
            assert(s.skip(i as int).skip(1) =~= s.skip(i as int + 1));
        }
        if i >= 4 {
            return VliStatus::TooLong;
        }
        let d = (byte % 128) as u64;
        proof {
            assert(d * mult <= 127 * pow128(i as int) && value + 127 * pow128(i as int) < 128
                * pow128(i as int)) by (nonlinear_arith)
                requires
                    d <= 127,
                    mult == pow128(i as int),
                    0 <= value < pow128(i as int),
                    pow128(i as int) >= 1,
            ;
            assert(128 * pow128(i as int) == pow128(i as int + 1));
        }
        let new_value = value + d * mult;
        proof {
            assert(parse_vli_rec(s.skip(i as int), i as int, value as int) == (if byte < 128 {
                VliParse::Val { v: new_value as int, used: i as int + 1 }
            } else {
                parse_vli_rec(s.skip(i as int + 1), i as int + 1, new_value as int)
            }));
        }
        if byte < 128 {
            return VliStatus::Value(new_value);
        }
        value = new_value;
        mult = mult * 128;
        i = i + 1;
    }
}

/// Reads one variable-length integer, consuming exactly its bytes on
/// success.  A 5-byte continuation run and a buffer that ends inside the
/// integer are both format errors here; the stream codec reads the header's
/// integer through its own non-committing path instead.
pub fn decode(buffer: &mut BytesMut) -> (r: Result<u64, DecodeError>)
    ensures
        match parse_vli(bytes_view(*old(buffer))) {
            VliParse::Val { v, used } => r matches Ok(x) && x as int == v && x <= VLI_MAX && 1
                <= used <= bytes_view(*old(buffer)).len() && bytes_view(*final(buffer))
                == bytes_view(*old(buffer)).skip(used),
            VliParse::TooLong => r == Err::<u64, DecodeError>(DecodeError::FormatError),
            VliParse::Short => r == Err::<u64, DecodeError>(DecodeError::FormatError),
        },
{
    match try_decode(buffer) {
        VliStatus::Value(v) => Ok(v),
        VliStatus::TooLong => Err(DecodeError::FormatError),
        VliStatus::Short => Err(DecodeError::FormatError),
    }
}

/// Appends the minimal encoding of `val`, or reports that it is out of range
/// while leaving the buffer unchanged.
pub fn encode(buffer: &mut BytesMut, val: u64) -> (r: Result<(), EncodeError>)
    ensures
        val > VLI_MAX ==> r == Err::<(), EncodeError>(EncodeError::VariableIntegerOutOfRangeError)
            && bytes_view(*final(buffer)) == bytes_view(*old(buffer)),
        val <= VLI_MAX ==> r == Ok::<(), EncodeError>(()) && bytes_view(*final(buffer))
            == bytes_view(*old(buffer)) + vli_bytes(val as int),
{
    if val > VLI_MAX {
        return Err(EncodeError::VariableIntegerOutOfRangeError);
    }
    let ghost s0 = bytes_view(*buffer);
    let v0 = val;
    if v0 < 128 {
        buf_put_u8(buffer, v0 as u8);
        proof {
            assert(vli_bytes(val as int) == seq![val as u8]);
            assert(s0.push(val as u8) =~= s0 + vli_bytes(val as int));
        }
        return Ok(());
    }
    let v1 = v0 / 128;
    if v1 < 128 {
        buf_put_u8(buffer, (v0 % 128 + 128) as u8);
        buf_put_u8(buffer, v1 as u8);
        proof {
            assert(vli_bytes(v1 as int) == seq![v1 as u8]);
            assert(vli_bytes(val as int) == seq![(128 + val as int % 128) as u8] + vli_bytes(
                v1 as int,
            ));
            assert(s0.push((v0 % 128 + 128) as u8).push(v1 as u8) =~= s0 + vli_bytes(val as int));
        }
        return Ok(());
    }
    let v2 = v1 / 128;
    if v2 < 128 {
        buf_put_u8(buffer, (v0 % 128 + 128) as u8);
        buf_put_u8(buffer, (v1 % 128 + 128) as u8);
        buf_put_u8(buffer, v2 as u8);
        proof {
            assert(vli_bytes(v2 as int) == seq![v2 as u8]);
            assert(vli_bytes(v1 as int) == seq![(128 + v1 as int % 128) as u8] + vli_bytes(
                v2 as int,
            ));
            assert(vli_bytes(val as int) == seq![(128 + val as int % 128) as u8] + vli_bytes(
                v1 as int,
            ));
            assert(s0.push((v0 % 128 + 128) as u8).push((v1 % 128 + 128) as u8).push(v2 as u8)
                =~= s0 + vli_bytes(val as int));
        }
        return Ok(());
    }
    let v3 = v2 / 128;
    buf_put_u8(buffer, (v0 % 128 + 128) as u8);
    buf_put_u8(buffer, (v1 % 128 + 128) as u8);
    buf_put_u8(buffer, (v2 % 128 + 128) as u8);
    buf_put_u8(buffer, v3 as u8);
    proof {
        assert(v3 < 128);
        assert(vli_bytes(v3 as int) == seq![v3 as u8]);
        assert(vli_bytes(v2 as int) == seq![(128 + v2 as int % 128) as u8] + vli_bytes(v3 as int));
        assert(vli_bytes(v1 as int) == seq![(128 + v1 as int % 128) as u8] + vli_bytes(v2 as int));
        assert(vli_bytes(val as int) == seq![(128 + val as int % 128) as u8] + vli_bytes(
            v1 as int,
        ));
        assert(s0.push((v0 % 128 + 128) as u8).push((v1 % 128 + 128) as u8).push(
            (v2 % 128 + 128) as u8,
        ).push(v3 as u8) =~= s0 + vli_bytes(val as int));
    }
    Ok(())
}

proof fn lemma_vli_round_trip_rec(v: int, depth: int, acc: int, rest: Seq<u8>)
    requires
        0 <= v,
        0 <= depth <= 3,
        v < pow128(4 - depth),
    ensures
        parse_vli_rec(vli_bytes(v) + rest, depth, acc) == (VliParse::Val {
            v: acc + v * pow128(depth),
            used: depth + vli_bytes(v).len(),
        }),
        1 <= vli_bytes(v).len() <= 4 - depth,
    decreases 4 - depth,
{
    let s = vli_bytes(v) + rest;
    if v < 128 {
        assert(vli_bytes(v) == seq![v as u8]);
        assert(s[0] == v as u8);
        assert(s[0] < 128);
        assert((s[0] as int % 128) == v);
        assert(acc + v * pow128(depth) == acc + (s[0] as int % 128) * pow128(depth));
    } else {
        let b0 = (128 + v % 128) as u8;
        assert(vli_bytes(v) == seq![b0] + vli_bytes(v / 128));
        assert(s[0] == b0);
        assert(b0 >= 128);
        assert(b0 as int % 128 == v % 128);
        let acc2 = acc + (v % 128) * pow128(depth);
        assert(s.skip(1) =~= vli_bytes(v / 128) + rest);
        assert(v / 128 < pow128(4 - (depth + 1))) by (nonlinear_arith)
            requires
                v < pow128(4 - depth),
                128 * pow128(4 - depth - 1) == pow128(4 - depth),
                v >= 128,
        ;
        assert(depth + 1 <= 3) by {
            if depth == 3 {
                assert(pow128(1) == 128 * pow128(0));
                assert(v < 128);
            }
        }
        lemma_vli_round_trip_rec(v / 128, depth + 1, acc2, rest);
        assert(parse_vli_rec(s, depth, acc) == parse_vli_rec(s.skip(1), depth + 1, acc2));
        assert(acc2 + (v / 128) * pow128(depth + 1) == acc + v * pow128(depth))
            by (nonlinear_arith)
            requires
                acc2 == acc + (v % 128) * pow128(depth),
                pow128(depth + 1) == 128 * pow128(depth),
                v == 128 * (v / 128) + v % 128,
        ;
    }
}

proof fn lemma_vli_prefix_short_rec(v: int, depth: int, acc: int, k: int)
    requires
        0 <= v,
        0 <= depth <= 3,
        v < pow128(4 - depth),
        0 <= k < vli_bytes(v).len(),
    ensures
        parse_vli_rec(vli_bytes(v).take(k), depth, acc) == VliParse::Short,
    decreases 4 - depth,
{
    if k == 0 {
        assert(vli_bytes(v).take(0) =~= Seq::<u8>::empty());
    } else {
        assert(v >= 128) by {
            if v < 128 {
                assert(vli_bytes(v).len() == 1);
            }
        }
        let b0 = (128 + v % 128) as u8;
        assert(vli_bytes(v) == seq![b0] + vli_bytes(v / 128));
        assert(vli_bytes(v).take(k)[0] == b0);
        assert(b0 >= 128);
        assert(vli_bytes(v).take(k).skip(1) =~= vli_bytes(v / 128).take(k - 1));
        assert(v / 128 < pow128(4 - (depth + 1))) by (nonlinear_arith)
            requires
                v < pow128(4 - depth),
                128 * pow128(4 - depth - 1) == pow128(4 - depth),
                v >= 128,
        ;
        assert(depth + 1 <= 3) by {
            if depth == 3 {
                assert(pow128(1) == 128 * pow128(0));
                assert(v < 128);
            }
        }
        let acc2 = acc + (b0 as int % 128) * pow128(depth);
        lemma_vli_prefix_short_rec(v / 128, depth + 1, acc2, k - 1);
    }
}

/// Any strict prefix of an encoded variable-length integer still needs more
/// bytes.
pub proof fn lemma_vli_prefix_short(v: int, k: int)
    requires
        0 <= v <= VLI_MAX,
        0 <= k < vli_bytes(v).len(),
    ensures
        parse_vli(vli_bytes(v).take(k)) == VliParse::Short,
{
    lemma_pow128_values();
    lemma_vli_prefix_short_rec(v, 0, 0, k);
}

/// Decoding the minimal encoding of `v`, whatever follows it, gives back `v`
/// and consumes exactly the encoding.
pub proof fn lemma_vli_round_trip(v: int, rest: Seq<u8>)
    requires
        0 <= v <= VLI_MAX,
    ensures
        parse_vli(vli_bytes(v) + rest) == (VliParse::Val { v, used: vli_bytes(v).len() as int }),
        1 <= vli_bytes(v).len() <= 4,
{
    lemma_pow128_values();
    lemma_vli_round_trip_rec(v, 0, 0, rest);
    assert(v * pow128(0) == v) by (nonlinear_arith)
        requires
            pow128(0) == 1,
    ;
}

} // verus!
