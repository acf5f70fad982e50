//! Protobuf wire primitives: LEB128 varints, field keys and unknown-field
//! skipping, taken from `prost::encoding` and described by spec functions.

use vstd::prelude::*;

verus! {

/// Wire type code of a varint field.
pub const WIRE_VARINT: u8 = 0;

/// Wire type code of a 64-bit fixed-width field.
pub const WIRE_FIXED64: u8 = 1;

/// Wire type code of a length-delimited field.
pub const WIRE_LEN: u8 = 2;

/// Wire type code that opens a group.
pub const WIRE_START_GROUP: u8 = 3;

/// Wire type code that closes a group.
pub const WIRE_END_GROUP: u8 = 4;

/// Wire type code of a 32-bit fixed-width field.
pub const WIRE_FIXED32: u8 = 5;

/// A decoding failure reported by prost; opaque here, carried to the caller.
#[verifier::external_type_specification]
#[verifier::external_body]
pub struct ExDecodeError(prost::DecodeError);

/// Largest field tag that protobuf allows.
pub const MAX_TAG: u32 = 536870911;

/// Largest value of a `u32` field key, as a spec constant.
pub open spec fn max_key() -> nat {
    0xffff_ffff
}

/// The LEB128 encoding of `v`: seven bits per byte, low group first, the high
/// bit set on every byte but the last.
pub open spec fn varint_bytes(v: nat) -> Seq<u8>
    decreases v,
{
    if v < 128 {
        seq![v as u8]
    } else {
        seq![(v % 128 + 128) as u8] + varint_bytes(v / 128)
    }
}

/// Reads the varint that starts at index `i` of `s`, where `i` bytes of it
/// have already been read: the value of the bytes from `i` on and the index
/// just past the varint. A varint holds at most ten bytes, and its tenth byte
/// may only be 0 or 1 (the value must fit in 64 bits).
pub open spec fn varint_parse_from(s: Seq<u8>, i: nat) -> Option<(nat, nat)>
    decreases 10 - i,
{
    if i >= 10 || i >= s.len() {
        None
    } else if s[i as int] < 128 {
        if i == 9 && s[i as int] >= 2 {
            None
        } else {
            Some((s[i as int] as nat, i + 1))
        }
    } else {
        match varint_parse_from(s, i + 1) {
            Some((v, end)) => Some((((s[i as int] - 128) + 128 * v) as nat, end)),
            None => None,
        }
    }
}

/// The varint at the front of `s`: its value and how many bytes it takes.
pub open spec fn varint_parse(s: Seq<u8>) -> Option<(nat, nat)> {
    varint_parse_from(s, 0)
}

/// The key of a field: the varint `tag * 8 + wire`.
pub open spec fn key_bytes(tag: u32, wire: u8) -> Seq<u8> {
    varint_bytes((tag * 8 + wire) as nat)
}

/// The key at the front of `s`: tag, wire type and the number of bytes it
/// takes. The key must fit in 32 bits, its wire type must be one of the six
/// that protobuf defines and its tag must not be zero.
pub open spec fn key_parse(s: Seq<u8>) -> Option<(u32, u8, nat)> {
    match varint_parse(s) {
        None => None,
        Some((key, n)) => {
            if key > max_key() || key % 8 > 5 || key / 8 < 1 {
                None
            } else {
                Some(((key / 8) as u32, (key % 8) as u8, n))
            }
        },
    }
}

/// How much of `s` is left after skipping the body of a field whose key had
/// wire type `wire` and tag `tag`, for the wire types whose body has a fixed
/// shape (every wire type but the start of a group).
pub open spec fn skip_simple(wire: u8, s: Seq<u8>) -> Option<nat> {
    if wire == WIRE_VARINT {
        match varint_parse(s) {
            Some((_, n)) => Some((s.len() - n) as nat),
            None => None,
        }
    } else if wire == WIRE_FIXED64 {
        if s.len() >= 8 { Some((s.len() - 8) as nat) } else { None }
    } else if wire == WIRE_FIXED32 {
        if s.len() >= 4 { Some((s.len() - 4) as nat) } else { None }
    } else if wire == WIRE_LEN {
        match varint_parse(s) {
            Some((len, n)) => if len <= s.len() - n { Some((s.len() - n - len) as nat) } else { None },
            None => None,
        }
    } else {
        None
    }
}

/// How much of `bytes` `prost::encoding::skip_field` leaves when it skips
/// the body of an unknown field with wire type `wire` and tag `tag` from a
/// fresh decode context; `None` where it fails.
pub uninterp spec fn skip_field_rest(wire: u8, tag: u32, bytes: Seq<u8>) -> Option<nat>;

/// Appends the varint encoding of `value` to `buf`, through
/// `prost::encoding::encode_varint`. Claimed: the appended bytes are
/// `varint_bytes(value)` (seven bits per byte, low group first, continuation
/// bit on all but the last byte), and nothing else in `buf` changes.
#[verifier::external_body]
pub fn put_varint(value: u64, buf: &mut Vec<u8>)
    ensures
        final(buf)@ == old(buf)@ + varint_bytes(value as nat),
{
    prost::encoding::encode_varint(value, buf);
}

/// Reads the varint at the front of `bytes`, through
/// `prost::encoding::decode_varint`. Claimed: it succeeds exactly where
/// `varint_parse` does, returns that value and the length of what follows
/// the varint.
#[verifier::external_body]
pub fn take_varint(bytes: &[u8]) -> (r: Result<(u64, usize), prost::DecodeError>)
    ensures
        match varint_parse(bytes@) {
            Some((v, n)) => r matches Ok((x, rest)) && x == v && rest == bytes@.len() - n,
            None => r is Err,
        },
{
    let mut buf = bytes;
    match prost::encoding::decode_varint(&mut buf) {
        Ok(v) => Ok((v, buf.len())),
        Err(e) => Err(e),
    }
}

/// Appends the key of a field with tag `tag` and wire type `wire` to `buf`,
/// through `prost::encoding::encode_key`. Claimed: the appended bytes are the
/// varint of `tag * 8 + wire`.
#[verifier::external_body]
pub fn put_key(tag: u32, wire: u8, buf: &mut Vec<u8>)
    requires
        1 <= tag <= MAX_TAG,
        wire <= 5,
    ensures
        final(buf)@ == old(buf)@ + key_bytes(tag, wire),
{
    match prost::encoding::WireType::try_from(u64::from(wire)) {
        Ok(w) => prost::encoding::encode_key(tag, w, buf),
        Err(_) => {},
    }
}

/// Reads the key at the front of `bytes`, through
/// `prost::encoding::decode_key`. Claimed: it succeeds exactly where
/// `key_parse` does, returns that tag and wire type code and the length of
/// what follows the key.
#[verifier::external_body]
pub fn take_key(bytes: &[u8]) -> (r: Result<(u32, u8, usize), prost::DecodeError>)
    ensures
        match key_parse(bytes@) {
            Some((tag, wire, n)) => r matches Ok((t, w, rest)) && t == tag && w == wire && rest
                == bytes@.len() - n,
            None => r is Err,
        },
{
    let mut buf = bytes;
    match prost::encoding::decode_key(&mut buf) {
        Ok((tag, w)) => Ok((tag, w as u8, buf.len())),
        Err(e) => Err(e),
    }
}

/// Skips the body of an unknown field with wire type `wire` and tag `tag`
/// at the front of `bytes`, through `prost::encoding::skip_field` with a
/// fresh decode context. Claimed: the result is `skip_field_rest` of the
/// arguments, what is left is no longer than `bytes`, and for every wire type
/// but the start of a group the result is `skip_simple` (a group is skipped
/// field by field up to its matching end key, which is left unstated).
#[verifier::external_body]
pub fn skip_field(wire: u8, tag: u32, bytes: &[u8]) -> (r: Result<usize, prost::DecodeError>)
    ensures
        match r {
            Ok(rest) => skip_field_rest(wire, tag, bytes@) == Some(rest as nat) && rest
                <= bytes@.len(),
            Err(_) => skip_field_rest(wire, tag, bytes@) is None,
        },
        wire != WIRE_START_GROUP ==> match r {
            Ok(rest) => skip_simple(wire, bytes@) == Some(rest as nat),
            Err(_) => skip_simple(wire, bytes@) is None,
        },
{
    let mut buf = bytes;
    match prost::encoding::WireType::try_from(u64::from(wire)) {
        Ok(w) => match prost::encoding::skip_field(w, tag, &mut buf, Default::default()) {
            Ok(()) => Ok(buf.len()),
            Err(e) => Err(e),
        },
        Err(e) => Err(e),
    }
}

/// The values whose varint may start at byte `i` of a varint and still fit
/// in ten bytes: below 2 at the tenth byte, 128 times more at each earlier one.
pub open spec fn varint_cap(i: nat) -> nat
    decreases 9 - i,
{
    if i >= 9 {
        2
    } else {
        128 * varint_cap(i + 1)
    }
}

/// Every value of 64 bits has a varint of at most ten bytes.
pub proof fn lemma_varint_cap_zero()
    ensures
        varint_cap(0) == 0x1_0000_0000_0000_0000,
{
    reveal_with_fuel(varint_cap, 10);
}

/// A varint takes at least one byte.
pub proof fn lemma_varint_bytes_nonempty(v: nat)
    ensures
        varint_bytes(v).len() >= 1,
    decreases v,
{
    if v >= 128 {
        lemma_varint_bytes_nonempty(v / 128);
    }
}

/// A varint that is read ends after where it starts and inside the input.
pub proof fn lemma_varint_parse_from_bounds(s: Seq<u8>, i: nat)
    ensures
        varint_parse_from(s, i) matches Some((v, end)) ==> i < end <= s.len(),
    decreases 10 - i,
{
    if i < 10 && i < s.len() && s[i as int] >= 128 {
        lemma_varint_parse_from_bounds(s, i + 1);
    }
}

/// A varint read from the front of `s` takes between one byte and all of `s`.
pub proof fn lemma_varint_parse_bounds(s: Seq<u8>)
    ensures
        varint_parse(s) matches Some((v, n)) ==> 0 < n <= s.len(),
{
    lemma_varint_parse_from_bounds(s, 0);
}

/// Reading the varint of `v` that stands at byte `i` of `s`, `i` bytes into
/// a varint, gives `v` back and ends just past it.
proof fn lemma_varint_parse_at(v: nat, s: Seq<u8>, i: nat)
    requires
        i <= 9,
        v < varint_cap(i),
        i + varint_bytes(v).len() <= s.len(),
        s.subrange(i as int, i + varint_bytes(v).len() as int) == varint_bytes(v),
    ensures
        varint_parse_from(s, i) == Some((v, i + varint_bytes(v).len())),
    decreases v,
{
    let b = varint_bytes(v);
    assert(s[i as int] == b[0]);
    if v < 128 {
        assert(b =~= seq![v as u8]);
    } else {
        let tail = varint_bytes(v / 128);
        assert(b =~= seq![(v % 128 + 128) as u8] + tail);
        assert(i < 9);
        assert(v / 128 < varint_cap(i + 1));
        let j = (i + 1) as int;
        assert(s.subrange(j, j + tail.len()) =~= tail) by {
            assert forall|k: int| 0 <= k < tail.len() implies s.subrange(j, j + tail.len())[k]
                == tail[k] by {
                assert(s.subrange(i as int, i + b.len() as int)[k + 1] == b[k + 1]);
            }
        }
        lemma_varint_parse_at(v / 128, s, i + 1);
    }
}

/// What `put_varint` writes, `take_varint` reads back: the varint of a 64-bit
/// value followed by anything reads as that value and its own length.
pub proof fn lemma_varint_roundtrip(v: u64, rest: Seq<u8>)
    ensures
        varint_parse(varint_bytes(v as nat) + rest) == Some((v as nat, varint_bytes(v as nat).len())),
        1 <= varint_bytes(v as nat).len(),
{
    let b = varint_bytes(v as nat);
    lemma_varint_cap_zero();
    lemma_varint_bytes_nonempty(v as nat);
    assert((b + rest).subrange(0, b.len() as int) =~= b);
    lemma_varint_parse_at(v as nat, b + rest, 0);
}

/// What `put_key` writes, `take_key` reads back.
pub proof fn lemma_key_roundtrip(tag: u32, wire: u8, rest: Seq<u8>)
    requires
        1 <= tag <= MAX_TAG,
        wire <= 5,
    ensures
        key_parse(key_bytes(tag, wire) + rest) == Some((tag, wire, key_bytes(tag, wire).len())),
        1 <= key_bytes(tag, wire).len(),
{
    let key = (tag * 8 + wire) as u64;
    lemma_varint_roundtrip(key, rest);
    assert(key % 8 == wire);
    assert(key / 8 == tag);
}

} // verus!
