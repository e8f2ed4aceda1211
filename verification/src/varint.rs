//! Base-128 varints and field keys of the protobuf wire format.
//!
//! The byte-level primitives are prost's own (`prost::encoding`); this module
//! states what they do and proves that decoding undoes encoding.
use vstd::prelude::*;

verus! {

#[verifier::external_type_specification]
#[verifier::external_body]
pub struct ExProstDecodeError(prost::DecodeError);

/// Largest field number that protobuf allows (2^29 - 1).
pub const MAX_TAG: u32 = 536870911;

/// The LEB128 encoding of `v`: seven bits per byte, least significant group
/// first, high bit set on every byte but the last.
pub open spec fn varint_bytes(v: nat) -> Seq<u8>
    decreases v,
{
    if v < 128 {
        seq![v as u8]
    } else {
        seq![(v % 128 + 128) as u8] + varint_bytes(v / 128)
    }
}

/// Reads a varint from `s` starting at index `d` (within the first ten
/// bytes): the value formed by bytes `d..n` and the index `n` after it.
/// The tenth byte may only be 0 or 1, so that the value fits in 64 bits.
pub open spec fn varint_from(s: Seq<u8>, d: nat) -> Option<(nat, nat)>
    decreases 10 - d,
{
    if d >= 10 || d >= s.len() {
        None
    } else if s[d as int] < 128 {
        if d == 9 && s[d as int] >= 2 {
            None
        } else {
            Some((s[d as int] as nat, d + 1))
        }
    } else {
        match varint_from(s, d + 1) {
            Some((v, n)) => Some(((s[d as int] - 128) as nat + 128 * v, n)),
            None => None,
        }
    }
}

/// A varint at the start of `s`: its value and its length in bytes.
pub open spec fn varint_prefix(s: Seq<u8>) -> Option<(nat, nat)> {
    varint_from(s, 0)
}

/// The bytes of a field key: the varint of `tag * 8 + wire_type`.
pub open spec fn key_bytes(tag: nat, wire_type: nat) -> Seq<u8> {
    varint_bytes(tag * 8 + wire_type)
}

/// A field key at the start of `s`, as prost accepts it: a varint of at most
/// 32 bits whose low three bits name a wire type (0 to 5) and whose tag is
/// not zero. Gives the tag, the wire type and the key's length.
pub open spec fn key_prefix(s: Seq<u8>) -> Option<(u32, u8, nat)> {
    match varint_prefix(s) {
        Some((k, n)) => if k <= u32::MAX && k % 8 <= 5 && k / 8 >= 1 {
            Some(((k / 8) as u32, (k % 8) as u8, n))
        } else {
            None
        },
        None => None,
    }
}

/// Upper bound (exclusive) on a value whose varint may start at byte `d`
/// and still end within ten bytes with a last byte below 2.
pub open spec fn varint_room(d: nat) -> nat {
    if d == 0 {
        0x1_0000_0000_0000_0000
    } else if d == 1 {
        0x200_0000_0000_0000
    } else if d == 2 {
        0x4_0000_0000_0000
    } else if d == 3 {
        0x800_0000_0000
    } else if d == 4 {
        0x10_0000_0000
    } else if d == 5 {
        0x2000_0000
    } else if d == 6 {
        0x40_0000
    } else if d == 7 {
        0x8000
    } else if d == 8 {
        0x100
    } else if d == 9 {
        2
    } else {
        0
    }
}

pub proof fn lemma_varint_bytes_len(v: nat)
    ensures
        1 <= varint_bytes(v).len() <= 10 || v >= 0x1_0000_0000_0000_0000,
        varint_bytes(v).len() >= 1,
        v < 128 ==> varint_bytes(v).len() == 1,
    decreases v,
{
    if v >= 128 {
        lemma_varint_bytes_len(v / 128);
        if v < 0x1_0000_0000_0000_0000 {
            lemma_varint_len_bound(v, 0);
        }
    }
}

proof fn lemma_varint_len_bound(v: nat, d: nat)
    requires
        d < 10,
        v < varint_room(d),
    ensures
        varint_bytes(v).len() + d <= 10,
    decreases v,
{
    if v >= 128 {
        assert(v / 128 < varint_room(d + 1));
        lemma_varint_len_bound(v / 128, d + 1);
    }
}

/// Reading back the varint of `v` (starting at byte `d`) gives `v` and the
/// index right after it, whatever follows.
pub proof fn lemma_varint_from_bytes(v: nat, s: Seq<u8>, d: nat)
    requires
        d < 10,
        v < varint_room(d),
        d + varint_bytes(v).len() <= s.len(),
        s.subrange(d as int, (d + varint_bytes(v).len()) as int) == varint_bytes(v),
    ensures
        varint_from(s, d) == Some((v, d + varint_bytes(v).len())),
    decreases v,
{
    let b = varint_bytes(v);
    assert(s[d as int] == b[0]);
    if v < 128 {
    } else {
        let r = varint_bytes(v / 128);
        assert(b == seq![(v % 128 + 128) as u8] + r);
        assert(v / 128 < varint_room(d + 1));
        assert(s.subrange((d + 1) as int, (d + 1 + r.len()) as int) == r) by {
            assert(s.subrange((d + 1) as int, (d + 1 + r.len()) as int) =~= b.subrange(1, b.len() as int));
            assert(b.subrange(1, b.len() as int) =~= r);
        }
        lemma_varint_from_bytes(v / 128, s, d + 1);
    }
}

/// A varint read at the start of some bytes followed by anything.
pub proof fn lemma_varint_prefix_of(v: nat, rest: Seq<u8>)
    requires
        v <= u64::MAX,
    ensures
        varint_prefix(varint_bytes(v) + rest) == Some((v, varint_bytes(v).len())),
{
    let s = varint_bytes(v) + rest;
    lemma_varint_bytes_len(v);
    assert(s.subrange(0, varint_bytes(v).len() as int) =~= varint_bytes(v));
    lemma_varint_from_bytes(v, s, 0);
}

/// Every value `varint_from` reads fits below `varint_room(d)`, so a value
/// read from the start fits in 64 bits.
pub proof fn lemma_varint_from_bound(s: Seq<u8>, d: nat)
    ensures
        varint_from(s, d) matches Some((v, n)) ==> v < varint_room(d) && d < n <= s.len() && n <= 10,
    decreases 10 - d,
{
    if d < 10 && d < s.len() && s[d as int] >= 128 {
        lemma_varint_from_bound(s, d + 1);
    }
}

/// A field key read back from its bytes.
pub proof fn lemma_key_prefix_of(tag: nat, wire_type: nat, rest: Seq<u8>)
    requires
        1 <= tag <= MAX_TAG,
        wire_type <= 5,
    ensures
        key_prefix(key_bytes(tag, wire_type) + rest) == Some(
            (tag as u32, wire_type as u8, key_bytes(tag, wire_type).len()),
        ),
{
    let k = tag * 8 + wire_type;
    lemma_varint_prefix_of(k, rest);
    assert(k / 8 == tag && k % 8 == wire_type) by (nonlinear_arith)
        requires
            k == tag * 8 + wire_type,
            wire_type <= 5,
    ;
}

/// The two wire types this library writes: varints and length-delimited
/// byte runs (wire types 0 and 2).
#[derive(Clone, Copy, Debug, PartialEq, Eq, Structural)]
pub enum FieldKind {
    Varint,
    LengthDelimited,
}

impl FieldKind {
    pub open spec fn code(self) -> nat {
        match self {
            FieldKind::Varint => 0,
            FieldKind::LengthDelimited => 2,
        }
    }
}

/// Appends the varint of `value` to `buf` with `prost::encoding::encode_varint`.
/// Claimed: prost writes the LEB128 bytes of the value, least significant
/// group first (its loop runs at most ten times, enough for any u64).
#[verifier::external_body]
pub(crate) fn put_varint(value: u64, buf: &mut Vec<u8>)
    ensures
        final(buf)@ == old(buf)@ + varint_bytes(value as nat),
{
    prost::encoding::encode_varint(value, buf);
}

/// Appends a field key with `prost::encoding::encode_key`.
/// Claimed: prost writes the varint of `(tag << 3) | wire_type`, which for a
/// tag of at most 29 bits is `tag * 8 + wire_type`.
#[verifier::external_body]
pub(crate) fn put_key(tag: u32, kind: FieldKind, buf: &mut Vec<u8>)
    requires
        1 <= tag <= MAX_TAG,
    ensures
        final(buf)@ == old(buf)@ + key_bytes(tag as nat, kind.code()),
{
    let wire_type = match kind {
        FieldKind::Varint => prost::encoding::WireType::Varint,
        FieldKind::LengthDelimited => prost::encoding::WireType::LengthDelimited,
    };
    prost::encoding::encode_key(tag, wire_type, buf);
}

/// Reads a varint from the front of `input` with `prost::encoding::decode_varint`.
/// Claimed: prost accepts exactly the varints `varint_prefix` describes (at
/// most ten bytes, the tenth below 2), returns their value and leaves the
/// slice just after them; otherwise it fails.
#[verifier::external_body]
pub(crate) fn take_varint(input: &[u8]) -> (res: Result<(u64, &[u8]), prost::DecodeError>)
    ensures
        match varint_prefix(input@) {
            Some((v, n)) => res matches Ok((w, rest)) && w as nat == v && rest@ == input@.skip(
                n as int,
            ),
            None => res is Err,
        },
{
    let mut buf = input;
    match prost::encoding::decode_varint(&mut buf) {
        Ok(v) => Ok((v, buf)),
        Err(e) => Err(e),
    }
}

/// Reads a field key from the front of `input` with `prost::encoding::decode_key`.
/// Claimed: prost reads a varint, rejects values above `u32::MAX`, low bits
/// naming no wire type, and tag zero, and otherwise returns the tag and wire
/// type and leaves the slice after the key.
#[verifier::external_body]
pub(crate) fn take_key(input: &[u8]) -> (res: Result<(u32, u8, &[u8]), prost::DecodeError>)
    ensures
        match key_prefix(input@) {
            Some((t, w, n)) => res matches Ok((tag, wire_type, rest)) && tag == t && wire_type
                == w && rest@ == input@.skip(n as int),
            None => res is Err,
        },
{
    let mut buf = input;
    match prost::encoding::decode_key(&mut buf) {
        Ok((tag, wire_type)) => Ok((tag, wire_type as u8, buf)),
        Err(e) => Err(e),
    }
}

} // verus!
