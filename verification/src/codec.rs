//! How each kind of message field is written as raw fields and read back,
//! following the proto3 rules that prost's generated code applies.
//!
//! A message's fields are told apart by number: `sel(fs, t)` picks the raw
//! values of field `t` in order. A singular field takes its last value (zero
//! when absent), a repeated field takes all of them, a nested message merges
//! all its occurrences, and a value of the wrong wire type is an error.
use vstd::prelude::*;
use vstd::utf8::{decode_utf8, encode_utf8, valid_utf8};
use crate::varint::{put_key, put_varint, varint_bytes, varint_prefix, FieldKind, MAX_TAG};
use crate::wire::{
    encode_field, encode_fields, field_ok, fields_ok, lemma_encode_fields_concat,
    lemma_encode_fields_one, RawV,
    RawValue, WireError,
};

verus! {

broadcast use {vstd::utf8::encode_utf8_decode_utf8, vstd::utf8::encode_utf8_valid_utf8};

/// The raw values of field `t`, in the order they occur.
pub open spec fn sel(fs: Seq<(u32, RawV)>, t: u32) -> Seq<RawV>
    decreases fs.len(),
{
    if fs.len() == 0 {
        seq![]
    } else {
        let p = sel(fs.drop_last(), t);
        if fs.last().0 == t {
            p.push(fs.last().1)
        } else {
            p
        }
    }
}

/// Raw values all written under field number `t`.
pub open spec fn piece(t: u32, vals: Seq<RawV>) -> Seq<(u32, RawV)> {
    vals.map_values(|r: RawV| (t, r))
}

pub broadcast proof fn lemma_sel_concat(a: Seq<(u32, RawV)>, b: Seq<(u32, RawV)>, t: u32)
    ensures
        #[trigger] sel(a + b, t) == sel(a, t) + sel(b, t),
    decreases b.len(),
{
    if b.len() == 0 {
        assert(a + b =~= a);
        assert(sel(a, t) + sel(b, t) =~= sel(a, t));
    } else {
        assert((a + b).drop_last() =~= a + b.drop_last());
        lemma_sel_concat(a, b.drop_last(), t);
        assert((sel(a, t) + sel(b.drop_last(), t)).push(b.last().1) =~= sel(a, t) + sel(
            b.drop_last(),
            t,
        ).push(b.last().1));
    }
}

pub broadcast proof fn lemma_sel_piece(t: u32, vals: Seq<RawV>, u: u32)
    ensures
        #[trigger] sel(piece(t, vals), u) == (if t == u {
            vals
        } else {
            Seq::<RawV>::empty()
        }),
    decreases vals.len(),
{
    if vals.len() > 0 {
        assert(piece(t, vals).drop_last() =~= piece(t, vals.drop_last()));
        lemma_sel_piece(t, vals.drop_last(), u);
        assert(vals.drop_last().push(vals.last()) =~= vals);
    } else {
        assert(piece(t, vals) =~= Seq::<(u32, RawV)>::empty());
    }
}

/// `sel` over a prefix one field longer.
pub proof fn lemma_sel_take_step(fs: Seq<(u32, RawV)>, i: int)
    requires
        0 <= i < fs.len(),
    ensures
        forall|t: u32|
            #[trigger] sel(fs.take(i + 1), t) == (if fs[i].0 == t {
                sel(fs.take(i), t).push(fs[i].1)
            } else {
                sel(fs.take(i), t)
            }),
{
    assert(fs.take(i + 1).drop_last() =~= fs.take(i));
}

pub proof fn lemma_sel_split(fs: Seq<(u32, RawV)>, i: int, t: u32)
    requires
        0 <= i <= fs.len(),
    ensures
        sel(fs, t) == sel(fs.take(i), t) + sel(fs.skip(i), t),
{
    assert(fs =~= fs.take(i) + fs.skip(i));
    lemma_sel_concat(fs.take(i), fs.skip(i), t);
}

// ---------------------------------------------------------------------
// Reading: singular fields take the last value, repeated ones all values.
/// The last converted value, or `dflt` when there is none; `None` when any
/// value fails to convert.
pub open spec fn last_of<T>(vs: Seq<RawV>, conv: spec_fn(RawV) -> Option<T>, dflt: T) -> Option<T>
    decreases vs.len(),
{
    if vs.len() == 0 {
        Some(dflt)
    } else {
        match last_of(vs.drop_last(), conv, dflt) {
            Some(_) => conv(vs.last()),
            None => None,
        }
    }
}

/// All converted values one after the other; `None` when any fails.
pub open spec fn concat_of<T>(vs: Seq<RawV>, conv: spec_fn(RawV) -> Option<Seq<T>>) -> Option<
    Seq<T>,
>
    decreases vs.len(),
{
    if vs.len() == 0 {
        Some(seq![])
    } else {
        match (concat_of(vs.drop_last(), conv), conv(vs.last())) {
            (Some(p), Some(x)) => Some(p + x),
            _ => None,
        }
    }
}

pub proof fn lemma_last_of_push<T>(vs: Seq<RawV>, r: RawV, conv: spec_fn(RawV) -> Option<T>, d: T)
    ensures
        last_of(vs.push(r), conv, d) == (match last_of(vs, conv, d) {
            Some(_) => conv(r),
            None => None,
        }),
{
    assert(vs.push(r).drop_last() =~= vs);
}

pub proof fn lemma_concat_of_push<T>(vs: Seq<RawV>, r: RawV, conv: spec_fn(RawV) -> Option<Seq<T>>)
    ensures
        concat_of(vs.push(r), conv) == (match (concat_of(vs, conv), conv(r)) {
            (Some(p), Some(x)) => Some(p + x),
            _ => None,
        }),
{
    assert(vs.push(r).drop_last() =~= vs);
}

pub proof fn lemma_last_of_none_extends<T>(
    vs: Seq<RawV>,
    ws: Seq<RawV>,
    conv: spec_fn(RawV) -> Option<T>,
    d: T,
)
    requires
        last_of(vs, conv, d) is None,
    ensures
        last_of(vs + ws, conv, d) is None,
    decreases ws.len(),
{
    if ws.len() == 0 {
        assert(vs + ws =~= vs);
    } else {
        assert((vs + ws).drop_last() =~= vs + ws.drop_last());
        lemma_last_of_none_extends(vs, ws.drop_last(), conv, d);
    }
}

pub proof fn lemma_concat_of_none_extends<T>(
    vs: Seq<RawV>,
    ws: Seq<RawV>,
    conv: spec_fn(RawV) -> Option<Seq<T>>,
)
    requires
        concat_of(vs, conv) is None,
    ensures
        concat_of(vs + ws, conv) is None,
    decreases ws.len(),
{
    if ws.len() == 0 {
        assert(vs + ws =~= vs);
    } else {
        assert((vs + ws).drop_last() =~= vs + ws.drop_last());
        lemma_concat_of_none_extends(vs, ws.drop_last(), conv);
    }
}

pub proof fn lemma_last_of_one<T>(r: RawV, conv: spec_fn(RawV) -> Option<T>, d: T)
    ensures
        last_of(seq![r], conv, d) == conv(r),
        last_of(Seq::<RawV>::empty(), conv, d) == Some(d),
{
    assert(seq![r].drop_last() =~= Seq::<RawV>::empty());
}

/// Reading back values written one each by `enc` gives them all.
pub proof fn lemma_concat_of_map<T>(
    xs: Seq<T>,
    enc: spec_fn(T) -> RawV,
    conv: spec_fn(RawV) -> Option<Seq<T>>,
)
    requires
        forall|i: int| 0 <= i < xs.len() ==> conv(enc(#[trigger] xs[i])) == Some(seq![xs[i]]),
    ensures
        concat_of(xs.map_values(enc), conv) == Some(xs),
    decreases xs.len(),
{
    if xs.len() > 0 {
        let ys = xs.map_values(enc);
        assert(ys.drop_last() =~= xs.drop_last().map_values(enc));
        lemma_concat_of_map(xs.drop_last(), enc, conv);
        assert(conv(enc(xs[xs.len() - 1])) == Some(seq![xs[xs.len() - 1]]));
        assert(xs.drop_last() + seq![xs.last()] =~= xs);
    } else {
        assert(xs.map_values(enc) =~= Seq::<RawV>::empty());
        assert(xs =~= Seq::<T>::empty());
    }
}

// ---------------------------------------------------------------------
// Conversions of one raw value, as prost's `merge` functions do them.
pub open spec fn conv_u64() -> spec_fn(RawV) -> Option<u64> {
    |r: RawV|
        match r {
            RawV::Varint(v) => Some(v),
            _ => None,
        }
}

/// `uint32` keeps the low 32 bits of the varint.
pub open spec fn conv_u32() -> spec_fn(RawV) -> Option<u32> {
    |r: RawV|
        match r {
            RawV::Varint(v) => Some((v % 0x1_0000_0000) as u32),
            _ => None,
        }
}

/// The `int32` (and enum) reading of a 64-bit varint: its low 32 bits as a
/// two's-complement number.
pub open spec fn i32_of(v: u64) -> i32 {
    let low = v % 0x1_0000_0000;
    if low >= 0x8000_0000 {
        (low - 0x1_0000_0000) as i32
    } else {
        low as i32
    }
}

/// The varint an `int32` is written as: its sign extension to 64 bits.
pub open spec fn i32_wire(x: i32) -> u64 {
    if x >= 0 {
        x as u64
    } else {
        (x + 0x1_0000_0000_0000_0000) as u64
    }
}

pub open spec fn conv_i32() -> spec_fn(RawV) -> Option<i32> {
    |r: RawV|
        match r {
            RawV::Varint(v) => Some(i32_of(v)),
            _ => None,
        }
}

pub open spec fn conv_bool() -> spec_fn(RawV) -> Option<bool> {
    |r: RawV|
        match r {
            RawV::Varint(v) => Some(v != 0),
            _ => None,
        }
}

pub open spec fn conv_bytes() -> spec_fn(RawV) -> Option<Seq<u8>> {
    |r: RawV|
        match r {
            RawV::Bytes(b) => Some(b),
            _ => None,
        }
}

pub open spec fn conv_opt_bytes() -> spec_fn(RawV) -> Option<Option<Seq<u8>>> {
    |r: RawV|
        match r {
            RawV::Bytes(b) => Some(Some(b)),
            _ => None,
        }
}

/// A string field: bytes that must be UTF-8.
pub open spec fn conv_string() -> spec_fn(RawV) -> Option<Seq<char>> {
    |r: RawV|
        match r {
            RawV::Bytes(b) => if valid_utf8(b) {
                Some(decode_utf8(b))
            } else {
                None
            },
            _ => None,
        }
}

pub open spec fn conv_rep_string() -> spec_fn(RawV) -> Option<Seq<Seq<char>>> {
    |r: RawV|
        match (conv_string())(r) {
            Some(s) => Some(seq![s]),
            None => None,
        }
}

/// The varints that exactly fill `s` (a packed repeated field).
pub open spec fn parse_varints(s: Seq<u8>) -> Option<Seq<u64>>
    decreases s.len(),
{
    if s.len() == 0 {
        Some(seq![])
    } else {
        match varint_prefix(s) {
            Some((v, n)) => if 0 < n <= s.len() {
                match parse_varints(s.skip(n as int)) {
                    Some(r) => Some(seq![v as u64] + r),
                    None => None,
                }
            } else {
                None
            },
            None => None,
        }
    }
}

/// A repeated `uint64` accepts both packed runs and single varints.
pub open spec fn conv_packed_u64() -> spec_fn(RawV) -> Option<Seq<u64>> {
    |r: RawV|
        match r {
            RawV::Varint(v) => Some(seq![v]),
            RawV::Bytes(b) => parse_varints(b),
            RawV::Fixed => None,
        }
}

// ---------------------------------------------------------------------
// Writing: the raw values a field of each kind is written as.
pub open spec fn vals_u64(v: u64) -> Seq<RawV> {
    if v == 0 {
        seq![]
    } else {
        seq![RawV::Varint(v)]
    }
}

pub open spec fn vals_u32(v: u32) -> Seq<RawV> {
    vals_u64(v as u64)
}

pub open spec fn vals_i32(x: i32) -> Seq<RawV> {
    if x == 0 {
        seq![]
    } else {
        seq![RawV::Varint(i32_wire(x))]
    }
}

pub open spec fn vals_bool(b: bool) -> Seq<RawV> {
    if b {
        seq![RawV::Varint(1)]
    } else {
        seq![]
    }
}

pub open spec fn vals_bytes(b: Seq<u8>) -> Seq<RawV> {
    if b.len() == 0 {
        seq![]
    } else {
        seq![RawV::Bytes(b)]
    }
}

pub open spec fn vals_opt_bytes(b: Option<Seq<u8>>) -> Seq<RawV> {
    match b {
        Some(b) => seq![RawV::Bytes(b)],
        None => seq![],
    }
}

pub open spec fn vals_string(s: Seq<char>) -> Seq<RawV> {
    vals_bytes(encode_utf8(s))
}

pub open spec fn string_raw() -> spec_fn(Seq<char>) -> RawV {
    |s: Seq<char>| RawV::Bytes(encode_utf8(s))
}

pub open spec fn vals_rep_string(ss: Seq<Seq<char>>) -> Seq<RawV> {
    ss.map_values(string_raw())
}

/// The varints of `vs` one after the other.
pub open spec fn packed_bytes(vs: Seq<u64>) -> Seq<u8>
    decreases vs.len(),
{
    if vs.len() == 0 {
        seq![]
    } else {
        varint_bytes(vs[0] as nat) + packed_bytes(vs.drop_first())
    }
}

pub open spec fn vals_packed_u64(vs: Seq<u64>) -> Seq<RawV> {
    if vs.len() == 0 {
        seq![]
    } else {
        seq![RawV::Bytes(packed_bytes(vs))]
    }
}

// ---------------------------------------------------------------------
// Each kind reads back what it wrote.
pub proof fn lemma_u64_round_trip(v: u64)
    ensures
        last_of(vals_u64(v), conv_u64(), 0) == Some(v),
{
    lemma_last_of_one(RawV::Varint(v), conv_u64(), 0);
}

pub proof fn lemma_u32_round_trip(v: u32)
    ensures
        last_of(vals_u32(v), conv_u32(), 0) == Some(v),
{
    lemma_last_of_one(RawV::Varint(v as u64), conv_u32(), 0);
}

pub proof fn lemma_i32_round_trip(x: i32)
    ensures
        last_of(vals_i32(x), conv_i32(), 0) == Some(x),
{
    lemma_last_of_one(RawV::Varint(i32_wire(x)), conv_i32(), 0);
}

pub proof fn lemma_bool_round_trip(b: bool)
    ensures
        last_of(vals_bool(b), conv_bool(), false) == Some(b),
{
    lemma_last_of_one(RawV::Varint(1), conv_bool(), false);
}

pub proof fn lemma_bytes_round_trip(b: Seq<u8>)
    ensures
        last_of(vals_bytes(b), conv_bytes(), Seq::<u8>::empty()) == Some(b),
{
    lemma_last_of_one(RawV::Bytes(b), conv_bytes(), Seq::<u8>::empty());
    if b.len() == 0 {
        assert(b =~= Seq::<u8>::empty());
    }
}

pub proof fn lemma_opt_bytes_round_trip(b: Option<Seq<u8>>)
    ensures
        last_of(vals_opt_bytes(b), conv_opt_bytes(), None) == Some(b),
{
    match b {
        Some(x) => lemma_last_of_one(RawV::Bytes(x), conv_opt_bytes(), None),
        None => lemma_last_of_one(RawV::Fixed, conv_opt_bytes(), None),
    }
}

pub proof fn lemma_string_round_trip(s: Seq<char>)
    ensures
        last_of(vals_string(s), conv_string(), Seq::<char>::empty()) == Some(s),
{
    let b = encode_utf8(s);
    lemma_last_of_one(RawV::Bytes(b), conv_string(), Seq::<char>::empty());
    if b.len() == 0 {
        assert(decode_utf8(b) == s);
        assert(decode_utf8(Seq::<u8>::empty()) =~= Seq::<char>::empty());
        assert(b =~= Seq::<u8>::empty());
    }
}

pub proof fn lemma_rep_string_round_trip(ss: Seq<Seq<char>>)
    ensures
        concat_of(vals_rep_string(ss), conv_rep_string()) == Some(ss),
{
    assert forall|i: int| 0 <= i < ss.len() implies (conv_rep_string())((string_raw())(
        #[trigger] ss[i],
    )) == Some(seq![ss[i]]) by {}
    lemma_concat_of_map(ss, string_raw(), conv_rep_string());
}

pub proof fn lemma_parse_packed(vs: Seq<u64>)
    ensures
        parse_varints(packed_bytes(vs)) == Some(vs),
    decreases vs.len(),
{
    if vs.len() > 0 {
        let rest = packed_bytes(vs.drop_first());
        crate::varint::lemma_varint_prefix_of(vs[0] as nat, rest);
        crate::varint::lemma_varint_bytes_len(vs[0] as nat);
        assert(packed_bytes(vs).skip(varint_bytes(vs[0] as nat).len() as int) =~= rest);
        lemma_parse_packed(vs.drop_first());
        assert(seq![vs[0]] + vs.drop_first() =~= vs);
    } else {
        assert(packed_bytes(vs) =~= Seq::<u8>::empty());
        assert(vs =~= Seq::<u64>::empty());
    }
}

pub proof fn lemma_packed_round_trip(vs: Seq<u64>)
    ensures
        concat_of(vals_packed_u64(vs), conv_packed_u64()) == Some(vs),
{
    if vs.len() > 0 {
        let r = RawV::Bytes(packed_bytes(vs));
        assert(seq![r].drop_last() =~= Seq::<RawV>::empty());
        assert(seq![r].last() == r);
        assert(vals_packed_u64(vs) == seq![r]);
        assert(concat_of(Seq::<RawV>::empty(), conv_packed_u64()) == Some(Seq::<u64>::empty()));
        lemma_parse_packed(vs);
        assert((conv_packed_u64())(r) == Some(vs));
        assert(Seq::<u64>::empty() + vs =~= vs);
    } else {
        assert(vs =~= Seq::<u64>::empty());
    }
}

// ---------------------------------------------------------------------
// Executable conversions.
/// Builds a `String` from bytes with `String::from_utf8`.
/// Claimed (std's documentation): it succeeds exactly when the bytes are
/// UTF-8, and the string then holds the characters they encode.
#[verifier::external_body]
pub(crate) fn string_from_utf8(bytes: Vec<u8>) -> (res: Option<String>)
    ensures
        res is Some <==> valid_utf8(bytes@),
        res matches Some(s) ==> s@ == decode_utf8(bytes@),
{
    String::from_utf8(bytes).ok()
}

pub fn raw_u64(r: &RawValue) -> (res: Result<u64, WireError>)
    ensures
        match (conv_u64())(r@) {
            Some(v) => res == Ok::<u64, WireError>(v),
            None => res is Err,
        },
{
    match r {
        RawValue::Varint(v) => Ok(*v),
        _ => Err(WireError::WireTypeMismatch),
    }
}

pub fn raw_u32(r: &RawValue) -> (res: Result<u32, WireError>)
    ensures
        match (conv_u32())(r@) {
            Some(v) => res == Ok::<u32, WireError>(v),
            None => res is Err,
        },
{
    match r {
        RawValue::Varint(v) => Ok((*v % 0x1_0000_0000) as u32),
        _ => Err(WireError::WireTypeMismatch),
    }
}

pub fn raw_i32(r: &RawValue) -> (res: Result<i32, WireError>)
    ensures
        match (conv_i32())(r@) {
            Some(v) => res == Ok::<i32, WireError>(v),
            None => res is Err,
        },
{
    match r {
        RawValue::Varint(v) => {
            let low = *v % 0x1_0000_0000;
            if low >= 0x8000_0000 {
                Ok((low as i64 - 0x1_0000_0000) as i32)
            } else {
                Ok(low as i32)
            }
        },
        _ => Err(WireError::WireTypeMismatch),
    }
}

pub fn raw_bool(r: &RawValue) -> (res: Result<bool, WireError>)
    ensures
        match (conv_bool())(r@) {
            Some(v) => res == Ok::<bool, WireError>(v),
            None => res is Err,
        },
{
    match r {
        RawValue::Varint(v) => Ok(*v != 0),
        _ => Err(WireError::WireTypeMismatch),
    }
}

pub fn raw_bytes(r: &RawValue) -> (res: Result<Vec<u8>, WireError>)
    ensures
        match (conv_bytes())(r@) {
            Some(v) => res matches Ok(b) && b@ == v,
            None => res is Err,
        },
{
    match r {
        RawValue::Bytes(b) => Ok(vstd::slice::slice_to_vec(b.as_slice())),
        _ => Err(WireError::WireTypeMismatch),
    }
}

pub fn raw_string(r: &RawValue) -> (res: Result<String, WireError>)
    ensures
        match (conv_string())(r@) {
            Some(v) => res matches Ok(s) && s@ == v,
            None => res is Err,
        },
{
    match r {
        RawValue::Bytes(b) => match string_from_utf8(vstd::slice::slice_to_vec(b.as_slice())) {
            Some(s) => Ok(s),
            None => Err(WireError::InvalidUtf8),
        },
        _ => Err(WireError::WireTypeMismatch),
    }
}

/// The varints that exactly fill `bytes`.
pub fn parse_varints_exec(bytes: &[u8]) -> (res: Result<Vec<u64>, WireError>)
    ensures
        match parse_varints(bytes@) {
            Some(vs) => res matches Ok(v) && v@ == vs,
            None => res is Err,
        },
{
    let mut out: Vec<u64> = Vec::new();
    let mut rest: &[u8] = bytes;
    while rest.len() > 0
        invariant
            parse_varints(bytes@) == (match parse_varints(rest@) {
                Some(r) => Some(out@ + r),
                None => None,
            }),
        decreases rest@.len(),
    {
        let ghost s = rest@;
        proof {
            crate::varint::lemma_varint_from_bound(s, 0);
        }
        let (v, after) = match crate::varint::take_varint(rest) {
            Ok(x) => x,
            Err(_) => {
                return Err(WireError::InvalidVarint);
            },
        };
        proof {
            match parse_varints(after@) {
                Some(r) => {
                    assert(out@ + (seq![v] + r) =~= out@.push(v) + r);
                },
                None => {},
            }
        }
        out.push(v);
        rest = after;
    }
    proof {
        assert(out@ + Seq::<u64>::empty() =~= out@);
    }
    Ok(out)
}

pub fn raw_packed_u64(r: &RawValue) -> (res: Result<Vec<u64>, WireError>)
    ensures
        match (conv_packed_u64())(r@) {
            Some(v) => res matches Ok(x) && x@ == v,
            None => res is Err,
        },
{
    match r {
        RawValue::Varint(v) => {
            let mut out = Vec::new();
            out.push(*v);
            proof {
                assert(out@ =~= seq![*v]);
            }
            Ok(out)
        },
        RawValue::Bytes(b) => parse_varints_exec(b.as_slice()),
        RawValue::Fixed => Err(WireError::WireTypeMismatch),
    }
}

// ---------------------------------------------------------------------
// Executable writers: each appends the bytes of one field's raw values.
pub fn append_bytes(buf: &mut Vec<u8>, b: &[u8])
    ensures
        final(buf)@ == old(buf)@ + b@,
{
    let mut i: usize = 0;
    while i < b.len()
        invariant
            i <= b@.len(),
            buf@ == old(buf)@ + b@.take(i as int),
        decreases b@.len() - i,
    {
        buf.push(b[i]);
        i = i + 1;
        proof {
            assert(old(buf)@ + b@.take(i as int) =~= (old(buf)@ + b@.take(i - 1)).push(b@[i - 1]));
        }
    }
    proof {
        assert(b@.take(i as int) =~= b@);
    }
}

/// Appends a length-delimited field: key, length, bytes.
pub fn put_delimited(buf: &mut Vec<u8>, t: u32, b: &[u8])
    requires
        1 <= t <= MAX_TAG,
    ensures
        final(buf)@ == old(buf)@ + encode_fields(piece(t, seq![RawV::Bytes(b@)])),
{
    put_key(t, FieldKind::LengthDelimited, buf);
    put_varint(b.len() as u64, buf);
    append_bytes(buf, b);
    proof {
        let f = (t, RawV::Bytes(b@));
        assert(piece(t, seq![RawV::Bytes(b@)]) =~= seq![f]);
        lemma_encode_fields_one(f);
        assert(final(buf)@ =~= old(buf)@ + encode_field(f));
    }
}

pub fn put_varint_field(buf: &mut Vec<u8>, t: u32, v: u64)
    requires
        1 <= t <= MAX_TAG,
    ensures
        final(buf)@ == old(buf)@ + encode_fields(piece(t, seq![RawV::Varint(v)])),
{
    put_key(t, FieldKind::Varint, buf);
    put_varint(v, buf);
    proof {
        let f = (t, RawV::Varint(v));
        assert(piece(t, seq![RawV::Varint(v)]) =~= seq![f]);
        lemma_encode_fields_one(f);
        assert(final(buf)@ =~= old(buf)@ + encode_field(f));
    }
}

pub proof fn lemma_encode_empty_piece(t: u32)
    ensures
        encode_fields(piece(t, Seq::<RawV>::empty())) == Seq::<u8>::empty(),
{
    assert(piece(t, Seq::<RawV>::empty()) =~= Seq::<(u32, RawV)>::empty());
}

pub fn put_u64_field(buf: &mut Vec<u8>, t: u32, v: u64)
    requires
        1 <= t <= MAX_TAG,
    ensures
        final(buf)@ == old(buf)@ + encode_fields(piece(t, vals_u64(v))),
{
    if v != 0 {
        put_varint_field(buf, t, v);
    } else {
        proof {
            lemma_encode_empty_piece(t);
            assert(final(buf)@ =~= old(buf)@ + Seq::<u8>::empty());
        }
    }
}

pub fn put_u32_field(buf: &mut Vec<u8>, t: u32, v: u32)
    requires
        1 <= t <= MAX_TAG,
    ensures
        final(buf)@ == old(buf)@ + encode_fields(piece(t, vals_u32(v))),
{
    put_u64_field(buf, t, v as u64);
}

pub fn put_i32_field(buf: &mut Vec<u8>, t: u32, x: i32)
    requires
        1 <= t <= MAX_TAG,
    ensures
        final(buf)@ == old(buf)@ + encode_fields(piece(t, vals_i32(x))),
{
    if x != 0 {
        let w: u64 = if x >= 0 {
            x as u64
        } else {
            (x as i128 + 0x1_0000_0000_0000_0000) as u64
        };
        put_varint_field(buf, t, w);
    } else {
        proof {
            lemma_encode_empty_piece(t);
            assert(final(buf)@ =~= old(buf)@ + Seq::<u8>::empty());
        }
    }
}

pub fn put_bool_field(buf: &mut Vec<u8>, t: u32, b: bool)
    requires
        1 <= t <= MAX_TAG,
    ensures
        final(buf)@ == old(buf)@ + encode_fields(piece(t, vals_bool(b))),
{
    if b {
        put_varint_field(buf, t, 1);
    } else {
        proof {
            lemma_encode_empty_piece(t);
            assert(final(buf)@ =~= old(buf)@ + Seq::<u8>::empty());
        }
    }
}

pub fn put_bytes_field(buf: &mut Vec<u8>, t: u32, b: &[u8])
    requires
        1 <= t <= MAX_TAG,
    ensures
        final(buf)@ == old(buf)@ + encode_fields(piece(t, vals_bytes(b@))),
{
    if b.len() != 0 {
        put_delimited(buf, t, b);
    } else {
        proof {
            lemma_encode_empty_piece(t);
            assert(final(buf)@ =~= old(buf)@ + Seq::<u8>::empty());
        }
    }
}

pub fn put_opt_bytes_field(buf: &mut Vec<u8>, t: u32, b: &Option<Vec<u8>>)
    requires
        1 <= t <= MAX_TAG,
    ensures
        final(buf)@ == old(buf)@ + encode_fields(piece(t, vals_opt_bytes(opt_bytes_view(b)))),
{
    match b {
        Some(x) => put_delimited(buf, t, x.as_slice()),
        None => {
            proof {
                lemma_encode_empty_piece(t);
                assert(final(buf)@ =~= old(buf)@ + Seq::<u8>::empty());
            }
        },
    }
}

pub open spec fn opt_bytes_view(b: &Option<Vec<u8>>) -> Option<Seq<u8>> {
    match b {
        Some(x) => Some(x@),
        None => None,
    }
}

pub fn put_string_field(buf: &mut Vec<u8>, t: u32, s: &String)
    requires
        1 <= t <= MAX_TAG,
    ensures
        final(buf)@ == old(buf)@ + encode_fields(piece(t, vals_string(s@))),
{
    let b = s.as_str().as_bytes();
    put_bytes_field(buf, t, b);
}

pub open spec fn strings_view(v: Seq<String>) -> Seq<Seq<char>> {
    v.map_values(|s: String| s@)
}

pub fn put_rep_string_field(buf: &mut Vec<u8>, t: u32, ss: &Vec<String>)
    requires
        1 <= t <= MAX_TAG,
    ensures
        final(buf)@ == old(buf)@ + encode_fields(piece(t, vals_rep_string(strings_view(ss@)))),
{
    let mut i: usize = 0;
    while i < ss.len()
        invariant
            1 <= t <= MAX_TAG,
            i <= ss@.len(),
            buf@ == old(buf)@ + encode_fields(
                piece(t, vals_rep_string(strings_view(ss@.take(i as int)))),
            ),
        decreases ss@.len() - i,
    {
        let ghost before = buf@;
        let b = ss[i].as_str().as_bytes();
        put_delimited(buf, t, b);
        proof {
            let p0 = piece(t, vals_rep_string(strings_view(ss@.take(i as int))));
            let f = piece(t, seq![RawV::Bytes(b@)]);
            assert(piece(t, vals_rep_string(strings_view(ss@.take(i + 1)))) =~= p0 + f);
            lemma_encode_fields_concat(p0, f);
        }
        i = i + 1;
    }
    proof {
        assert(ss@.take(i as int) =~= ss@);
    }
}

pub proof fn lemma_packed_concat(a: Seq<u64>, b: Seq<u64>)
    ensures
        packed_bytes(a + b) == packed_bytes(a) + packed_bytes(b),
    decreases a.len(),
{
    if a.len() == 0 {
        assert(a + b =~= b);
        assert(packed_bytes(a) =~= Seq::<u8>::empty());
        assert(packed_bytes(a) + packed_bytes(b) =~= packed_bytes(b));
    } else {
        assert((a + b).drop_first() =~= a.drop_first() + b);
        assert((a + b)[0] == a[0]);
        lemma_packed_concat(a.drop_first(), b);
        assert(varint_bytes(a[0] as nat) + (packed_bytes(a.drop_first()) + packed_bytes(b))
            =~= varint_bytes(a[0] as nat) + packed_bytes(a.drop_first()) + packed_bytes(b));
    }
}

pub proof fn lemma_packed_one(v: u64)
    ensures
        packed_bytes(seq![v]) == varint_bytes(v as nat),
{
    assert(seq![v].drop_first() =~= Seq::<u64>::empty());
    assert(seq![v][0] == v);
    assert(packed_bytes(Seq::<u64>::empty()) =~= Seq::<u8>::empty());
    assert(varint_bytes(v as nat) + Seq::<u8>::empty() =~= varint_bytes(v as nat));
}

/// Appends the varints of `vs` one after the other.
pub fn put_packed(buf: &mut Vec<u8>, vs: &Vec<u64>)
    ensures
        final(buf)@ == old(buf)@ + packed_bytes(vs@),
{
    let mut i: usize = 0;
    proof {
        assert(vs@.take(0) =~= Seq::<u64>::empty());
        assert(old(buf)@ + packed_bytes(Seq::<u64>::empty()) =~= old(buf)@);
    }
    while i < vs.len()
        invariant
            i <= vs@.len(),
            buf@ == old(buf)@ + packed_bytes(vs@.take(i as int)),
        decreases vs@.len() - i,
    {
        put_varint(vs[i], buf);
        proof {
            assert(vs@.take(i + 1) =~= vs@.take(i as int) + seq![vs@[i as int]]);
            lemma_packed_concat(vs@.take(i as int), seq![vs@[i as int]]);
            lemma_packed_one(vs@[i as int]);
        }
        i = i + 1;
    }
    proof {
        assert(vs@.take(i as int) =~= vs@);
    }
}

pub fn put_packed_u64_field(buf: &mut Vec<u8>, t: u32, vs: &Vec<u64>)
    requires
        1 <= t <= MAX_TAG,
    ensures
        final(buf)@ == old(buf)@ + encode_fields(piece(t, vals_packed_u64(vs@))),
{
    if vs.len() != 0 {
        let mut body: Vec<u8> = Vec::new();
        put_packed(&mut body, vs);
        proof {
            assert(body@ =~= packed_bytes(vs@));
        }
        put_delimited(buf, t, body.as_slice());
    } else {
        proof {
            lemma_encode_empty_piece(t);
            assert(final(buf)@ =~= old(buf)@ + Seq::<u8>::empty());
        }
    }
}

} // verus!

verus! {

// ---------------------------------------------------------------------
// Reading a message field by field.
/// Raw values that this library can write (no fixed-width values).
pub open spec fn vals_ok(vals: Seq<RawV>) -> bool {
    forall|i: int| 0 <= i < vals.len() ==> !(#[trigger] vals[i] is Fixed)
}

pub proof fn lemma_piece_ok(t: u32, vals: Seq<RawV>)
    requires
        1 <= t <= MAX_TAG,
        vals_ok(vals),
    ensures
        fields_ok(piece(t, vals)),
{
    assert forall|i: int| 0 <= i < piece(t, vals).len() implies field_ok(
        #[trigger] piece(t, vals)[i],
    ) by {
        assert(!(vals[i] is Fixed));
    }
}

/// One more field read into a singular field.
pub proof fn lemma_last_of_at<T>(fs: Seq<(u32, RawV)>, i: int, conv: spec_fn(RawV) -> Option<T>, d: T)
    requires
        0 <= i < fs.len(),
    ensures
        last_of(sel(fs.take(i + 1), fs[i].0), conv, d) == (match last_of(
            sel(fs.take(i), fs[i].0),
            conv,
            d,
        ) {
            Some(_) => conv(fs[i].1),
            None => None,
        }),
        last_of(sel(fs.take(i + 1), fs[i].0), conv, d) is None ==> last_of(
            sel(fs, fs[i].0),
            conv,
            d,
        ) is None,
{
    let t = fs[i].0;
    lemma_sel_take_step(fs, i);
    lemma_last_of_push(sel(fs.take(i), t), fs[i].1, conv, d);
    lemma_sel_split(fs, i + 1, t);
    if last_of(sel(fs.take(i + 1), t), conv, d) is None {
        lemma_last_of_none_extends(sel(fs.take(i + 1), t), sel(fs.skip(i + 1), t), conv, d);
    }
}

/// One more field read into a repeated field.
pub proof fn lemma_concat_of_at<T>(fs: Seq<(u32, RawV)>, i: int, conv: spec_fn(RawV) -> Option<Seq<T>>)
    requires
        0 <= i < fs.len(),
    ensures
        concat_of(sel(fs.take(i + 1), fs[i].0), conv) == (match (
            concat_of(sel(fs.take(i), fs[i].0), conv),
            conv(fs[i].1),
        ) {
            (Some(p), Some(x)) => Some(p + x),
            _ => None,
        }),
        concat_of(sel(fs.take(i + 1), fs[i].0), conv) is None ==> concat_of(
            sel(fs, fs[i].0),
            conv,
        ) is None,
{
    let t = fs[i].0;
    lemma_sel_take_step(fs, i);
    lemma_concat_of_push(sel(fs.take(i), t), fs[i].1, conv);
    lemma_sel_split(fs, i + 1, t);
    if concat_of(sel(fs.take(i + 1), t), conv) is None {
        lemma_concat_of_none_extends(sel(fs.take(i + 1), t), sel(fs.skip(i + 1), t), conv);
    }
}

pub fn step_u64(cur: &mut u64, r: &RawValue, Ghost(fs): Ghost<Seq<(u32, RawV)>>, Ghost(i): Ghost<int>) -> (res: Result<(), WireError>)
    requires
        0 <= i < fs.len(),
        fs[i].1 == r@,
        last_of(sel(fs.take(i), fs[i].0), conv_u64(), 0) == Some(*old(cur)),
    ensures
        res is Ok ==> last_of(sel(fs.take(i + 1), fs[i].0), conv_u64(), 0) == Some(*final(cur)),
        res is Err ==> last_of(sel(fs, fs[i].0), conv_u64(), 0) is None,
{
    proof {
        lemma_last_of_at(fs, i, conv_u64(), 0);
    }
    *cur = raw_u64(r)?;
    Ok(())
}

pub fn step_u32(cur: &mut u32, r: &RawValue, Ghost(fs): Ghost<Seq<(u32, RawV)>>, Ghost(i): Ghost<int>) -> (res: Result<(), WireError>)
    requires
        0 <= i < fs.len(),
        fs[i].1 == r@,
        last_of(sel(fs.take(i), fs[i].0), conv_u32(), 0) == Some(*old(cur)),
    ensures
        res is Ok ==> last_of(sel(fs.take(i + 1), fs[i].0), conv_u32(), 0) == Some(*final(cur)),
        res is Err ==> last_of(sel(fs, fs[i].0), conv_u32(), 0) is None,
{
    proof {
        lemma_last_of_at(fs, i, conv_u32(), 0);
    }
    *cur = raw_u32(r)?;
    Ok(())
}

pub fn step_i32(cur: &mut i32, r: &RawValue, Ghost(fs): Ghost<Seq<(u32, RawV)>>, Ghost(i): Ghost<int>) -> (res: Result<(), WireError>)
    requires
        0 <= i < fs.len(),
        fs[i].1 == r@,
        last_of(sel(fs.take(i), fs[i].0), conv_i32(), 0) == Some(*old(cur)),
    ensures
        res is Ok ==> last_of(sel(fs.take(i + 1), fs[i].0), conv_i32(), 0) == Some(*final(cur)),
        res is Err ==> last_of(sel(fs, fs[i].0), conv_i32(), 0) is None,
{
    proof {
        lemma_last_of_at(fs, i, conv_i32(), 0);
    }
    *cur = raw_i32(r)?;
    Ok(())
}

pub fn step_bool(cur: &mut bool, r: &RawValue, Ghost(fs): Ghost<Seq<(u32, RawV)>>, Ghost(i): Ghost<int>) -> (res: Result<(), WireError>)
    requires
        0 <= i < fs.len(),
        fs[i].1 == r@,
        last_of(sel(fs.take(i), fs[i].0), conv_bool(), false) == Some(*old(cur)),
    ensures
        res is Ok ==> last_of(sel(fs.take(i + 1), fs[i].0), conv_bool(), false) == Some(*final(cur)),
        res is Err ==> last_of(sel(fs, fs[i].0), conv_bool(), false) is None,
{
    proof {
        lemma_last_of_at(fs, i, conv_bool(), false);
    }
    *cur = raw_bool(r)?;
    Ok(())
}

pub fn step_string(cur: &mut String, r: &RawValue, Ghost(fs): Ghost<Seq<(u32, RawV)>>, Ghost(i): Ghost<int>) -> (res: Result<(), WireError>)
    requires
        0 <= i < fs.len(),
        fs[i].1 == r@,
        last_of(sel(fs.take(i), fs[i].0), conv_string(), Seq::<char>::empty()) == Some(old(cur)@),
    ensures
        res is Ok ==> last_of(sel(fs.take(i + 1), fs[i].0), conv_string(), Seq::<char>::empty())
            == Some(final(cur)@),
        res is Err ==> last_of(sel(fs, fs[i].0), conv_string(), Seq::<char>::empty()) is None,
{
    proof {
        lemma_last_of_at(fs, i, conv_string(), Seq::<char>::empty());
    }
    *cur = raw_string(r)?;
    Ok(())
}

pub fn step_bytes(cur: &mut Vec<u8>, r: &RawValue, Ghost(fs): Ghost<Seq<(u32, RawV)>>, Ghost(i): Ghost<int>) -> (res: Result<(), WireError>)
    requires
        0 <= i < fs.len(),
        fs[i].1 == r@,
        last_of(sel(fs.take(i), fs[i].0), conv_bytes(), Seq::<u8>::empty()) == Some(old(cur)@),
    ensures
        res is Ok ==> last_of(sel(fs.take(i + 1), fs[i].0), conv_bytes(), Seq::<u8>::empty())
            == Some(final(cur)@),
        res is Err ==> last_of(sel(fs, fs[i].0), conv_bytes(), Seq::<u8>::empty()) is None,
{
    proof {
        lemma_last_of_at(fs, i, conv_bytes(), Seq::<u8>::empty());
    }
    *cur = raw_bytes(r)?;
    Ok(())
}

pub fn step_opt_bytes(cur: &mut Option<Vec<u8>>, r: &RawValue, Ghost(fs): Ghost<Seq<(u32, RawV)>>, Ghost(i): Ghost<int>) -> (res: Result<(), WireError>)
    requires
        0 <= i < fs.len(),
        fs[i].1 == r@,
        last_of(sel(fs.take(i), fs[i].0), conv_opt_bytes(), None) == Some(opt_bytes_view(old(cur))),
    ensures
        res is Ok ==> last_of(sel(fs.take(i + 1), fs[i].0), conv_opt_bytes(), None) == Some(
            opt_bytes_view(final(cur)),
        ),
        res is Err ==> last_of(sel(fs, fs[i].0), conv_opt_bytes(), None) is None,
{
    proof {
        lemma_last_of_at(fs, i, conv_opt_bytes(), None);
    }
    let b = raw_bytes(r)?;
    *cur = Some(b);
    Ok(())
}

pub fn step_rep_string(cur: &mut Vec<String>, r: &RawValue, Ghost(fs): Ghost<Seq<(u32, RawV)>>, Ghost(i): Ghost<int>) -> (res: Result<(), WireError>)
    requires
        0 <= i < fs.len(),
        fs[i].1 == r@,
        concat_of(sel(fs.take(i), fs[i].0), conv_rep_string()) == Some(strings_view(old(cur)@)),
    ensures
        res is Ok ==> concat_of(sel(fs.take(i + 1), fs[i].0), conv_rep_string()) == Some(
            strings_view(final(cur)@),
        ),
        res is Err ==> concat_of(sel(fs, fs[i].0), conv_rep_string()) is None,
{
    proof {
        lemma_concat_of_at(fs, i, conv_rep_string());
    }
    let s = raw_string(r)?;
    let ghost sv = s@;
    cur.push(s);
    proof {
        assert(strings_view(final(cur)@) =~= strings_view(old(cur)@) + seq![sv]);
    }
    Ok(())
}

pub fn step_packed_u64(cur: &mut Vec<u64>, r: &RawValue, Ghost(fs): Ghost<Seq<(u32, RawV)>>, Ghost(i): Ghost<int>) -> (res: Result<(), WireError>)
    requires
        0 <= i < fs.len(),
        fs[i].1 == r@,
        concat_of(sel(fs.take(i), fs[i].0), conv_packed_u64()) == Some(old(cur)@),
    ensures
        res is Ok ==> concat_of(sel(fs.take(i + 1), fs[i].0), conv_packed_u64()) == Some(
            final(cur)@,
        ),
        res is Err ==> concat_of(sel(fs, fs[i].0), conv_packed_u64()) is None,
{
    proof {
        lemma_concat_of_at(fs, i, conv_packed_u64());
    }
    let mut more = raw_packed_u64(r)?;
    let ghost m = more@;
    cur.append(&mut more);
    proof {
        assert(final(cur)@ =~= old(cur)@ + m);
    }
    Ok(())
}

} // verus!

verus! {

// ---------------------------------------------------------------------
// Nested messages.
/// The fields inside one length-delimited occurrence of a message field.
pub open spec fn conv_fields() -> spec_fn(RawV) -> Option<Seq<(u32, RawV)>> {
    |r: RawV|
        match r {
            RawV::Bytes(b) => crate::wire::parse_fields(b),
            _ => None,
        }
}

/// A singular message field: absent, or the message read from the fields of
/// all its occurrences together (prost merges repeated occurrences).
pub open spec fn opt_msg<M>(vs: Seq<RawV>, from_raw: spec_fn(Seq<(u32, RawV)>) -> Option<M>) -> Option<Option<M>> {
    if vs.len() == 0 {
        Some(None)
    } else {
        match concat_of(vs, conv_fields()) {
            Some(fs) => match from_raw(fs) {
                Some(m) => Some(Some(m)),
                None => None,
            },
            None => None,
        }
    }
}

/// A repeated message field: each occurrence is one message.
pub open spec fn conv_msgs<M>(from_raw: spec_fn(Seq<(u32, RawV)>) -> Option<M>) -> spec_fn(RawV) -> Option<Seq<M>> {
    |r: RawV|
        match (conv_fields())(r) {
            Some(fs) => match from_raw(fs) {
                Some(m) => Some(seq![m]),
                None => None,
            },
            None => None,
        }
}

/// Bytes and fields read from a message's bytes.
pub open spec fn decode_with<M>(s: Seq<u8>, from_raw: spec_fn(Seq<(u32, RawV)>) -> Option<M>) -> Option<M> {
    match crate::wire::parse_fields(s) {
        Some(fs) => from_raw(fs),
        None => None,
    }
}

pub open spec fn vals_opt_msg(enc: Option<Seq<u8>>) -> Seq<RawV> {
    match enc {
        Some(b) => seq![RawV::Bytes(b)],
        None => seq![],
    }
}

pub open spec fn vals_rep_msg<M>(ms: Seq<M>, enc: spec_fn(M) -> Seq<u8>) -> Seq<RawV> {
    ms.map_values(|m: M| RawV::Bytes(enc(m)))
}

/// A message's fields read back from its bytes.
pub proof fn lemma_decode_fields(fs: Seq<(u32, RawV)>)
    requires
        fields_ok(fs),
        encode_fields(fs).len() <= u64::MAX,
    ensures
        (conv_fields())(RawV::Bytes(encode_fields(fs))) == Some(fs),
{
    crate::wire::lemma_parse_encode_fields(fs);
}

pub proof fn lemma_opt_msg_round_trip<M>(
    m: Option<M>,
    enc: Seq<u8>,
    fs: Seq<(u32, RawV)>,
    from_raw: spec_fn(Seq<(u32, RawV)>) -> Option<M>,
)
    requires
        m is Some ==> enc == encode_fields(fs) && fields_ok(fs) && enc.len() <= u64::MAX
            && from_raw(fs) == m,
    ensures
        opt_msg(
            vals_opt_msg(
                match m {
                    Some(_) => Some(enc),
                    None => None,
                },
            ),
            from_raw,
        ) == Some(m),
{
    if m is Some {
        let r = RawV::Bytes(enc);
        lemma_decode_fields(fs);
        assert(seq![r].drop_last() =~= Seq::<RawV>::empty());
        assert(seq![r].last() == r);
        assert(Seq::<(u32, RawV)>::empty() + fs =~= fs);
        assert(concat_of(Seq::<RawV>::empty(), conv_fields()) == Some(
            Seq::<(u32, RawV)>::empty(),
        ));
        assert(concat_of(seq![r], conv_fields()) == Some(fs));
    } else {
        assert(vals_opt_msg(None) =~= Seq::<RawV>::empty());
    }
}

pub proof fn lemma_rep_msg_round_trip<M>(
    ms: Seq<M>,
    enc: spec_fn(M) -> Seq<u8>,
    raw: spec_fn(M) -> Seq<(u32, RawV)>,
    from_raw: spec_fn(Seq<(u32, RawV)>) -> Option<M>,
)
    requires
        forall|i: int|
            0 <= i < ms.len() ==> {
                &&& enc(#[trigger] ms[i]) == encode_fields(raw(ms[i]))
                &&& fields_ok(raw(ms[i]))
                &&& enc(ms[i]).len() <= u64::MAX
                &&& from_raw(raw(ms[i])) == Some(ms[i])
            },
    ensures
        concat_of(vals_rep_msg(ms, enc), conv_msgs(from_raw)) == Some(ms),
{
    let e = |m: M| RawV::Bytes(enc(m));
    assert forall|i: int| 0 <= i < ms.len() implies (conv_msgs(from_raw))(e(#[trigger] ms[i]))
        == Some(seq![ms[i]]) by {
        lemma_decode_fields(raw(ms[i]));
    }
    lemma_concat_of_map(ms, e, conv_msgs(from_raw));
    assert(vals_rep_msg(ms, enc) == ms.map_values(e));
}

/// The bytes of a field's value lie inside the bytes of its message.
pub proof fn lemma_piece_bytes_bound(a: Seq<(u32, RawV)>, b: Seq<(u32, RawV)>, t: u32, x: Seq<u8>)
    ensures
        encode_fields(a + piece(t, seq![RawV::Bytes(x)]) + b).len() >= x.len(),
{
    let p = piece(t, seq![RawV::Bytes(x)]);
    lemma_encode_fields_concat(a + p, b);
    lemma_encode_fields_concat(a, p);
    assert(p =~= seq![(t, RawV::Bytes(x))]);
    lemma_encode_fields_one((t, RawV::Bytes(x)));
}

} // verus!

verus! {

// ---------------------------------------------------------------------
// Map fields: each occurrence is one entry message with the key at field 1
// and the value at field 2; a later entry replaces an earlier one.
pub open spec fn conv_entry<W>(val: spec_fn(Seq<RawV>) -> Option<W>) -> spec_fn(RawV) -> Option<
    Seq<(Seq<char>, W)>,
> {
    |r: RawV|
        match (conv_fields())(r) {
            Some(ef) => match (last_of(sel(ef, 1), conv_string(), Seq::<char>::empty()), val(sel(ef, 2))) {
                (Some(k), Some(v)) => Some(seq![(k, v)]),
                _ => None,
            },
            None => None,
        }
}

pub open spec fn map_of<W>(vs: Seq<RawV>, val: spec_fn(Seq<RawV>) -> Option<W>) -> Option<
    Seq<(Seq<char>, W)>,
> {
    match concat_of(vs, conv_entry(val)) {
        Some(es) => Some(crate::string_map::entries_from(es)),
        None => None,
    }
}

/// The fields of one map entry.
pub open spec fn entry_raw(k: Seq<char>, vv: Seq<RawV>) -> Seq<(u32, RawV)> {
    piece(1, vals_string(k)) + piece(2, vv)
}

pub open spec fn vals_map<W>(es: Seq<(Seq<char>, W)>, venc: spec_fn(W) -> Seq<RawV>) -> Seq<RawV> {
    es.map_values(|e: (Seq<char>, W)| RawV::Bytes(encode_fields(entry_raw(e.0, venc(e.1)))))
}

/// A `uint32` map value.
pub open spec fn val_u32() -> spec_fn(Seq<RawV>) -> Option<u32> {
    |vs: Seq<RawV>| last_of(vs, conv_u32(), 0)
}

pub open spec fn venc_u32() -> spec_fn(u32) -> Seq<RawV> {
    |v: u32| vals_u32(v)
}

/// A message map value: the merged fields of field 2 (the default message
/// when absent).
pub open spec fn val_msg<M>(from_raw: spec_fn(Seq<(u32, RawV)>) -> Option<M>) -> spec_fn(Seq<RawV>) -> Option<M> {
    |vs: Seq<RawV>|
        match concat_of(vs, conv_fields()) {
            Some(fs) => from_raw(fs),
            None => None,
        }
}

pub open spec fn venc_msg<M>(enc: spec_fn(M) -> Seq<u8>) -> spec_fn(M) -> Seq<RawV> {
    |m: M| vals_bytes(enc(m))
}

pub proof fn lemma_encode_fields_nonempty(fs: Seq<(u32, RawV)>)
    requires
        fields_ok(fs),
        encode_fields(fs).len() == 0,
    ensures
        fs == Seq::<(u32, RawV)>::empty(),
{
    if fs.len() > 0 {
        assert(field_ok(fs[0]));
        crate::varint::lemma_varint_bytes_len((fs[0].0 * 8) as nat);
        crate::varint::lemma_varint_bytes_len((fs[0].0 * 8 + 2) as nat);
        assert(encode_field(fs[0]).len() > 0);
    }
}

pub proof fn lemma_val_msg_round_trip<M>(
    m: M,
    enc: Seq<u8>,
    fs: Seq<(u32, RawV)>,
    from_raw: spec_fn(Seq<(u32, RawV)>) -> Option<M>,
)
    requires
        enc == encode_fields(fs),
        fields_ok(fs),
        enc.len() <= u64::MAX,
        from_raw(fs) == Some(m),
    ensures
        (val_msg(from_raw))(vals_bytes(enc)) == Some(m),
{
    if enc.len() == 0 {
        lemma_encode_fields_nonempty(fs);
    } else {
        let r = RawV::Bytes(enc);
        lemma_decode_fields(fs);
        assert(seq![r].drop_last() =~= Seq::<RawV>::empty());
        assert(seq![r].last() == r);
        assert(Seq::<(u32, RawV)>::empty() + fs =~= fs);
        assert(concat_of(Seq::<RawV>::empty(), conv_fields()) == Some(
            Seq::<(u32, RawV)>::empty(),
        ));
    }
}

pub proof fn lemma_entry_ok(k: Seq<char>, vv: Seq<RawV>)
    requires
        vals_ok(vv),
    ensures
        fields_ok(entry_raw(k, vv)),
        sel(entry_raw(k, vv), 1) == vals_string(k),
        sel(entry_raw(k, vv), 2) == vv,
{
    lemma_piece_ok(1, vals_string(k));
    lemma_piece_ok(2, vv);
    crate::wire::lemma_fields_ok_concat(piece(1, vals_string(k)), piece(2, vv));
    lemma_sel_concat(piece(1, vals_string(k)), piece(2, vv), 1);
    lemma_sel_concat(piece(1, vals_string(k)), piece(2, vv), 2);
    lemma_sel_piece(1, vals_string(k), 1);
    lemma_sel_piece(1, vals_string(k), 2);
    lemma_sel_piece(2, vv, 1);
    lemma_sel_piece(2, vv, 2);
    assert(vals_string(k) + Seq::<RawV>::empty() =~= vals_string(k));
    assert(Seq::<RawV>::empty() + vv =~= vv);
}

pub proof fn lemma_vals_string_ok(s: Seq<char>)
    ensures
        vals_ok(vals_string(s)),
{
}

/// Entries with distinct keys read back from their encoding.
pub proof fn lemma_map_round_trip<W>(
    es: Seq<(Seq<char>, W)>,
    val: spec_fn(Seq<RawV>) -> Option<W>,
    venc: spec_fn(W) -> Seq<RawV>,
)
    requires
        crate::string_map::keys_sorted(es),
        forall|i: int|
            0 <= i < es.len() ==> {
                &&& val(venc((#[trigger] es[i]).1)) == Some(es[i].1)
                &&& vals_ok(venc(es[i].1))
                &&& encode_fields(entry_raw(es[i].0, venc(es[i].1))).len() <= u64::MAX
            },
    ensures
        map_of(vals_map(es, venc), val) == Some(es),
{
    let e = |x: (Seq<char>, W)| RawV::Bytes(encode_fields(entry_raw(x.0, venc(x.1))));
    assert forall|i: int| 0 <= i < es.len() implies (conv_entry(val))(e(#[trigger] es[i])) == Some(
        seq![es[i]],
    ) by {
        let x = es[i];
        lemma_entry_ok(x.0, venc(x.1));
        lemma_decode_fields(entry_raw(x.0, venc(x.1)));
        lemma_string_round_trip(x.0);
    }
    lemma_concat_of_map(es, e, conv_entry(val));
    assert(vals_map(es, venc) == es.map_values(e));
    crate::string_map::lemma_entries_from_sorted(es);
}

/// A payload inside a piece is no longer than the piece's bytes.
pub proof fn lemma_piece_payload_bound(t: u32, vals: Seq<RawV>, i: int)
    requires
        0 <= i < vals.len(),
        vals[i] is Bytes,
    ensures
        vals[i]->Bytes_0.len() <= encode_fields(piece(t, vals)).len(),
    decreases vals.len(),
{
    let p = piece(t, vals);
    assert(p =~= piece(t, vals.drop_last()) + seq![(t, vals.last())]);
    lemma_encode_fields_concat(piece(t, vals.drop_last()), seq![(t, vals.last())]);
    lemma_encode_fields_one((t, vals.last()));
    if i < vals.len() - 1 {
        assert(vals.drop_last()[i] == vals[i]);
        lemma_piece_payload_bound(t, vals.drop_last(), i);
    }
}

// ---------------------------------------------------------------------
// Executable reading of nested messages and maps.
pub fn raw_fields(r: &RawValue) -> (res: Result<Vec<crate::wire::RawField>, WireError>)
    ensures
        match (conv_fields())(r@) {
            Some(fs) => res matches Ok(v) && crate::wire::fields_view(v@) == fs,
            None => res is Err,
        },
{
    match r {
        RawValue::Bytes(b) => crate::wire::parse_fields_exec(b.as_slice()),
        _ => Err(WireError::WireTypeMismatch),
    }
}

/// One more occurrence of a singular message field: its fields join those
/// read so far.
pub fn step_msg_fields(
    acc: &mut Vec<crate::wire::RawField>,
    present: &mut bool,
    r: &RawValue,
    Ghost(fs): Ghost<Seq<(u32, RawV)>>,
    Ghost(i): Ghost<int>,
) -> (res: Result<(), WireError>)
    requires
        0 <= i < fs.len(),
        fs[i].1 == r@,
        concat_of(sel(fs.take(i), fs[i].0), conv_fields()) == Some(
            crate::wire::fields_view(old(acc)@),
        ),
        *old(present) == (sel(fs.take(i), fs[i].0).len() > 0),
    ensures
        res is Ok ==> concat_of(sel(fs.take(i + 1), fs[i].0), conv_fields()) == Some(
            crate::wire::fields_view(final(acc)@),
        ) && *final(present) == (sel(fs.take(i + 1), fs[i].0).len() > 0),
        res is Err ==> concat_of(sel(fs, fs[i].0), conv_fields()) is None,
{
    proof {
        lemma_concat_of_at(fs, i, conv_fields());
        lemma_sel_take_step(fs, i);
    }
    let mut more = raw_fields(r)?;
    let ghost m = crate::wire::fields_view(more@);
    let ghost a = crate::wire::fields_view(acc@);
    acc.append(&mut more);
    *present = true;
    proof {
        assert(crate::wire::fields_view(acc@) =~= a + m);
    }
    Ok(())
}

/// One more entry of a `map<string, uint32>` field.
pub fn step_map_u32(
    cur: &mut crate::string_map::StringMap<u32>,
    r: &RawValue,
    Ghost(fs): Ghost<Seq<(u32, RawV)>>,
    Ghost(i): Ghost<int>,
) -> (res: Result<(), WireError>)
    requires
        0 <= i < fs.len(),
        fs[i].1 == r@,
        map_of(sel(fs.take(i), fs[i].0), val_u32()) == Some(old(cur)@),
    ensures
        res is Ok ==> map_of(sel(fs.take(i + 1), fs[i].0), val_u32()) == Some(final(cur)@),
        res is Err ==> map_of(sel(fs, fs[i].0), val_u32()) is None,
{
    proof {
        lemma_concat_of_at(fs, i, conv_entry(val_u32()));
    }
    let ef = raw_fields(r)?;
    let ghost efs = crate::wire::fields_view(ef@);
    let mut key = String::new();
    let mut value: u32 = 0;
    proof {
        if (conv_entry(val_u32()))(r@) is None {
            assert(concat_of(sel(fs.take(i + 1), fs[i].0), conv_entry(val_u32())) is None);
        }
    }
    let mut j: usize = 0;
    proof {
        assert(efs.take(0) =~= Seq::<(u32, RawV)>::empty());
    }
    while j < ef.len()
        invariant
            efs == crate::wire::fields_view(ef@),
            j <= ef@.len(),
            last_of(sel(efs.take(j as int), 1), conv_string(), Seq::<char>::empty()) == Some(key@),
            last_of(sel(efs.take(j as int), 2), conv_u32(), 0) == Some(value),
            (conv_fields())(r@) == Some(efs),
            (conv_entry(val_u32()))(r@) is None ==> map_of(sel(fs, fs[i].0), val_u32()) is None,
        decreases ef@.len() - j,
    {
        let f = &ef[j];
        proof {
            lemma_sel_take_step(efs, j as int);
        }
        if f.tag == 1 {
            step_string(&mut key, &f.value, Ghost(efs), Ghost(j as int))?;
        } else if f.tag == 2 {
            step_u32(&mut value, &f.value, Ghost(efs), Ghost(j as int))?;
        }
        j = j + 1;
    }
    proof {
        assert(efs.take(j as int) =~= efs);
        let p = concat_of(sel(fs.take(i), fs[i].0), conv_entry(val_u32())).unwrap();
        assert((p + seq![(key@, value)]).drop_last() =~= p);
    }
    cur.insert(key, value);
    Ok(())
}

// ---------------------------------------------------------------------
// Executable writing of nested messages and maps.
pub fn put_opt_msg_field(buf: &mut Vec<u8>, t: u32, enc: Option<Vec<u8>>)
    requires
        1 <= t <= MAX_TAG,
    ensures
        final(buf)@ == old(buf)@ + encode_fields(piece(t, vals_opt_msg(opt_bytes_view(&enc)))),
{
    match enc {
        Some(b) => put_delimited(buf, t, b.as_slice()),
        None => {
            proof {
                lemma_encode_empty_piece(t);
                assert(final(buf)@ =~= old(buf)@ + Seq::<u8>::empty());
            }
        },
    }
}

/// Appends the entries of a `map<string, uint32>` field.
pub fn put_map_u32(buf: &mut Vec<u8>, t: u32, m: &crate::string_map::StringMap<u32>)
    requires
        1 <= t <= MAX_TAG,
    ensures
        final(buf)@ == old(buf)@ + encode_fields(piece(t, vals_map(m@, venc_u32()))),
{
    let es = m.entries();
    let ghost ev = m@;
    let mut i: usize = 0;
    proof {
        assert(ev.take(0) =~= Seq::<(Seq<char>, u32)>::empty());
        assert(vals_map(ev.take(0), venc_u32()) =~= Seq::<RawV>::empty());
        lemma_encode_empty_piece(t);
        assert(buf@ =~= old(buf)@ + Seq::<u8>::empty());
    }
    while i < es.len()
        invariant
            1 <= t <= MAX_TAG,
            crate::string_map::view_entries(es@) == ev,
            i <= ev.len(),
            buf@ == old(buf)@ + encode_fields(piece(t, vals_map(ev.take(i as int), venc_u32()))),
        decreases ev.len() - i,
    {
        let mut entry: Vec<u8> = Vec::new();
        put_string_field(&mut entry, 1, &es[i].0);
        put_u32_field(&mut entry, 2, es[i].1);
        proof {
            let e = ev[i as int];
            assert(e.0 == es@[i as int].0@ && e.1 == es@[i as int].1);
            lemma_encode_fields_concat(piece(1, vals_string(e.0)), piece(2, vals_u32(e.1)));
            assert(entry@ =~= encode_fields(entry_raw(e.0, (venc_u32())(e.1))));
        }
        let ghost before = buf@;
        put_delimited(buf, t, entry.as_slice());
        proof {
            let p0 = piece(t, vals_map(ev.take(i as int), venc_u32()));
            let f = piece(t, seq![RawV::Bytes(entry@)]);
            assert(piece(t, vals_map(ev.take(i + 1), venc_u32())) =~= p0 + f);
            lemma_encode_fields_concat(p0, f);
        }
        i = i + 1;
    }
    proof {
        assert(ev.take(i as int) =~= ev);
    }
}

} // verus!

verus! {

/// A map value's bytes lie inside its entry's bytes.
pub proof fn lemma_entry_payload_bound(k: Seq<char>, enc: Seq<u8>)
    ensures
        enc.len() <= encode_fields(entry_raw(k, vals_bytes(enc))).len(),
{
    lemma_encode_fields_concat(piece(1, vals_string(k)), piece(2, vals_bytes(enc)));
    if enc.len() > 0 {
        lemma_piece_payload_bound(2, vals_bytes(enc), 0);
    }
}

} // verus!
