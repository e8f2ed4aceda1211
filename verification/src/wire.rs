//! Protobuf messages as sequences of raw fields: splitting bytes into
//! fields, writing fields back, and the law that reading undoes writing.
use vstd::prelude::*;
use crate::varint::{
    key_bytes, key_prefix, lemma_key_prefix_of, lemma_varint_bytes_len, lemma_varint_prefix_of,
    take_key, take_varint, lemma_varint_from_bound, varint_bytes, varint_prefix, MAX_TAG,
};

verus! {

/// Why bytes could not be read as a message.
#[derive(Clone, Copy, Debug, PartialEq, Eq, Structural)]
pub enum WireError {
    /// A varint or field key that prost rejects.
    InvalidVarint,
    /// A length-delimited field or fixed-width value runs past the end.
    BufferUnderflow,
    /// A stray or mismatched end-of-group key, or groups nested deeper than
    /// prost follows them.
    UnsupportedWireType,
    /// A known field arrived with another wire type than its own.
    WireTypeMismatch,
    /// A string field that is not UTF-8.
    InvalidUtf8,
}

/// A raw field value as it stands on the wire.
pub enum RawV {
    Varint(u64),
    Bytes(Seq<u8>),
    /// A fixed 32- or 64-bit value or a group, which no message of this
    /// library uses.
    Fixed,
}

/// A raw field value read from bytes.
#[derive(Debug)]
pub enum RawValue {
    Varint(u64),
    Bytes(Vec<u8>),
    Fixed,
}

impl View for RawValue {
    type V = RawV;

    open spec fn view(&self) -> RawV {
        match self {
            RawValue::Varint(v) => RawV::Varint(*v),
            RawValue::Bytes(b) => RawV::Bytes(b@),
            RawValue::Fixed => RawV::Fixed,
        }
    }
}

/// A field: its number and its raw value.
#[derive(Debug)]
pub struct RawField {
    pub tag: u32,
    pub value: RawValue,
}

impl View for RawField {
    type V = (u32, RawV);

    open spec fn view(&self) -> (u32, RawV) {
        (self.tag, self.value@)
    }
}

pub open spec fn fields_view(v: Seq<RawField>) -> Seq<(u32, RawV)> {
    v.map_values(|f: RawField| f@)
}

/// How deep groups nest before prost stops following them: it follows a
/// message's own fields a hundred levels down.
pub const GROUP_DEPTH_LIMIT: usize = 100;

/// The bytes that the value of a field of wire type `w` (other than a
/// group) takes at the front of `r`.
pub open spec fn plain_len(r: Seq<u8>, w: u8) -> Option<nat> {
    if w == 0 {
        match varint_prefix(r) {
            Some((_, m)) => Some(m),
            None => None,
        }
    } else if w == 1 {
        Some(8)
    } else if w == 2 {
        match varint_prefix(r) {
            Some((l, m)) => Some(m + l),
            None => None,
        }
    } else if w == 5 {
        Some(4)
    } else {
        None
    }
}

/// `n` more bytes than `m`, if there is an `m`.
pub open spec fn add_len(n: nat, m: Option<nat>) -> Option<nat> {
    match m {
        Some(k) => Some(n + k),
        None => None,
    }
}

/// The bytes at the front of `s` that the groups `open` (their field
/// numbers, innermost last) still take, up to and including the end key of
/// the outermost one, skipping the fields inside as prost does.
#[verifier::opaque]
pub open spec fn group_rest(s: Seq<u8>, open: Seq<u32>) -> Option<nat>
    decreases s.len(),
{
    if open.len() == 0 {
        Some(0)
    } else {
        match key_prefix(s) {
            None => None,
            Some((t, w, n)) => if 0 < n <= s.len() {
                let r = s.skip(n as int);
                if w == 4 {
                    if t == open.last() {
                        add_len(n, group_rest(r, open.drop_last()))
                    } else {
                        None
                    }
                } else if open.len() >= GROUP_DEPTH_LIMIT {
                    None
                } else if w == 3 {
                    add_len(n, group_rest(r, open.push(t)))
                } else {
                    match plain_len(r, w) {
                        Some(m) => if m <= r.len() {
                            add_len(n + m, group_rest(r.skip(m as int), open))
                        } else {
                            None
                        },
                        None => None,
                    }
                }
            } else {
                None
            },
        }
    }
}

/// One step of [`group_rest`]: the key at the front, and what follows it.
pub proof fn lemma_group_rest_unfold(s: Seq<u8>, open: Seq<u32>)
    requires
        open.len() > 0,
    ensures
        group_rest(s, open) == match key_prefix(s) {
            None => None,
            Some((t, w, n)) => if 0 < n <= s.len() {
                let r = s.skip(n as int);
                if w == 4 {
                    if t == open.last() {
                        add_len(n, group_rest(r, open.drop_last()))
                    } else {
                        None
                    }
                } else if open.len() >= GROUP_DEPTH_LIMIT {
                    None
                } else if w == 3 {
                    add_len(n, group_rest(r, open.push(t)))
                } else {
                    match plain_len(r, w) {
                        Some(m) => if m <= r.len() {
                            add_len(n + m, group_rest(r.skip(m as int), open))
                        } else {
                            None
                        },
                        None => None,
                    }
                }
            } else {
                None
            },
        },
{
    reveal(group_rest);
}

/// With no group open, nothing more is taken.
pub proof fn lemma_group_rest_closed(s: Seq<u8>)
    ensures
        group_rest(s, seq![]) == Some(0nat),
{
    reveal(group_rest);
}

/// One field at the front of `s` and the number of bytes it takes. A group
/// is skipped like a value of a wire type that no message uses.
pub open spec fn parse_one(s: Seq<u8>) -> Option<((u32, RawV), nat)> {
    match key_prefix(s) {
        None => None,
        Some((t, w, n)) => {
            let r = s.skip(n as int);
            if w == 0 {
                match varint_prefix(r) {
                    Some((v, m)) => Some(((t, RawV::Varint(v as u64)), n + m)),
                    None => None,
                }
            } else if w == 1 {
                if r.len() >= 8 {
                    Some(((t, RawV::Fixed), n + 8))
                } else {
                    None
                }
            } else if w == 2 {
                match varint_prefix(r) {
                    Some((l, m)) => if m + l <= r.len() {
                        Some(((t, RawV::Bytes(r.subrange(m as int, (m + l) as int))), n + m + l))
                    } else {
                        None
                    },
                    None => None,
                }
            } else if w == 5 {
                if r.len() >= 4 {
                    Some(((t, RawV::Fixed), n + 4))
                } else {
                    None
                }
            } else if w == 3 {
                match group_rest(r, seq![t]) {
                    Some(m) => if m <= r.len() {
                        Some(((t, RawV::Fixed), n + m))
                    } else {
                        None
                    },
                    None => None,
                }
            } else {
                None
            }
        },
    }
}

/// The fields that make up `s`, in order, if `s` is a sequence of fields.
pub open spec fn parse_fields(s: Seq<u8>) -> Option<Seq<(u32, RawV)>>
    decreases s.len(),
{
    if s.len() == 0 {
        Some(seq![])
    } else {
        match parse_one(s) {
            Some((f, n)) => if 0 < n <= s.len() {
                match parse_fields(s.skip(n as int)) {
                    Some(r) => Some(seq![f] + r),
                    None => None,
                }
            } else {
                None
            },
            None => None,
        }
    }
}

/// The bytes of one field.
pub open spec fn encode_field(f: (u32, RawV)) -> Seq<u8> {
    match f.1 {
        RawV::Varint(v) => key_bytes(f.0 as nat, 0) + varint_bytes(v as nat),
        RawV::Bytes(b) => key_bytes(f.0 as nat, 2) + varint_bytes(b.len()) + b,
        RawV::Fixed => seq![],
    }
}

/// The bytes of a sequence of fields.
pub open spec fn encode_fields(fs: Seq<(u32, RawV)>) -> Seq<u8>
    decreases fs.len(),
{
    if fs.len() == 0 {
        seq![]
    } else {
        encode_field(fs[0]) + encode_fields(fs.drop_first())
    }
}

/// A field that this library can write: a valid field number and a varint
/// or a byte run.
pub open spec fn field_ok(f: (u32, RawV)) -> bool {
    &&& 1 <= f.0 <= MAX_TAG
    &&& !(f.1 is Fixed)
}

pub open spec fn fields_ok(fs: Seq<(u32, RawV)>) -> bool {
    forall|i: int| 0 <= i < fs.len() ==> field_ok(#[trigger] fs[i])
}

pub proof fn lemma_encode_fields_concat(a: Seq<(u32, RawV)>, b: Seq<(u32, RawV)>)
    ensures
        encode_fields(a + b) == encode_fields(a) + encode_fields(b),
    decreases a.len(),
{
    if a.len() == 0 {
        assert(a + b =~= b);
    } else {
        assert((a + b).drop_first() =~= a.drop_first() + b);
        lemma_encode_fields_concat(a.drop_first(), b);
        assert(encode_field(a[0]) + (encode_fields(a.drop_first()) + encode_fields(b))
            =~= encode_field(a[0]) + encode_fields(a.drop_first()) + encode_fields(b));
    }
}

pub proof fn lemma_encode_fields_one(f: (u32, RawV))
    ensures
        encode_fields(seq![f]) == encode_field(f),
{
    assert(seq![f].drop_first() =~= Seq::<(u32, RawV)>::empty());
    assert(seq![f][0] == f);
    assert(encode_fields(Seq::<(u32, RawV)>::empty()) =~= Seq::<u8>::empty());
    assert(encode_field(f) + Seq::<u8>::empty() =~= encode_field(f));
}

/// Reading the first field back from its bytes, whatever follows.
pub proof fn lemma_parse_one_of(f: (u32, RawV), rest: Seq<u8>)
    requires
        field_ok(f),
        encode_field(f).len() <= u64::MAX,
    ensures
        parse_one(encode_field(f) + rest) == Some((f, encode_field(f).len())),
        encode_field(f).len() > 0,
{
    let s = encode_field(f) + rest;
    match f.1 {
        RawV::Varint(v) => {
            let kb = key_bytes(f.0 as nat, 0);
            let vb = varint_bytes(v as nat);
            assert(s =~= kb + (vb + rest));
            lemma_key_prefix_of(f.0 as nat, 0, vb + rest);
            assert(s.skip(kb.len() as int) =~= vb + rest);
            lemma_varint_prefix_of(v as nat, rest);
        },
        RawV::Bytes(b) => {
            let kb = key_bytes(f.0 as nat, 2);
            let lb = varint_bytes(b.len());
            assert(s =~= kb + (lb + (b + rest)));
            lemma_key_prefix_of(f.0 as nat, 2, lb + (b + rest));
            assert(s.skip(kb.len() as int) =~= lb + (b + rest));
            lemma_varint_prefix_of(b.len(), b + rest);
            let r = s.skip(kb.len() as int);
            assert(r.subrange(lb.len() as int, (lb.len() + b.len()) as int) =~= b);
        },
        RawV::Fixed => {},
    }
    lemma_varint_bytes_len((f.0 * 8) as nat);
    lemma_varint_bytes_len((f.0 * 8 + 2) as nat);
}

/// Splitting the bytes of well-formed fields gives the same fields back.
pub proof fn lemma_parse_encode_fields(fs: Seq<(u32, RawV)>)
    requires
        fields_ok(fs),
        encode_fields(fs).len() <= u64::MAX,
    ensures
        parse_fields(encode_fields(fs)) == Some(fs),
    decreases fs.len(),
{
    if fs.len() == 0 {
    } else {
        let f = fs[0];
        let rest = encode_fields(fs.drop_first());
        let s = encode_fields(fs);
        assert(field_ok(fs[0]));
        lemma_parse_one_of(f, rest);
        assert(s.skip(encode_field(f).len() as int) =~= rest);
        assert forall|i: int| 0 <= i < fs.drop_first().len() implies field_ok(
            #[trigger] fs.drop_first()[i],
        ) by {
            assert(fs.drop_first()[i] == fs[i + 1]);
        }
        lemma_parse_encode_fields(fs.drop_first());
        assert(seq![f] + fs.drop_first() =~= fs);
    }
}

pub proof fn lemma_fields_ok_concat(a: Seq<(u32, RawV)>, b: Seq<(u32, RawV)>)
    requires
        fields_ok(a),
        fields_ok(b),
    ensures
        fields_ok(a + b),
{
    assert forall|i: int| 0 <= i < (a + b).len() implies field_ok(#[trigger] (a + b)[i]) by {
        if i < a.len() {
            assert((a + b)[i] == a[i]);
        } else {
            assert((a + b)[i] == b[i - a.len()]);
        }
    }
}

/// Splits `input` into its fields, as prost's decoders walk a message.
/// The bytes that the rest of a group with field number `tag` takes at the
/// front of `s`, its end key included.
#[verifier::rlimit(60)]
#[verifier::spinoff_prover]
pub fn skip_group(s: &[u8], tag: u32) -> (res: Result<usize, WireError>)
    ensures
        match group_rest(s@, seq![tag]) {
            Some(m) => res == Ok::<usize, WireError>(m as usize) && m <= s@.len(),
            None => res is Err,
        },
{
    let total = s.len();
    let mut open: Vec<u32> = Vec::new();
    open.push(tag);
    let mut used: usize = 0;
    let mut cur: &[u8] = s;
    proof {
        assert(open@ =~= seq![tag]);
        assert(cur@ =~= s@.skip(0));
    }
    while open.len() > 0
        invariant
            total == s@.len(),
            open@.len() <= GROUP_DEPTH_LIMIT,
            used <= s@.len(),
            cur@ == s@.skip(used as int),
            group_rest(s@, seq![tag]) == add_len(used as nat, group_rest(cur@, open@)),
        decreases cur@.len(),
    {
        let ghost c = cur@;
        let ghost o = open@;
        proof {
            lemma_group_rest_unfold(c, o);
        }
        let (t, w, after_key) = match take_key(cur) {
            Ok(k) => k,
            Err(_) => {
                return Err(WireError::InvalidVarint);
            },
        };
        let ghost n = key_prefix(c).unwrap().2;
        proof {
            lemma_varint_from_bound(c, 0);
        }
        let k: usize;
        if w == 4 {
            let last = open[open.len() - 1];
            if t != last {
                return Err(WireError::UnsupportedWireType);
            }
            open.pop();
            proof {
                assert(open@ =~= o.drop_last());
            }
            k = 0;
        } else if open.len() >= GROUP_DEPTH_LIMIT {
            return Err(WireError::UnsupportedWireType);
        } else if w == 3 {
            open.push(t);
            k = 0;
        } else if w == 0 {
            let (_, after) = match take_varint(after_key) {
                Ok(x) => x,
                Err(_) => {
                    return Err(WireError::InvalidVarint);
                },
            };
            proof {
                lemma_varint_from_bound(after_key@, 0);
            }
            k = after_key.len() - after.len();
            proof {
                assert(k == varint_prefix(after_key@).unwrap().1);
                assert(plain_len(after_key@, w) == Some(k as nat));
            }
        } else if w == 2 {
            let (len, after) = match take_varint(after_key) {
                Ok(x) => x,
                Err(_) => {
                    return Err(WireError::InvalidVarint);
                },
            };
            proof {
                lemma_varint_from_bound(after_key@, 0);
            }
            if len > after.len() as u64 {
                return Err(WireError::BufferUnderflow);
            }
            k = (after_key.len() - after.len()) + len as usize;
            proof {
                assert(plain_len(after_key@, w) == Some(k as nat));
            }
        } else {
            let width: usize = if w == 1 {
                8
            } else {
                4
            };
            if after_key.len() < width {
                return Err(WireError::BufferUnderflow);
            }
            k = width;
            proof {
                assert(plain_len(after_key@, w) == Some(k as nat));
            }
        }
        proof {
            assert(after_key@ == c.skip(n as int));
            assert(k <= after_key@.len());
            assert(after_key@.len() + n == c.len());
            assert(c.len() + used == s@.len());
        }
        let next = &after_key[k..after_key.len()];
        proof {
            assert(used + n + k <= total);
        }
        used = used + (cur.len() - after_key.len()) + k;
        proof {
            assert(next@ =~= s@.skip(used as int));
            assert(next@ =~= c.skip(n as int).skip(k as int));
            assert(key_prefix(c) == Some((t, w, n)));
            assert(o.len() > 0);
            assert(0 < n <= c.len());
            if w == 4 {
                assert(group_rest(c, o) == add_len(n, group_rest(after_key@, o.drop_last())));
                assert(after_key@.skip(0) =~= after_key@);
            } else if w == 3 {
                assert(group_rest(c, o) == add_len(n, group_rest(after_key@, o.push(t))));
                assert(after_key@.skip(0) =~= after_key@);
            } else {
                assert(group_rest(c, o) == add_len((n + k) as nat, group_rest(after_key@.skip(k as int), o)));
            }
            assert(group_rest(c, o) == add_len((n + k) as nat, group_rest(next@, open@)));
        }
        cur = next;
    }
    proof {
        lemma_group_rest_closed(cur@);
        assert(open@ =~= Seq::<u32>::empty());
    }
    Ok(used)
}

#[verifier::rlimit(80)]
#[verifier::spinoff_prover]
pub fn parse_fields_exec(input: &[u8]) -> (res: Result<Vec<RawField>, WireError>)
    ensures
        match parse_fields(input@) {
            Some(fs) => res matches Ok(v) && fields_view(v@) == fs,
            None => res is Err,
        },
{
    let mut out: Vec<RawField> = Vec::new();
    let mut rest: &[u8] = input;
    while rest.len() > 0
        invariant
            parse_fields(input@) == (match parse_fields(rest@) {
                Some(r) => Some(fields_view(out@) + r),
                None => None,
            }),
        decreases rest@.len(),
    {
        let ghost s = rest@;
        let (tag, wire_type, after_key) = match take_key(rest) {
            Ok(k) => k,
            Err(_) => {
                return Err(WireError::InvalidVarint);
            },
        };
        let ghost n = key_prefix(s).unwrap().2;
        let ghost one = parse_one(s);
        proof {
            lemma_varint_from_bound(s, 0);
            lemma_varint_from_bound(after_key@, 0);
        }
        assert(after_key@ == s.skip(n as int));
        let value;
        if wire_type == 0 {
            let (v, after) = match take_varint(after_key) {
                Ok(x) => x,
                Err(_) => {
                    return Err(WireError::InvalidVarint);
                },
            };
            value = RawValue::Varint(v);
            proof {
                let m = varint_prefix(after_key@).unwrap().1;
                assert(after@ =~= s.skip((n + m) as int));
            }
            rest = after;
        } else if wire_type == 2 {
            let (len, after) = match take_varint(after_key) {
                Ok(x) => x,
                Err(_) => {
                    return Err(WireError::InvalidVarint);
                },
            };
            if len > after.len() as u64 {
                return Err(WireError::BufferUnderflow);
            }
            let l = len as usize;
            let payload = vstd::slice::slice_to_vec(&after[0..l]);
            value = RawValue::Bytes(payload);
            let ghost m = varint_prefix(after_key@).unwrap().1;
            proof {
                assert(after@ == after_key@.skip(m as int));
                assert(after@.subrange(0, l as int) =~= after_key@.subrange(
                    m as int,
                    (m + l) as int,
                ));
            }
            rest = &after[l..after.len()];
            proof {
                assert(rest@ =~= s.skip((n + m + l) as int));
            }
        } else if wire_type == 1 || wire_type == 5 {
            let width: usize = if wire_type == 1 {
                8
            } else {
                4
            };
            if after_key.len() < width {
                return Err(WireError::BufferUnderflow);
            }
            value = RawValue::Fixed;
            rest = &after_key[width..after_key.len()];
            proof {
                assert(rest@ =~= s.skip((n + width) as int));
            }
        } else if wire_type == 3 {
            let m = skip_group(after_key, tag)?;
            value = RawValue::Fixed;
            rest = &after_key[m..after_key.len()];
            proof {
                assert(rest@ =~= s.skip((n + m) as int));
            }
        } else {
            return Err(WireError::UnsupportedWireType);
        }
        let field = RawField { tag, value };
        proof {
            assert(field@ == one.unwrap().0);
            assert(fields_view(out@.push(field)) =~= fields_view(out@) + seq![field@]);
            match parse_fields(rest@) {
                Some(r) => {
                    assert(fields_view(out@) + seq![field@] + r =~= fields_view(out@) + (seq![field@]
                        + r));
                },
                None => {},
            }
        }
        out.push(field);
    }
    proof {
        assert(fields_view(out@) + Seq::<(u32, RawV)>::empty() =~= fields_view(out@));
    }
    Ok(out)
}

} // verus!
