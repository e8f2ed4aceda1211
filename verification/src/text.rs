//! Decimal and hexadecimal text: the pieces that URLs and hashes are
//! written with.
use vstd::prelude::*;

verus! {

/// The lowercase hexadecimal digit for `d` (0 to 15).
pub open spec fn hex_digit(d: int) -> char {
    if d == 0 { '0' }
    else if d == 1 { '1' }
    else if d == 2 { '2' }
    else if d == 3 { '3' }
    else if d == 4 { '4' }
    else if d == 5 { '5' }
    else if d == 6 { '6' }
    else if d == 7 { '7' }
    else if d == 8 { '8' }
    else if d == 9 { '9' }
    else if d == 10 { 'a' }
    else if d == 11 { 'b' }
    else if d == 12 { 'c' }
    else if d == 13 { 'd' }
    else if d == 14 { 'e' }
    else { 'f' }
}

/// `n` written in decimal, without leading zeros.
pub open spec fn dec(n: nat) -> Seq<char>
    decreases n,
{
    if n < 10 {
        seq![hex_digit(n as int)]
    } else {
        dec(n / 10).push(hex_digit((n % 10) as int))
    }
}

/// Appends the digit `d`.
fn push_digit(s: &mut String, d: u8)
    requires
        d < 16,
    ensures
        final(s)@ == old(s)@.push(hex_digit(d as int)),
{
    let digits = "0123456789abcdef";
    proof {
        reveal_strlit("0123456789abcdef");
    }
    let one = digits.substring_char(d as usize, d as usize + 1);
    proof {
        assert(one@ =~= seq![hex_digit(d as int)]);
    }
    s.append(one);
}

/// Appends `n` in decimal.
pub fn push_dec(s: &mut String, n: u64)
    ensures
        final(s)@ == old(s)@ + dec(n as nat),
    decreases n,
{
    if n >= 10 {
        push_dec(s, n / 10);
    }
    push_digit(s, (n % 10) as u8);
    proof {
        if n >= 10 {
            assert(old(s)@ + dec(n as nat) =~= old(s)@ + dec((n / 10) as nat) + seq![hex_digit((n % 10) as int)]);
        } else {
            assert(old(s)@ + dec(n as nat) =~= old(s)@.push(hex_digit(n as int)));
        }
    }
}

/// `b` in hexadecimal: two lowercase digits per byte, the high half first.
pub open spec fn hex_of(b: Seq<u8>) -> Seq<char>
    decreases b.len(),
{
    if b.len() == 0 {
        seq![]
    } else {
        hex_of(b.drop_last()) + seq![hex_digit((b.last() / 16) as int), hex_digit((b.last() % 16) as int)]
    }
}

/// `b` as `0x` followed by its hexadecimal.
pub open spec fn hex_text(b: Seq<u8>) -> Seq<char> {
    seq!['0', 'x'] + hex_of(b)
}

/// The value of a hexadecimal digit, in either case.
pub open spec fn hex_value(c: char) -> Option<u8> {
    if '0' <= c && c <= '9' {
        Some((c as u32 - '0' as u32) as u8)
    } else if 'a' <= c && c <= 'f' {
        Some((c as u32 - 'a' as u32 + 10) as u8)
    } else if 'A' <= c && c <= 'F' {
        Some((c as u32 - 'A' as u32 + 10) as u8)
    } else {
        None
    }
}

/// The bytes that the hexadecimal text `s` spells, two digits a byte, if
/// it spells any.
pub open spec fn unhex(s: Seq<char>) -> Option<Seq<u8>>
    decreases s.len(),
{
    if s.len() == 0 {
        Some(seq![])
    } else if s.len() == 1 {
        None
    } else {
        match (hex_value(s[0]), hex_value(s[1]), unhex(s.skip(2))) {
            (Some(hi), Some(lo), Some(rest)) => Some(seq![(hi * 16 + lo) as u8] + rest),
            _ => None,
        }
    }
}

/// Writes bytes in hexadecimal with `hex::encode`, which uses lowercase
/// digits and puts each byte's high half first.
#[verifier::external_body]
pub(crate) fn hex_encode(data: &[u8]) -> (r: String)
    ensures
        r@ == hex_of(data@),
{
    hex::encode(data)
}

/// Reads hexadecimal text with `hex::decode`, which takes digits of either
/// case, two to a byte, and fails on an odd length or any other character.
#[verifier::external_body]
pub(crate) fn hex_decode(s: &str) -> (r: Option<Vec<u8>>)
    ensures
        match unhex(s@) {
            Some(b) => r matches Some(v) && v@ == b,
            None => r is None,
        },
{
    hex::decode(s).ok()
}

/// Appends `b` in hexadecimal.
pub fn push_hex(s: &mut String, b: &[u8])
    ensures
        final(s)@ == old(s)@ + hex_of(b@),
{
    let h = hex_encode(b);
    s.append(h.as_str());
}

/// `s` without all the leading `"0x"` that it starts with, as
/// `trim_start_matches("0x")` gives it.
pub open spec fn trim_0x(s: Seq<char>) -> Seq<char>
    decreases s.len(),
{
    if s.len() >= 2 && s[0] == '0' && s[1] == 'x' {
        trim_0x(s.skip(2))
    } else {
        s
    }
}

/// Drops every leading `"0x"`.
pub fn trim_start_0x(s: &str) -> (r: &str)
    ensures
        r@ == trim_0x(s@),
{
    let mut cur: &str = s;
    let mut n: usize = cur.unicode_len();
    while n >= 2 && cur.get_char(0) == '0' && cur.get_char(1) == 'x'
        invariant
            n == cur@.len(),
            trim_0x(cur@) == trim_0x(s@),
        decreases n,
    {
        let next = cur.substring_char(2, n);
        proof {
            assert(next@ =~= cur@.skip(2));
        }
        cur = next;
        n = n - 2;
    }
    cur
}

/// Appends the text of `t`.
pub fn push_str(s: &mut String, t: &str)
    ensures
        final(s)@ == old(s)@ + t@,
{
    s.append(t);
}


/// Reading a digit back gives its value.
pub proof fn lemma_hex_value_digit(d: int)
    requires
        0 <= d < 16,
    ensures
        hex_value(hex_digit(d)) == Some(d as u8),
{
}

/// Hexadecimal has two digits per byte, and no `x` among them.
pub proof fn lemma_hex_of_shape(b: Seq<u8>)
    ensures
        hex_of(b).len() == 2 * b.len(),
        forall|i: int| 0 <= i < hex_of(b).len() ==> #[trigger] hex_of(b)[i] != 'x',
    decreases b.len(),
{
    if b.len() > 0 {
        lemma_hex_of_shape(b.drop_last());
        let p = hex_of(b.drop_last());
        let t = seq![hex_digit((b.last() / 16) as int), hex_digit((b.last() % 16) as int)];
        assert forall|i: int| 0 <= i < hex_of(b).len() implies #[trigger] hex_of(b)[i] != 'x' by {
            if i < p.len() {
                assert(hex_of(b)[i] == p[i]);
            } else {
                assert(hex_of(b)[i] == t[i - p.len()]);
            }
        }
    }
}

/// Text of an even length reads as its two halves read one after the
/// other.
pub proof fn lemma_unhex_concat(x: Seq<char>, y: Seq<char>)
    requires
        x.len() % 2 == 0,
    ensures
        unhex(x + y) == match (unhex(x), unhex(y)) {
            (Some(a), Some(b)) => Some(a + b),
            _ => None::<Seq<u8>>,
        },
    decreases x.len(),
{
    if x.len() == 0 {
        assert(x + y =~= y);
        match unhex(y) {
            Some(b) => assert(Seq::<u8>::empty() + b =~= b),
            None => {},
        }
    } else {
        let xy = x + y;
        assert(xy[0] == x[0]);
        assert(xy[1] == x[1]);
        assert(xy.skip(2) =~= x.skip(2) + y);
        lemma_unhex_concat(x.skip(2), y);
        match (hex_value(x[0]), hex_value(x[1]), unhex(x.skip(2)), unhex(y)) {
            (Some(hi), Some(lo), Some(r), Some(b)) => {
                assert(seq![(hi * 16 + lo) as u8] + (r + b) =~= (seq![(hi * 16 + lo) as u8] + r) + b);
            },
            _ => {},
        }
    }
}

/// Hexadecimal reads back as the bytes it was written from.
pub proof fn lemma_unhex_hex_of(b: Seq<u8>)
    ensures
        unhex(hex_of(b)) == Some(b),
    decreases b.len(),
{
    if b.len() > 0 {
        let p = b.drop_last();
        lemma_unhex_hex_of(p);
        lemma_hex_of_shape(p);
        let hi = (b.last() / 16) as int;
        let lo = (b.last() % 16) as int;
        let t = seq![hex_digit(hi), hex_digit(lo)];
        lemma_hex_value_digit(hi);
        lemma_hex_value_digit(lo);
        assert(t.skip(2) =~= Seq::<char>::empty());
        assert(unhex(t.skip(2)) == Some(Seq::<u8>::empty()));
        assert(t[0] == hex_digit(hi) && t[1] == hex_digit(lo));
        assert(hi * 16 + lo == b.last() as int);
        assert(seq![b.last()] + Seq::<u8>::empty() =~= seq![b.last()]);
        assert(unhex(t) == Some(seq![b.last()]));
        lemma_unhex_concat(hex_of(p), t);
        assert(p + seq![b.last()] =~= b);
    }
}

} // verus!
