//! A map from strings to values, kept as entries sorted by key, as the
//! protobuf `map<string, _>` fields of the inspection messages use it.
use vstd::prelude::*;

verus! {

/// Whether `a` comes before `b`: character by character, and a prefix
/// before what extends it. This is the order of strings by their UTF-8
/// bytes.
pub open spec fn key_lt(a: Seq<char>, b: Seq<char>) -> bool
    decreases a.len(),
{
    if a.len() == 0 {
        b.len() > 0
    } else if b.len() == 0 {
        false
    } else if a[0] != b[0] {
        (a[0] as u32) < (b[0] as u32)
    } else {
        key_lt(a.skip(1), b.skip(1))
    }
}

/// No key comes before itself.
pub proof fn lemma_key_lt_irreflexive(a: Seq<char>)
    ensures
        !key_lt(a, a),
    decreases a.len(),
{
    if a.len() > 0 {
        lemma_key_lt_irreflexive(a.skip(1));
    }
}

/// Of two keys, at most one comes first.
pub proof fn lemma_key_lt_asymmetric(a: Seq<char>, b: Seq<char>)
    requires
        key_lt(a, b),
    ensures
        !key_lt(b, a),
    decreases a.len(),
{
    if a.len() > 0 && b.len() > 0 && a[0] == b[0] {
        lemma_key_lt_asymmetric(a.skip(1), b.skip(1));
    }
}

/// The order is transitive.
pub proof fn lemma_key_lt_transitive(a: Seq<char>, b: Seq<char>, c: Seq<char>)
    requires
        key_lt(a, b),
        key_lt(b, c),
    ensures
        key_lt(a, c),
    decreases a.len(),
{
    if a.len() > 0 && b.len() > 0 && c.len() > 0 && a[0] == b[0] && b[0] == c[0] {
        lemma_key_lt_transitive(a.skip(1), b.skip(1), c.skip(1));
    }
}

/// Of two different keys, one comes first.
pub proof fn lemma_key_lt_total(a: Seq<char>, b: Seq<char>)
    requires
        a != b,
    ensures
        key_lt(a, b) || key_lt(b, a),
    decreases a.len(),
{
    if a.len() == 0 {
        if b.len() == 0 {
            assert(a =~= b);
        }
    } else if b.len() > 0 && a[0] != b[0] {
        vstd::utf8::char_u32_cast(a[0], a[0] as u32);
        vstd::utf8::char_u32_cast(b[0], b[0] as u32);
    } else if b.len() > 0 && a[0] == b[0] {
        if a.skip(1) == b.skip(1) {
            assert(a =~= seq![a[0]] + a.skip(1));
            assert(b =~= seq![b[0]] + b.skip(1));
        } else {
            lemma_key_lt_total(a.skip(1), b.skip(1));
        }
    }
}

/// The keys are in strictly increasing order.
pub open spec fn keys_sorted<W>(es: Seq<(Seq<char>, W)>) -> bool {
    forall|i: int, j: int| 0 <= i < j < es.len() ==> key_lt(#[trigger] es[i].0, #[trigger] es[j].0)
}

/// The entries with `(k, v)` in place of the entry with key `k`, or added
/// in its place in key order.
pub open spec fn entries_insert<W>(es: Seq<(Seq<char>, W)>, k: Seq<char>, v: W) -> Seq<(Seq<char>, W)>
    decreases es.len(),
{
    if es.len() == 0 {
        seq![(k, v)]
    } else if es[0].0 == k {
        seq![(k, v)] + es.skip(1)
    } else if key_lt(k, es[0].0) {
        seq![(k, v)] + es
    } else {
        seq![es[0]] + entries_insert(es.skip(1), k, v)
    }
}

/// The map built by inserting the given entries one after the other.
pub open spec fn entries_from<W>(es: Seq<(Seq<char>, W)>) -> Seq<(Seq<char>, W)>
    decreases es.len(),
{
    if es.len() == 0 {
        seq![]
    } else {
        entries_insert(entries_from(es.drop_last()), es.last().0, es.last().1)
    }
}

/// The value stored under `k`, if any.
pub open spec fn lookup<W>(es: Seq<(Seq<char>, W)>, k: Seq<char>) -> Option<W>
    decreases es.len(),
{
    if es.len() == 0 {
        None
    } else if es[0].0 == k {
        Some(es[0].1)
    } else {
        lookup(es.skip(1), k)
    }
}

/// Sorted entries stay sorted without their first one.
proof fn lemma_sorted_skip<W>(es: Seq<(Seq<char>, W)>)
    requires
        keys_sorted(es),
        es.len() > 0,
    ensures
        keys_sorted(es.skip(1)),
{
    assert forall|i: int, j: int| 0 <= i < j < es.skip(1).len() implies key_lt(
        #[trigger] es.skip(1)[i].0,
        #[trigger] es.skip(1)[j].0,
    ) by {
        assert(es.skip(1)[i] == es[i + 1]);
        assert(es.skip(1)[j] == es[j + 1]);
    }
}

/// A bound below every key stays below them after an insertion of a key
/// above it.
proof fn lemma_insert_above<W>(es: Seq<(Seq<char>, W)>, k: Seq<char>, v: W, lo: Seq<char>)
    requires
        forall|j: int| 0 <= j < es.len() ==> key_lt(lo, #[trigger] es[j].0),
        key_lt(lo, k),
    ensures
        forall|i: int| 0 <= i < entries_insert(es, k, v).len() ==> key_lt(lo, #[trigger] entries_insert(es, k, v)[i].0),
    decreases es.len(),
{
    let r = entries_insert(es, k, v);
    if es.len() == 0 {
    } else if es[0].0 == k {
        assert forall|i: int| 0 <= i < r.len() implies key_lt(lo, #[trigger] r[i].0) by {
            if i > 0 {
                assert(r[i] == es[i]);
            }
        }
    } else if key_lt(k, es[0].0) {
        assert forall|i: int| 0 <= i < r.len() implies key_lt(lo, #[trigger] r[i].0) by {
            if i > 0 {
                assert(r[i] == es[i - 1]);
            }
        }
    } else {
        let rest = es.skip(1);
        assert forall|j: int| 0 <= j < rest.len() implies key_lt(lo, #[trigger] rest[j].0) by {
            assert(rest[j] == es[j + 1]);
        }
        lemma_insert_above(rest, k, v, lo);
        let rr = entries_insert(rest, k, v);
        assert forall|i: int| 0 <= i < r.len() implies key_lt(lo, #[trigger] r[i].0) by {
            if i > 0 {
                assert(r[i] == rr[i - 1]);
            }
        }
    }
}

/// Inserting keeps the keys sorted.
pub proof fn lemma_insert_keeps_sorted<W>(es: Seq<(Seq<char>, W)>, k: Seq<char>, v: W)
    requires
        keys_sorted(es),
    ensures
        keys_sorted(entries_insert(es, k, v)),
    decreases es.len(),
{
    let r = entries_insert(es, k, v);
    if es.len() == 0 {
    } else if es[0].0 == k {
        assert forall|i: int, j: int| 0 <= i < j < r.len() implies key_lt(#[trigger] r[i].0, #[trigger] r[j].0) by {
            assert(r[j] == es[j]);
            if i > 0 {
                assert(r[i] == es[i]);
            }
        }
    } else if key_lt(k, es[0].0) {
        assert forall|i: int, j: int| 0 <= i < j < r.len() implies key_lt(#[trigger] r[i].0, #[trigger] r[j].0) by {
            assert(r[j] == es[j - 1]);
            if i > 0 {
                assert(r[i] == es[i - 1]);
            } else if j > 1 {
                assert(key_lt(es[0].0, es[j - 1].0));
                lemma_key_lt_transitive(k, es[0].0, es[j - 1].0);
            }
        }
    } else {
        lemma_key_lt_total(k, es[0].0);
        let rest = es.skip(1);
        lemma_sorted_skip(es);
        lemma_insert_keeps_sorted(rest, k, v);
        assert forall|j: int| 0 <= j < rest.len() implies key_lt(es[0].0, #[trigger] rest[j].0) by {
            assert(rest[j] == es[j + 1]);
        }
        lemma_insert_above(rest, k, v, es[0].0);
        let rr = entries_insert(rest, k, v);
        assert forall|i: int, j: int| 0 <= i < j < r.len() implies key_lt(#[trigger] r[i].0, #[trigger] r[j].0) by {
            assert(r[j] == rr[j - 1]);
            if i > 0 {
                assert(r[i] == rr[i - 1]);
            }
        }
    }
}

/// A key above all the others goes last.
proof fn lemma_insert_last<W>(es: Seq<(Seq<char>, W)>, k: Seq<char>, v: W)
    requires
        forall|j: int| 0 <= j < es.len() ==> key_lt(#[trigger] es[j].0, k),
    ensures
        entries_insert(es, k, v) == es.push((k, v)),
    decreases es.len(),
{
    if es.len() > 0 {
        lemma_key_lt_irreflexive(k);
        lemma_key_lt_asymmetric(es[0].0, k);
        let rest = es.skip(1);
        assert forall|j: int| 0 <= j < rest.len() implies key_lt(#[trigger] rest[j].0, k) by {
            assert(rest[j] == es[j + 1]);
        }
        lemma_insert_last(rest, k, v);
        assert(seq![es[0]] + rest.push((k, v)) =~= es.push((k, v)));
    } else {
        assert(seq![(k, v)] =~= es.push((k, v)));
    }
}

/// Inserting sorted entries into an empty map keeps them as they are.
pub proof fn lemma_entries_from_sorted<W>(es: Seq<(Seq<char>, W)>)
    requires
        keys_sorted(es),
    ensures
        entries_from(es) == es,
    decreases es.len(),
{
    if es.len() > 0 {
        let p = es.drop_last();
        assert(keys_sorted(p)) by {
            assert forall|i: int, j: int| 0 <= i < j < p.len() implies key_lt(#[trigger] p[i].0, #[trigger] p[j].0) by {
                assert(p[i] == es[i] && p[j] == es[j]);
            }
        }
        lemma_entries_from_sorted(p);
        assert forall|j: int| 0 <= j < p.len() implies key_lt(#[trigger] p[j].0, es.last().0) by {
            assert(p[j] == es[j]);
        }
        lemma_insert_last(p, es.last().0, es.last().1);
        assert(p.push(es.last()) =~= es);
    }
}

/// Entries built by insertion are sorted.
pub proof fn lemma_entries_from_keys_sorted<W>(es: Seq<(Seq<char>, W)>)
    ensures
        keys_sorted(entries_from(es)),
    decreases es.len(),
{
    if es.len() > 0 {
        lemma_entries_from_keys_sorted(es.drop_last());
        lemma_insert_keeps_sorted(entries_from(es.drop_last()), es.last().0, es.last().1);
    }
}

/// A map gives back what was last set for a key, and setting one key
/// leaves the others as they were.
pub proof fn lemma_lookup_after_insert<W>(es: Seq<(Seq<char>, W)>, k: Seq<char>, v: W, other: Seq<char>)
    requires
        other != k,
    ensures
        lookup(entries_insert(es, k, v), k) == Some(v),
        lookup(entries_insert(es, k, v), other) == lookup(es, other),
    decreases es.len(),
{
    let r = entries_insert(es, k, v);
    if es.len() == 0 {
        assert(r[0] == (k, v));
        assert(r.skip(1) =~= Seq::<(Seq<char>, W)>::empty());
        assert(lookup(r.skip(1), other) == None::<W>);
    } else if es[0].0 == k {
        assert(r[0] == (k, v));
        assert(r.skip(1) =~= es.skip(1));
    } else if key_lt(k, es[0].0) {
        assert(r[0] == (k, v));
        assert(r.skip(1) =~= es);
    } else {
        assert(r[0] == es[0]);
        lemma_lookup_after_insert(es.skip(1), k, v, other);
        assert(r.skip(1) =~= entries_insert(es.skip(1), k, v));
    }
}

/// Before position `i`, where no key is `k` or above it, insertion leaves
/// the entries alone.
proof fn lemma_insert_after<W>(es: Seq<(Seq<char>, W)>, k: Seq<char>, v: W, i: int)
    requires
        0 <= i <= es.len(),
        forall|j: int| 0 <= j < i ==> (#[trigger] es[j]).0 != k && !key_lt(k, es[j].0),
    ensures
        entries_insert(es, k, v) == es.take(i) + entries_insert(es.skip(i), k, v),
    decreases i,
{
    if i > 0 {
        let rest = es.skip(1);
        assert forall|j: int| 0 <= j < i - 1 implies (#[trigger] rest[j]).0 != k && !key_lt(k, rest[j].0) by {
            assert(rest[j] == es[j + 1]);
        }
        lemma_insert_after(rest, k, v, i - 1);
        assert(rest.skip(i - 1) =~= es.skip(i));
        assert(seq![es[0]] + (rest.take(i - 1) + entries_insert(es.skip(i), k, v)) =~= es.take(i)
            + entries_insert(es.skip(i), k, v));
    } else {
        assert(es.skip(0) =~= es);
        assert(es.take(0) + entries_insert(es, k, v) =~= entries_insert(es, k, v));
    }
}

/// The view of stored entries.
pub open spec fn view_entries<V: View>(v: Seq<(String, V)>) -> Seq<(Seq<char>, V::V)> {
    Seq::new(v.len(), |i: int| (v[i].0@, v[i].1@))
}

/// Whether `a` comes before `b` in key order.
pub fn key_less(a: &str, b: &str) -> (r: bool)
    ensures
        r == key_lt(a@, b@),
{
    let na = a.unicode_len();
    let nb = b.unicode_len();
    let mut i: usize = 0;
    proof {
        assert(a@.skip(0) =~= a@);
        assert(b@.skip(0) =~= b@);
    }
    while i < na && i < nb
        invariant
            na == a@.len(),
            nb == b@.len(),
            0 <= i <= na,
            i <= nb,
            key_lt(a@, b@) == key_lt(a@.skip(i as int), b@.skip(i as int)),
        decreases na - i,
    {
        let ca = a.get_char(i);
        let cb = b.get_char(i);
        proof {
            assert(a@.skip(i as int)[0] == ca);
            assert(b@.skip(i as int)[0] == cb);
        }
        if ca != cb {
            return (ca as u32) < (cb as u32);
        }
        proof {
            assert(a@.skip(i as int).skip(1) =~= a@.skip(i + 1));
            assert(b@.skip(i as int).skip(1) =~= b@.skip(i + 1));
        }
        i = i + 1;
    }
    i == na && i < nb
}

/// Strings mapped to values, kept sorted by key; a key occurs at most once.
#[derive(Debug)]
pub struct StringMap<V: View> {
    entries: Vec<(String, V)>,
}

impl<V: View> View for StringMap<V> {
    type V = Seq<(Seq<char>, V::V)>;

    closed spec fn view(&self) -> Seq<(Seq<char>, V::V)> {
        view_entries(self.entries@)
    }
}

impl<V: View> StringMap<V> {
    #[verifier::type_invariant]
    closed spec fn wf(self) -> bool {
        keys_sorted(view_entries(self.entries@))
    }

    /// The keys are sorted, each once.
    pub fn check_sorted(&self)
        ensures
            keys_sorted(self@),
    {
        proof {
            use_type_invariant(self);
        }
    }

    /// An empty map.
    pub fn new() -> (m: StringMap<V>)
        ensures
            m@ == Seq::<(Seq<char>, V::V)>::empty(),
    {
        let m = StringMap { entries: Vec::new() };
        proof {
            assert(view_entries(m.entries@) =~= Seq::<(Seq<char>, V::V)>::empty());
        }
        m
    }

    /// The number of keys.
    pub fn len(&self) -> (n: usize)
        ensures
            n == self@.len(),
    {
        self.entries.len()
    }

    /// Whether there is no key.
    pub fn is_empty(&self) -> (b: bool)
        ensures
            b == (self@.len() == 0),
    {
        self.entries.len() == 0
    }

    /// The entries, in key order.
    pub fn entries(&self) -> (es: &Vec<(String, V)>)
        ensures
            view_entries(es@) == self@,
    {
        &self.entries
    }

    /// Sets the value of `key`, replacing an earlier value of that key.
    pub fn insert(&mut self, key: String, value: V)
        ensures
            final(self)@ == entries_insert(old(self)@, key@, value@),
    {
        proof {
            use_type_invariant(&*self);
        }
        let ghost es = self@;
        let ghost k = key@;
        let ghost v = value@;
        let mut i: usize = 0;
        while i < self.entries.len()
            invariant
                es == view_entries(self.entries@),
                keys_sorted(es),
                i <= es.len(),
                forall|j: int| 0 <= j < i ==> (#[trigger] es[j]).0 != k && !key_lt(k, es[j].0),
                k == key@,
                v == value@,
                es == old(self)@,
            decreases es.len() - i,
        {
            let same = self.entries[i].0 == key;
            let before_it = !same && key_less(key.as_str(), self.entries[i].0.as_str());
            if same || before_it {
                let mut entries = Vec::new();
                std::mem::swap(&mut entries, &mut self.entries);
                assert(view_entries(entries@) == es);
                let ghost before = entries@;
                proof {
                    lemma_insert_after(es, k, v, i as int);
                    assert(es.skip(i as int)[0] == es[i as int]);
                    lemma_insert_keeps_sorted(es, k, v);
                }
                if same {
                    entries.set(i, (key, value));
                    proof {
                        assert(entries_insert(es.skip(i as int), k, v) =~= seq![(k, v)] + es.skip(i + 1));
                        assert(view_entries(entries@) =~= entries_insert(es, k, v));
                    }
                } else {
                    entries.insert(i, (key, value));
                    proof {
                        assert(entries_insert(es.skip(i as int), k, v) =~= seq![(k, v)] + es.skip(i as int));
                        assert(view_entries(entries@) =~= entries_insert(es, k, v));
                    }
                }
                self.entries = entries;
                return;
            }
            i = i + 1;
        }
        let mut entries = Vec::new();
        std::mem::swap(&mut entries, &mut self.entries);
        entries.push((key, value));
        proof {
            lemma_insert_after(es, k, v, i as int);
            assert(es.skip(i as int) =~= Seq::<(Seq<char>, V::V)>::empty());
            assert(es.take(i as int) =~= es);
            assert(view_entries(entries@) =~= es.push((k, v)));
            assert(es.take(i as int) + seq![(k, v)] =~= es.push((k, v)));
            lemma_insert_keeps_sorted(es, k, v);
        }
        self.entries = entries;
    }

    /// The value of `key`, if there is one.
    pub fn get(&self, key: &str) -> (r: Option<&V>)
        ensures
            match lookup(self@, key@) {
                Some(w) => r matches Some(v) && v@ == w,
                None => r is None,
            },
    {
        let k = key.to_owned();
        let ghost es = self@;
        let mut i: usize = 0;
        proof {
            assert(es.skip(0) =~= es);
        }
        while i < self.entries.len()
            invariant
                es == self@,
                i <= es.len(),
                k@ == key@,
                lookup(es, key@) == lookup(es.skip(i as int), key@),
            decreases es.len() - i,
        {
            proof {
                assert(es.skip(i as int)[0] == es[i as int]);
                assert(es.skip(i as int).skip(1) =~= es.skip(i + 1));
            }
            if self.entries[i].0 == k {
                return Some(&self.entries[i].1);
            }
            i = i + 1;
        }
        None
    }
}

} // verus!
