//! A table keyed by text, kept in ascending order of its keys.
//!
//! Keys are ordered as `str` orders them: lexicographically by their UTF-8
//! bytes. A key occurs at most once.
use vstd::prelude::*;
use vstd::utf8::{encode_utf8, encode_utf8_decode_utf8};

verus! {

/// The UTF-8 bytes of a key.
pub open spec fn key_bytes(k: Seq<char>) -> Seq<u8> {
    encode_utf8(k)
}

/// Lexicographic order of byte strings.
pub open spec fn bytes_lt(a: Seq<u8>, b: Seq<u8>) -> bool
    decreases a.len(),
{
    if a.len() == 0 {
        b.len() > 0
    } else if b.len() == 0 {
        false
    } else if a[0] != b[0] {
        a[0] < b[0]
    } else {
        bytes_lt(a.drop_first(), b.drop_first())
    }
}

/// Order of keys.
pub open spec fn key_lt(a: Seq<char>, b: Seq<char>) -> bool {
    bytes_lt(key_bytes(a), key_bytes(b))
}

/// Keys in strictly ascending order.
pub open spec fn ascending<V>(ls: Seq<(Seq<char>, V)>) -> bool {
    forall|i: int, j: int| 0 <= i < j < ls.len() ==> key_lt(#[trigger] ls[i].0, #[trigger] ls[j].0)
}

/// Whether `k` is a key of the listing.
pub open spec fn has_key<V>(ls: Seq<(Seq<char>, V)>, k: Seq<char>) -> bool {
    exists|i: int| 0 <= i < ls.len() && #[trigger] ls[i].0 == k
}

pub proof fn lemma_bytes_lt_irreflexive(a: Seq<u8>)
    ensures
        !bytes_lt(a, a),
    decreases a.len(),
{
    if a.len() > 0 {
        lemma_bytes_lt_irreflexive(a.drop_first());
    }
}

pub proof fn lemma_bytes_lt_transitive(a: Seq<u8>, b: Seq<u8>, c: Seq<u8>)
    requires
        bytes_lt(a, b),
        bytes_lt(b, c),
    ensures
        bytes_lt(a, c),
    decreases a.len(),
{
    if a.len() > 0 && a[0] == b[0] && b[0] == c[0] {
        lemma_bytes_lt_transitive(a.drop_first(), b.drop_first(), c.drop_first());
    }
}

pub proof fn lemma_bytes_lt_total(a: Seq<u8>, b: Seq<u8>)
    requires
        a != b,
    ensures
        bytes_lt(a, b) || bytes_lt(b, a),
    decreases a.len(),
{
    if a.len() == 0 && b.len() == 0 {
        assert(a =~= b);
    } else if a.len() > 0 && b.len() > 0 && a[0] == b[0] {
        if a.drop_first() == b.drop_first() {
            assert(a.drop_first().len() == a.len() - 1);
            assert(b.drop_first().len() == b.len() - 1);
            assert(a =~= b) by {
                assert forall|i: int| 0 <= i < a.len() implies a[i] == b[i] by {
                    if i > 0 {
                        assert(a[i] == a.drop_first()[i - 1]);
                        assert(b[i] == b.drop_first()[i - 1]);
                    }
                }
            }
        } else {
            lemma_bytes_lt_total(a.drop_first(), b.drop_first());
        }
    }
}

pub proof fn lemma_bytes_lt_asymmetric(a: Seq<u8>, b: Seq<u8>)
    requires
        bytes_lt(a, b),
    ensures
        !bytes_lt(b, a),
{
    if bytes_lt(b, a) {
        lemma_bytes_lt_transitive(a, b, a);
        lemma_bytes_lt_irreflexive(a);
    }
}

/// In an ascending listing, a key occurs at one place only.
pub proof fn lemma_unique_keys<V>(ls: Seq<(Seq<char>, V)>, i: int)
    requires
        ascending(ls),
        0 <= i < ls.len(),
    ensures
        forall|j: int| 0 <= j < ls.len() && #[trigger] ls[j].0 == ls[i].0 ==> j == i,
{
    assert forall|j: int| 0 <= j < ls.len() && #[trigger] ls[j].0 == ls[i].0 implies j == i by {
        if j < i {
            lemma_bytes_lt_irreflexive(key_bytes(ls[i].0));
        } else if j > i {
            lemma_bytes_lt_irreflexive(key_bytes(ls[i].0));
        }
    }
}

/// Two ascending listings with the same entries are the same listing.
pub proof fn lemma_listing_determined<V>(a: Seq<(Seq<char>, V)>, b: Seq<(Seq<char>, V)>)
    requires
        ascending(a),
        ascending(b),
        forall|e: (Seq<char>, V)| a.contains(e) <==> b.contains(e),
    ensures
        a == b,
    decreases a.len(),
{
    if a.len() == 0 {
        if b.len() > 0 {
            assert(b.contains(b[0]));
        }
        assert(a =~= b);
    } else {
        assert(a.contains(a[0]));
        let j = choose|j: int| 0 <= j < b.len() && b[j] == a[0];
        assert(b.contains(b[0]));
        let m = choose|m: int| 0 <= m < a.len() && a[m] == b[0];
        if j > 0 {
            assert(key_lt(b[0].0, b[j].0));
            if m > 0 {
                assert(key_lt(a[0].0, a[m].0));
                lemma_bytes_lt_asymmetric(key_bytes(a[0].0), key_bytes(a[m].0));
            } else {
                lemma_bytes_lt_irreflexive(key_bytes(a[0].0));
            }
        }
        let a2 = a.drop_first();
        let b2 = b.drop_first();
        assert forall|e: (Seq<char>, V)| a2.contains(e) implies b2.contains(e) by {
            let k = choose|k: int| 0 <= k < a2.len() && a2[k] == e;
            assert(a[k + 1] == e);
            assert(a.contains(e));
            let l = choose|l: int| 0 <= l < b.len() && b[l] == e;
            if l == 0 {
                assert(key_lt(a[0].0, a[k + 1].0));
                lemma_bytes_lt_irreflexive(key_bytes(a[0].0));
            }
            assert(b2[l - 1] == e);
        }
        assert forall|e: (Seq<char>, V)| b2.contains(e) implies a2.contains(e) by {
            let k = choose|k: int| 0 <= k < b2.len() && b2[k] == e;
            assert(b[k + 1] == e);
            assert(b.contains(e));
            let l = choose|l: int| 0 <= l < a.len() && a[l] == e;
            if l == 0 {
                assert(key_lt(b[0].0, b[k + 1].0));
                lemma_bytes_lt_irreflexive(key_bytes(b[0].0));
            }
            assert(a2[l - 1] == e);
        }
        lemma_listing_determined(a2, b2);
        assert(a =~= b) by {
            assert forall|i: int| 0 <= i < a.len() implies a[i] == b[i] by {
                if i > 0 {
                    assert(a[i] == a2[i - 1]);
                    assert(b[i] == b2[i - 1]);
                }
            }
        }
    }
}

/// Keys with the same bytes are the same key.
pub proof fn lemma_key_bytes_injective(a: Seq<char>, b: Seq<char>)
    requires
        key_bytes(a) == key_bytes(b),
    ensures
        a == b,
{
    encode_utf8_decode_utf8(a);
    encode_utf8_decode_utf8(b);
}

/// Whether two byte strings are equal, and whether the first comes before the
/// second.
fn compare_bytes(a: &[u8], b: &[u8]) -> (r: (bool, bool))
    ensures
        r.0 == (a@ == b@),
        r.1 == bytes_lt(a@, b@),
{
    let mut i: usize = 0;
    assert(a@.subrange(0, a@.len() as int) =~= a@);
    assert(b@.subrange(0, b@.len() as int) =~= b@);
    while i < a.len() && i < b.len() && a[i] == b[i]
        invariant
            i <= a@.len(),
            i <= b@.len(),
            a@.subrange(0, i as int) == b@.subrange(0, i as int),
            bytes_lt(a@, b@) == bytes_lt(a@.subrange(i as int, a@.len() as int), b@.subrange(i as int, b@.len() as int)),
        decreases a@.len() - i,
    {
        let ghost sa = a@.subrange(i as int, a@.len() as int);
        let ghost sb = b@.subrange(i as int, b@.len() as int);
        assert(sa.drop_first() =~= a@.subrange(i + 1, a@.len() as int));
        assert(sb.drop_first() =~= b@.subrange(i + 1, b@.len() as int));
        assert(a@.subrange(0, i + 1) =~= a@.subrange(0, i as int).push(a@[i as int]));
        assert(b@.subrange(0, i + 1) =~= b@.subrange(0, i as int).push(b@[i as int]));
        i = i + 1;
    }
    let ghost sa = a@.subrange(i as int, a@.len() as int);
    let ghost sb = b@.subrange(i as int, b@.len() as int);
    let same = i == a.len() && i == b.len();
    proof {
        if same {
            assert(a@ =~= a@.subrange(0, i as int));
            assert(b@ =~= b@.subrange(0, i as int));
        } else if i < a.len() && i < b.len() {
            assert(a@[i as int] == sa[0]);
            assert(b@[i as int] == sb[0]);
            assert(a@ != b@);
        } else {
            assert(a@.len() != b@.len());
        }
    }
    let less = if i == a.len() {
        i < b.len()
    } else if i == b.len() {
        false
    } else {
        a[i] < b[i]
    };
    (same, less)
}

/// A table from text keys to values, in ascending order of keys.
#[derive(Debug)]
pub struct Table<V> {
    entries: Vec<(String, V)>,
}

impl<V> Table<V> {
    /// Well-formed: keys in strictly ascending order.
    pub open spec fn wf(&self) -> bool {
        ascending(self.listing())
    }

    /// The entries, in ascending order of keys.
    pub closed spec fn listing(&self) -> Seq<(Seq<char>, V)> {
        self.entries@.map_values(|e: (String, V)| (e.0@, e.1))
    }

    /// An empty table.
    pub fn new() -> (r: Self)
        ensures
            r.listing() == Seq::<(Seq<char>, V)>::empty(),
            r.wf(),
    {
        let r = Table { entries: Vec::new() };
        assert(r.listing() =~= Seq::<(Seq<char>, V)>::empty());
        r
    }

    /// The number of entries.
    pub fn len(&self) -> (r: usize)
        ensures
            r == self.listing().len(),
    {
        self.entries.len()
    }

    /// The key of the entry at `i`.
    pub fn key_at(&self, i: usize) -> (r: &String)
        requires
            i < self.listing().len(),
        ensures
            r@ == self.listing()[i as int].0,
    {
        &self.entries[i].0
    }

    /// The value of the entry at `i`.
    pub fn value_at(&self, i: usize) -> (r: &V)
        requires
            i < self.listing().len(),
        ensures
            *r == self.listing()[i as int].1,
    {
        &self.entries[i].1
    }

    /// Where `key` is, or where it would go: the first entry whose key does
    /// not come before it, and whether that entry's key is `key` itself.
    fn locate(&self, key: &str) -> (r: (usize, bool))
        requires
            self.wf(),
        ensures
            r.0 <= self.listing().len(),
            forall|i: int| 0 <= i < r.0 ==> key_lt(#[trigger] self.listing()[i].0, key@),
            r.1 ==> r.0 < self.listing().len() && self.listing()[r.0 as int].0 == key@,
            !r.1 ==> r.0 < self.listing().len() ==> key_lt(key@, self.listing()[r.0 as int].0),
            r.1 == has_key(self.listing(), key@),
    {
        let ghost ls = self.listing();
        let kb = key.as_bytes();
        let mut i: usize = 0;
        while i < self.entries.len()
            invariant
                ls == self.listing(),
                ascending(ls),
                kb@ == key_bytes(key@),
                i <= ls.len(),
                ls.len() == self.entries@.len(),
                forall|j: int| 0 <= j < i ==> key_lt(#[trigger] ls[j].0, key@),
            decreases ls.len() - i,
        {
            let (same, less) = compare_bytes(self.entries[i].0.as_str().as_bytes(), kb);
            assert(ls[i as int].0 == self.entries@[i as int].0@);
            if !less {
                proof {
                    if same {
                        lemma_key_bytes_injective(ls[i as int].0, key@);
                    } else {
                        lemma_bytes_lt_total(key_bytes(ls[i as int].0), kb@);
                        assert forall|j: int| 0 <= j < ls.len() implies ls[j].0 != key@ by {
                            if j < i {
                                lemma_bytes_lt_irreflexive(kb@);
                            } else if j > i {
                                lemma_bytes_lt_transitive(kb@, key_bytes(ls[i as int].0), key_bytes(ls[j].0));
                                lemma_bytes_lt_irreflexive(kb@);
                            } else {
                                lemma_bytes_lt_irreflexive(kb@);
                            }
                        }
                    }
                }
                return (i, same);
            }
            i = i + 1;
        }
        proof {
            assert forall|j: int| 0 <= j < ls.len() implies ls[j].0 != key@ by {
                lemma_bytes_lt_irreflexive(kb@);
            }
        }
        (i, false)
    }

    /// Whether `key` is in the table.
    pub fn contains_key(&self, key: &str) -> (r: bool)
        requires
            self.wf(),
        ensures
            r == has_key(self.listing(), key@),
    {
        self.locate(key).1
    }

    /// The value of `key`, if it is in the table.
    pub fn get(&self, key: &str) -> (r: Option<&V>)
        requires
            self.wf(),
        ensures
            r is None <==> !has_key(self.listing(), key@),
            r matches Some(v) ==> exists|i: int|
                0 <= i < self.listing().len() && #[trigger] self.listing()[i] == (key@, *v),
    {
        let (i, found) = self.locate(key);
        if found {
            assert(self.listing()[i as int] == (key@, self.entries@[i as int].1));
            Some(&self.entries[i].1)
        } else {
            None
        }
    }

    /// Sets the value of `key`: replaces the entry with that key, or adds one
    /// where the order puts it.
    pub fn insert(&mut self, key: String, value: V)
        requires
            old(self).wf(),
        ensures
            final(self).wf(),
            has_key(old(self).listing(), key@) ==> exists|i: int|
                0 <= i < old(self).listing().len() && old(self).listing()[i].0 == key@
                    && final(self).listing() == #[trigger] old(self).listing().update(i, (key@, value)),
            !has_key(old(self).listing(), key@) ==> exists|i: int|
                0 <= i <= old(self).listing().len() && final(self).listing()
                    == #[trigger] old(self).listing().insert(i, (key@, value)),
    {
        let ghost ls = old(self).listing();
        let (i, found) = self.locate(key.as_str());
        if found {
            self.entries.set(i, (key, value));
            assert(self.listing() =~= ls.update(i as int, (key@, value)));
        } else {
            self.entries.insert(i, (key, value));
            let ghost nl = ls.insert(i as int, (key@, value));
            assert(self.listing() =~= nl);
            assert forall|a: int, b: int| 0 <= a < b < nl.len() implies key_lt(#[trigger] nl[a].0, #[trigger] nl[b].0) by {
                if b < i {
                } else if a < i && b == i {
                } else if a < i {
                    assert(key_lt(ls[a].0, key@));
                    if (i as int) < ls.len() {
                        assert(key_lt(key@, ls[i as int].0));
                        if b - 1 > i {
                            lemma_bytes_lt_transitive(key_bytes(key@), key_bytes(ls[i as int].0), key_bytes(ls[b - 1].0));
                        }
                        lemma_bytes_lt_transitive(key_bytes(ls[a].0), key_bytes(key@), key_bytes(ls[b - 1].0));
                    }
                } else if a == i {
                    assert(key_lt(key@, ls[i as int].0));
                    if b - 1 > i {
                        lemma_bytes_lt_transitive(key_bytes(key@), key_bytes(ls[i as int].0), key_bytes(ls[b - 1].0));
                    }
                } else {
                    assert(nl[a] == ls[a - 1]);
                    assert(nl[b] == ls[b - 1]);
                }
            }
        }
    }

    /// Takes the entry with `key` out of the table, if there is one.
    pub fn remove(&mut self, key: &str) -> (r: Option<V>)
        requires
            old(self).wf(),
        ensures
            final(self).wf(),
            !has_key(old(self).listing(), key@) ==> r is None && final(self).listing() == old(self).listing(),
            has_key(old(self).listing(), key@) ==> exists|i: int|
                0 <= i < old(self).listing().len() && old(self).listing()[i].0 == key@
                    && r == Some(old(self).listing()[i].1)
                    && final(self).listing() == #[trigger] old(self).listing().remove(i),
    {
        let ghost ls = old(self).listing();
        let (i, found) = self.locate(key);
        if found {
            let (_, v) = self.entries.remove(i);
            assert(self.listing() =~= ls.remove(i as int));
            assert(ls[i as int].1 == v);
            Some(v)
        } else {
            None
        }
    }
}

impl Table<String> {
    /// A table with the same entries.
    pub fn duplicate(&self) -> (r: Self)
        requires
            self.wf(),
        ensures
            r.listing() == self.listing(),
            r.wf(),
    {
        let mut entries: Vec<(String, String)> = Vec::new();
        let mut i: usize = 0;
        while i < self.entries.len()
            invariant
                i <= self.entries@.len(),
                entries@.len() == i,
                forall|j: int| 0 <= j < i ==> #[trigger] entries@[j] == self.entries@[j],
            decreases self.entries@.len() - i,
        {
            entries.push((self.entries[i].0.clone(), self.entries[i].1.clone()));
            i = i + 1;
        }
        let r = Table { entries };
        assert(r.entries@ =~= self.entries@);
        r
    }
}

} // verus!
