//! Lexicographic order on text, by character code (the order of `String`'s `Ord`), and a
//! map with text keys kept in that order.
use vstd::prelude::*;

verus! {

/// `a` sorts strictly before `b`.
pub open spec fn lex_lt(a: Seq<char>, b: Seq<char>) -> bool
    decreases a.len(),
{
    if a.len() == 0 {
        b.len() > 0
    } else if b.len() == 0 {
        false
    } else if a[0] != b[0] {
        a[0] < b[0]
    } else {
        lex_lt(a.drop_first(), b.drop_first())
    }
}

pub proof fn lemma_lex_irreflexive(a: Seq<char>)
    ensures
        !lex_lt(a, a),
    decreases a.len(),
{
    if a.len() > 0 {
        lemma_lex_irreflexive(a.drop_first());
    }
}

pub proof fn lemma_lex_transitive(a: Seq<char>, b: Seq<char>, c: Seq<char>)
    requires
        lex_lt(a, b),
        lex_lt(b, c),
    ensures
        lex_lt(a, c),
    decreases a.len(),
{
    if a.len() > 0 && b.len() > 0 && c.len() > 0 {
        if a[0] == b[0] && b[0] == c[0] {
            lemma_lex_transitive(a.drop_first(), b.drop_first(), c.drop_first());
        }
    }
}

pub proof fn lemma_lex_total(a: Seq<char>, b: Seq<char>)
    ensures
        a == b || lex_lt(a, b) || lex_lt(b, a),
    decreases a.len(),
{
    if a.len() > 0 && b.len() > 0 {
        if a[0] == b[0] {
            lemma_lex_total(a.drop_first(), b.drop_first());
            if a.drop_first() == b.drop_first() {
                assert(a == seq![a[0]] + a.drop_first());
                assert(b == seq![b[0]] + b.drop_first());
            }
        }
    } else if a.len() == 0 && b.len() == 0 {
        assert(a == b);
    }
}

pub proof fn lemma_lex_asymmetric(a: Seq<char>, b: Seq<char>)
    requires
        lex_lt(a, b),
    ensures
        !lex_lt(b, a),
{
    if lex_lt(b, a) {
        lemma_lex_transitive(a, b, a);
        lemma_lex_irreflexive(a);
    }
}

/// Compare two texts.
pub fn lex_less(a: &[char], b: &[char]) -> (r: bool)
    ensures
        r == lex_lt(a@, b@),
{
    let mut i: usize = 0;
    assert(a@.skip(0) == a@);
    assert(b@.skip(0) == b@);
    while i < a.len() && i < b.len() && a[i] == b[i]
        invariant
            i <= a.len(),
            i <= b.len(),
            lex_lt(a@.skip(i as int), b@.skip(i as int)) == lex_lt(a@, b@),
        decreases a.len() - i,
    {
        assert(a@.skip(i as int).drop_first() == a@.skip(i + 1));
        assert(b@.skip(i as int).drop_first() == b@.skip(i + 1));
        i += 1;
    }
    if i == a.len() {
        i < b.len()
    } else if i == b.len() {
        false
    } else {
        a[i] < b[i]
    }
}

/// Entries sorted strictly by key.
pub open spec fn sorted_keys<V>(e: Seq<(Seq<char>, V)>) -> bool {
    forall|i: int, j: int| 0 <= i < j < e.len() ==> lex_lt(#[trigger] e[i].0, #[trigger] e[j].0)
}

/// Some entry has key `k`.
pub open spec fn has_key<V>(e: Seq<(Seq<char>, V)>, k: Seq<char>) -> bool {
    exists|i: int| 0 <= i < e.len() && (#[trigger] e[i]).0 == k
}

/// The value stored under `k`, if any.
pub open spec fn lookup<V>(e: Seq<(Seq<char>, V)>, k: Seq<char>) -> Option<V>
    decreases e.len(),
{
    if e.len() == 0 {
        None
    } else if e.last().0 == k {
        Some(e.last().1)
    } else {
        lookup(e.drop_last(), k)
    }
}

pub proof fn lemma_lookup_at<V>(e: Seq<(Seq<char>, V)>, i: int)
    requires
        sorted_keys(e),
        0 <= i < e.len(),
    ensures
        lookup(e, e[i].0) == Some(e[i].1),
    decreases e.len(),
{
    if i < e.len() - 1 {
        let last = e.len() - 1;
        assert(lex_lt(e[i].0, e[last].0));
        lemma_lex_irreflexive(e[i].0);
        let d = e.drop_last();
        assert forall|a: int, b: int| 0 <= a < b < d.len() implies lex_lt(
            #[trigger] d[a].0,
            #[trigger] d[b].0,
        ) by {
            assert(d[a] == e[a] && d[b] == e[b]);
        }
        assert(d[i] == e[i]);
        lemma_lookup_at(d, i);
    }
}

pub proof fn lemma_lookup_absent<V>(e: Seq<(Seq<char>, V)>, k: Seq<char>)
    requires
        forall|i: int| 0 <= i < e.len() ==> (#[trigger] e[i]).0 != k,
    ensures
        lookup(e, k) is None,
    decreases e.len(),
{
    if e.len() > 0 {
        let d = e.drop_last();
        assert forall|i: int| 0 <= i < d.len() implies (#[trigger] d[i]).0 != k by {
            assert(d[i] == e[i]);
        }
        lemma_lookup_absent(d, k);
    }
}

/// What `lookup` gives in a sorted entry list: the value at the key's unique position.
pub proof fn lemma_lookup_spec<V>(e: Seq<(Seq<char>, V)>, k: Seq<char>)
    requires
        sorted_keys(e),
    ensures
        (exists|i: int| 0 <= i < e.len() && (#[trigger] e[i]).0 == k) ==> (lookup(e, k) matches Some(
            v,
        ) && exists|i: int| 0 <= i < e.len() && (#[trigger] e[i]) == (k, v)),
        !(exists|i: int| 0 <= i < e.len() && (#[trigger] e[i]).0 == k) ==> lookup(e, k) is None,
{
    if exists|i: int| 0 <= i < e.len() && (#[trigger] e[i]).0 == k {
        let i = choose|i: int| 0 <= i < e.len() && (#[trigger] e[i]).0 == k;
        lemma_lookup_at(e, i);
        assert(e[i] == (k, e[i].1));
    } else {
        lemma_lookup_absent(e, k);
    }
}

/// A map from text keys to values, kept sorted by key.
pub struct SortedMap<V> {
    entries: Vec<(String, V)>,
}

impl<V> SortedMap<V> {
    /// The entries as (key, value) pairs, in key order.
    pub closed spec fn items(&self) -> Seq<(Seq<char>, V)> {
        self.entries@.map_values(|e: (String, V)| (e.0@, e.1))
    }

    /// Well-formed: keys strictly increasing.
    pub open spec fn wf(&self) -> bool {
        sorted_keys(self.items())
    }

    pub fn new() -> (m: Self)
        ensures
            m.items() == Seq::<(Seq<char>, V)>::empty(),
            m.wf(),
    {
        let m = SortedMap { entries: Vec::new() };
        assert(m.items() =~= Seq::<(Seq<char>, V)>::empty());
        m
    }

    pub fn len(&self) -> (n: usize)
        ensures
            n == self.items().len(),
    {
        self.entries.len()
    }

    /// The key of the `i`-th entry in key order.
    pub fn key_at(&self, i: usize) -> (k: &String)
        requires
            i < self.items().len(),
        ensures
            k@ == self.items()[i as int].0,
    {
        &self.entries[i].0
    }

    /// The value of the `i`-th entry in key order.
    pub fn value_at(&self, i: usize) -> (v: &V)
        requires
            i < self.items().len(),
        ensures
            *v == self.items()[i as int].1,
    {
        &self.entries[i].1
    }

    /// Store `value` under `key`, replacing what was there.
    pub fn insert(&mut self, key: String, value: V)
        requires
            old(self).wf(),
        ensures
            final(self).wf(),
            forall|k: Seq<char>| #[trigger] lookup(final(self).items(), k) == if k == key@ {
                Some(value)
            } else {
                lookup(old(self).items(), k)
            },
            forall|k: Seq<char>| #[trigger] has_key(final(self).items(), k) <==> (k == key@ || has_key(
                old(self).items(),
                k,
            )),
    {
        let ghost e = self.items();
        let n = self.entries.len();
        let mut i: usize = 0;
        while i < n && crate::order::lex_less(
            crate::text_util::chars_of(self.entries[i].0.as_str()).as_slice(),
            crate::text_util::chars_of(key.as_str()).as_slice(),
        )
            invariant
                i <= n,
                n == self.entries@.len(),
                e == self.items(),
                sorted_keys(e),
                forall|j: int| 0 <= j < i ==> lex_lt(#[trigger] e[j].0, key@),
            decreases n - i,
        {
            i += 1;
        }
        proof {
            if i < n {
                lemma_lex_total(e[i as int].0, key@);
            }
        }
        let ghost e2: Seq<(Seq<char>, V)>;
        if i < n && crate::text_util::eq_str(
            crate::text_util::chars_of(self.entries[i].0.as_str()).as_slice(),
            key.as_str(),
        ) {
            let ghost old_entries = self.entries@;
            self.entries.set(i, (key, value));
            proof {
                e2 = e.update(i as int, (key@, value));
                assert(self.items() =~= e2);
            }
        } else {
            let ghost old_entries = self.entries@;
            self.entries.insert(i, (key, value));
            proof {
                e2 = e.insert(i as int, (key@, value));
                assert(self.items() =~= e2);
            }
        }
        proof {
            let e2 = self.items();
            assert forall|a: int, b: int| 0 <= a < b < e2.len() implies lex_lt(
                #[trigger] e2[a].0,
                #[trigger] e2[b].0,
            ) by {
                if e2.len() == e.len() {
                    if a == i && b != i {
                        assert(e[a].0 == key@);
                    } else if b == i && a != i {
                        assert(e[b].0 == key@);
                    }
                } else {
                    if a < i && b == i {
                    } else if a == i && b > i {
                        assert(e2[b] == e[b - 1]);
                        if b - 1 > i {
                            assert(lex_lt(e[i as int].0, e[b - 1].0));
                            lemma_lex_transitive(key@, e[i as int].0, e[b - 1].0);
                        }
                    } else if a < i && b > i {
                        assert(e2[b] == e[b - 1]);
                        assert(e2[a] == e[a]);
                    } else if a > i {
                        assert(e2[b] == e[b - 1]);
                        assert(e2[a] == e[a - 1]);
                    } else {
                        assert(e2[b] == e[b]);
                        assert(e2[a] == e[a]);
                    }
                }
            }
            assert forall|k: Seq<char>| #[trigger] has_key(e2, k) <==> (k == key@ || has_key(e, k)) by {
                if e2.len() == e.len() {
                    if exists|j: int| 0 <= j < e.len() && (#[trigger] e[j]).0 == k {
                        let j = choose|j: int| 0 <= j < e.len() && (#[trigger] e[j]).0 == k;
                        if j == i {
                            assert(e2[j].0 == k);
                        } else {
                            assert(e2[j] == e[j]);
                        }
                    }
                    if exists|j: int| 0 <= j < e2.len() && (#[trigger] e2[j]).0 == k {
                        let j = choose|j: int| 0 <= j < e2.len() && (#[trigger] e2[j]).0 == k;
                        if j != i {
                            assert(e2[j] == e[j]);
                        }
                    }
                    if k == key@ {
                        assert(e2[i as int].0 == k);
                    }
                } else {
                    if exists|j: int| 0 <= j < e.len() && (#[trigger] e[j]).0 == k {
                        let j = choose|j: int| 0 <= j < e.len() && (#[trigger] e[j]).0 == k;
                        if j < i {
                            assert(e2[j] == e[j]);
                        } else {
                            assert(e2[j + 1] == e[j]);
                        }
                    }
                    if exists|j: int| 0 <= j < e2.len() && (#[trigger] e2[j]).0 == k {
                        let j = choose|j: int| 0 <= j < e2.len() && (#[trigger] e2[j]).0 == k;
                        if j < i {
                            assert(e2[j] == e[j]);
                        } else if j > i {
                            assert(e2[j] == e[j - 1]);
                        }
                    }
                    if k == key@ {
                        assert(e2[i as int].0 == k);
                    }
                }
            }
            assert forall|k: Seq<char>| #[trigger] lookup(e2, k) == if k == key@ {
                Some(value)
            } else {
                lookup(e, k)
            } by {
                lemma_lookup_spec(e2, k);
                lemma_lookup_spec(e, k);
                if k == key@ {
                    lemma_lookup_at(e2, i as int);
                } else {
                    if exists|j: int| 0 <= j < e.len() && (#[trigger] e[j]).0 == k {
                        let j = choose|j: int| 0 <= j < e.len() && (#[trigger] e[j]).0 == k;
                        lemma_lookup_at(e, j);
                        if e2.len() == e.len() {
                            assert(j != i);
                            assert(e2[j] == e[j]);
                            lemma_lookup_at(e2, j);
                        } else if j < i {
                            assert(e2[j] == e[j]);
                            lemma_lookup_at(e2, j);
                        } else {
                            assert(e2[j + 1] == e[j]);
                            lemma_lookup_at(e2, j + 1);
                        }
                    } else {
                        assert forall|j: int| 0 <= j < e2.len() implies (#[trigger] e2[j]).0 != k by {
                            if e2.len() == e.len() {
                                if j != i {
                                    assert(e2[j] == e[j]);
                                }
                            } else if j < i {
                                assert(e2[j] == e[j]);
                            } else if j > i {
                                assert(e2[j] == e[j - 1]);
                            }
                        }
                        lemma_lookup_absent(e2, k);
                    }
                }
            }
        }
    }

    /// Remove the entry under `key`, giving back its value.
    pub fn take(&mut self, key: &[char]) -> (r: Option<V>)
        requires
            old(self).wf(),
        ensures
            final(self).wf(),
            r == lookup(old(self).items(), key@),
            forall|k: Seq<char>| #[trigger] lookup(final(self).items(), k) == if k == key@ {
                None
            } else {
                lookup(old(self).items(), k)
            },
            forall|k: Seq<char>| #[trigger] has_key(final(self).items(), k) <==> (k != key@ && has_key(
                old(self).items(),
                k,
            )),
    {
        let ghost e = self.items();
        let n = self.entries.len();
        let mut i: usize = 0;
        while i < n && !crate::text_util::eq_str(key, self.entries[i].0.as_str())
            invariant
                i <= n,
                n == self.entries@.len(),
                e == self.items(),
                sorted_keys(e),
                forall|j: int| 0 <= j < i ==> (#[trigger] e[j]).0 != key@,
            decreases n - i,
        {
            i += 1;
        }
        if i == n {
            proof {
                lemma_lookup_absent(e, key@);
                assert forall|k: Seq<char>| #[trigger] lookup(e, k) == if k == key@ {
                    None
                } else {
                    lookup(e, k)
                } by {}
                assert forall|k: Seq<char>| #[trigger] has_key(e, k) <==> (k != key@ && has_key(e, k)) by {
                    if has_key(e, k) {
                        let j = choose|j: int| 0 <= j < e.len() && (#[trigger] e[j]).0 == k;
                        assert(e[j].0 != key@);
                    }
                }
            }
            return None;
        }
        let (_, v) = self.entries.remove(i);
        proof {
            let e2 = e.remove(i as int);
            assert(self.items() =~= e2);
            lemma_lookup_at(e, i as int);
            assert forall|a: int, b: int| 0 <= a < b < e2.len() implies lex_lt(
                #[trigger] e2[a].0,
                #[trigger] e2[b].0,
            ) by {
                if a < i && b < i {
                    assert(e2[a] == e[a] && e2[b] == e[b]);
                } else if a < i {
                    assert(e2[a] == e[a] && e2[b] == e[b + 1]);
                } else {
                    assert(e2[a] == e[a + 1] && e2[b] == e[b + 1]);
                }
            }
            assert forall|k: Seq<char>| #[trigger] has_key(e2, k) <==> (k != key@ && has_key(e, k)) by {
                if has_key(e2, k) {
                    let j = choose|j: int| 0 <= j < e2.len() && (#[trigger] e2[j]).0 == k;
                    if j < i {
                        assert(e2[j] == e[j]);
                        assert(lex_lt(e[j].0, e[i as int].0));
                        lemma_lex_irreflexive(k);
                    } else {
                        assert(e2[j] == e[j + 1]);
                        assert(lex_lt(e[i as int].0, e[j + 1].0));
                        lemma_lex_irreflexive(k);
                    }
                }
                if k != key@ && has_key(e, k) {
                    let j = choose|j: int| 0 <= j < e.len() && (#[trigger] e[j]).0 == k;
                    if j < i {
                        assert(e2[j] == e[j]);
                    } else {
                        assert(j != i);
                        assert(e2[j - 1] == e[j]);
                    }
                }
            }
            assert forall|k: Seq<char>| #[trigger] lookup(e2, k) == if k == key@ {
                None
            } else {
                lookup(e, k)
            } by {
                lemma_lookup_spec(e2, k);
                lemma_lookup_spec(e, k);
                if has_key(e2, k) {
                    let j = choose|j: int| 0 <= j < e2.len() && (#[trigger] e2[j]).0 == k;
                    lemma_lookup_at(e2, j);
                    if j < i {
                        assert(e2[j] == e[j]);
                        lemma_lookup_at(e, j);
                    } else {
                        assert(e2[j] == e[j + 1]);
                        lemma_lookup_at(e, j + 1);
                    }
                } else if k != key@ && has_key(e, k) {
                    let j = choose|j: int| 0 <= j < e.len() && (#[trigger] e[j]).0 == k;
                    if j < i {
                        assert(e2[j] == e[j]);
                    } else {
                        assert(e2[j - 1] == e[j]);
                    }
                }
            }
        }
        Some(v)
    }

    /// The keys, in order.
    pub fn keys(&self) -> (v: Vec<String>)
        ensures
            v@.map_values(|s: String| s@) == self.items().map_values(|e: (Seq<char>, V)| e.0),
    {
        let mut v: Vec<String> = Vec::new();
        let mut i: usize = 0;
        while i < self.entries.len()
            invariant
                i <= self.entries@.len(),
                v@.map_values(|s: String| s@) == self.items().take(i as int).map_values(
                    |e: (Seq<char>, V)| e.0,
                ),
            decreases self.entries.len() - i,
        {
            let k = self.entries[i].0.clone();
            assert(k@ == self.items()[i as int].0);
            let ghost before = v@;
            v.push(k);
            proof {
                assert(v@ == before.push(k));
                assert(v@.map_values(|s: String| s@) =~= before.map_values(|s: String| s@).push(k@));
                assert(self.items().take(i + 1) == self.items().take(i as int).push(self.items()[i as int]));
                assert(v@.map_values(|s: String| s@) =~= self.items().take(i + 1).map_values(
                    |e: (Seq<char>, V)| e.0,
                ));
            }
            i += 1;
        }
        assert(self.items().take(i as int) == self.items());
        v
    }

    /// The value stored under `key`.
    pub fn get(&self, key: &[char]) -> (r: Option<&V>)
        ensures
            match (r, lookup(self.items(), key@)) {
                (Some(v), Some(w)) => *v == w,
                (None, None) => true,
                _ => false,
            },
    {
        let mut i: usize = self.entries.len();
        assert(self.items().take(i as int) == self.items());
        while i > 0
            invariant
                i <= self.entries@.len(),
                lookup(self.items(), key@) == lookup(self.items().take(i as int), key@),
            decreases i,
        {
            assert(self.items().take(i as int).last() == self.items()[i - 1]);
            assert(self.items().take(i as int).drop_last() == self.items().take(i - 1));
            if crate::text_util::eq_str(key, self.entries[i - 1].0.as_str()) {
                return Some(&self.entries[i - 1].1);
            }
            i -= 1;
        }
        None
    }
}

} // verus!
