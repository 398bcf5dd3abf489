//! The symbol registry: resolves qualified `"plugin.symbol"` names and lists plugins.
//!
//! The registry is generic in the symbol object it stores; it keeps symbols by qualified
//! name and, per plugin, its description and sorted symbol names.
use vstd::prelude::*;
use crate::order::{
    has_key, lemma_lex_asymmetric, lemma_lex_irreflexive, lemma_lex_total,
    lemma_lex_transitive, lex_less, lex_lt, lookup, SortedMap,
};
use crate::text_util::{chars_of, push_chars, string_from};

verus! {

broadcast use vstd::seq_lib::to_multiset_insert;

/// A plugin's description and the names of its symbols, sorted.
pub struct PluginInfo {
    pub description: String,
    pub symbol_names: Vec<String>,
}

/// The qualified name of symbol `name` of plugin `id`: `id.name`.
pub open spec fn qualify(id: Seq<char>, name: Seq<char>) -> Seq<char> {
    id + "."@ + name
}

/// The last symbol in `syms` whose qualified name is `q`.
pub open spec fn last_named<S>(id: Seq<char>, syms: Seq<(Seq<char>, S)>, q: Seq<char>) -> Option<S>
    decreases syms.len(),
{
    if syms.len() == 0 {
        None
    } else if qualify(id, syms.last().0) == q {
        Some(syms.last().1)
    } else {
        last_named(id, syms.drop_last(), q)
    }
}

pub open spec fn lex_le(a: Seq<char>, b: Seq<char>) -> bool {
    a == b || lex_lt(a, b)
}

/// Sorted, duplicates allowed.
pub open spec fn sorted_le(v: Seq<Seq<char>>) -> bool {
    forall|i: int, j: int| 0 <= i < j < v.len() ==> lex_le(#[trigger] v[i], #[trigger] v[j])
}

pub open spec fn views(v: Seq<String>) -> Seq<Seq<char>> {
    v.map_values(|s: String| s@)
}

pub open spec fn named_view<S>(v: Seq<(String, S)>) -> Seq<(Seq<char>, S)> {
    v.map_values(|e: (String, S)| (e.0@, e.1))
}

/// Sort texts (a stable insertion sort).
pub fn sort_names(v: Vec<String>) -> (r: Vec<String>)
    ensures
        sorted_le(views(r@)),
        views(r@).to_multiset() == views(v@).to_multiset(),
{
    let mut r: Vec<String> = Vec::new();
    let mut i: usize = 0;
    assert(views(r@) =~= views(v@.take(0)));
    while i < v.len()
        invariant
            i <= v@.len(),
            sorted_le(views(r@)),
            views(r@).to_multiset() == views(v@.take(i as int)).to_multiset(),
        decreases v.len() - i,
    {
        let x = v[i].clone();
        let xc = chars_of(x.as_str());
        let mut p: usize = 0;
        while p < r.len() && !lex_less(xc.as_slice(), chars_of(r[p].as_str()).as_slice())
            invariant
                p <= r@.len(),
                xc@ == x@,
                forall|j: int| 0 <= j < p ==> lex_le(#[trigger] views(r@)[j], x@),
            decreases r.len() - p,
        {
            proof {
                lemma_lex_total(views(r@)[p as int], x@);
            }
            p += 1;
        }
        let ghost before = views(r@);
        r.insert(p, x);
        proof {
            let after = views(r@);
            assert(after =~= before.insert(p as int, x@));
            if p < before.len() {
                assert(lex_lt(x@, before[p as int]));
            }
            assert forall|a: int, b: int| 0 <= a < b < after.len() implies lex_le(
                #[trigger] after[a],
                #[trigger] after[b],
            ) by {
                if a < p && b == p {
                } else if a < p && b > p {
                    assert(after[b] == before[b - 1]);
                    assert(lex_le(before[a], before[b - 1]));
                } else if a == p {
                    assert(after[b] == before[b - 1]);
                    if b - 1 > p {
                        assert(lex_le(before[p as int], before[b - 1]));
                        if before[p as int] != before[b - 1] {
                            lemma_lex_transitive(x@, before[p as int], before[b - 1]);
                        }
                    }
                } else if a > p {
                    assert(after[a] == before[a - 1]);
                    assert(after[b] == before[b - 1]);
                } else {
                    assert(after[a] == before[a]);
                    assert(after[b] == before[b]);
                }
            }
            assert(v@.take(i + 1) == v@.take(i as int).push(v@[i as int]));
            assert(views(v@.take(i + 1)) =~= views(v@.take(i as int)).push(x@));
            vstd::seq_lib::to_multiset_build(views(v@.take(i as int)), x@);
        }
        i += 1;
    }
    assert(v@.take(i as int) == v@);
    r
}

/// Copy a list of texts.
fn copy_names(v: &Vec<String>) -> (r: Vec<String>)
    ensures
        views(r@) == views(v@),
{
    let mut r: Vec<String> = Vec::new();
    let mut i: usize = 0;
    while i < v.len()
        invariant
            i <= v@.len(),
            views(r@) == views(v@.take(i as int)),
        decreases v.len() - i,
    {
        let s = v[i].clone();
        assert(s@ == v@[i as int]@);
        let ghost before = r@;
        r.push(s);
        assert(v@.take(i + 1) == v@.take(i as int).push(v@[i as int]));
        assert(views(r@) =~= views(before).push(s@));
        assert(views(v@.take(i + 1)) =~= views(v@.take(i as int)).push(v@[i as int]@));
        i += 1;
    }
    assert(v@.take(i as int) == v@);
    r
}

/// Resolves `"plugin.symbol"` names to symbols and lists plugins and their symbols.
pub struct Registry<S> {
    symbols: SortedMap<S>,
    plugins: SortedMap<PluginInfo>,
}

impl<S> Registry<S> {
    /// Symbols by qualified name, in name order.
    pub closed spec fn symbol_items(&self) -> Seq<(Seq<char>, S)> {
        self.symbols.items()
    }

    /// Plugins by id, in id order.
    pub closed spec fn plugin_items(&self) -> Seq<(Seq<char>, PluginInfo)> {
        self.plugins.items()
    }

    pub closed spec fn wf(&self) -> bool {
        self.symbols.wf() && self.plugins.wf()
    }

    pub fn new() -> (r: Self)
        ensures
            r.wf(),
            r.symbol_items() == Seq::<(Seq<char>, S)>::empty(),
            r.plugin_items() == Seq::<(Seq<char>, PluginInfo)>::empty(),
    {
        Registry { symbols: SortedMap::new(), plugins: SortedMap::new() }
    }

    /// Register the symbols of plugin `id` under `"<id>.<name>"`; a later symbol replaces an
    /// earlier one with the same qualified name. The plugin's entry records `description` and
    /// its symbol names, sorted.
    pub fn register(&mut self, id: &str, description: &str, symbols: Vec<(String, S)>)
        requires
            old(self).wf(),
        ensures
            final(self).wf(),
            forall|q: Seq<char>| #[trigger] lookup(final(self).symbol_items(), q) == match last_named(
                id@,
                named_view(symbols@),
                q,
            ) {
                Some(s) => Some(s),
                None => lookup(old(self).symbol_items(), q),
            },
            forall|k: Seq<char>|
                k != id@ ==> #[trigger] lookup(final(self).plugin_items(), k) == lookup(
                    old(self).plugin_items(),
                    k,
                ),
            lookup(final(self).plugin_items(), id@) matches Some(p) && p.description@
                == description@ && sorted_le(views(p.symbol_names@)) && views(
                p.symbol_names@,
            ).to_multiset() == named_view(symbols@).map_values(
                |e: (Seq<char>, S)| e.0,
            ).to_multiset(),
    {
        let ghost syms = named_view(symbols@);
        let ghost start = self.symbol_items();
        let mut rest = symbols;
        let mut names: Vec<String> = Vec::new();
        let mut k: usize = 0;
        let ghost total = rest@.len();
        assert(total <= usize::MAX) by {
            assert(rest@.len() == rest.len());
        }
        assert(views(names@) =~= syms.take(0).map_values(|e: (Seq<char>, S)| e.0));
        assert(syms.take(0) =~= Seq::<(Seq<char>, S)>::empty());
        while rest.len() > 0
            invariant
                total <= usize::MAX,
                self.symbols.wf(),
                self.plugins.wf(),
                self.plugins == old(self).plugins,
                k + rest@.len() == total,
                total == syms.len(),
                named_view(rest@) == syms.skip(k as int),
                views(names@) == syms.take(k as int).map_values(|e: (Seq<char>, S)| e.0),
                forall|q: Seq<char>| #[trigger] lookup(self.symbol_items(), q) == match last_named(
                    id@,
                    syms.take(k as int),
                    q,
                ) {
                    Some(s) => Some(s),
                    None => lookup(start, q),
                },
            decreases rest@.len(),
        {
            let ghost r0 = rest@;
            let (name, sym) = rest.remove(0);
            proof {
                assert(named_view(rest@) =~= named_view(r0).drop_first());
                assert(syms[k as int] == (name@, sym)) by {
                    assert(named_view(r0)[0] == syms.skip(k as int)[0]);
                }
                assert(syms.skip(k as int).drop_first() =~= syms.skip(k + 1));
            }
            let mut q = string_from(&chars_of(id));
            push_chars(&mut q, chars_of(".").as_slice());
            push_chars(&mut q, chars_of(name.as_str()).as_slice());
            let ghost before = self.symbol_items();
            self.symbols.insert(q, sym);
            let ghost nb = names@;
            names.push(name);
            proof {
                let t1 = syms.take(k + 1);
                assert(t1.drop_last() =~= syms.take(k as int));
                assert(t1.last() == syms[k as int]);
                assert(names@ == nb.push(name));
                assert(views(names@) =~= views(nb).push(name@));
                assert(syms.take(k + 1).map_values(|e: (Seq<char>, S)| e.0) =~= syms.take(
                    k as int,
                ).map_values(|e: (Seq<char>, S)| e.0).push(syms[k as int].0));
                assert(views(names@) =~= syms.take(k + 1).map_values(|e: (Seq<char>, S)| e.0));
            }
            k += 1;
        }
        proof {
            assert(syms.take(k as int) =~= syms);
        }
        let ghost done = self.symbol_items();
        let sorted = sort_names(names);
        let info = PluginInfo { description: string_from(&chars_of(description)), symbol_names: sorted };
        self.plugins.insert(string_from(&chars_of(id)), info);
        assert(self.symbol_items() == done);
        assert(start == old(self).symbol_items());
    }

    /// Look up a symbol by its qualified `"plugin.symbol"` name.
    pub fn get(&self, qualified: &str) -> (r: Option<&S>)
        ensures
            match (r, lookup(self.symbol_items(), qualified@)) {
                (Some(s), Some(t)) => *s == t,
                (None, None) => true,
                _ => false,
            },
    {
        self.symbols.get(chars_of(qualified).as_slice())
    }

    /// All qualified symbol names, sorted.
    pub fn qualified_names(&self) -> (v: Vec<String>)
        requires
            self.wf(),
        ensures
            views(v@) == self.symbol_items().map_values(|e: (Seq<char>, S)| e.0),
            forall|i: int, j: int| 0 <= i < j < v@.len() ==> lex_lt(#[trigger] views(v@)[i], #[trigger] views(v@)[j]),
    {
        let v = self.symbols.keys();
        proof {
            let e = self.symbol_items();
            assert(views(v@) == e.map_values(|x: (Seq<char>, S)| x.0));
            assert(views(v@).len() == e.len());
            assert forall|i: int, j: int| 0 <= i < j < v@.len() implies lex_lt(
                #[trigger] views(v@)[i],
                #[trigger] views(v@)[j],
            ) by {
                assert(views(v@)[i] == e[i].0);
                assert(views(v@)[j] == e[j].0);
            }
        }
        v
    }

    /// Plugins (id, description, symbol names), sorted by id.
    pub fn plugins(&self) -> (v: Vec<(String, String, Vec<String>)>)
        requires
            self.wf(),
        ensures
            v@.len() == self.plugin_items().len(),
            forall|i: int, j: int| 0 <= i < j < v@.len() ==> lex_lt(#[trigger] v@[i].0@, #[trigger] v@[j].0@),
            forall|i: int|
                0 <= i < v@.len() ==> {
                    &&& (#[trigger] v@[i]).0@ == self.plugin_items()[i].0
                    &&& v@[i].1@ == self.plugin_items()[i].1.description@
                    &&& views(v@[i].2@) == views(self.plugin_items()[i].1.symbol_names@)
                },
    {
        let mut v: Vec<(String, String, Vec<String>)> = Vec::new();
        let mut i: usize = 0;
        while i < self.plugins.len()
            invariant
                i <= self.plugin_items().len(),
                v@.len() == i,
                forall|a: int|
                    0 <= a < i ==> {
                        &&& (#[trigger] v@[a]).0@ == self.plugin_items()[a].0
                        &&& v@[a].1@ == self.plugin_items()[a].1.description@
                        &&& views(v@[a].2@) == views(self.plugin_items()[a].1.symbol_names@)
                    },
            decreases self.plugin_items().len() - i,
        {
            let id = self.plugins.key_at(i).clone();
            let info = self.plugins.value_at(i);
            let desc = info.description.clone();
            let names = copy_names(&info.symbol_names);
            v.push((id, desc, names));
            i += 1;
        }
        v
    }
}

/// After `register`, every symbol of the plugin is found under its qualified name, and what
/// is found there is the last symbol registered with that name.
pub proof fn lemma_registered_symbols_found<S>(
    before: Seq<(Seq<char>, S)>,
    after: Seq<(Seq<char>, S)>,
    id: Seq<char>,
    syms: Seq<(Seq<char>, S)>,
    i: int,
)
    requires
        forall|q: Seq<char>| #[trigger] lookup(after, q) == match last_named(id, syms, q) {
            Some(s) => Some(s),
            None => lookup(before, q),
        },
        0 <= i < syms.len(),
    ensures
        lookup(after, qualify(id, syms[i].0)) matches Some(s) && exists|j: int|
            i <= j < syms.len() && #[trigger] syms[j] == (syms[i].0, s),
    decreases syms.len(),
{
    lemma_last_named_found(id, syms, i);
    assert(lookup(after, qualify(id, syms[i].0)) == last_named(id, syms, qualify(id, syms[i].0)));
}

proof fn lemma_qualify_injective(id: Seq<char>, a: Seq<char>, b: Seq<char>)
    requires
        qualify(id, a) == qualify(id, b),
    ensures
        a == b,
{
    let p = id + "."@;
    assert((p + a).subrange(p.len() as int, (p + a).len() as int) =~= a);
    assert((p + b).subrange(p.len() as int, (p + b).len() as int) =~= b);
}

proof fn lemma_last_named_found<S>(id: Seq<char>, syms: Seq<(Seq<char>, S)>, i: int)
    requires
        0 <= i < syms.len(),
    ensures
        last_named(id, syms, qualify(id, syms[i].0)) matches Some(s) && exists|j: int|
            i <= j < syms.len() && #[trigger] syms[j] == (syms[i].0, s),
    decreases syms.len(),
{
    let q = qualify(id, syms[i].0);
    let last = syms.len() - 1;
    if qualify(id, syms.last().0) == q {
        lemma_qualify_injective(id, syms.last().0, syms[i].0);
        assert(syms[last] == (syms[i].0, syms.last().1));
    } else {
        assert(i != last);
        let d = syms.drop_last();
        assert(d[i] == syms[i]);
        lemma_last_named_found(id, d, i);
        let s = last_named(id, d, q)->0;
        let j = choose|j: int| i <= j < d.len() && #[trigger] d[j] == (d[i].0, s);
        assert(syms[j] == d[j]);
    }
}

} // verus!
