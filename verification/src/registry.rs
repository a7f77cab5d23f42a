//! The write-once, name-keyed registry of built entries, and the stable
//! ordering its contents take in the output document.

use vstd::prelude::*;

use vstd::multiset::Multiset;

use crate::text::{lemma_lex_antisymmetric, lemma_lex_total, lemma_lex_transitive, lex_leq, str_leq};

verus! {

broadcast use vstd::seq_lib::group_to_multiset_ensures;

/// A name-keyed table, write-once by name: registering a name twice keeps
/// the first entry and ignores the second.
#[derive(Debug, PartialEq)]
pub struct Registry<T> {
    pub entries: Vec<(String, T)>,
}

/// The name views of an entry list, in order.
pub open spec fn entry_names<T>(entries: Seq<(String, T)>) -> Seq<Seq<char>> {
    entries.map_values(|e: (String, T)| e.0@)
}

/// Whether an entry list holds an entry of the given name.
pub open spec fn has_entry<T>(entries: Seq<(String, T)>, name: Seq<char>) -> bool {
    exists|i: int| 0 <= i < entries.len() && entries[i].0@ == name
}

/// The index of the first entry of the given name.
pub open spec fn entry_index<T>(entries: Seq<(String, T)>, name: Seq<char>) -> int {
    choose|i: int|
        0 <= i < entries.len() && entries[i].0@ == name && (forall|j: int|
            0 <= j < i ==> entries[j].0@ != name)
}

/// Entry names are pairwise distinct.
pub open spec fn distinct_entry_names<T>(entries: Seq<(String, T)>) -> bool {
    forall|i: int, j: int| 0 <= i < j < entries.len() ==> entries[i].0@ != entries[j].0@
}

/// Entries ordered by name, lexicographically by character code.
pub open spec fn entries_sorted<T>(entries: Seq<(String, T)>) -> bool {
    forall|i: int, j: int|
        0 <= i <= j < entries.len() ==> lex_leq(#[trigger] entries[i].0@, #[trigger] entries[j].0@)
}

impl<T> Registry<T> {
    /// Registered names are pairwise distinct.
    pub open spec fn wf(&self) -> bool {
        distinct_entry_names(self.entries@)
    }

    pub fn new() -> (r: Registry<T>)
        ensures
            r.entries@ =~= Seq::<(String, T)>::empty(),
            r.wf(),
    {
        Registry { entries: Vec::new() }
    }

    /// Whether a name is registered.
    pub fn contains(&self, name: &String) -> (r: bool)
        ensures
            r == has_entry(self.entries@, name@),
    {
        let n = self.entries.len();
        let mut i: usize = 0;
        while i < n
            invariant
                n == self.entries@.len(),
                0 <= i <= n,
                forall|j: int| 0 <= j < i ==> (#[trigger] self.entries@[j]).0@ != name@,
            decreases n - i,
        {
            if self.entries[i].0 == *name {
                proof {
                    assert(self.entries@[i as int].0@ == name@);
                }
                return true;
            }
            i += 1;
        }
        proof {
            if has_entry(self.entries@, name@) {
                let w = choose|w: int|
                    0 <= w < self.entries@.len() && self.entries@[w].0@ == name@;
                assert(self.entries@[w].0@ != name@);
            }
        }
        false
    }

    /// Register an entry under a name. Registration is write-once and
    /// idempotent by name: a name already present keeps its first entry and
    /// the new one is dropped, not an error.
    pub fn register(&mut self, name: String, value: T)
        ensures
            has_entry(old(self).entries@, name@) ==> final(self).entries@
                == old(self).entries@,
            !has_entry(old(self).entries@, name@) ==> final(self).entries@
                =~= old(self).entries@.push((name, value)),
            old(self).wf() ==> final(self).wf(),
    {
        if !self.contains(&name) {
            self.entries.push((name, value));
        }
    }

    /// Take the entry registered under a name out of the registry, so that
    /// it is consumed exactly once.
    pub fn take(&mut self, name: &String) -> (r: Option<T>)
        ensures
            !has_entry(old(self).entries@, name@) ==> r is None && *final(self) == *old(self),
            has_entry(old(self).entries@, name@) ==> {
                let i = entry_index(old(self).entries@, name@);
                &&& r == Some(old(self).entries@[i].1)
                &&& final(self).entries@ =~= old(self).entries@.remove(i)
            },
            old(self).wf() ==> final(self).wf(),
    {
        let n = self.entries.len();
        let mut i: usize = 0;
        while i < n
            invariant
                n == self.entries@.len(),
                0 <= i <= n,
                forall|j: int| 0 <= j < i ==> (#[trigger] self.entries@[j]).0@ != name@,
                *self == *old(self),
            decreases n - i,
        {
            if self.entries[i].0 == *name {
                proof {
                    let es = old(self).entries@;
                    assert(0 <= i < es.len() && es[i as int].0@ == name@ && (forall|j: int|
                        0 <= j < i ==> es[j].0@ != name@));
                    let k = entry_index(es, name@);
                    if k < i {
                        assert(es[k].0@ != name@);
                    }
                    if k > i {
                        assert(es[i as int].0@ != name@);
                    }
                    assert(k == i);
                }
                let entry = self.entries.remove(i);
                proof {
                    let es = old(self).entries@;
                    assert(self.entries@ =~= es.remove(i as int));
                    if distinct_entry_names(es) {
                        assert forall|a: int, b: int|
                            0 <= a < b < self.entries@.len() implies self.entries@[a].0@
                            != self.entries@[b].0@ by {
                            if a < i && b < i {
                                assert(self.entries@[a] == es[a] && self.entries@[b] == es[b]);
                            } else if a < i {
                                assert(self.entries@[a] == es[a] && self.entries@[b] == es[b
                                    + 1]);
                            } else {
                                assert(self.entries@[a] == es[a + 1] && self.entries@[b] == es[b
                                    + 1]);
                            }
                        }
                    }
                }
                return Some(entry.1);
            }
            i += 1;
        }
        proof {
            if has_entry(old(self).entries@, name@) {
                let w = choose|w: int|
                    0 <= w < old(self).entries@.len() && old(self).entries@[w].0@ == name@;
                assert(old(self).entries@[w].0@ != name@);
            }
        }
        None
    }
}

/// Sort entries by name. The result is ordered and holds the same entries.
#[verifier::loop_isolation(false)]
pub fn sort_entries<T>(entries: Vec<(String, T)>) -> (r: Vec<(String, T)>)
    ensures
        entries_sorted(r@),
        r@.to_multiset() == entries@.to_multiset(),
{
    let ghost all = entries@;
    let mut rest = entries;
    let mut out: Vec<(String, T)> = Vec::new();
    proof {
        assert(out@.to_multiset().add(rest@.to_multiset()) =~= all.to_multiset());
    }
    while rest.len() > 0
        invariant
            entries_sorted(out@),
            out@.to_multiset().add(rest@.to_multiset()) == all.to_multiset(),
        decreases rest@.len(),
    {
        let ghost rest_before = rest@;
        let e = rest.remove(0);
        proof {
            assert(rest_before.remove(0) == rest@);
            assert(rest_before =~= seq![rest_before[0]] + rest@);
            assert(rest_before.to_multiset() =~= rest@.to_multiset().insert(e));
        }
        let mut pos: usize = 0;
        while pos < out.len() && str_leq(out[pos].0.as_str(), e.0.as_str())
            invariant
                0 <= pos <= out@.len(),
                forall|j: int| 0 <= j < pos ==> lex_leq((#[trigger] out@[j]).0@, e.0@),
            decreases out@.len() - pos,
        {
            pos += 1;
        }
        proof {
            if pos < out@.len() {
                assert(!lex_leq(out@[pos as int].0@, e.0@));
                lemma_lex_total(out@[pos as int].0@, e.0@);
                assert(lex_leq(e.0@, out@[pos as int].0@));
            }
        }
        let ghost out_before = out@;
        out.insert(pos, e);
        proof {
            assert(out@ =~= out_before.insert(pos as int, e));
            assert(out@.to_multiset() =~= out_before.to_multiset().insert(e));
            assert(entries_sorted(out@)) by {
                assert forall|i: int, j: int|
                    0 <= i <= j < out@.len() implies lex_leq(
                    (#[trigger] out@[i]).0@,
                    (#[trigger] out@[j]).0@,
                ) by {
                    let p = pos as int;
                    if i < p && j < p {
                        assert(out@[i] == out_before[i] && out@[j] == out_before[j]);
                    } else if i < p && j == p {
                        assert(out@[i] == out_before[i]);
                    } else if i < p && j > p {
                        assert(out@[i] == out_before[i] && out@[j] == out_before[j - 1]);
                    } else if i == p && j == p {
                        lemma_lex_total(e.0@, e.0@);
                    } else if i == p && j > p {
                        assert(out@[j] == out_before[j - 1]);
                        assert(lex_leq(e.0@, out_before[p].0@));
                        assert(lex_leq(out_before[p].0@, out_before[j - 1].0@));
                        lemma_lex_transitive(e.0@, out_before[p].0@, out_before[j - 1].0@);
                    } else {
                        assert(out@[i] == out_before[i - 1] && out@[j] == out_before[j - 1]);
                    }
                }
            }
            assert(out@.to_multiset().add(rest@.to_multiset()) =~= all.to_multiset());
        }
    }
    proof {
        assert(rest@.to_multiset() =~= Multiset::<(String, T)>::empty());
        assert(out@.to_multiset() =~= all.to_multiset());
    }
    out
}

/// Law: sorting pins the order. Two sorted entry lists holding the same
/// entries, with pairwise distinct names, are equal — so the document's
/// schema order depends only on what was registered, never on the order of
/// registration.
pub proof fn lemma_sorted_entries_unique<T>(x: Seq<(String, T)>, y: Seq<(String, T)>)
    requires
        entries_sorted(x),
        entries_sorted(y),
        distinct_entry_names(x),
        x.to_multiset() == y.to_multiset(),
    ensures
        x =~= y,
    decreases x.len(),
{
    if x.len() == 0 {
        assert(y.to_multiset().len() == 0);
        assert(y.len() == 0);
    } else {
        assert(y.len() > 0) by {
            assert(x.to_multiset().len() == x.len());
        }
        assert(x.to_multiset().contains(x[0]));
        assert(y.to_multiset().contains(y[0]));
        assert(x.contains(y[0]));
        assert(y.contains(x[0]));
        let i = choose|i: int| 0 <= i < x.len() && x[i] == y[0];
        let j = choose|j: int| 0 <= j < y.len() && y[j] == x[0];
        assert(lex_leq(x[0].0@, x[i].0@));
        assert(lex_leq(y[0].0@, y[j].0@));
        lemma_lex_antisymmetric(x[0].0@, y[0].0@);
        assert(x[0].0@ == y[0].0@);
        assert(i == 0) by {
            if i != 0 {
                assert(x[0].0@ != x[i].0@);
            }
        }
        assert(x[0] == y[0]);
        assert(x.drop_first() =~= x.remove(0));
        assert(y.drop_first() =~= y.remove(0));
        assert(x.remove(0).to_multiset() == x.to_multiset().remove(x[0]));
        assert(y.remove(0).to_multiset() == y.to_multiset().remove(y[0]));
        assert(x.drop_first().to_multiset() =~= x.to_multiset().remove(x[0]));
        assert(y.drop_first().to_multiset() =~= y.to_multiset().remove(y[0]));
        assert(distinct_entry_names(x.drop_first())) by {
            assert(forall|a: int, b: int|
                0 <= a < b < x.drop_first().len() ==> x.drop_first()[a] == x[a + 1]
                    && x.drop_first()[b] == x[b + 1]);
        }
        assert(entries_sorted(x.drop_first())) by {
            assert(forall|a: int, b: int|
                0 <= a <= b < x.drop_first().len() ==> x.drop_first()[a] == x[a + 1]
                    && x.drop_first()[b] == x[b + 1]);
        }
        assert(entries_sorted(y.drop_first())) by {
            assert(forall|a: int, b: int|
                0 <= a <= b < y.drop_first().len() ==> y.drop_first()[a] == y[a + 1]
                    && y.drop_first()[b] == y[b + 1]);
        }
        lemma_sorted_entries_unique(x.drop_first(), y.drop_first());
        assert(forall|m: int|
            0 < m < x.len() ==> x[m] == x.drop_first()[m - 1] && y[m] == y.drop_first()[m - 1]);
    }
}


/// A permutation of an entry list with pairwise distinct names also has
/// pairwise distinct names.
proof fn lemma_perm_distinct_names<T>(x: Seq<(String, T)>, y: Seq<(String, T)>)
    requires
        distinct_entry_names(x),
        x.to_multiset() == y.to_multiset(),
    ensures
        distinct_entry_names(y),
{
    assert(x.no_duplicates()) by {
        assert forall|i: int, j: int|
            0 <= i < x.len() && 0 <= j < x.len() && i != j implies x[i] != x[j] by {
            if i < j {
                assert(x[i].0@ != x[j].0@);
            } else {
                assert(x[j].0@ != x[i].0@);
            }
        }
    }
    x.lemma_multiset_has_no_duplicates();
    y.lemma_multiset_has_no_duplicates_conv();
    assert forall|i: int, j: int| 0 <= i < j < y.len() implies y[i].0@ != y[j].0@ by {
        if y[i].0@ == y[j].0@ {
            assert(y[i] != y[j]);
            assert(y.to_multiset().contains(y[i]));
            assert(y.to_multiset().contains(y[j]));
            assert(x.contains(y[i]));
            assert(x.contains(y[j]));
            let a = choose|a: int| 0 <= a < x.len() && x[a] == y[i];
            let b = choose|b: int| 0 <= b < x.len() && x[b] == y[j];
            assert(a != b);
            if a < b {
                assert(x[a].0@ != x[b].0@);
            } else {
                assert(x[b].0@ != x[a].0@);
            }
        }
    }
}

/// Law: registration order does not matter. Two registries that hold the
/// same entries under pairwise distinct names — however those entries were
/// ordered by registration — sort to the very same schema list, so the
/// built documents serialize identically.
pub proof fn lemma_registry_determinism<T>(
    r1: Seq<(String, T)>,
    r2: Seq<(String, T)>,
    d1: Seq<(String, T)>,
    d2: Seq<(String, T)>,
)
    requires
        distinct_entry_names(r1),
        r1.to_multiset() == r2.to_multiset(),
        entries_sorted(d1),
        d1.to_multiset() == r1.to_multiset(),
        entries_sorted(d2),
        d2.to_multiset() == r2.to_multiset(),
    ensures
        d1 =~= d2,
{
    lemma_perm_distinct_names(r1, d1);
    lemma_sorted_entries_unique(d1, d2);
}

} // verus!
