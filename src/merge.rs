//! The merge engine: how two coverage results of one file combine, and how
//! parsed results fold into the map of all results.

use std::collections::BTreeMap;
use vstd::prelude::*;
use vstd::std_specs::btree::spec_btree_map_iter;
use vstd::std_specs::iter::IteratorSpec;

use crate::defs::{CovModel, CovResult, CovResultMap, Function, FunctionMap};

verus! {

broadcast use vstd::std_specs::btree::group_btree_axioms;

/// The count of line `k`, zero where the line is absent.
pub open spec fn count_of(m: Map<u32, u64>, k: u32) -> int {
    if m.contains_key(k) {
        m[k] as int
    } else {
        0
    }
}

/// A sum of counts, held at `u64::MAX` where it would not fit.
pub open spec fn capped(n: int) -> u64 {
    if n > u64::MAX {
        u64::MAX
    } else {
        n as u64
    }
}

/// Every line of either map, with the sum of its counts.
pub open spec fn sum_lines(a: Map<u32, u64>, b: Map<u32, u64>) -> Map<u32, u64> {
    Map::new(
        |k: u32| a.contains_key(k) || b.contains_key(k),
        |k: u32| capped(count_of(a, k) + count_of(b, k)),
    )
}

/// No line's summed count exceeds `u64::MAX`.
pub open spec fn lines_fit(a: Map<u32, u64>, b: Map<u32, u64>) -> bool {
    forall|k: u32| a.contains_key(k) && b.contains_key(k) ==> a[k] + b[k] <= u64::MAX
}

/// Whether branch `k` was taken, false where it is absent.
pub open spec fn taken_of(m: Map<(u32, u32), bool>, k: (u32, u32)) -> bool {
    m.contains_key(k) && m[k]
}

/// Every branch of either map, taken if it was taken in either.
pub open spec fn or_branches(a: Map<(u32, u32), bool>, b: Map<(u32, u32), bool>) -> Map<
    (u32, u32),
    bool,
> {
    Map::new(
        |k: (u32, u32)| a.contains_key(k) || b.contains_key(k),
        |k: (u32, u32)| taken_of(a, k) || taken_of(b, k),
    )
}

/// Whether function `k` ran, false where it is absent.
pub open spec fn ran(m: Map<Seq<char>, Function>, k: Seq<char>) -> bool {
    m.contains_key(k) && m[k].executed
}

/// Every function of either map, executed if it was executed in either; the
/// start line is the first map's where it has the function.
pub open spec fn or_functions(a: Map<Seq<char>, Function>, b: Map<Seq<char>, Function>) -> Map<
    Seq<char>,
    Function,
> {
    Map::new(
        |k: Seq<char>| a.contains_key(k) || b.contains_key(k),
        |k: Seq<char>|
            Function {
                start: if a.contains_key(k) {
                    a[k].start
                } else {
                    b[k].start
                },
                executed: ran(a, k) || ran(b, k),
            },
    )
}

/// The merge of two coverage results.
pub open spec fn merged(a: CovModel, b: CovModel) -> CovModel {
    CovModel {
        lines: sum_lines(a.lines, b.lines),
        branches: or_branches(a.branches, b.branches),
        functions: or_functions(a.functions, b.functions),
    }
}

/// Whether line `k` is among the first `n` visited entries.
spec fn seen_key<V>(s: Seq<(&u32, &V)>, n: int, k: u32) -> bool {
    exists|j: int| 0 <= j < n && *s[j].0 == k
}

/// Adds the counts of `from` to those of `into`.
fn add_lines(into: &mut BTreeMap<u32, u64>, from: &BTreeMap<u32, u64>)
    ensures
        final(into)@ == sum_lines(old(into)@, from@),
{
    let ghost orig = into@;
    let iter0 = from.iter();
    let ghost s0 = iter0.remaining();
    assert(s0.no_duplicates());
    for kv in it: iter0
        invariant
            it.seq() == s0,
            s0.no_duplicates(),
            s0 == spec_btree_map_iter(from).remaining(),
            into@ == Map::new(
                |k: u32| orig.contains_key(k) || seen_key(s0, it.index() as int, k),
                |k: u32| capped(count_of(orig, k) + (if seen_key(s0, it.index() as int, k) { count_of(from@, k) } else { 0 })),
            ),
    {
        let (k, v) = kv;
        let ghost idx = it.index() as int;
        assert(s0[idx] == kv);
        assert(!seen_key(s0, idx, *k)) by {
            if seen_key(s0, idx, *k) {
                let j = choose|j: int| 0 <= j < idx && *s0[j].0 == *k;
                assert(from@[*s0[j].0] == *s0[j].1);
                assert(from@[*s0[idx].0] == *s0[idx].1);
                assert(s0[j] == s0[idx]);
            }
        }
        let cur: Option<u64> = match into.get(k) {
            Some(c) => Some(*c),
            None => None,
        };
        match cur {
            Some(c) => {
                let n: u64 = if c > u64::MAX - *v { u64::MAX } else { c + *v };
                into.insert(*k, n);
            },
            None => {
                into.insert(*k, *v);
            },
        }
        assert(into@ =~= Map::new(
                |q: u32| orig.contains_key(q) || seen_key(s0, idx + 1, q),
                |q: u32| capped(count_of(orig, q) + (if seen_key(s0, idx + 1, q) { count_of(from@, q) } else { 0 })),
            )) by {
            assert forall|q: u32| seen_key(s0, idx + 1, q) <==> (seen_key(s0, idx, q) || q == *k) by {
                if q == *k { assert(*s0[idx].0 == q); }
                if seen_key(s0, idx + 1, q) && q != *k {
                    let j = choose|j: int| 0 <= j < idx + 1 && *s0[j].0 == q;
                    assert(j < idx);
                }
            }
        }
    }
    assert(into@ =~= sum_lines(orig, from@)) by {
        assert forall|q: u32| from@.contains_key(q) implies seen_key(s0, s0.len() as int, q) by {
            assert(s0.contains((&q, &from@[q])));
            let j = choose|j: int| 0 <= j < s0.len() && s0[j] == (&q, &from@[q]);
            assert(*s0[j].0 == q);
        }
        assert forall|q: u32| seen_key(s0, s0.len() as int, q) implies from@.contains_key(q) by {
            let j = choose|j: int| 0 <= j < s0.len() && *s0[j].0 == q;
        }
    }
}

/// Whether branch `k` is among the first `n` visited entries.
spec fn seen_branch(s: Seq<(&(u32, u32), &bool)>, n: int, k: (u32, u32)) -> bool {
    exists|j: int| 0 <= j < n && *s[j].0 == k
}

/// Ors the flags of `from` into those of `into`.
fn add_branches(into: &mut BTreeMap<(u32, u32), bool>, from: &BTreeMap<(u32, u32), bool>)
    ensures
        final(into)@ == or_branches(old(into)@, from@),
{
    let ghost orig = into@;
    let iter0 = from.iter();
    let ghost s0 = iter0.remaining();
    for kv in it: iter0
        invariant
            it.seq() == s0,
            s0 == spec_btree_map_iter(from).remaining(),
            into@ == Map::new(
                |k: (u32, u32)| orig.contains_key(k) || seen_branch(s0, it.index() as int, k),
                |k: (u32, u32)| taken_of(orig, k) || (seen_branch(s0, it.index() as int, k) && taken_of(from@, k)),
            ),
    {
        let (k, v) = kv;
        let ghost idx = it.index() as int;
        assert(s0[idx] == kv);
        assert(from@[*s0[idx].0] == *s0[idx].1);
        let cur: bool = match into.get(k) {
            Some(c) => *c,
            None => false,
        };
        into.insert(*k, cur || *v);
        assert(into@ =~= Map::new(
                |q: (u32, u32)| orig.contains_key(q) || seen_branch(s0, idx + 1, q),
                |q: (u32, u32)| taken_of(orig, q) || (seen_branch(s0, idx + 1, q) && taken_of(from@, q)),
            )) by {
            assert forall|q: (u32, u32)| seen_branch(s0, idx + 1, q) <==> (seen_branch(s0, idx, q) || q == *k) by {
                if q == *k { assert(*s0[idx].0 == q); }
                if seen_branch(s0, idx + 1, q) && q != *k {
                    let j = choose|j: int| 0 <= j < idx + 1 && *s0[j].0 == q;
                    assert(j < idx);
                }
            }
        }
    }
    assert(into@ =~= or_branches(orig, from@)) by {
        assert forall|q: (u32, u32)| from@.contains_key(q) implies seen_branch(s0, s0.len() as int, q) by {
            assert(s0.contains((&q, &from@[q])));
            let j = choose|j: int| 0 <= j < s0.len() && s0[j] == (&q, &from@[q]);
            assert(*s0[j].0 == q);
        }
        assert forall|q: (u32, u32)| seen_branch(s0, s0.len() as int, q) implies from@.contains_key(q) by {
            let j = choose|j: int| 0 <= j < s0.len() && *s0[j].0 == q;
        }
    }
}

/// Whether function `k` is among the first `n` entries of `m`.
spec fn seen_name(m: FunctionMap, n: int, k: Seq<char>) -> bool {
    exists|j: int| 0 <= j < n && m.key_at(j) == k
}

/// Ors the executed flags of `from` into those of `into`.
fn add_functions(into: &mut FunctionMap, from: &FunctionMap)
    ensures
        final(into)@ == or_functions(old(into)@, from@),
{
    let ghost orig = into@;
    let n = from.len();
    let mut i: usize = 0;
    while i < n
        invariant
            i <= n,
            n == from.spec_len(),
            forall|k: Seq<char>|
                #![trigger from@.contains_key(k)]
                from@.contains_key(k) <==> exists|j: int| 0 <= j < from.spec_len() && from.key_at(j) == k,
            forall|j: int|
                #![trigger from.key_at(j)]
                0 <= j < from.spec_len() ==> from@.contains_key(from.key_at(j))
                    && from@[from.key_at(j)] == from.value_at(j),
            into@ == Map::new(
                |k: Seq<char>| orig.contains_key(k) || seen_name(*from, i as int, k),
                |k: Seq<char>|
                    Function {
                        start: if orig.contains_key(k) { orig[k].start } else { from@[k].start },
                        executed: ran(orig, k) || ((seen_name(*from, i as int, k)) && ran(from@, k)),
                    },
            ),
        decreases n - i,
    {
        let (k, f) = from.entry(i);
        let ghost kk = from.key_at(i as int);
        assert(from@.contains_key(kk));
        let next = match into.get(k.as_str()) {
            Some(g) => Function { start: g.start, executed: g.executed || f.executed },
            None => *f,
        };
        into.insert(k.clone(), next);
        i = i + 1;
        assert(into@ =~= Map::new(
                |q: Seq<char>| orig.contains_key(q) || seen_name(*from, i as int, q),
                |q: Seq<char>|
                    Function {
                        start: if orig.contains_key(q) { orig[q].start } else { from@[q].start },
                        executed: ran(orig, q) || ((seen_name(*from, i as int, q)) && ran(from@, q)),
                    },
            )) by {
            assert forall|q: Seq<char>| (seen_name(*from, i as int, q)) <==> ((seen_name(*from, i - 1, q)) || q == kk) by {
                if q == kk { assert(from.key_at(i - 1) == q); }
                if seen_name(*from, i as int, q) && q != kk {
                    let j = choose|j: int| 0 <= j < i && from.key_at(j) == q;
                    assert(j < i - 1);
                }
            }
        }
    }
    assert(into@ =~= or_functions(orig, from@));
}

/// Merges `result2` into `result`: line counts are summed, branch and
/// function flags are or-ed, and a function keeps the start line it had in
/// `result`.
pub fn merge_results(result: &mut CovResult, result2: &CovResult)
    ensures
        final(result)@ == merged(old(result)@, result2@),
{
    add_lines(&mut result.lines, &result2.lines);
    add_branches(&mut result.branches, &result2.branches);
    add_functions(&mut result.functions, &result2.functions);
}

/// A result with no lines, branches or functions.
pub open spec fn empty_model() -> CovModel {
    CovModel { lines: Map::empty(), branches: Map::empty(), functions: Map::empty() }
}

/// The content of a map of results.
pub open spec fn models(m: Map<Seq<char>, CovResult>) -> Map<Seq<char>, CovModel> {
    m.map_values(|r: CovResult| r@)
}

/// `m` after folding in each (key, result) of `s` in turn: a result under a
/// new key is inserted, one under a present key is merged into it.
pub open spec fn fold_results(m: Map<Seq<char>, CovModel>, s: Seq<(Seq<char>, CovModel)>) -> Map<
    Seq<char>,
    CovModel,
>
    decreases s.len(),
{
    if s.len() == 0 {
        m
    } else {
        let prev = fold_results(m, s.drop_last());
        let k = s.last().0;
        let r = s.last().1;
        prev.insert(
            k,
            if prev.contains_key(k) {
                merged(prev[k], r)
            } else {
                r
            },
        )
    }
}

/// The (key, content) pairs of a list of results.
pub open spec fn keyed_models(s: Seq<(String, CovResult)>) -> Seq<(Seq<char>, CovModel)> {
    s.map_values(|e: (String, CovResult)| (e.0@, e.1@))
}

/// Folds parsed results into the map of all results, merging those whose
/// key is already present.
pub fn add_results(results: Vec<(String, CovResult)>, result_map: &mut CovResultMap)
    ensures
        models(final(result_map)@) == fold_results(models(old(result_map)@), keyed_models(results@)),
{
    let ghost orig = models(result_map@);
    let ghost all = keyed_models(results@);
    for e in it: results
        invariant
            all == it.seq().map_values(|e: (String, CovResult)| (e.0@, e.1@)),
            models(result_map@) == fold_results(orig, all.take(it.index() as int)),
    {
        let ghost idx = it.index() as int;
        let (k, r) = e;
        let ghost before = models(result_map@);
        match result_map.insert(k.clone(), CovResult::new()) {
            Some(prev) => {
                let mut prev = prev;
                merge_results(&mut prev, &r);
                result_map.insert(k, prev);
            },
            None => {
                result_map.insert(k, r);
            },
        }
        proof {
            assert(all.take(idx + 1).drop_last() == all.take(idx));
            assert(all[idx] == (k@, r@));
            assert(models(result_map@) =~= fold_results(orig, all.take(idx + 1)));
        }
    }
    proof {
        assert(all.take(all.len() as int) == all);
    }
}

/// Merging accumulates: where no count overflows, each line's count is the
/// sum of its counts in both results (zero where absent), each branch and
/// each function flag is the or of its flags in both, and no key of either
/// result is lost.
pub proof fn lemma_merge_accumulates(a: CovModel, b: CovModel)
    requires
        lines_fit(a.lines, b.lines),
    ensures
        forall|k: u32|
            #![trigger merged(a, b).lines.contains_key(k)]
            merged(a, b).lines.contains_key(k) <==> (a.lines.contains_key(k) || b.lines.contains_key(k)),
        forall|k: u32|
            #![trigger merged(a, b).lines[k]]
            a.lines.contains_key(k) || b.lines.contains_key(k) ==> merged(a, b).lines[k] as int
                == count_of(a.lines, k) + count_of(b.lines, k),
        forall|k: (u32, u32)|
            #![trigger merged(a, b).branches.contains_key(k)]
            merged(a, b).branches.contains_key(k) <==> (a.branches.contains_key(k)
                || b.branches.contains_key(k)),
        forall|k: (u32, u32)|
            #![trigger merged(a, b).branches[k]]
            a.branches.contains_key(k) || b.branches.contains_key(k) ==> merged(a, b).branches[k]
                == (taken_of(a.branches, k) || taken_of(b.branches, k)),
        forall|k: Seq<char>|
            #![trigger merged(a, b).functions.contains_key(k)]
            merged(a, b).functions.contains_key(k) <==> (a.functions.contains_key(k)
                || b.functions.contains_key(k)),
        forall|k: Seq<char>|
            #![trigger merged(a, b).functions[k]]
            a.functions.contains_key(k) || b.functions.contains_key(k)
                ==> merged(a, b).functions[k].executed == (ran(a.functions, k) || ran(b.functions, k)),
{
}

/// Merging with an empty result, on either side, changes nothing.
pub proof fn lemma_merge_empty(a: CovModel)
    ensures
        merged(a, empty_model()) == a,
        merged(empty_model(), a) == a,
{
    assert(merged(a, empty_model()).lines =~= a.lines);
    assert(merged(a, empty_model()).branches =~= a.branches);
    assert(merged(a, empty_model()).functions =~= a.functions);
    assert(merged(empty_model(), a).lines =~= a.lines);
    assert(merged(empty_model(), a).branches =~= a.branches);
    assert(merged(empty_model(), a).functions =~= a.functions);
}

/// Merging commutes on the summed and or-ed fields: the same lines with the
/// same counts, the same branches with the same flags, and the same
/// functions with the same executed flags, whichever result comes first.
pub proof fn lemma_merge_commutes(a: CovModel, b: CovModel)
    ensures
        merged(a, b).lines == merged(b, a).lines,
        merged(a, b).branches == merged(b, a).branches,
        merged(a, b).functions.dom() == merged(b, a).functions.dom(),
        forall|k: Seq<char>|
            #![trigger merged(a, b).functions[k]]
            merged(a, b).functions.contains_key(k) ==> merged(a, b).functions[k].executed
                == merged(b, a).functions[k].executed,
{
    assert(merged(a, b).lines =~= merged(b, a).lines);
    assert(merged(a, b).branches =~= merged(b, a).branches);
    assert(merged(a, b).functions.dom() =~= merged(b, a).functions.dom());
}

/// Merging is associative.
pub proof fn lemma_merge_associates(a: CovModel, b: CovModel, c: CovModel)
    ensures
        merged(merged(a, b), c) == merged(a, merged(b, c)),
{
    let l = merged(merged(a, b), c);
    let r = merged(a, merged(b, c));
    assert(l.lines =~= r.lines);
    assert(l.branches =~= r.branches);
    assert(l.functions =~= r.functions);
}

/// Results under different keys never interact: folding in results none of
/// which is under `k` leaves the map at `k` as it was.
pub proof fn lemma_fold_isolates_keys(m: Map<Seq<char>, CovModel>, s: Seq<(Seq<char>, CovModel)>, k: Seq<char>)
    requires
        forall|i: int| 0 <= i < s.len() ==> (#[trigger] s[i]).0 != k,
    ensures
        fold_results(m, s).contains_key(k) == m.contains_key(k),
        m.contains_key(k) ==> fold_results(m, s)[k] == m[k],
    decreases s.len(),
{
    if s.len() > 0 {
        assert(s.last() == s[s.len() - 1]);
        lemma_fold_isolates_keys(m, s.drop_last(), k);
    }
}

/// A result with its start lines forgotten: the summed and or-ed fields alone.
pub open spec fn erase(c: CovModel) -> CovModel {
    CovModel {
        lines: c.lines,
        branches: c.branches,
        functions: Map::new(
            |k: Seq<char>| c.functions.contains_key(k),
            |k: Seq<char>| Function { start: 0, executed: c.functions[k].executed },
        ),
    }
}

/// A map of results with their start lines forgotten.
pub open spec fn erased(m: Map<Seq<char>, CovModel>) -> Map<Seq<char>, CovModel> {
    m.map_values(|c: CovModel| erase(c))
}

/// The result under `k`, empty where there is none.
pub open spec fn base_of(m: Map<Seq<char>, CovModel>, k: Seq<char>) -> CovModel {
    if m.contains_key(k) {
        m[k]
    } else {
        empty_model()
    }
}

/// The merge, in order, of the results of `s` under `k`.
pub open spec fn total_of(s: Seq<(Seq<char>, CovModel)>, k: Seq<char>) -> CovModel
    decreases s.len(),
{
    if s.len() == 0 {
        empty_model()
    } else if s.last().0 == k {
        merged(total_of(s.drop_last(), k), s.last().1)
    } else {
        total_of(s.drop_last(), k)
    }
}

proof fn lemma_total_none(s: Seq<(Seq<char>, CovModel)>, k: Seq<char>)
    requires
        forall|i: int| 0 <= i < s.len() ==> (#[trigger] s[i]).0 != k,
    ensures
        total_of(s, k) == empty_model(),
    decreases s.len(),
{
    if s.len() > 0 {
        assert(s.last() == s[s.len() - 1]);
        lemma_total_none(s.drop_last(), k);
    }
}

/// What folding does under one key: the key is present when it was or when
/// a folded result has it, and its result is the one it had merged with
/// those results, in order.
proof fn lemma_fold_at(m: Map<Seq<char>, CovModel>, s: Seq<(Seq<char>, CovModel)>, k: Seq<char>)
    ensures
        fold_results(m, s).contains_key(k) == (m.contains_key(k) || exists|i: int| 0 <= i < s.len() && s[i].0 == k),
        fold_results(m, s).contains_key(k) ==> fold_results(m, s)[k] == merged(base_of(m, k), total_of(s, k)),
        base_of(fold_results(m, s), k) == merged(base_of(m, k), total_of(s, k)),
    decreases s.len(),
{
    if s.len() == 0 {
        lemma_merge_empty(base_of(m, k));
    } else {
        let t = s.drop_last();
        lemma_fold_at(m, t, k);
        let prev = fold_results(m, t);
        let r = s.last().1;
        if s.last().0 == k {
            lemma_merge_associates(base_of(m, k), total_of(t, k), r);
            if !prev.contains_key(k) {
                assert forall|i: int| 0 <= i < t.len() implies (#[trigger] t[i]).0 != k by {
                    if t[i].0 == k {
                        assert(exists|j: int| 0 <= j < t.len() && t[j].0 == k);
                    }
                }
                lemma_total_none(t, k);
                lemma_merge_empty(r);
                lemma_merge_empty(empty_model());
            }
            assert(s[s.len() - 1].0 == k);
        } else {
            if exists|i: int| 0 <= i < s.len() && s[i].0 == k {
                let i = choose|i: int| 0 <= i < s.len() && s[i].0 == k;
                assert(t[i].0 == k);
            }
            if exists|i: int| 0 <= i < t.len() && t[i].0 == k {
                let i = choose|i: int| 0 <= i < t.len() && t[i].0 == k;
                assert(s[i].0 == k);
            }
        }
        if !fold_results(m, s).contains_key(k) {
            assert forall|i: int| 0 <= i < s.len() implies (#[trigger] s[i]).0 != k by {
                if s[i].0 == k {
                    assert(exists|j: int| 0 <= j < s.len() && s[j].0 == k);
                }
            }
            lemma_total_none(s, k);
            lemma_merge_empty(empty_model());
        }
    }
}

proof fn lemma_erase_commutes(a: CovModel, b: CovModel)
    ensures
        erase(merged(a, b)) == erase(merged(b, a)),
{
    lemma_merge_commutes(a, b);
    assert(erase(merged(a, b)).functions =~= erase(merged(b, a)).functions);
}

proof fn lemma_erase_dom(c: CovModel)
    ensures
        erase(c).functions.dom() == c.functions.dom(),
        forall|k: Seq<char>| c.functions.contains_key(k) ==> (#[trigger] erase(c).functions[k]).executed
            == c.functions[k].executed,
{
    assert(erase(c).functions.dom() =~= c.functions.dom());
}

proof fn lemma_erase_congruent(a: CovModel, a2: CovModel, b: CovModel, b2: CovModel)
    requires
        erase(a) == erase(a2),
        erase(b) == erase(b2),
    ensures
        erase(merged(a, b)) == erase(merged(a2, b2)),
{
    lemma_erase_dom(a);
    lemma_erase_dom(a2);
    lemma_erase_dom(b);
    lemma_erase_dom(b2);
    assert forall|k: Seq<char>| ran(a.functions, k) == ran(a2.functions, k) by {
        if a.functions.contains_key(k) {
            assert(erase(a).functions[k] == erase(a2).functions[k]);
            assert(erase(a).functions[k].executed == a.functions[k].executed);
            assert(erase(a2).functions[k].executed == a2.functions[k].executed);
        }
    }
    assert forall|k: Seq<char>| ran(b.functions, k) == ran(b2.functions, k) by {
        if b.functions.contains_key(k) {
            assert(erase(b).functions[k] == erase(b2).functions[k]);
            assert(erase(b).functions[k].executed == b.functions[k].executed);
            assert(erase(b2).functions[k].executed == b2.functions[k].executed);
        }
    }
    assert(erase(a).lines == erase(a2).lines);
    assert(erase(b).lines == erase(b2).lines);
    assert(erase(a).branches == erase(a2).branches);
    assert(erase(b).branches == erase(b2).branches);
    assert(merged(a, b).lines =~= merged(a2, b2).lines);
    assert(merged(a, b).branches =~= merged(a2, b2).branches);
    assert(erase(merged(a, b)).functions =~= erase(merged(a2, b2)).functions);
}

/// The aggregate does not depend on the order of the inputs: folding two
/// lists of results in either order gives the same keys and, under each
/// key, the same line counts, branch flags, functions and executed flags.
pub proof fn lemma_fold_order_irrelevant(
    m: Map<Seq<char>, CovModel>,
    r1: Seq<(Seq<char>, CovModel)>,
    r2: Seq<(Seq<char>, CovModel)>,
)
    ensures
        erased(fold_results(fold_results(m, r1), r2)) == erased(fold_results(fold_results(m, r2), r1)),
{
    let f1 = fold_results(fold_results(m, r1), r2);
    let f2 = fold_results(fold_results(m, r2), r1);
    assert forall|k: Seq<char>| f1.contains_key(k) == f2.contains_key(k) && (f1.contains_key(k) ==> erase(f1[k]) == erase(f2[k])) by {
        lemma_fold_at(m, r1, k);
        lemma_fold_at(m, r2, k);
        lemma_fold_at(fold_results(m, r1), r2, k);
        lemma_fold_at(fold_results(m, r2), r1, k);
        let b = base_of(m, k);
        let t1 = total_of(r1, k);
        let t2 = total_of(r2, k);
        lemma_merge_associates(b, t1, t2);
        lemma_merge_associates(b, t2, t1);
        lemma_erase_commutes(t1, t2);
        lemma_erase_congruent(b, b, merged(t1, t2), merged(t2, t1));
    }
    assert(erased(f1) =~= erased(f2));
}

} // verus!
