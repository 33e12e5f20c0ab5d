//! The claims of a table description: which clause claims which index, in
//! what order, and what follows from that for the table.
//!
//! A description is seen here as one sequence of indices for each clause. A
//! claim is a pair `(c, k)`: the `k`-th index of clause `c`. Claims are
//! ordered by clause, and within a clause by position.

use crate::pattern::IndexModel;
use vstd::prelude::*;

verus! {

/// `(c, k)` is a claim of `sets`.
pub open spec fn in_bounds(sets: Seq<Seq<IndexModel>>, c: int, k: int) -> bool {
    0 <= c < sets.len() && 0 <= k < sets[c].len()
}

/// The claim `(c2, k2)` comes before the claim `(c, k)`.
pub open spec fn precedes(c2: int, k2: int, c: int, k: int) -> bool {
    c2 < c || (c2 == c && k2 < k)
}

/// The index of the claim `(c, k)`.
pub open spec fn claim(sets: Seq<Seq<IndexModel>>, c: int, k: int) -> IndexModel {
    sets[c][k]
}

/// Some claim before `(c, k)` is for `index`.
pub open spec fn claimed_before(sets: Seq<Seq<IndexModel>>, index: IndexModel, c: int, k: int) -> bool {
    exists|c2: int, k2: int|
        in_bounds(sets, c2, k2) && precedes(c2, k2, c, k) && #[trigger] claim(sets, c2, k2) == index
}

/// Some claim is for `index`.
pub open spec fn claimed(sets: Seq<Seq<IndexModel>>, index: IndexModel) -> bool {
    claimed_before(sets, index, sets.len() as int, 0)
}

/// Clause `c` claims `index`.
pub open spec fn clause_claims(sets: Seq<Seq<IndexModel>>, c: int, index: IndexModel) -> bool {
    0 <= c < sets.len() && exists|k: int| 0 <= k < sets[c].len() && #[trigger] claim(sets, c, k) == index
}

/// The claim `(c, k)` is for an index that was claimed before it.
pub open spec fn repeats(sets: Seq<Seq<IndexModel>>, c: int, k: int) -> bool {
    claimed_before(sets, claim(sets, c, k), c, k)
}

/// Some claim of clause `c` is for an index that was claimed before it.
pub open spec fn clause_repeats(sets: Seq<Seq<IndexModel>>, c: int) -> bool {
    exists|k: int| 0 <= k < sets[c].len() && #[trigger] repeats(sets, c, k)
}

/// The first clause from `from` on with a claim that repeats an index.
pub open spec fn first_repeat_from(sets: Seq<Seq<IndexModel>>, from: int) -> Option<int>
    decreases sets.len() - from,
{
    if from < 0 || from >= sets.len() {
        None
    } else if clause_repeats(sets, from) {
        Some(from)
    } else {
        first_repeat_from(sets, from + 1)
    }
}

/// The first clause with a claim that repeats an index: the clause that is
/// blamed for a duplicate.
pub open spec fn first_repeat(sets: Seq<Seq<IndexModel>>) -> Option<int> {
    first_repeat_from(sets, 0)
}

/// No index is claimed twice.
pub open spec fn conflict_free(sets: Seq<Seq<IndexModel>>) -> bool {
    forall|c: int, k: int| in_bounds(sets, c, k) ==> !#[trigger] repeats(sets, c, k)
}

/// No clause claims anything.
pub open spec fn no_claims(sets: Seq<Seq<IndexModel>>) -> bool {
    forall|c: int| 0 <= c < sets.len() ==> (#[trigger] sets[c]).len() == 0
}

/// `m` is the largest known index that is claimed.
pub open spec fn is_max_index(sets: Seq<Seq<IndexModel>>, m: int) -> bool {
    &&& claimed(sets, IndexModel::Known(m))
    &&& forall|i: int| #[trigger] claimed(sets, IndexModel::Known(i)) ==> i <= m
}

/// The largest known index that is claimed, if any is.
pub open spec fn max_index(sets: Seq<Seq<IndexModel>>) -> Option<int> {
    if exists|m: int| is_max_index(sets, m) {
        Some(choose|m: int| is_max_index(sets, m))
    } else {
        None
    }
}

/// The length of the table: one more than the largest known index.
pub open spec fn table_len(sets: Seq<Seq<IndexModel>>) -> nat {
    match max_index(sets) {
        Some(m) => if m >= 0 {
            (m + 1) as nat
        } else {
            0
        },
        None => 0,
    }
}

/// A clause that claims `index`.
pub open spec fn claimant(sets: Seq<Seq<IndexModel>>, index: IndexModel) -> int {
    choose|c: int| clause_claims(sets, c, index)
}

/// What the table holds at position `i`: the value of the clause that claims
/// `i`, or nothing.
pub open spec fn slot_at<T>(sets: Seq<Seq<IndexModel>>, values: Seq<T>, i: int) -> Option<T> {
    if claimed(sets, IndexModel::Known(i)) {
        Some(values[claimant(sets, IndexModel::Known(i))])
    } else {
        None
    }
}

/// The table's positions from 0 to the largest known index.
pub open spec fn dense_slots<T>(sets: Seq<Seq<IndexModel>>, values: Seq<T>) -> Seq<Option<T>> {
    Seq::new(table_len(sets), |i: int| slot_at(sets, values, i))
}

/// The symbolic claims among the first `k` of one clause, each with the
/// clause's value.
pub open spec fn clause_stores<T>(set: Seq<IndexModel>, value: T, k: int) -> Seq<(Seq<char>, T)>
    decreases k,
{
    if k <= 0 || k > set.len() {
        Seq::empty()
    } else {
        match set[k - 1] {
            IndexModel::Symbolic(text) => clause_stores(set, value, k - 1).push((text, value)),
            IndexModel::Known(_) => clause_stores(set, value, k - 1),
        }
    }
}

/// The symbolic claims of the first `c` clauses in order, each with its
/// clause's value.
pub open spec fn stores_upto<T>(sets: Seq<Seq<IndexModel>>, values: Seq<T>, c: int) -> Seq<
    (Seq<char>, T),
>
    decreases c,
{
    if c <= 0 || c > sets.len() {
        Seq::empty()
    } else {
        stores_upto(sets, values, c - 1) + clause_stores(
            sets[c - 1],
            values[c - 1],
            sets[c - 1].len() as int,
        )
    }
}

/// All symbolic claims in order, each with its clause's value.
pub open spec fn all_stores<T>(sets: Seq<Seq<IndexModel>>, values: Seq<T>) -> Seq<(Seq<char>, T)> {
    stores_upto(sets, values, sets.len() as int)
}

/// One more claim has been passed: what was claimed before the next claim is
/// what was claimed before this one, and this one's index.
pub proof fn lemma_claimed_step(sets: Seq<Seq<IndexModel>>, index: IndexModel, c: int, k: int)
    requires
        in_bounds(sets, c, k),
    ensures
        claimed_before(sets, index, c, k + 1) <==> claimed_before(sets, index, c, k) || claim(
            sets,
            c,
            k,
        ) == index,
{
    if claimed_before(sets, index, c, k + 1) {
        let (c2, k2) = choose|c2: int, k2: int|
            in_bounds(sets, c2, k2) && precedes(c2, k2, c, k + 1) && #[trigger] claim(sets, c2, k2)
                == index;
        if !(c2 == c && k2 == k) {
            assert(precedes(c2, k2, c, k));
        }
    }
    if claimed_before(sets, index, c, k) {
        let (c2, k2) = choose|c2: int, k2: int|
            in_bounds(sets, c2, k2) && precedes(c2, k2, c, k) && #[trigger] claim(sets, c2, k2)
                == index;
        assert(precedes(c2, k2, c, k + 1));
    }
    if claim(sets, c, k) == index {
        assert(precedes(c, k, c, k + 1));
    }
}

/// A clause has been passed: what was claimed before its end is what is
/// claimed before the start of the next clause.
pub proof fn lemma_claimed_next_clause(sets: Seq<Seq<IndexModel>>, index: IndexModel, c: int)
    requires
        0 <= c < sets.len(),
    ensures
        claimed_before(sets, index, c, sets[c].len() as int) <==> claimed_before(
            sets,
            index,
            c + 1,
            0,
        ),
{
    let n = sets[c].len() as int;
    if claimed_before(sets, index, c, n) {
        let (c2, k2) = choose|c2: int, k2: int|
            in_bounds(sets, c2, k2) && precedes(c2, k2, c, n) && #[trigger] claim(sets, c2, k2)
                == index;
        assert(precedes(c2, k2, c + 1, 0));
    }
    if claimed_before(sets, index, c + 1, 0) {
        let (c2, k2) = choose|c2: int, k2: int|
            in_bounds(sets, c2, k2) && precedes(c2, k2, c + 1, 0) && #[trigger] claim(sets, c2, k2)
                == index;
        assert(precedes(c2, k2, c, n));
    }
}

/// An index is claimed exactly if some clause claims it.
pub proof fn lemma_claimed_by_clause(sets: Seq<Seq<IndexModel>>, index: IndexModel)
    ensures
        claimed(sets, index) <==> exists|c: int| clause_claims(sets, c, index),
        claimed(sets, index) ==> clause_claims(sets, claimant(sets, index), index),
{
    if claimed(sets, index) {
        let (c2, k2) = choose|c2: int, k2: int|
            in_bounds(sets, c2, k2) && precedes(c2, k2, sets.len() as int, 0) && #[trigger] claim(
                sets,
                c2,
                k2,
            ) == index;
        assert(clause_claims(sets, c2, index));
    }
    if exists|c: int| clause_claims(sets, c, index) {
        let c = choose|c: int| clause_claims(sets, c, index);
        let k = choose|k: int| 0 <= k < sets[c].len() && #[trigger] claim(sets, c, k) == index;
        assert(in_bounds(sets, c, k) && precedes(c, k, sets.len() as int, 0));
    }
}

/// What `first_repeat_from` finds is the first clause from `from` on that
/// repeats an index, and it finds one if there is one.
pub proof fn lemma_first_repeat_from(sets: Seq<Seq<IndexModel>>, from: int)
    requires
        0 <= from,
    ensures
        match first_repeat_from(sets, from) {
            Some(c) => from <= c < sets.len() && clause_repeats(sets, c) && forall|c2: int|
                from <= c2 < c ==> !#[trigger] clause_repeats(sets, c2),
            None => forall|c2: int| from <= c2 < sets.len() ==> !#[trigger] clause_repeats(sets, c2),
        },
    decreases sets.len() - from,
{
    if from < sets.len() && !clause_repeats(sets, from) {
        lemma_first_repeat_from(sets, from + 1);
    }
}

/// The first clause that repeats an index is the one that `first_repeat`
/// names.
pub proof fn lemma_first_repeat_is(sets: Seq<Seq<IndexModel>>, c: int)
    requires
        0 <= c < sets.len(),
        clause_repeats(sets, c),
        forall|c2: int| 0 <= c2 < c ==> !#[trigger] clause_repeats(sets, c2),
    ensures
        first_repeat(sets) == Some(c),
{
    lemma_first_repeat_from(sets, 0);
}

/// A description is free of conflicts exactly if `first_repeat` names no
/// clause.
pub proof fn lemma_conflict_free(sets: Seq<Seq<IndexModel>>)
    ensures
        conflict_free(sets) <==> first_repeat(sets) is None,
{
    lemma_first_repeat_from(sets, 0);
    if first_repeat(sets) is None {
        assert forall|c: int, k: int| in_bounds(sets, c, k) implies !#[trigger] repeats(sets, c, k) by {
            assert(!clause_repeats(sets, c));
        }
    }
}

/// In a description free of conflicts, two claims for the same index are
/// the same claim.
pub proof fn lemma_claims_distinct(sets: Seq<Seq<IndexModel>>, c: int, k: int, c2: int, k2: int)
    requires
        conflict_free(sets),
        in_bounds(sets, c, k),
        in_bounds(sets, c2, k2),
        claim(sets, c, k) == claim(sets, c2, k2),
    ensures
        c == c2 && k == k2,
{
    if precedes(c2, k2, c, k) {
        assert(repeats(sets, c, k));
    } else if precedes(c, k, c2, k2) {
        assert(repeats(sets, c2, k2));
    }
}

/// In a description free of conflicts, the clause that claims an index is
/// the only one that does.
pub proof fn lemma_claimant_unique(sets: Seq<Seq<IndexModel>>, c: int, index: IndexModel)
    requires
        conflict_free(sets),
        clause_claims(sets, c, index),
    ensures
        claimed(sets, index),
        claimant(sets, index) == c,
{
    lemma_claimed_by_clause(sets, index);
    let c2 = claimant(sets, index);
    let k = choose|k: int| 0 <= k < sets[c].len() && #[trigger] claim(sets, c, k) == index;
    let k2 = choose|k: int| 0 <= k < sets[c2].len() && #[trigger] claim(sets, c2, k) == index;
    lemma_claims_distinct(sets, c, k, c2, k2);
}

/// The largest claimed known index is the only one that is the largest.
pub proof fn lemma_max_index_is(sets: Seq<Seq<IndexModel>>, m: int)
    requires
        is_max_index(sets, m),
    ensures
        max_index(sets) == Some(m),
{
    let m2 = choose|m: int| is_max_index(sets, m);
    assert(m2 <= m && m <= m2);
}

/// Where no known index is claimed, there is no largest one.
pub proof fn lemma_max_index_none(sets: Seq<Seq<IndexModel>>)
    requires
        forall|i: int| !#[trigger] claimed(sets, IndexModel::Known(i)),
    ensures
        max_index(sets) is None,
{
}

/// The symbolic claims of a clause come with whatever the clause brings:
/// bringing `f(e)` in place of `e` changes them in that only.
pub proof fn lemma_clause_stores_map<E, T>(
    set: Seq<IndexModel>,
    entry: E,
    f: spec_fn(E) -> T,
    k: int,
)
    ensures
        clause_stores(set, f(entry), k).len() == clause_stores(set, entry, k).len(),
        forall|j: int|
            0 <= j < clause_stores(set, entry, k).len() ==> #[trigger] clause_stores(set, f(entry), k)[j]
                == (clause_stores(set, entry, k)[j].0, f(clause_stores(set, entry, k)[j].1)),
    decreases k,
{
    if k <= 0 || k > set.len() {
    } else {
        lemma_clause_stores_map(set, entry, f, k - 1);
    }
}

/// The symbolic claims of a description come with whatever the clauses
/// bring: bringing `f(e)` in place of `e` changes them in that only.
pub proof fn lemma_stores_map<E, T>(
    sets: Seq<Seq<IndexModel>>,
    entries: Seq<E>,
    values: Seq<T>,
    f: spec_fn(E) -> T,
    c: int,
)
    requires
        forall|c2: int| 0 <= c2 < sets.len() ==> #[trigger] values[c2] == f(entries[c2]),
    ensures
        stores_upto(sets, values, c).len() == stores_upto(sets, entries, c).len(),
        forall|j: int|
            0 <= j < stores_upto(sets, entries, c).len() ==> #[trigger] stores_upto(sets, values, c)[j]
                == (stores_upto(sets, entries, c)[j].0, f(stores_upto(sets, entries, c)[j].1)),
    decreases c,
{
    if c <= 0 || c > sets.len() {
    } else {
        lemma_stores_map(sets, entries, values, f, c - 1);
        lemma_clause_stores_map(sets[c - 1], entries[c - 1], f, sets[c - 1].len() as int);
    }
}

/// `m` is the largest known index among the claims before `(c, k)`.
pub open spec fn is_max_before(sets: Seq<Seq<IndexModel>>, m: int, c: int, k: int) -> bool {
    &&& claimed_before(sets, IndexModel::Known(m), c, k)
    &&& forall|i: int| #[trigger] claimed_before(sets, IndexModel::Known(i), c, k) ==> i <= m
}

/// Among the claims before `(c, k)` there is a largest known index, unless
/// none of them is for a known index.
pub proof fn lemma_max_before(sets: Seq<Seq<IndexModel>>, c: int, k: int)
    requires
        0 <= c <= sets.len(),
        0 <= k,
        c < sets.len() ==> k <= sets[c].len(),
        c == sets.len() ==> k == 0,
    ensures
        (exists|m: int| is_max_before(sets, m, c, k)) || (forall|i: int|
            !#[trigger] claimed_before(sets, IndexModel::Known(i), c, k)),
    decreases c, k,
{
    if k > 0 {
        let kp = k - 1;
        lemma_max_before(sets, c, kp);
        assert forall|index: IndexModel|
            #![trigger claimed_before(sets, index, c, k)]
            #![trigger claimed_before(sets, index, c, kp)]
            claimed_before(sets, index, c, k) <==> claimed_before(sets, index, c, kp) || claim(
                sets,
                c,
                kp,
            ) == index by {
            lemma_claimed_step(sets, index, c, kp);
        }
        match claim(sets, c, kp) {
            IndexModel::Known(i) => {
                if exists|m: int| is_max_before(sets, m, c, kp) {
                    let m = choose|m: int| is_max_before(sets, m, c, kp);
                    if i <= m {
                        assert(is_max_before(sets, m, c, k));
                    } else {
                        assert(is_max_before(sets, i, c, k));
                    }
                } else {
                    assert(is_max_before(sets, i, c, k));
                }
            },
            IndexModel::Symbolic(_) => {
                if exists|m: int| is_max_before(sets, m, c, kp) {
                    let m = choose|m: int| is_max_before(sets, m, c, kp);
                    assert(is_max_before(sets, m, c, k));
                }
            },
        }
    } else if c > 0 {
        let cp = c - 1;
        let n = sets[cp].len() as int;
        lemma_max_before(sets, cp, n);
        assert forall|index: IndexModel|
            #![trigger claimed_before(sets, index, c, 0)]
            #![trigger claimed_before(sets, index, cp, n)]
            claimed_before(sets, index, c, 0) <==> claimed_before(sets, index, cp, n) by {
            lemma_claimed_next_clause(sets, index, cp);
        }
        if exists|m: int| is_max_before(sets, m, cp, n) {
            let m = choose|m: int| is_max_before(sets, m, cp, n);
            assert(is_max_before(sets, m, c, 0));
        }
    }
}

/// Where a known index is claimed, there is a largest one, and no claimed
/// known index lies above it.
pub proof fn lemma_max_index_bounds(sets: Seq<Seq<IndexModel>>, i: int)
    requires
        claimed(sets, IndexModel::Known(i)),
    ensures
        max_index(sets) matches Some(m) && i <= m,
{
    lemma_max_before(sets, sets.len() as int, 0);
    let m = choose|m: int| is_max_before(sets, m, sets.len() as int, 0);
    assert(is_max_index(sets, m));
    lemma_max_index_is(sets, m);
}

} // verus!
