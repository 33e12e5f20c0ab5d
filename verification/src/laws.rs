//! What holds of every compilation.

use crate::claims::{
    claim, claimant, claimed, clause_claims, clause_repeats, conflict_free, first_repeat, in_bounds,
    is_max_index, lemma_claimant_unique, lemma_claimed_by_clause, lemma_claims_distinct,
    lemma_conflict_free, lemma_first_repeat_from, lemma_max_index_bounds, lemma_max_index_is,
    max_index, no_claims,
    precedes, repeats, slot_at, table_len,
};
use crate::clause::{first_malformed, index_sets, lemma_first_malformed_from, values_of, ClauseModel};
use crate::compile::{default_outcome, optional_outcome, outcome};
use crate::error::{message_text, CompileErrorModel};
use crate::pattern::{all_placeable, lemma_resolve_placeable, placeable, resolve, IndexModel};
use crate::table::{default_rendering, optional_rendering};
use vstd::prelude::*;

verus! {

/// A valid description has no malformed pattern, claims something, and
/// claims nothing twice; every known index it claims is a natural number.
pub proof fn lemma_valid<T>(clauses: Seq<ClauseModel<T>>)
    requires
        outcome(clauses) is Ok,
    ensures
        first_malformed(clauses) is None,
        !no_claims(index_sets(clauses)),
        conflict_free(index_sets(clauses)),
        forall|c: int|
            0 <= c < clauses.len() ==> (#[trigger] resolve(clauses[c].pattern)) is Ok && all_placeable(
                index_sets(clauses)[c],
            ),
        max_index(index_sets(clauses)) matches Some(m) ==> 0 <= m,
{
    let sets = index_sets(clauses);
    lemma_conflict_free(sets);
    lemma_first_malformed_from(clauses, 0);
    assert forall|c: int| 0 <= c < clauses.len() implies (#[trigger] resolve(clauses[c].pattern)) is Ok
        && all_placeable(sets[c]) by {
        lemma_resolve_placeable(clauses[c].pattern);
    }
    if let Some(m) = max_index(sets) {
        assert(is_max_index(sets, m));
        let (c, k) = choose|c: int, k: int|
            in_bounds(sets, c, k) && precedes(c, k, sets.len() as int, 0) && #[trigger] claim(sets, c, k)
                == IndexModel::Known(m);
        assert(resolve(clauses[c].pattern) is Ok);
        assert(placeable(sets[c][k]));
    }
}

/// Coverage. The table of a valid description has the positions from 0 to
/// the largest known index that is claimed. A position holds a value exactly
/// if some clause claims it; only one clause does, and the value is that
/// clause's.
pub proof fn lemma_coverage<T>(clauses: Seq<ClauseModel<T>>, i: int)
    requires
        outcome(clauses) is Ok,
    ensures
        ({
            let table = outcome(clauses)->Ok_0;
            let sets = index_sets(clauses);
            &&& 0 <= i < table.slots.len() <==> (max_index(sets) matches Some(m) && 0 <= i <= m)
            &&& 0 <= i < table.slots.len() ==> {
                &&& table.slots[i] is Some <==> exists|c: int|
                    clause_claims(sets, c, IndexModel::Known(i))
                &&& forall|c: int| #[trigger]
                    clause_claims(sets, c, IndexModel::Known(i)) ==> table.slots[i] == Some(
                        clauses[c].value,
                    )
                &&& forall|c: int, c2: int|
                    #![trigger
                        clause_claims(sets, c, IndexModel::Known(i)),
                        clause_claims(sets, c2, IndexModel::Known(i)),
                    ]
                    clause_claims(sets, c, IndexModel::Known(i)) && clause_claims(
                        sets,
                        c2,
                        IndexModel::Known(i),
                    ) ==> c == c2
            }
        }),
{
    let table = outcome(clauses)->Ok_0;
    let sets = index_sets(clauses);
    let index = IndexModel::Known(i);
    lemma_valid(clauses);
    lemma_claimed_by_clause(sets, index);
    if 0 <= i < table.slots.len() {
        assert(table.slots[i] == slot_at(sets, values_of(clauses), i));
        assert forall|c: int| #[trigger] clause_claims(sets, c, index) implies table.slots[i] == Some(
            clauses[c].value,
        ) && claimant(sets, index) == c by {
            lemma_claimant_unique(sets, c, index);
        }
    }
}

/// Every claim has its place. In the table of a valid description, a known
/// index that a clause claims is a position of the table, and the position
/// holds that clause's value.
pub proof fn lemma_claims_inside<T>(clauses: Seq<ClauseModel<T>>, c: int, k: int)
    requires
        outcome(clauses) is Ok,
        in_bounds(index_sets(clauses), c, k),
        claim(index_sets(clauses), c, k) is Known,
    ensures
        ({
            let i = claim(index_sets(clauses), c, k)->Known_0;
            let table = outcome(clauses)->Ok_0;
            0 <= i < table.slots.len() && table.slots[i] == Some(clauses[c].value)
        }),
{
    let sets = index_sets(clauses);
    let i = claim(sets, c, k)->Known_0;
    let index = IndexModel::Known(i);
    lemma_valid(clauses);
    assert(resolve(clauses[c].pattern) is Ok);
    assert(placeable(sets[c][k]));
    assert(clause_claims(sets, c, index));
    lemma_claimant_unique(sets, c, index);
    lemma_max_index_bounds(sets, i);
    lemma_coverage(clauses, i);
}

/// Determinism. Two descriptions with the same clauses in the same order
/// compile to the same table under either policy, or fail with the same
/// error and the same message.
pub proof fn lemma_deterministic<T>(
    first: Seq<ClauseModel<T>>,
    second: Seq<ClauseModel<T>>,
    default: Option<T>,
)
    requires
        first.len() == second.len(),
        forall|c: int| 0 <= c < first.len() ==> first[c] == second[c],
    ensures
        outcome(first) == outcome(second),
        optional_outcome(first) == optional_outcome(second),
        default_outcome(first, default) == default_outcome(second, default),
        outcome(first) matches Err(e) ==> outcome(second) is Err && message_text(e) == message_text(
            outcome(second)->Err_0,
        ),
{
    assert(first =~= second);
}

/// Duplicate detection. Where every pattern resolves and two different
/// claims, of two clauses or of one, are for the same index, the compilation
/// fails under either policy with a duplicate key. The clause that is blamed
/// is the first that claims an index anew; it is not later than the later of
/// the two.
pub proof fn lemma_overlap_rejected<T>(
    clauses: Seq<ClauseModel<T>>,
    c1: int,
    k1: int,
    c2: int,
    k2: int,
    default: Option<T>,
)
    requires
        first_malformed(clauses) is None,
        in_bounds(index_sets(clauses), c1, k1),
        in_bounds(index_sets(clauses), c2, k2),
        precedes(c1, k1, c2, k2),
        claim(index_sets(clauses), c1, k1) == claim(index_sets(clauses), c2, k2),
    ensures
        first_repeat(index_sets(clauses)) matches Some(c) && 0 <= c <= c2 && outcome(clauses) is Err
            && outcome(clauses)->Err_0 == (CompileErrorModel::DuplicateKey {
            ordinal: c + 1,
            pattern: clauses[c].source_label,
        }),
        optional_outcome(clauses) matches Err(e) && e is DuplicateKey,
        default_outcome(clauses, default) matches Err(e) && e is DuplicateKey,
{
    let sets = index_sets(clauses);
    assert(repeats(sets, c2, k2));
    assert(clause_repeats(sets, c2));
    lemma_first_repeat_from(sets, 0);
    assert(sets[c1].len() > 0);
}

/// A description is refused as empty exactly if every pattern resolves and
/// no clause claims an index: a range without integers is no fault unless
/// nothing else is claimed.
pub proof fn lemma_empty_specification<T>(clauses: Seq<ClauseModel<T>>)
    ensures
        (outcome(clauses) matches Err(e) && e is EmptySpecification) <==> (first_malformed(clauses) is None
            && no_claims(index_sets(clauses))),
{
}

/// `c` occurs in `order`.
pub open spec fn occurs(order: Seq<int>, c: int) -> bool {
    exists|j: int| 0 <= j < order.len() && #[trigger] order[j] == c
}

/// `reordered` holds the clauses of `clauses` in another order: its `j`-th
/// clause is the clause `order[j]` of `clauses`, and `order` names every
/// clause once.
pub open spec fn is_reordering<T>(
    order: Seq<int>,
    clauses: Seq<ClauseModel<T>>,
    reordered: Seq<ClauseModel<T>>,
) -> bool {
    &&& order.len() == clauses.len()
    &&& reordered.len() == clauses.len()
    &&& forall|j: int| 0 <= j < order.len() ==> 0 <= #[trigger] order[j] < clauses.len()
    &&& forall|j: int| 0 <= j < order.len() ==> #[trigger] reordered[j] == clauses[order[j]]
    &&& forall|j: int, j2: int|
        0 <= j < j2 < order.len() ==> #[trigger] order[j] != #[trigger] order[j2]
    &&& forall|c: int| 0 <= c < clauses.len() ==> #[trigger] occurs(order, c)
}

/// A reordering claims what the description claims.
proof fn lemma_reordering_claims<T>(
    order: Seq<int>,
    clauses: Seq<ClauseModel<T>>,
    reordered: Seq<ClauseModel<T>>,
    index: IndexModel,
)
    requires
        is_reordering(order, clauses, reordered),
    ensures
        forall|j: int|
            0 <= j < order.len() ==> (#[trigger] clause_claims(index_sets(reordered), j, index)
                <==> clause_claims(index_sets(clauses), order[j], index)),
        claimed(index_sets(reordered), index) <==> claimed(index_sets(clauses), index),
{
    let a = index_sets(clauses);
    let b = index_sets(reordered);
    assert forall|j: int| 0 <= j < order.len() implies (#[trigger] clause_claims(b, j, index)
        <==> clause_claims(a, order[j], index)) by {
        assert(reordered[j] == clauses[order[j]]);
        assert(b[j] == a[order[j]]);
        if clause_claims(b, j, index) {
            let k = choose|k: int| 0 <= k < b[j].len() && #[trigger] claim(b, j, k) == index;
            assert(claim(a, order[j], k) == index);
        }
        if clause_claims(a, order[j], index) {
            let k = choose|k: int| 0 <= k < a[order[j]].len() && #[trigger] claim(a, order[j], k) == index;
            assert(claim(b, j, k) == index);
        }
    }
    lemma_claimed_by_clause(a, index);
    lemma_claimed_by_clause(b, index);
    if claimed(b, index) {
        let j = choose|j: int| clause_claims(b, j, index);
        assert(clause_claims(a, order[j], index));
    }
    if claimed(a, index) {
        let c = choose|c: int| clause_claims(a, c, index);
        assert(occurs(order, c));
        let j = choose|j: int| 0 <= j < order.len() && #[trigger] order[j] == c;
        assert(clause_claims(b, j, index));
    }
}

/// Default-filling does not depend on the order of the clauses. A
/// reordering of a valid description is valid, and its table has the same
/// positions with the same values: under either policy the two tables agree
/// position by position, and a position that no clause claims is absent
/// under the optional policy and the default under the value-default policy.
pub proof fn lemma_order_independent<T>(
    order: Seq<int>,
    clauses: Seq<ClauseModel<T>>,
    reordered: Seq<ClauseModel<T>>,
    default: T,
)
    requires
        outcome(clauses) is Ok,
        is_reordering(order, clauses, reordered),
    ensures
        outcome(reordered) is Ok,
        outcome(reordered)->Ok_0.slots == outcome(clauses)->Ok_0.slots,
        optional_rendering(outcome(reordered)->Ok_0).slots == optional_rendering(
            outcome(clauses)->Ok_0,
        ).slots,
        default_rendering(outcome(reordered)->Ok_0, default).slots == default_rendering(
            outcome(clauses)->Ok_0,
            default,
        ).slots,
        forall|i: int|
            0 <= i < outcome(clauses)->Ok_0.slots.len() && !#[trigger] claimed(
                index_sets(clauses),
                IndexModel::Known(i),
            ) ==> optional_rendering(outcome(clauses)->Ok_0).slots[i] is None && default_rendering(
                outcome(clauses)->Ok_0,
                default,
            ).slots[i] == default,
{
    let a = index_sets(clauses);
    let b = index_sets(reordered);
    lemma_valid(clauses);
    assert forall|j: int| 0 <= j < order.len() implies #[trigger] b[j] == a[order[j]] by {
        assert(reordered[j] == clauses[order[j]]);
    }
    // No pattern of the reordering is malformed.
    lemma_first_malformed_from(reordered, 0);
    if let Some(j) = first_malformed(reordered) {
        assert(reordered[j] == clauses[order[j]]);
        assert(resolve(clauses[order[j]].pattern) is Ok);
    }
    // The reordering claims something.
    let c0 = choose|c: int| 0 <= c < a.len() && (#[trigger] a[c]).len() > 0;
    assert(occurs(order, c0));
    let j0 = choose|j: int| 0 <= j < order.len() && #[trigger] order[j] == c0;
    assert(b[j0].len() > 0);
    // The reordering claims nothing twice.
    assert forall|j: int, k: int| in_bounds(b, j, k) implies !#[trigger] repeats(b, j, k) by {
        if repeats(b, j, k) {
            let (j2, k2) = choose|j2: int, k2: int|
                in_bounds(b, j2, k2) && precedes(j2, k2, j, k) && #[trigger] claim(b, j2, k2) == claim(
                    b,
                    j,
                    k,
                );
            assert(b[j] == a[order[j]]);
            assert(b[j2] == a[order[j2]]);
            assert(claim(a, order[j], k) == claim(a, order[j2], k2));
            lemma_claims_distinct(a, order[j], k, order[j2], k2);
        }
    }
    lemma_conflict_free(b);
    // Both claim the same indices, so both tables have the same length.
    assert forall|index: IndexModel|
        #![trigger claimed(b, index)]
        #![trigger claimed(a, index)]
        claimed(b, index) <==> claimed(a, index) by {
        lemma_reordering_claims(order, clauses, reordered, index);
    }
    if let Some(m) = max_index(a) {
        assert(is_max_index(a, m));
        assert(is_max_index(b, m));
        lemma_max_index_is(b, m);
    } else {
        if let Some(m) = max_index(b) {
            assert(is_max_index(b, m));
            assert(is_max_index(a, m));
            lemma_max_index_is(a, m);
        }
    }
    assert(table_len(a) == table_len(b));
    // Each position holds the value of the one clause that claims it.
    let slots_a = outcome(clauses)->Ok_0.slots;
    let slots_b = outcome(reordered)->Ok_0.slots;
    assert forall|i: int| 0 <= i < slots_a.len() implies slots_a[i] == slots_b[i] by {
        let index = IndexModel::Known(i);
        assert(claimed(b, index) <==> claimed(a, index));
        if claimed(a, index) {
            lemma_claimed_by_clause(b, index);
            lemma_reordering_claims(order, clauses, reordered, index);
            let j = claimant(b, index);
            assert(clause_claims(b, j, index));
            assert(clause_claims(a, order[j], index));
            lemma_claimant_unique(a, order[j], index);
            assert(reordered[j] == clauses[order[j]]);
        }
    }
    assert(slots_a =~= slots_b);
    assert(default_rendering(outcome(reordered)->Ok_0, default).slots =~= default_rendering(
        outcome(clauses)->Ok_0,
        default,
    ).slots);
}

} // verus!
