//! The compilation of a table description: resolve every clause, gather the
//! claims, build the dense table and render it under a default policy.

use crate::claims::{
    all_stores, claim, claimant, claimed, dense_slots, first_repeat, in_bounds, is_max_index,
    lemma_claimed_by_clause, lemma_first_repeat_from, lemma_stores_map, no_claims, precedes,
    slot_at,
};
use crate::clause::{
    description, first_malformed, index_sets, resolve_clauses, values_of, Clause, ClauseModel,
    ResolvedClause,
};
use crate::error::{CompileError, CompileErrorModel};
use crate::pattern::{lemma_resolve_placeable, placeable, resolve, IndexModel};
use crate::table::{
    aggregate, build_table, claim_sets, default_rendering, entries_of, optional_rendering,
    optional_value, optional_view, plain_view, DenseTable, Entry, Rendered, RenderedModel,
    TableModel,
};
use vstd::prelude::*;

verus! {

/// What a table description compiles to.
///
/// The first clause with a malformed pattern fails the compilation. Else a
/// description whose clauses claim nothing is empty. Else the first clause
/// that claims an index anew is blamed for a duplicate. Else there is a
/// table: position `i` holds the value of the clause that claims `i`, up to
/// the largest known index, and the symbolic claims follow as stores.
pub open spec fn outcome<T>(clauses: Seq<ClauseModel<T>>) -> Result<TableModel<T>, CompileErrorModel> {
    let sets = index_sets(clauses);
    match first_malformed(clauses) {
        Some(c) => Err(
            CompileErrorModel::MalformedPattern {
                pattern: clauses[c].source_label,
                reason: resolve(clauses[c].pattern)->Err_0,
            },
        ),
        None => if no_claims(sets) {
            Err(CompileErrorModel::EmptySpecification)
        } else {
            match first_repeat(sets) {
                Some(c) => Err(
                    CompileErrorModel::DuplicateKey {
                        ordinal: c + 1,
                        pattern: clauses[c].source_label,
                    },
                ),
                None => Ok(
                    TableModel {
                        slots: dense_slots(sets, values_of(clauses)),
                        stores: all_stores(sets, values_of(clauses)),
                    },
                ),
            }
        },
    }
}

/// What a description compiles to under the optional policy.
pub open spec fn optional_outcome<T>(clauses: Seq<ClauseModel<T>>) -> Result<
    RenderedModel<Option<T>>,
    CompileErrorModel,
> {
    match outcome(clauses) {
        Ok(table) => Ok(optional_rendering(table)),
        Err(e) => Err(e),
    }
}

/// What a description compiles to under the value-default policy, where
/// `default` is the default of the value type, if it has one.
pub open spec fn default_outcome<T>(clauses: Seq<ClauseModel<T>>, default: Option<T>) -> Result<
    RenderedModel<T>,
    CompileErrorModel,
> {
    match outcome(clauses) {
        Ok(table) => match default {
            Some(d) => Ok(default_rendering(table, d)),
            None => Err(CompileErrorModel::NoDefaultAvailable),
        },
        Err(e) => Err(e),
    }
}

/// Whether the clauses claim no index at all.
pub fn claims_nothing<'a, T>(resolved: &Vec<ResolvedClause<'a, T>>) -> (r: bool)
    ensures
        r == no_claims(claim_sets(resolved@)),
{
    let mut c: usize = 0;
    while c < resolved.len()
        invariant
            c <= resolved.len(),
            forall|c2: int| 0 <= c2 < c ==> (#[trigger] claim_sets(resolved@)[c2]).len() == 0,
        decreases resolved.len() - c,
    {
        if resolved[c].indices.len() > 0 {
            assert(claim_sets(resolved@)[c as int].len() > 0);
            return false;
        }
        c += 1;
    }
    true
}

/// Compiles a table description to its dense table.
pub fn compile<'a, T>(clauses: &'a Vec<Clause<T>>) -> (r: Result<DenseTable<'a, T>, CompileError>)
    ensures
        match outcome(description(clauses@)) {
            Ok(table) => r matches Ok(dense) && dense@ == table,
            Err(e) => r matches Err(error) && error@ == e,
        },
{
    let resolved = match resolve_clauses(clauses) {
        Ok(resolved) => resolved,
        Err(e) => {
            return Err(e);
        },
    };
    let ghost models = description(clauses@);
    let ghost sets = index_sets(models);
    let ghost values = values_of(models);
    let ghost entries = entries_of(resolved@);
    proof {
        assert(claim_sets(resolved@) =~= sets) by {
            assert forall|c: int| 0 <= c < sets.len() implies claim_sets(resolved@)[c] == sets[c] by {
                assert(resolved[c].resolves(clauses[c]@));
            }
        }
    }
    if claims_nothing(&resolved) {
        return Err(CompileError::EmptySpecification);
    }
    let (table, max) = match aggregate(&resolved) {
        Ok(gathered) => gathered,
        Err(e) => {
            proof {
                let c = first_repeat(sets)->Some_0;
                lemma_first_repeat_from(sets, 0);
                assert(resolved[c].resolves(clauses[c]@));
            }
            return Err(e);
        },
    };
    proof {
        if let Some(m) = max {
            assert(is_max_index(sets, m as int));
            let (c, k) = choose|c: int, k: int|
                in_bounds(sets, c, k) && precedes(c, k, sets.len() as int, 0) && #[trigger] claim(
                    sets,
                    c,
                    k,
                ) == IndexModel::Known(m as int);
            lemma_resolve_placeable(models[c].pattern);
            assert(placeable(sets[c][k]));
        }
    }
    let dense = build_table(&table, max);
    proof {
        assert(dense@.slots =~= dense_slots(sets, values)) by {
            assert forall|i: int| 0 <= i < dense.slots.len() implies dense.slots[i]@ == slot_at(
                sets,
                values,
                i,
            ) by {
                let index = IndexModel::Known(i);
                assert(table.holds(index) <==> claimed(sets, index));
                if claimed(sets, index) {
                    lemma_claimed_by_clause(sets, index);
                    let c = claimant(sets, index);
                    let k = choose|k: int| 0 <= k < sets[c].len() && #[trigger] claim(sets, c, k) == index;
                    assert(in_bounds(sets, c, k));
                    assert(table.entries()[i as usize] == entries[c]);
                    assert(resolved[c].resolves(clauses[c]@));
                }
            }
        }
        let f = |e: Entry<'a, T>| *e.value;
        assert forall|c: int| 0 <= c < sets.len() implies #[trigger] values[c] == f(entries[c]) by {
            assert(resolved[c].resolves(clauses[c]@));
        }
        lemma_stores_map(sets, entries, values, f, sets.len() as int);
        assert(dense@.stores =~= all_stores(sets, values));
    }
    Ok(dense)
}

/// Compiles a table description under the optional policy: a claimed
/// position holds `Some` of its clause's value, an unclaimed one `None`.
pub fn amap<'a, T>(clauses: &'a Vec<Clause<T>>) -> (r: Result<Rendered<Option<&'a T>>, CompileError>)
    ensures
        match optional_outcome(description(clauses@)) {
            Ok(table) => r matches Ok(rendered) && optional_view(rendered) == table,
            Err(e) => r matches Err(error) && error@ == e,
        },
{
    match compile(clauses) {
        Ok(dense) => Ok(dense.render_optional()),
        Err(e) => Err(e),
    }
}

/// Compiles a table description under the value-default policy: a claimed
/// position holds its clause's value, an unclaimed one the default of the
/// value type. Where the value type has no default, `default` is `None` and
/// no table is built.
pub fn amap_d<'a, T>(clauses: &'a Vec<Clause<T>>, default: Option<&'a T>) -> (r: Result<
    Rendered<&'a T>,
    CompileError,
>)
    ensures
        match default_outcome(description(clauses@), optional_value(default)) {
            Ok(table) => r matches Ok(rendered) && plain_view(rendered) == table,
            Err(e) => r matches Err(error) && error@ == e,
        },
{
    match compile(clauses) {
        Ok(dense) => match default {
            Some(d) => Ok(dense.render_with_default(d)),
            None => Err(CompileError::NoDefaultAvailable),
        },
        Err(e) => Err(e),
    }
}

} // verus!
