//! Clauses and their resolution.

use crate::error::{CompileError, CompileErrorModel};
use crate::pattern::{
    index_views, indices, resolve, Index, IndexModel, KeyPattern, Malformed, PatternModel,
};
use vstd::prelude::*;

verus! {

/// One clause of a table description: a key pattern, the value for the
/// indices it claims, and the pattern's source text for messages.
#[derive(Debug)]
pub struct Clause<T> {
    pub pattern: KeyPattern,
    pub value: T,
    pub source_label: String,
}

/// The mathematical content of a [`Clause`].
pub struct ClauseModel<T> {
    pub pattern: PatternModel,
    pub value: T,
    pub source_label: Seq<char>,
}

impl<T> View for Clause<T> {
    type V = ClauseModel<T>;

    open spec fn view(&self) -> ClauseModel<T> {
        ClauseModel {
            pattern: self.pattern@,
            value: self.value,
            source_label: self.source_label@,
        }
    }
}

/// The mathematical content of a table description: that of each clause.
pub open spec fn description<T>(clauses: Seq<Clause<T>>) -> Seq<ClauseModel<T>> {
    Seq::new(clauses.len(), |c: int| clauses[c]@)
}

/// A clause whose pattern has been resolved to indices.
#[derive(Debug)]
pub struct ResolvedClause<'a, T> {
    pub indices: Vec<Index>,
    pub value: &'a T,
    pub source_label: &'a str,
}

impl<'a, T> ResolvedClause<'a, T> {
    /// This is what `clause` resolves to.
    pub open spec fn resolves(&self, clause: ClauseModel<T>) -> bool {
        &&& resolve(clause.pattern) == Ok::<Seq<IndexModel>, Malformed>(index_views(self.indices@))
        &&& *self.value == clause.value
        &&& self.source_label@ == clause.source_label
    }
}

/// The first clause from `from` on whose pattern is malformed.
pub open spec fn first_malformed_from<T>(clauses: Seq<ClauseModel<T>>, from: int) -> Option<int>
    decreases clauses.len() - from,
{
    if from < 0 || from >= clauses.len() {
        None
    } else if resolve(clauses[from].pattern) is Err {
        Some(from)
    } else {
        first_malformed_from(clauses, from + 1)
    }
}

/// The first clause whose pattern is malformed.
pub open spec fn first_malformed<T>(clauses: Seq<ClauseModel<T>>) -> Option<int> {
    first_malformed_from(clauses, 0)
}

/// The indices that each clause resolves to; none for a malformed pattern.
pub open spec fn index_sets<T>(clauses: Seq<ClauseModel<T>>) -> Seq<Seq<IndexModel>> {
    Seq::new(
        clauses.len(),
        |c: int|
            match resolve(clauses[c].pattern) {
                Ok(set) => set,
                Err(_) => Seq::empty(),
            },
    )
}

/// The value of each clause.
pub open spec fn values_of<T>(clauses: Seq<ClauseModel<T>>) -> Seq<T> {
    Seq::new(clauses.len(), |c: int| clauses[c].value)
}

/// What `first_malformed_from` finds is the first malformed clause from
/// `from` on, and it finds one if there is one.
pub proof fn lemma_first_malformed_from<T>(clauses: Seq<ClauseModel<T>>, from: int)
    requires
        0 <= from,
    ensures
        match first_malformed_from(clauses, from) {
            Some(c) => from <= c < clauses.len() && resolve(clauses[c].pattern) is Err
                && forall|c2: int| from <= c2 < c ==> (#[trigger] resolve(clauses[c2].pattern)) is Ok,
            None => forall|c2: int|
                from <= c2 < clauses.len() ==> (#[trigger] resolve(clauses[c2].pattern)) is Ok,
        },
    decreases clauses.len() - from,
{
    if from < clauses.len() && resolve(clauses[from].pattern) is Ok {
        lemma_first_malformed_from(clauses, from + 1);
    }
}

/// Resolves the pattern of every clause, in order, and stops at the first
/// that is malformed.
pub fn resolve_clauses<'a, T>(clauses: &'a Vec<Clause<T>>) -> (r: Result<
    Vec<ResolvedClause<'a, T>>,
    CompileError,
>)
    ensures
        match first_malformed(description(clauses@)) {
            Some(c) => r matches Err(e) && e@ == (CompileErrorModel::MalformedPattern {
                pattern: description(clauses@)[c].source_label,
                reason: resolve(description(clauses@)[c].pattern)->Err_0,
            }),
            None => r matches Ok(resolved) && resolved.len() == clauses.len() && forall|c: int|
                0 <= c < resolved.len() ==> (#[trigger] resolved[c]).resolves(clauses[c]@),
        },
{
    let ghost models = description(clauses@);
    let mut resolved: Vec<ResolvedClause<'a, T>> = Vec::new();
    let mut c: usize = 0;
    proof {
        lemma_first_malformed_from(models, 0);
    }
    while c < clauses.len()
        invariant
            c <= clauses.len(),
            resolved.len() == c,
            models == description(clauses@),
            forall|c2: int| 0 <= c2 < c ==> (#[trigger] resolved[c2]).resolves(clauses[c2]@),
            match first_malformed(models) {
                Some(m) => c <= m < clauses.len() && resolve(models[m].pattern) is Err,
                None => true,
            },
            first_malformed(models) is None ==> forall|c2: int|
                0 <= c2 < clauses.len() ==> (#[trigger] resolve(models[c2].pattern)) is Ok,
            first_malformed(models) matches Some(m) ==> forall|c2: int|
                0 <= c2 < m ==> (#[trigger] resolve(models[c2].pattern)) is Ok,
        decreases clauses.len() - c,
    {
        assert(models[c as int] == clauses[c as int]@);
        let clause = &clauses[c];
        match indices(&clause.pattern) {
            Ok(found) => {
                resolved.push(
                    ResolvedClause {
                        indices: found,
                        value: &clause.value,
                        source_label: clause.source_label.as_str(),
                    },
                );
            },
            Err(reason) => {
                assert(resolve(models[c as int].pattern) is Err);
                return Err(
                    CompileError::MalformedPattern { pattern: clause.source_label.clone(), reason },
                );
            },
        }
        c += 1;
    }
    Ok(resolved)
}

} // verus!
