//! The index table that clauses are gathered in, and the dense table that is
//! built from it.

use crate::claims::{
    all_stores, claim, claimed, claimed_before, clause_repeats, clause_stores, first_repeat,
    in_bounds, is_max_index, lemma_claimed_next_clause, lemma_claimed_step, lemma_conflict_free,
    lemma_first_repeat_is, lemma_max_index_is, lemma_max_index_none, max_index, precedes, repeats,
    stores_upto,
};
use crate::clause::ResolvedClause;
use crate::error::{CompileError, CompileErrorModel};
use crate::pattern::{index_views, Index, IndexModel};
use std::collections::HashMap;
use vstd::prelude::*;
use vstd::string::StringExecFns;

verus! {

/// What the index table keeps for an index: the value of the clause that
/// claimed it and the source text of that clause's pattern.
pub struct Entry<'a, T> {
    pub value: &'a T,
    pub source_label: &'a str,
}

/// The association of indices with entries. No index has two entries.
pub struct IndexTable<'a, T> {
    known: HashMap<usize, Entry<'a, T>>,
    symbolic: Vec<(String, Entry<'a, T>)>,
}

impl<'a, T> IndexTable<'a, T> {
    /// The entries of the known indices.
    pub closed spec fn entries(&self) -> Map<usize, Entry<'a, T>> {
        self.known@
    }

    /// The entries of the symbolic indices with the text of each, in the
    /// order in which they came.
    pub closed spec fn symbolic(&self) -> Seq<(Seq<char>, Entry<'a, T>)> {
        self.symbolic@.map_values(|s: (String, Entry<'a, T>)| (s.0@, s.1))
    }

    /// No symbolic index has two entries.
    pub open spec fn wf(&self) -> bool {
        forall|i: int, j: int|
            0 <= i < j < self.symbolic().len() ==> (#[trigger] self.symbolic()[i]).0
                != (#[trigger] self.symbolic()[j]).0
    }

    /// The table has an entry for `index`.
    pub open spec fn holds(&self, index: IndexModel) -> bool {
        match index {
            IndexModel::Known(i) => 0 <= i <= usize::MAX && self.entries().contains_key(i as usize),
            IndexModel::Symbolic(text) => exists|j: int|
                0 <= j < self.symbolic().len() && (#[trigger] self.symbolic()[j]).0 == text,
        }
    }

    /// The table holds what the claims of `sets` ask for, where clause `c`
    /// brings the entry `entries[c]`.
    pub open spec fn records(&self, sets: Seq<Seq<IndexModel>>, entries: Seq<Entry<'a, T>>) -> bool {
        &&& forall|index: IndexModel| #[trigger] self.holds(index) <==> claimed(sets, index)
        &&& forall|c: int, k: int|
            in_bounds(sets, c, k) && (#[trigger] claim(sets, c, k)) is Known ==> self.entries()[claim(
                sets,
                c,
                k,
            )->Known_0 as usize] == entries[c]
        &&& self.symbolic() == all_stores(sets, entries)
    }

    /// The value entered for the known index `i`, if there is one.
    pub open spec fn value_at(&self, i: int) -> Option<T> {
        if 0 <= i <= usize::MAX && self.entries().contains_key(i as usize) {
            Some(*self.entries()[i as usize].value)
        } else {
            None
        }
    }

    /// A table without entries.
    pub fn new() -> (table: Self)
        ensures
            table.wf(),
            table.entries() == Map::<usize, Entry<'a, T>>::empty(),
            table.symbolic() == Seq::<(Seq<char>, Entry<'a, T>)>::empty(),
    {
        let table = IndexTable { known: HashMap::new(), symbolic: Vec::new() };
        assert(table.symbolic() =~= Seq::<(Seq<char>, Entry<'a, T>)>::empty());
        table
    }

    /// Enters `entry` for `index` unless the index has an entry already.
    /// Returns whether it was entered; if not, the table is as it was.
    pub fn insert(&mut self, index: &Index, entry: Entry<'a, T>) -> (inserted: bool)
        requires
            old(self).wf(),
        ensures
            final(self).wf(),
            inserted == !old(self).holds(index@),
            !inserted ==> final(self).entries() == old(self).entries() && final(self).symbolic()
                == old(self).symbolic(),
            inserted ==> match index@ {
                IndexModel::Known(i) => final(self).entries() == old(self).entries().insert(
                    i as usize,
                    entry,
                ) && final(self).symbolic() == old(self).symbolic(),
                IndexModel::Symbolic(text) => final(self).entries() == old(self).entries()
                    && final(self).symbolic() == old(self).symbolic().push((text, entry)),
            },
    {
        match index {
            Index::Known(i) => {
                if self.known.contains_key(i) {
                    false
                } else {
                    self.known.insert(*i, entry);
                    true
                }
            },
            Index::Symbolic(text) => {
                let mut j: usize = 0;
                while j < self.symbolic.len()
                    invariant
                        j <= self.symbolic.len(),
                        *self == *old(self),
                        *index == Index::Symbolic(*text),
                        self.wf(),
                        forall|j2: int| 0 <= j2 < j ==> (#[trigger] self.symbolic()[j2]).0 != text@,
                    decreases self.symbolic.len() - j,
                {
                    if self.symbolic[j].0 == *text {
                        assert(self.symbolic()[j as int].0 == text@);
                        assert(self.holds(index@));
                        return false;
                    }
                    j += 1;
                }
                self.symbolic.push((text.clone(), entry));
                assert(self.symbolic() =~= old(self).symbolic().push((text@, entry)));
                true
            },
        }
    }
}

/// The indices that each resolved clause claims.
pub open spec fn claim_sets<'a, T>(resolved: Seq<ResolvedClause<'a, T>>) -> Seq<Seq<IndexModel>> {
    Seq::new(resolved.len(), |c: int| index_views(resolved[c].indices@))
}

/// The entry that each resolved clause brings.
pub open spec fn entries_of<'a, T>(resolved: Seq<ResolvedClause<'a, T>>) -> Seq<Entry<'a, T>> {
    Seq::new(
        resolved.len(),
        |c: int| (Entry { value: resolved[c].value, source_label: resolved[c].source_label }),
    )
}

/// The largest index as a number.
pub open spec fn max_model(max: Option<usize>) -> Option<int> {
    match max {
        Some(m) => Some(m as int),
        None => None,
    }
}

/// What holds of the table and the largest index when all claims before
/// `(c, k)` have been entered and none of them repeated an index.
pub open spec fn gathered<'a, T>(
    table: IndexTable<'a, T>,
    max: Option<usize>,
    sets: Seq<Seq<IndexModel>>,
    entries: Seq<Entry<'a, T>>,
    c: int,
    k: int,
) -> bool {
    &&& table.wf()
    &&& forall|c2: int, k2: int|
        in_bounds(sets, c2, k2) && precedes(c2, k2, c, k) ==> !#[trigger] repeats(sets, c2, k2)
    &&& forall|index: IndexModel| #[trigger] table.holds(index) <==> claimed_before(sets, index, c, k)
    &&& forall|c2: int, k2: int|
        in_bounds(sets, c2, k2) && precedes(c2, k2, c, k) && (#[trigger] claim(sets, c2, k2)) is Known
            ==> table.entries()[claim(sets, c2, k2)->Known_0 as usize] == entries[c2]
    &&& table.symbolic() == stores_upto(sets, entries, c) + (if c < sets.len() {
        clause_stores(sets[c], entries[c], k)
    } else {
        Seq::empty()
    })
    &&& match max {
        Some(m) => claimed_before(sets, IndexModel::Known(m as int), c, k) && forall|i: int| #[trigger]
            claimed_before(sets, IndexModel::Known(i), c, k) ==> i <= m,
        None => forall|i: int| !#[trigger] claimed_before(sets, IndexModel::Known(i), c, k),
    }
}

/// Gathers the claims of all clauses in one index table, clause by clause
/// and within a clause index by index, and keeps track of the largest known
/// index. The first claim for an index that has an entry already ends it: the
/// clause that makes this claim is blamed.
pub fn aggregate<'a, T>(resolved: &Vec<ResolvedClause<'a, T>>) -> (r: Result<
    (IndexTable<'a, T>, Option<usize>),
    CompileError,
>)
    ensures
        match first_repeat(claim_sets(resolved@)) {
            Some(c) => r matches Err(e) && e@ == (CompileErrorModel::DuplicateKey {
                ordinal: c + 1,
                pattern: resolved[c].source_label@,
            }),
            None => r matches Ok((table, max)) && table.wf() && table.records(
                claim_sets(resolved@),
                entries_of(resolved@),
            ) && max_model(max) == max_index(claim_sets(resolved@)),
        },
{
    let ghost sets = claim_sets(resolved@);
    let ghost entries = entries_of(resolved@);
    let mut table: IndexTable<'a, T> = IndexTable::new();
    let mut max: Option<usize> = None;
    let mut c: usize = 0;
    while c < resolved.len()
        invariant
            c <= resolved.len(),
            sets == claim_sets(resolved@),
            entries == entries_of(resolved@),
            gathered(table, max, sets, entries, c as int, 0),
        decreases resolved.len() - c,
    {
        let clause = &resolved[c];
        let mut k: usize = 0;
        while k < clause.indices.len()
            invariant
                c < resolved.len(),
                *clause == resolved[c as int],
                k <= clause.indices.len(),
                sets == claim_sets(resolved@),
                entries == entries_of(resolved@),
                gathered(table, max, sets, entries, c as int, k as int),
            decreases clause.indices.len() - k,
        {
            let index = &clause.indices[k];
            let entry = Entry { value: clause.value, source_label: clause.source_label };
            assert(in_bounds(sets, c as int, k as int));
            assert(claim(sets, c as int, k as int) == index@);
            assert(entries[c as int] == entry);
            proof {
                assert forall|other: IndexModel|
                    claimed_before(sets, other, c as int, k + 1) <==> #[trigger] claimed_before(
                        sets,
                        other,
                        c as int,
                        k as int,
                    ) || claim(sets, c as int, k as int) == other by {
                    lemma_claimed_step(sets, other, c as int, k as int);
                }
            }
            let ghost before = table;
            if !table.insert(index, entry) {
                proof {
                    assert(repeats(sets, c as int, k as int));
                    assert(clause_repeats(sets, c as int));
                    assert forall|c2: int| 0 <= c2 < c implies !#[trigger] clause_repeats(sets, c2) by {
                        if clause_repeats(sets, c2) {
                            let k2 = choose|k2: int|
                                0 <= k2 < sets[c2].len() && #[trigger] repeats(sets, c2, k2);
                            assert(in_bounds(sets, c2, k2) && precedes(c2, k2, c as int, k as int));
                        }
                    }
                    lemma_first_repeat_is(sets, c as int);
                }
                return Err(
                    CompileError::DuplicateKey {
                        ordinal: c + 1,
                        pattern: String::from_str(clause.source_label),
                    },
                );
            }
            match index {
                Index::Known(i) => {
                    max =
                    match max {
                        Some(m) => if m < *i {
                            Some(*i)
                        } else {
                            Some(m)
                        },
                        None => Some(*i),
                    };
                },
                Index::Symbolic(_) => {},
            }
            proof {
                assert(!repeats(sets, c as int, k as int));
                assert forall|c2: int, k2: int|
                    in_bounds(sets, c2, k2) && precedes(c2, k2, c as int, k + 1) implies !#[trigger] repeats(
                    sets,
                    c2,
                    k2,
                ) by {
                    if !(c2 == c && k2 == k) {
                        assert(precedes(c2, k2, c as int, k as int));
                    }
                }
                assert forall|other: IndexModel| #[trigger]
                    table.holds(other) <==> claimed_before(sets, other, c as int, k + 1) by {
                    assert(before.holds(other) <==> claimed_before(sets, other, c as int, k as int));
                    match index@ {
                        IndexModel::Known(i) => {},
                        IndexModel::Symbolic(text) => {
                            if before.holds(other) && other is Symbolic {
                                let j = choose|j: int|
                                    0 <= j < before.symbolic().len() && (#[trigger] before.symbolic()[j]).0
                                        == other->Symbolic_0;
                                assert(table.symbolic()[j] == before.symbolic()[j]);
                            }
                            if other == index@ {
                                assert(table.symbolic()[before.symbolic().len() as int].0 == text);
                            }
                        },
                    }
                }
                assert forall|c2: int, k2: int|
                    in_bounds(sets, c2, k2) && precedes(c2, k2, c as int, k + 1) && (#[trigger] claim(
                        sets,
                        c2,
                        k2,
                    )) is Known implies table.entries()[claim(sets, c2, k2)->Known_0 as usize]
                    == entries[c2] by {
                    if !(c2 == c && k2 == k) {
                        assert(precedes(c2, k2, c as int, k as int));
                        assert(before.holds(claim(sets, c2, k2)));
                    }
                }
                assert(clause_stores(sets[c as int], entries[c as int], k + 1) == match sets[c as int][k as int] {
                    IndexModel::Symbolic(text) => clause_stores(
                        sets[c as int],
                        entries[c as int],
                        k as int,
                    ).push((text, entries[c as int])),
                    IndexModel::Known(_) => clause_stores(sets[c as int], entries[c as int], k as int),
                });
                assert(table.symbolic() =~= stores_upto(sets, entries, c as int) + clause_stores(
                    sets[c as int],
                    entries[c as int],
                    k + 1,
                ));
                assert forall|i: int| #[trigger]
                    claimed_before(sets, IndexModel::Known(i), c as int, k + 1) implies max is Some && i
                    <= max->Some_0 by {
                    lemma_claimed_step(sets, IndexModel::Known(i), c as int, k as int);
                }
            }
            k += 1;
        }
        proof {
            assert(sets[c as int].len() == k);
            assert forall|other: IndexModel|
                claimed_before(sets, other, c + 1, 0) <==> #[trigger] claimed_before(
                    sets,
                    other,
                    c as int,
                    k as int,
                ) by {
                lemma_claimed_next_clause(sets, other, c as int);
            }
            assert forall|c2: int, k2: int|
                in_bounds(sets, c2, k2) && precedes(c2, k2, c + 1, 0) implies precedes(
                c2,
                k2,
                c as int,
                k as int,
            ) by {}
            assert(stores_upto(sets, entries, c + 1) == stores_upto(sets, entries, c as int)
                + clause_stores(sets[c as int], entries[c as int], k as int));
            if c + 1 < sets.len() {
                assert(clause_stores(sets[c + 1], entries[c + 1], 0) =~= Seq::<
                    (Seq<char>, Entry<'a, T>),
                >::empty());
            }
            assert(table.symbolic() =~= stores_upto(sets, entries, c + 1) + (if c + 1 < sets.len() {
                clause_stores(sets[c + 1], entries[c + 1], 0)
            } else {
                Seq::empty()
            }));
            assert forall|i: int| #[trigger]
                claimed_before(sets, IndexModel::Known(i), c + 1, 0) implies max is Some && i
                <= max->Some_0 by {
                lemma_claimed_next_clause(sets, IndexModel::Known(i), c as int);
            }
        }
        c += 1;
    }
    proof {
        assert(table.symbolic() =~= all_stores(sets, entries));
        assert forall|c2: int, k2: int| in_bounds(sets, c2, k2) implies precedes(
            c2,
            k2,
            sets.len() as int,
            0,
        ) by {}
        lemma_conflict_free(sets);
        match max {
            Some(m) => {
                assert(is_max_index(sets, m as int));
                lemma_max_index_is(sets, m as int);
            },
            None => {
                lemma_max_index_none(sets);
            },
        }
    }
    Ok((table, max))
}

/// One position of a dense table.
#[derive(Debug, PartialEq, Eq)]
pub enum Slot<'a, T> {
    /// The position holds the value of the clause that claimed it.
    Filled(&'a T),
    /// No clause claimed the position.
    Default,
}

impl<'a, T> View for Slot<'a, T> {
    type V = Option<T>;

    open spec fn view(&self) -> Option<T> {
        match self {
            Slot::Filled(value) => Some(**value),
            Slot::Default => None,
        }
    }
}

/// A value for a position that is known only as the text of a constant
/// expression: it is stored there once the expression's value is known.
#[derive(Debug, PartialEq, Eq)]
pub struct Store<'a, T> {
    pub index: String,
    pub value: &'a T,
}

impl<'a, T> View for Store<'a, T> {
    type V = (Seq<char>, T);

    open spec fn view(&self) -> (Seq<char>, T) {
        (self.index@, *self.value)
    }
}

/// The dense table: one slot for each position from 0 to the largest known
/// index, and the stores for symbolic positions in the order of their
/// clauses.
#[derive(Debug, PartialEq, Eq)]
pub struct DenseTable<'a, T> {
    pub slots: Vec<Slot<'a, T>>,
    pub stores: Vec<Store<'a, T>>,
}

/// The mathematical content of a [`DenseTable`]: for each position the
/// value it holds, if any, and the stores as pairs of text and value.
pub struct TableModel<T> {
    pub slots: Seq<Option<T>>,
    pub stores: Seq<(Seq<char>, T)>,
}

impl<'a, T> View for DenseTable<'a, T> {
    type V = TableModel<T>;

    open spec fn view(&self) -> TableModel<T> {
        TableModel {
            slots: Seq::new(self.slots.len() as nat, |i: int| self.slots[i]@),
            stores: Seq::new(self.stores.len() as nat, |j: int| self.stores[j]@),
        }
    }
}

/// Builds the dense table of an index table: a slot for each position from 0
/// to `max_index`, filled where the index table has an entry, and a store for
/// each symbolic entry. Without a `max_index` the table has no slots.
pub fn build_table<'a, T>(table: &IndexTable<'a, T>, max_index: Option<usize>) -> (dense: DenseTable<
    'a,
    T,
>)
    requires
        max_index matches Some(m) ==> m < usize::MAX,
    ensures
        dense.slots.len() == (match max_index {
            Some(m) => m + 1,
            None => 0,
        }),
        forall|i: int| 0 <= i < dense.slots.len() ==> (#[trigger] dense.slots[i])@ == table.value_at(i),
        dense.stores.len() == table.symbolic().len(),
        forall|j: int|
            0 <= j < dense.stores.len() ==> (#[trigger] dense.stores[j])@ == (
                table.symbolic()[j].0,
                *table.symbolic()[j].1.value,
            ),
{
    let len: usize = match max_index {
        Some(m) => m + 1,
        None => 0,
    };
    let mut slots: Vec<Slot<'a, T>> = Vec::new();
    let mut i: usize = 0;
    while i < len
        invariant
            i <= len,
            slots.len() == i,
            forall|i2: int| 0 <= i2 < i ==> (#[trigger] slots[i2])@ == table.value_at(i2),
        decreases len - i,
    {
        let slot = match table.known.get(&i) {
            Some(entry) => Slot::Filled(entry.value),
            None => Slot::Default,
        };
        slots.push(slot);
        i += 1;
    }
    let mut stores: Vec<Store<'a, T>> = Vec::new();
    let mut j: usize = 0;
    while j < table.symbolic.len()
        invariant
            j <= table.symbolic.len(),
            stores.len() == j,
            forall|j2: int|
                0 <= j2 < j ==> (#[trigger] stores[j2])@ == (
                    table.symbolic()[j2].0,
                    *table.symbolic()[j2].1.value,
                ),
        decreases table.symbolic.len() - j,
    {
        let symbolic = &table.symbolic[j];
        stores.push(Store { index: symbolic.0.clone(), value: symbolic.1.value });
        j += 1;
    }
    DenseTable { slots, stores }
}

/// A table as it is handed out: each position and each store in the form
/// that the default policy gives it.
#[derive(Debug, PartialEq, Eq)]
pub struct Rendered<X> {
    pub slots: Vec<X>,
    pub stores: Vec<(String, X)>,
}

/// The mathematical content of a [`Rendered`] table.
pub struct RenderedModel<X> {
    pub slots: Seq<X>,
    pub stores: Seq<(Seq<char>, X)>,
}

/// What `value` refers to, if it is there.
pub open spec fn optional_value<'a, T>(value: Option<&'a T>) -> Option<T> {
    match value {
        Some(v) => Some(*v),
        None => None,
    }
}

/// The content of a table whose positions are optional values.
pub open spec fn optional_view<'a, T>(table: Rendered<Option<&'a T>>) -> RenderedModel<Option<T>> {
    RenderedModel {
        slots: Seq::new(table.slots.len() as nat, |i: int| optional_value(table.slots[i])),
        stores: Seq::new(
            table.stores.len() as nat,
            |j: int| (table.stores[j].0@, optional_value(table.stores[j].1)),
        ),
    }
}

/// The content of a table whose positions are plain values.
pub open spec fn plain_view<'a, T>(table: Rendered<&'a T>) -> RenderedModel<T> {
    RenderedModel {
        slots: Seq::new(table.slots.len() as nat, |i: int| *table.slots[i]),
        stores: Seq::new(table.stores.len() as nat, |j: int| (table.stores[j].0@, *table.stores[j].1)),
    }
}

/// A table under the optional policy: a filled position is the present
/// value, an unclaimed one is absent.
pub open spec fn optional_rendering<T>(table: TableModel<T>) -> RenderedModel<Option<T>> {
    RenderedModel {
        slots: table.slots,
        stores: Seq::new(table.stores.len(), |j: int| (table.stores[j].0, Some(table.stores[j].1))),
    }
}

/// A table under the value-default policy: a filled position is its value
/// unchanged, an unclaimed one is `default`.
pub open spec fn default_rendering<T>(table: TableModel<T>, default: T) -> RenderedModel<T> {
    RenderedModel {
        slots: Seq::new(
            table.slots.len(),
            |i: int|
                match table.slots[i] {
                    Some(value) => value,
                    None => default,
                },
        ),
        stores: table.stores,
    }
}

impl<'a, T> DenseTable<'a, T> {
    /// Renders the table under the optional policy.
    pub fn render_optional(&self) -> (r: Rendered<Option<&'a T>>)
        ensures
            optional_view(r) == optional_rendering(self@),
    {
        let mut slots: Vec<Option<&'a T>> = Vec::new();
        let mut i: usize = 0;
        while i < self.slots.len()
            invariant
                i <= self.slots.len(),
                slots.len() == i,
                forall|i2: int| 0 <= i2 < i ==> optional_value(#[trigger] slots[i2]) == self.slots[i2]@,
            decreases self.slots.len() - i,
        {
            let slot = match &self.slots[i] {
                Slot::Filled(value) => Some(*value),
                Slot::Default => None,
            };
            slots.push(slot);
            i += 1;
        }
        let mut stores: Vec<(String, Option<&'a T>)> = Vec::new();
        let mut j: usize = 0;
        while j < self.stores.len()
            invariant
                j <= self.stores.len(),
                stores.len() == j,
                forall|j2: int|
                    0 <= j2 < j ==> (#[trigger] stores[j2]).0@ == self.stores[j2].index@
                        && optional_value(stores[j2].1) == Some(*self.stores[j2].value),
            decreases self.stores.len() - j,
        {
            let store = &self.stores[j];
            stores.push((store.index.clone(), Some(store.value)));
            j += 1;
        }
        let r = Rendered { slots, stores };
        assert(optional_view(r).slots =~= optional_rendering(self@).slots);
        assert(optional_view(r).stores =~= optional_rendering(self@).stores);
        r
    }

    /// Renders the table under the value-default policy, with `default` for
    /// the unclaimed positions.
    pub fn render_with_default(&self, default: &'a T) -> (r: Rendered<&'a T>)
        ensures
            plain_view(r) == default_rendering(self@, *default),
    {
        let mut slots: Vec<&'a T> = Vec::new();
        let mut i: usize = 0;
        while i < self.slots.len()
            invariant
                i <= self.slots.len(),
                slots.len() == i,
                forall|i2: int|
                    0 <= i2 < i ==> *(#[trigger] slots[i2]) == (match self.slots[i2]@ {
                        Some(value) => value,
                        None => *default,
                    }),
            decreases self.slots.len() - i,
        {
            let slot = match &self.slots[i] {
                Slot::Filled(value) => *value,
                Slot::Default => default,
            };
            slots.push(slot);
            i += 1;
        }
        let mut stores: Vec<(String, &'a T)> = Vec::new();
        let mut j: usize = 0;
        while j < self.stores.len()
            invariant
                j <= self.stores.len(),
                stores.len() == j,
                forall|j2: int|
                    0 <= j2 < j ==> (#[trigger] stores[j2]).0@ == self.stores[j2].index@
                        && *stores[j2].1 == *self.stores[j2].value,
            decreases self.stores.len() - j,
        {
            let store = &self.stores[j];
            stores.push((store.index.clone(), store.value));
            j += 1;
        }
        let r = Rendered { slots, stores };
        assert(plain_view(r).slots =~= default_rendering(self@, *default).slots);
        assert(plain_view(r).stores =~= default_rendering(self@, *default).stores);
        r
    }
}

} // verus!
