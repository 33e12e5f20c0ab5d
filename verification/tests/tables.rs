use amap::compile::claims_nothing;
use amap::{
    aggregate, build_table, resolve_clauses, Clause, CompileError, Entry, Index, IndexTable,
    KeyPattern, Malformed, ResolvedClause, Slot,
};

fn resolved<'a>(numbers: &[usize], value: &'a char, label: &'a str) -> ResolvedClause<'a, char> {
    ResolvedClause {
        indices: numbers.iter().map(|n| Index::Known(*n)).collect(),
        value,
        source_label: label,
    }
}

#[test]
fn index_table_takes_an_index_once() {
    let (a, b) = (1, 2);
    let mut table = IndexTable::new();
    assert!(table.insert(&Index::Known(3), Entry { value: &a, source_label: "3" }));
    assert!(!table.insert(&Index::Known(3), Entry { value: &b, source_label: "3" }));
    assert!(table.insert(&Index::Known(4), Entry { value: &b, source_label: "4" }));
    let dense = build_table(&table, Some(4));
    assert_eq!(
        dense.slots,
        vec![Slot::Default, Slot::Default, Slot::Default, Slot::Filled(&1), Slot::Filled(&2)]
    );
}

#[test]
fn index_table_compares_symbolic_indices_by_text() {
    let (a, b) = (1, 2);
    let mut table = IndexTable::new();
    let n = Index::Symbolic("N".to_string());
    assert!(table.insert(&n, Entry { value: &a, source_label: "const { N }" }));
    assert!(!table.insert(&n, Entry { value: &b, source_label: "const { N }" }));
    assert!(table.insert(&Index::Symbolic("M".to_string()), Entry { value: &b, source_label: "m" }));
    assert!(table.insert(&Index::Known(0), Entry { value: &b, source_label: "0" }));
    let dense = build_table(&table, None);
    assert!(dense.slots.is_empty());
    assert_eq!(dense.stores.len(), 2);
    assert_eq!(dense.stores[0].index, "N");
    assert_eq!(dense.stores[0].value, &1);
    assert_eq!(dense.stores[1].index, "M");
    assert_eq!(dense.stores[1].value, &2);
}

#[test]
fn aggregate_tracks_the_largest_index() {
    let (x, y) = ('x', 'y');
    let clauses = vec![resolved(&[4, 9, 2], &x, "a"), resolved(&[], &y, "b"), resolved(&[7], &y, "c")];
    let (table, max) = aggregate(&clauses).unwrap();
    assert_eq!(max, Some(9));
    let dense = build_table(&table, max);
    assert_eq!(dense.slots.len(), 10);
    assert_eq!(dense.slots[4], Slot::Filled(&'x'));
    assert_eq!(dense.slots[7], Slot::Filled(&'y'));
    assert_eq!(dense.slots[8], Slot::Default);
    assert_eq!(dense.slots[9], Slot::Filled(&'x'));
}

#[test]
fn aggregate_without_known_index_has_no_largest() {
    let x = 'x';
    let clauses = vec![ResolvedClause {
        indices: vec![Index::Symbolic("N".to_string())],
        value: &x,
        source_label: "const { N }",
    }];
    let (_, max) = aggregate(&clauses).unwrap();
    assert_eq!(max, None);
    let none: Vec<ResolvedClause<char>> = Vec::new();
    assert_eq!(aggregate(&none).unwrap().1, None);
}

#[test]
fn aggregate_blames_the_clause_that_claims_anew() {
    let (x, y) = ('x', 'y');
    let clauses = vec![resolved(&[1, 2], &x, "first"), resolved(&[5, 2, 1], &y, "second")];
    assert_eq!(
        aggregate(&clauses).err(),
        Some(CompileError::DuplicateKey { ordinal: 2, pattern: "second".to_string() })
    );
    let clauses = vec![resolved(&[1, 1], &x, "only")];
    assert_eq!(
        aggregate(&clauses).err(),
        Some(CompileError::DuplicateKey { ordinal: 1, pattern: "only".to_string() })
    );
}

#[test]
fn build_table_follows_the_given_largest_index() {
    let v = 5;
    let mut table = IndexTable::new();
    assert!(table.insert(&Index::Known(1), Entry { value: &v, source_label: "1" }));
    assert_eq!(build_table(&table, Some(0)).slots, vec![Slot::Default]);
    assert_eq!(
        build_table(&table, Some(2)).slots,
        vec![Slot::Default, Slot::Filled(&5), Slot::Default]
    );
}

#[test]
fn claims_nothing_sees_only_empty_clauses() {
    let x = 'x';
    assert!(claims_nothing(&Vec::<ResolvedClause<char>>::new()));
    assert!(claims_nothing(&vec![resolved(&[], &x, "a"), resolved(&[], &x, "b")]));
    assert!(!claims_nothing(&vec![resolved(&[], &x, "a"), resolved(&[0], &x, "b")]));
}

#[test]
fn resolve_clauses_keeps_value_and_label() {
    let clauses = vec![
        Clause { pattern: KeyPattern::Literal("3".to_string()), value: 'a', source_label: "3".to_string() },
        Clause {
            pattern: KeyPattern::Constant("K".to_string()),
            value: 'b',
            source_label: "const { K }".to_string(),
        },
    ];
    let resolved = resolve_clauses(&clauses).unwrap();
    assert_eq!(resolved.len(), 2);
    assert_eq!(resolved[0].indices, vec![Index::Known(3)]);
    assert_eq!(resolved[0].value, &'a');
    assert_eq!(resolved[0].source_label, "3");
    assert_eq!(resolved[1].indices, vec![Index::Symbolic("K".to_string())]);
    assert_eq!(resolved[1].value, &'b');
    assert_eq!(resolved[1].source_label, "const { K }");
}

#[test]
fn resolve_clauses_stops_at_the_first_malformed() {
    let clauses = vec![
        Clause { pattern: KeyPattern::Literal("3".to_string()), value: 'a', source_label: "3".to_string() },
        Clause { pattern: KeyPattern::Unsupported, value: 'b', source_label: "x @ _".to_string() },
        Clause { pattern: KeyPattern::Literal("q".to_string()), value: 'c', source_label: "q".to_string() },
    ];
    assert_eq!(
        resolve_clauses(&clauses).err(),
        Some(CompileError::MalformedPattern {
            pattern: "x @ _".to_string(),
            reason: Malformed::Unsupported
        })
    );
}
