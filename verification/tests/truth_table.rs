use truth_table::{generate, render, OverflowError, TruthTable, TruthValue, MAX_PROPOSITIONS};

fn names(tokens: &[&str]) -> Vec<String> {
    tokens.iter().map(|t| t.to_string()).collect()
}

fn column(table: &TruthTable, i: usize) -> Vec<bool> {
    let rows = table.row_count();
    (0..rows).map(|r| table.value_at(i, r).0).collect()
}

#[test]
fn truth_value_starts_true() {
    let t = TruthValue::new();
    assert_eq!(t.0, true);
}

#[test]
fn truth_value_toggle_flips() {
    let mut t = TruthValue::new();
    t.toggle();
    assert_eq!(t.0, false);
    t.toggle();
    assert_eq!(t.0, true);
}

#[test]
fn truth_value_symbols() {
    assert_eq!(TruthValue(true).symbol(), "V");
    assert_eq!(TruthValue(false).symbol(), "F");
}

#[test]
fn single_proposition_rows() {
    let table = generate(&names(&["P"])).unwrap();
    assert_eq!(table.column_count(), 1);
    assert_eq!(table.row_count(), 2);
    assert_eq!(table.propositions, names(&["P"]));
    assert_eq!(column(&table, 0), vec![true, false]);
}

#[test]
fn two_propositions_canonical_order() {
    let table = generate(&names(&["P", "Q"])).unwrap();
    assert_eq!(table.column_count(), 2);
    assert_eq!(table.row_count(), 4);
    let expected = [
        (true, true),
        (true, false),
        (false, true),
        (false, false),
    ];
    for (r, (p, q)) in expected.iter().enumerate() {
        assert_eq!(table.value_at(0, r).0, *p, "column P, row {r}");
        assert_eq!(table.value_at(1, r).0, *q, "column Q, row {r}");
    }
}

#[test]
fn duplicate_names_collapse() {
    let table = generate(&names(&["P", "P"])).unwrap();
    assert_eq!(table.column_count(), 1);
    assert_eq!(table.propositions, names(&["P"]));
    assert_eq!(column(&table, 0), vec![true, false]);
}

#[test]
fn duplicates_keep_first_occurrence_order() {
    let table = generate(&names(&["B", "A", "B", "C", "A"])).unwrap();
    assert_eq!(table.propositions, names(&["B", "A", "C"]));
    assert_eq!(table.column_count(), 3);
    assert_eq!(table.row_count(), 8);
}

#[test]
fn no_propositions_degenerate_table() {
    let table = generate(&Vec::new()).unwrap();
    assert_eq!(table.column_count(), 0);
    assert_eq!(table.row_count(), 1);
}

#[test]
fn counts_for_up_to_ten_names() {
    for n in 0..=10usize {
        let tokens: Vec<String> = (0..n).map(|i| format!("p{i}")).collect();
        let table = generate(&tokens).unwrap();
        assert_eq!(table.column_count(), n);
        assert_eq!(table.row_count(), 1usize << n);
        for i in 0..n {
            assert_eq!(column(&table, i).len(), 1usize << n);
        }
    }
}

#[test]
fn flip_counts_per_column() {
    let n = 4usize;
    let tokens: Vec<String> = (0..n).map(|i| format!("p{i}")).collect();
    let table = generate(&tokens).unwrap();
    for i in 0..n {
        let col = column(&table, i);
        let flips = col.windows(2).filter(|w| w[0] != w[1]).count();
        let expected = (1usize << n) / (1usize << (n - i - 1)) - 1;
        assert_eq!(flips, expected, "column {i}");
        assert_eq!(col[0], true, "column {i} starts true");
    }
}

#[test]
fn rightmost_column_alternates() {
    let table = generate(&names(&["a", "b", "c"])).unwrap();
    let col = column(&table, 2);
    for (r, v) in col.iter().enumerate() {
        assert_eq!(*v, r % 2 == 0, "row {r}");
    }
}

#[test]
fn leftmost_column_halves() {
    let table = generate(&names(&["a", "b", "c"])).unwrap();
    let col = column(&table, 0);
    for (r, v) in col.iter().enumerate() {
        assert_eq!(*v, r < 4, "row {r}");
    }
}

#[test]
fn generation_is_idempotent() {
    let input = names(&["x", "y", "z"]);
    let first = generate(&input).unwrap();
    let second = generate(&input).unwrap();
    assert_eq!(first.propositions, second.propositions);
    assert_eq!(first.columns, second.columns);
}

#[test]
fn too_many_names_overflow() {
    let tokens: Vec<String> = (0..MAX_PROPOSITIONS + 1).map(|i| format!("p{i}")).collect();
    assert!(matches!(generate(&tokens), Err(OverflowError)));
}

#[test]
fn max_is_thirty_one() {
    assert_eq!(MAX_PROPOSITIONS, 31);
}

#[test]
fn generated_tables_pass_the_consistency_check() {
    for input in [vec![], names(&["P"]), names(&["a", "b", "c", "a"])] {
        let table = generate(&input).unwrap();
        assert!(table.check_well_formed());
    }
}

#[test]
fn corrupted_tables_fail_the_consistency_check() {
    let mut table = generate(&names(&["P", "Q"])).unwrap();
    table.columns[1][1] = TruthValue(true);
    assert!(!table.check_well_formed());

    let mut missing_column = generate(&names(&["P", "Q"])).unwrap();
    missing_column.columns.pop();
    assert!(!missing_column.check_well_formed());

    let mut duplicated_name = generate(&names(&["P", "Q"])).unwrap();
    duplicated_name.propositions[1] = "P".to_string();
    assert!(!duplicated_name.check_well_formed());
}

#[test]
fn rendered_table_shows_names_and_symbols() {
    let table = generate(&names(&["P", "Q"])).unwrap();
    let text = render(&table);
    assert!(text.contains('P'));
    assert!(text.contains('Q'));
    assert!(text.contains('V'));
    assert!(text.contains('F'));
}

#[test]
fn rendered_table_contains_full_names() {
    let table = generate(&names(&["alpha", "beta"])).unwrap();
    let text = render(&table);
    assert!(text.contains("alpha"));
    assert!(text.contains("beta"));
}

#[test]
fn rendered_symbols_match_cell_counts() {
    // Two propositions give four rows with four true and four false cells in
    // all; the names avoid the symbol letters so each `V`/`F` in the text is
    // one cell.
    let table = generate(&names(&["a", "b"])).unwrap();
    let text = render(&table);
    assert_eq!(text.chars().filter(|c| *c == 'V').count(), 4);
    assert_eq!(text.chars().filter(|c| *c == 'F').count(), 4);
}

#[test]
fn rendered_header_stands_above_the_rows() {
    let table = generate(&names(&["P"])).unwrap();
    let text = render(&table);
    let header = text.find('P').unwrap();
    let first_true = text.find('V').unwrap();
    let first_false = text.find('F').unwrap();
    assert!(header < first_true);
    assert!(first_true < first_false, "the true row renders above the false row");
}

#[test]
fn rendered_rows_follow_canonical_order() {
    let table = generate(&names(&["a", "b"])).unwrap();
    let text = render(&table);
    let symbols: String = text.chars().filter(|c| *c == 'V' || *c == 'F').collect();
    assert_eq!(symbols, "VVVFFVFF");
}

#[test]
fn rendered_empty_table_does_not_crash() {
    let table = generate(&Vec::new()).unwrap();
    let _ = render(&table);
}
