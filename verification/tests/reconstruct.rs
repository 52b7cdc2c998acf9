use school_substitution_plan_alert::substitution_schedule::{
    table_to_substitutions, MalformedTableError, SubstitutionSchedule,
};
use school_substitution_plan_alert::substitutions::Substitutions;

fn row(cells: &[&str]) -> Vec<String> {
    let mut made = Vec::new();
    for cell in cells {
        made.push((*cell).to_owned());
    }
    made
}

fn page(rows: &[&[&str]]) -> Vec<Vec<String>> {
    let mut made = Vec::new();
    for cells in rows {
        made.push(row(cells));
    }
    made
}

fn blocks(substitutions: &Substitutions) -> Vec<Option<String>> {
    let mut made = Vec::new();
    for block in substitutions.as_array() {
        made.push(block.clone());
    }
    made
}

fn texts(expected: &[Option<&str>]) -> Vec<Option<String>> {
    let mut made = Vec::new();
    for text in expected {
        made.push(text.map(|t| t.to_owned()));
    }
    made
}

#[test]
fn one_row_per_block_fills_each_block() {
    let tables = vec![page(&[
        &["", "10A", "10B"],
        &["-1", "Math", ""],
        &["-2", "", "Art"],
        &["-3", "Room 5", ""],
        &["-4", "", ""],
        &["-5", "PE", "PE"],
        &["-6", "", "Home"],
    ])];
    let schedule = SubstitutionSchedule::from_table_at(&tables, 1632096000, 77, '-').unwrap();
    assert_eq!(schedule.pdf_create_date, 1632096000);
    assert_eq!(
        blocks(schedule.get_substitutions("10A").unwrap()),
        texts(&[Some("Math"), None, Some("Room 5"), None, Some("PE"), None])
    );
    assert_eq!(
        blocks(schedule.get_substitutions("10B").unwrap()),
        texts(&[None, Some("Art"), None, None, Some("PE"), Some("Home")])
    );
    assert!(schedule.get_substitutions("10C").is_none());
    assert_eq!(schedule._get_entries().len(), 2);
}

#[test]
fn rows_before_the_terminator_add_lines_to_the_same_block() {
    let tables = vec![page(&[
        &["", "10A", "10B"],
        &["1", "first", ""],
        &["", "", "only"],
        &["-", "second", ""],
        &["-", "", ""],
        &["2", "a", "x"],
        &["", "b", ""],
        &["-", "c", "y"],
        &["-", "", ""],
        &["-", "", ""],
        &["-", "", ""],
    ])];
    let schedule = SubstitutionSchedule::from_table_at(&tables, 0, 0, '-').unwrap();
    assert_eq!(
        blocks(schedule.get_substitutions("10A").unwrap()),
        texts(&[Some("first\nsecond"), None, Some("a\nb\nc"), None, None, None])
    );
    assert_eq!(
        blocks(schedule.get_substitutions("10B").unwrap()),
        texts(&[Some("only"), None, Some("x\ny"), None, None, None])
    );
}

#[test]
fn page_with_empty_cells_yields_every_class_without_text() {
    let tables = vec![page(&[
        &["", "10A", "10B", "11C"],
        &["-", "", "", ""],
        &["-", "", "", ""],
        &["x", "", "", ""],
        &["-", "", "", ""],
        &["-", "", "", ""],
        &["-", "", "", ""],
        &["-", "", "", ""],
    ])];
    let schedule = SubstitutionSchedule::from_table(&tables, 5).unwrap();
    assert_eq!(schedule._get_entries().len(), 3);
    for class in ["10A", "10B", "11C"] {
        assert_eq!(
            blocks(schedule.get_substitutions(class).unwrap()),
            texts(&[None, None, None, None, None, None])
        );
    }
}

#[test]
fn page_without_terminators_is_malformed() {
    let tables = vec![page(&[&["", "10A"], &["", ""]])];
    let error = SubstitutionSchedule::from_table_at(&tables, 0, 0, '-').unwrap_err();
    assert_eq!(error, MalformedTableError { page: 0, row: 2 });
}

#[test]
fn header_without_classes_yields_no_entries() {
    let tables = vec![page(&[&[""], &["whatever"]]), page(&[&[]])];
    let schedule = SubstitutionSchedule::from_table_at(&tables, 0, 0, '-').unwrap();
    assert_eq!(schedule._get_entries().len(), 0);
    assert!(schedule.get_substitutions("").is_none());
    assert_eq!(table_to_substitutions(&page(&[&["only a label"]]), '-').unwrap().len(), 0);
}

#[test]
fn no_pages_yield_an_empty_schedule() {
    let tables: Vec<Vec<Vec<String>>> = Vec::new();
    let schedule = SubstitutionSchedule::from_table_at(&tables, 3, 4, '-').unwrap();
    assert_eq!(schedule._get_entries().len(), 0);
    assert_eq!(schedule.pdf_create_date, 3);
}

#[test]
fn page_without_rows_is_malformed_at_row_0() {
    let tables = vec![page(&[])];
    let error = SubstitutionSchedule::from_table_at(&tables, 0, 0, '-').unwrap_err();
    assert_eq!(error, MalformedTableError { page: 0, row: 0 });
    assert_eq!(table_to_substitutions(&page(&[]), '-').unwrap_err(), 0);
}

#[test]
fn rows_running_out_are_reported_at_the_missing_row() {
    let tables = vec![
        page(&[&["", "10A"], &["-", ""], &["-", ""], &["-", ""], &["-", ""], &["-", ""], &["-", ""]]),
        page(&[&["", "10B"], &["-", "a"], &["-", "b"], &["-", "c"], &["-", "d"], &["", "e"]]),
    ];
    let error = SubstitutionSchedule::from_table_at(&tables, 0, 0, '-').unwrap_err();
    assert_eq!(error, MalformedTableError { page: 1, row: 6 });
}

#[test]
fn short_row_is_reported() {
    let tables = vec![page(&[
        &["", "10A", "10B"],
        &["-", "a", "b"],
        &["-", "a"],
        &["-", "a", "b"],
        &["-", "a", "b"],
        &["-", "a", "b"],
        &["-", "a", "b"],
    ])];
    let error = SubstitutionSchedule::from_table_at(&tables, 0, 0, '-').unwrap_err();
    assert_eq!(error, MalformedTableError { page: 0, row: 2 });
}

#[test]
fn long_row_is_reported() {
    let tables = vec![page(&[
        &["", "10A"],
        &["-", "a"],
        &["-", "a"],
        &["-", "a"],
        &["", "a", "b"],
        &["-", "a"],
        &["-", "a"],
        &["-", "a"],
    ])];
    let error = SubstitutionSchedule::from_table_at(&tables, 0, 0, '-').unwrap_err();
    assert_eq!(error, MalformedTableError { page: 0, row: 4 });
}

#[test]
fn rows_after_the_sixth_group_are_ignored() {
    let tables = vec![page(&[
        &["", "10A"],
        &["-", "0"],
        &["-", "1"],
        &["-", "2"],
        &["-", "3"],
        &["-", "4"],
        &["-", "5"],
        &["-", "6", "too wide"],
        &[],
    ])];
    let schedule = SubstitutionSchedule::from_table_at(&tables, 0, 0, '-').unwrap();
    assert_eq!(
        blocks(schedule.get_substitutions("10A").unwrap()),
        texts(&[Some("0"), Some("1"), Some("2"), Some("3"), Some("4"), Some("5")])
    );
}

#[test]
fn later_page_replaces_the_entry_of_an_earlier_page() {
    let tables = vec![
        page(&[
            &["", "10A", "10B"],
            &["-", "old", "keep"],
            &["-", "old", ""],
            &["-", "", ""],
            &["-", "", ""],
            &["-", "", ""],
            &["-", "", ""],
        ]),
        page(&[
            &["", "10A", "10C"],
            &["-", "", "new class"],
            &["-", "", ""],
            &["-", "", ""],
            &["-", "new", ""],
            &["-", "", ""],
            &["-", "", ""],
        ]),
    ];
    let schedule = SubstitutionSchedule::from_table_at(&tables, 0, 0, '-').unwrap();
    assert_eq!(schedule._get_entries().len(), 3);
    assert_eq!(
        blocks(schedule.get_substitutions("10A").unwrap()),
        texts(&[None, None, None, Some("new"), None, None])
    );
    assert_eq!(
        blocks(schedule.get_substitutions("10B").unwrap()),
        texts(&[Some("keep"), None, None, None, None, None])
    );
    assert_eq!(
        blocks(schedule.get_substitutions("10C").unwrap()),
        texts(&[Some("new class"), None, None, None, None, None])
    );
}

#[test]
fn columns_with_the_same_class_feed_one_entry() {
    let tables = vec![page(&[
        &["", "10A", "10B", "10A"],
        &["", "a", "x", "b"],
        &["-", "c", "", "d"],
        &["-", "", "", ""],
        &["-", "", "", "e"],
        &["-", "", "", ""],
        &["-", "", "", ""],
        &["-", "", "", ""],
    ])];
    let schedule = SubstitutionSchedule::from_table_at(&tables, 0, 0, '-').unwrap();
    assert_eq!(schedule._get_entries().len(), 2);
    assert_eq!(
        blocks(schedule.get_substitutions("10A").unwrap()),
        texts(&[Some("a\nb\nc\nd"), None, Some("e"), None, None, None])
    );
}

#[test]
fn only_a_leading_dash_ends_a_group() {
    let tables = vec![page(&[
        &["", "10A"],
        &["1 - 2", "a"],
        &["–", "b"],
        &[" -", "c"],
        &["-", "d"],
        &["----", "e"],
        &["-", ""],
        &["-", ""],
        &["-", ""],
        &["-", ""],
    ])];
    let schedule = SubstitutionSchedule::from_table_at(&tables, 0, 0, '-').unwrap();
    assert_eq!(
        blocks(schedule.get_substitutions("10A").unwrap()),
        texts(&[Some("a\nb\nc\nd"), Some("e"), None, None, None, None])
    );
}

#[test]
fn portion_keeps_the_order_of_the_list_and_skips_unknown_classes() {
    let tables = vec![page(&[
        &["", "10A", "10B", "10C"],
        &["-", "a", "b", "c"],
        &["-", "", "", ""],
        &["-", "", "", ""],
        &["-", "", "", ""],
        &["-", "", "", ""],
        &["-", "", "", ""],
    ])];
    let schedule = SubstitutionSchedule::from_table_at(&tables, 0, 0, '-').unwrap();
    let classes = vec!["10C".to_owned(), "11X".to_owned(), "10A".to_owned()];
    let portion = schedule._get_entries_portion(&classes);
    assert_eq!(portion.len(), 2);
    assert_eq!(portion[0].0, "10C");
    assert_eq!(portion[0].1.block_0, Some("c".to_owned()));
    assert_eq!(portion[1].0, "10A");
    assert_eq!(portion[1].1.block_0, Some("a".to_owned()));
}

#[test]
fn written_table_is_read_back_as_the_same_schedule() {
    let tables = vec![page(&[
        &["", "10A", "10B"],
        &["1", "first", ""],
        &["-", "second", ""],
        &["-", "", "x"],
        &["-", "", ""],
        &["-", "", ""],
        &["-", "", ""],
        &["-", "last", ""],
    ])];
    let schedule = SubstitutionSchedule::from_table_at(&tables, 9, 0, '-').unwrap();
    let written = schedule.to_table();
    assert_eq!(
        written,
        vec![page(&[
            &["", "10A", "10B"],
            &["-", "first\nsecond", ""],
            &["-", "", "x"],
            &["-", "", ""],
            &["-", "", ""],
            &["-", "", ""],
            &["-", "last", ""],
        ])]
    );
    let again = SubstitutionSchedule::from_table_at(&written, 9, 0, '-').unwrap();
    assert_eq!(again._get_entries().len(), 2);
    for class in ["10A", "10B"] {
        assert!(again.get_substitutions(class).unwrap() == schedule.get_substitutions(class).unwrap());
    }
}

#[test]
fn outdated_means_dated_before_the_given_day() {
    let tables: Vec<Vec<Vec<String>>> = Vec::new();
    let schedule = SubstitutionSchedule::from_table_at(&tables, 1632096000, 0, '-').unwrap();
    assert!(schedule.is_outdated(1632096001));
    assert!(!schedule.is_outdated(1632096000));
    assert!(!schedule.is_outdated(1632009600));
}

#[test]
fn another_mark_can_end_the_groups() {
    let tables = vec![page(&[
        &["", "10A"],
        &["-", "a"],
        &["#1", "b"],
        &["#", ""],
        &["#", ""],
        &["#", ""],
        &["#", ""],
        &["#", "f"],
    ])];
    let schedule = SubstitutionSchedule::from_table_at(&tables, 0, 0, '#').unwrap();
    assert_eq!(
        blocks(schedule.get_substitutions("10A").unwrap()),
        texts(&[Some("a\nb"), None, None, None, None, Some("f")])
    );
    let error = SubstitutionSchedule::from_table_at(&tables, 0, 0, '-').unwrap_err();
    assert_eq!(error, MalformedTableError { page: 0, row: 8 });
}
