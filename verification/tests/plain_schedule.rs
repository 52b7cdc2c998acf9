use school_substitution_plan_alert::jonas::{SubstitutionSchedule, Substitutions};
use school_substitution_plan_alert::substitution_schedule::MalformedTableError;

fn page(rows: &[&[&str]]) -> Vec<Vec<String>> {
    let mut made = Vec::new();
    for cells in rows {
        let mut row = Vec::new();
        for cell in *cells {
            row.push((*cell).to_owned());
        }
        made.push(row);
    }
    made
}

#[test]
fn new_record_holds_six_empty_texts() {
    let record = Substitutions::new();
    assert_eq!(record.block_0, "");
    assert_eq!(record.block_1, "");
    assert_eq!(record.block_2, "");
    assert_eq!(record.block_3, "");
    assert_eq!(record.block_4, "");
    assert_eq!(record.block_5, "");
}

#[test]
fn blocks_are_plain_texts() {
    let mut csv = page(&[
        &["", "10A", "10B"],
        &["1", "a", ""],
        &["-", "b", ""],
        &["-", "", "x"],
        &["-", "", ""],
        &["-", "", ""],
        &["-", "", ""],
        &["-", "z", ""],
    ]);
    let before = csv.clone();
    let schedule = SubstitutionSchedule::from_csv(&mut csv).unwrap();
    assert_eq!(csv, before);
    let first = schedule.get_substitutions("10A").unwrap();
    assert_eq!(first.block_0, "a\nb");
    assert_eq!(first.block_1, "");
    assert_eq!(first.block_5, "z");
    let second = schedule.get_substitutions("10B").unwrap();
    assert_eq!(second.block_0, "");
    assert_eq!(second.block_1, "x");
    assert!(schedule.get_substitutions("10C").is_none());
}

#[test]
fn malformed_page_is_reported() {
    let mut csv = page(&[&["", "10A"], &["-", "a"], &["-"]]);
    assert_eq!(
        SubstitutionSchedule::from_csv(&mut csv).unwrap_err(),
        MalformedTableError { page: 0, row: 2 }
    );
}
