use std::collections::HashSet;

use school_substitution_plan_alert::classes_and_users::ClassesAndUsers;
use school_substitution_plan_alert::differ::{diff, has_changed};
use school_substitution_plan_alert::substitution_schedule::SubstitutionSchedule;

fn one_class_page(class: &str, blocks: [&str; 6]) -> Vec<Vec<String>> {
    let mut page = vec![vec!["".to_owned(), class.to_owned()]];
    for block in blocks {
        page.push(vec!["-".to_owned(), block.to_owned()]);
    }
    page
}

fn schedule_of(classes: &[(&str, [&str; 6])]) -> SubstitutionSchedule {
    let mut tables = Vec::new();
    for (class, blocks) in classes {
        tables.push(one_class_page(class, *blocks));
    }
    SubstitutionSchedule::from_table_at(&tables, 0, 0, '-').unwrap()
}

fn users(ids: &[u64]) -> HashSet<u64> {
    let mut set = HashSet::new();
    for id in ids {
        set.insert(*id);
    }
    set
}

#[test]
fn changed_block_notifies_all_subscribers_of_the_class() {
    let mut registry = ClassesAndUsers::default();
    registry.insert_user("10A".to_owned(), 1);
    registry.insert_user("10A".to_owned(), 2);
    let previous = schedule_of(&[("10A", ["", "", "Room 5", "", "", ""])]);
    let current = schedule_of(&[("10A", ["", "", "Room 7", "", "", ""])]);
    assert_eq!(diff(Some(&previous), &current, &registry), users(&[1, 2]));
}

#[test]
fn first_run_notifies_without_comparing() {
    let mut registry = ClassesAndUsers::default();
    registry.insert_user("10A".to_owned(), 5);
    let current = schedule_of(&[("10A", ["anything", "", "", "", "", ""])]);
    assert_eq!(diff(None, &current, &registry), users(&[5]));
    let blank = schedule_of(&[("10A", ["", "", "", "", "", ""])]);
    assert_eq!(diff(None, &blank, &registry), users(&[5]));
}

#[test]
fn class_new_in_the_current_schedule_counts_as_changed() {
    let mut registry = ClassesAndUsers::default();
    registry.insert_user("10A".to_owned(), 1);
    registry.insert_user("10B".to_owned(), 2);
    let previous = schedule_of(&[("10A", ["x", "", "", "", "", ""])]);
    let current =
        schedule_of(&[("10A", ["x", "", "", "", "", ""]), ("10B", ["", "", "", "", "", ""])]);
    assert!(has_changed(Some(&previous), &current, "10B"));
    assert!(!has_changed(Some(&previous), &current, "10A"));
    assert_eq!(diff(Some(&previous), &current, &registry), users(&[2]));
}

#[test]
fn same_schedule_notifies_nobody() {
    let mut registry = ClassesAndUsers::default();
    registry.insert_user("10A".to_owned(), 1);
    registry.insert_user("10B".to_owned(), 2);
    let previous =
        schedule_of(&[("10A", ["x", "", "y\nz", "", "", ""]), ("10B", ["", "", "", "", "", "w"])]);
    let current =
        schedule_of(&[("10A", ["x", "", "y\nz", "", "", ""]), ("10B", ["", "", "", "", "", "w"])]);
    assert_eq!(diff(Some(&previous), &current, &registry), users(&[]));
}

#[test]
fn class_missing_from_the_current_schedule_is_skipped() {
    let mut registry = ClassesAndUsers::default();
    registry.insert_user("10A".to_owned(), 1);
    registry.insert_user("10B".to_owned(), 2);
    let previous = schedule_of(&[("10A", ["x", "", "", "", "", ""])]);
    let current = schedule_of(&[("10C", ["x", "", "", "", "", ""])]);
    assert!(!has_changed(Some(&previous), &current, "10A"));
    assert!(!has_changed(None, &current, "10B"));
    assert_eq!(diff(Some(&previous), &current, &registry), users(&[]));
    assert_eq!(diff(None, &current, &registry), users(&[]));
}

#[test]
fn change_in_any_single_block_is_a_change() {
    let base = ["a", "b", "c", "d", "e", "f"];
    let previous = schedule_of(&[("10A", base)]);
    for slot in 0..6 {
        let mut other = base;
        other[slot] = "changed";
        let current = schedule_of(&[("10A", other)]);
        assert!(has_changed(Some(&previous), &current, "10A"));
        let mut gone = base;
        gone[slot] = "";
        let current = schedule_of(&[("10A", gone)]);
        assert!(has_changed(Some(&previous), &current, "10A"));
        assert!(has_changed(Some(&current), &previous, "10A"));
    }
    let same = schedule_of(&[("10A", base)]);
    assert!(!has_changed(Some(&previous), &same, "10A"));
}

#[test]
fn subscriber_of_several_changed_classes_is_named_once() {
    let mut registry = ClassesAndUsers::default();
    registry.insert_user("10A".to_owned(), 1);
    registry.insert_user("10B".to_owned(), 1);
    registry.insert_user("10B".to_owned(), 3);
    registry.insert_user("10C".to_owned(), 4);
    let previous = schedule_of(&[
        ("10A", ["", "", "", "", "", ""]),
        ("10B", ["", "", "", "", "", ""]),
        ("10C", ["same", "", "", "", "", ""]),
    ]);
    let current = schedule_of(&[
        ("10A", ["new", "", "", "", "", ""]),
        ("10B", ["", "new", "", "", "", ""]),
        ("10C", ["same", "", "", "", "", ""]),
    ]);
    let found = diff(Some(&previous), &current, &registry);
    assert_eq!(found.len(), 2);
    assert_eq!(found, users(&[1, 3]));
}

#[test]
fn rebuilt_from_its_own_table_a_schedule_has_not_changed() {
    let mut registry = ClassesAndUsers::default();
    registry.insert_user("10A".to_owned(), 1);
    registry.insert_user("10B".to_owned(), 2);
    let first = schedule_of(&[
        ("10A", ["x", "", "two\nlines", "", "", ""]),
        ("10B", ["", "", "", "", "", "late"]),
    ]);
    let rebuilt = SubstitutionSchedule::from_table_at(&first.to_table(), 0, 0, '-').unwrap();
    assert_eq!(diff(Some(&first), &rebuilt, &registry), users(&[]));
    assert_eq!(diff(Some(&rebuilt), &first, &registry), users(&[]));
}

#[test]
fn empty_registry_notifies_nobody() {
    let registry = ClassesAndUsers::default();
    let current = schedule_of(&[("10A", ["x", "", "", "", "", ""])]);
    assert_eq!(diff(None, &current, &registry), users(&[]));
}
