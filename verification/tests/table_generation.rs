use school_substitution_plan_alert::discord_notifier::table_from_substitutions;
use school_substitution_plan_alert::substitutions::Substitutions;

fn full_and_sparse_expected_second_first() -> &'static str {
    "\
    ┌──────────┬────────┬───────┐\n\
    │          │ SECOND │ FIRST │\n\
    ├──────────┼────────┼───────┤\n\
    │ 0: 07:15 │ ZERO   │       │\n\
    │  - 08:00 │        │       │\n\
    ├──────────┼────────┼───────┤\n\
    │ 1: 08:00 │ ONE    │ ONE   │\n\
    │  - 09:30 │        │       │\n\
    ├──────────┼────────┼───────┤\n\
    │ 2: 09:50 │ TWO    │       │\n\
    │  - 11:20 │        │       │\n\
    ├──────────┼────────┼───────┤\n\
    │ 3: 11:40 │ THREE  │ THREE │\n\
    │  - 13:10 │        │       │\n\
    ├──────────┼────────┼───────┤\n\
    │ 4: 13:30 │ FOUR   │       │\n\
    │  - 15:00 │        │       │\n\
    ├──────────┼────────┼───────┤\n\
    │ 5: 15:15 │ FIVE   │ FIVE  │\n\
    │  - 16:45 │        │       │\n\
    └──────────┴────────┴───────┘\n"
}

fn full_and_sparse_expected_first_second() -> &'static str {
    "\
    ┌──────────┬───────┬────────┐\n\
    │          │ FIRST │ SECOND │\n\
    ├──────────┼───────┼────────┤\n\
    │ 0: 07:15 │       │ ZERO   │\n\
    │  - 08:00 │       │        │\n\
    ├──────────┼───────┼────────┤\n\
    │ 1: 08:00 │ ONE   │ ONE    │\n\
    │  - 09:30 │       │        │\n\
    ├──────────┼───────┼────────┤\n\
    │ 2: 09:50 │       │ TWO    │\n\
    │  - 11:20 │       │        │\n\
    ├──────────┼───────┼────────┤\n\
    │ 3: 11:40 │ THREE │ THREE  │\n\
    │  - 13:10 │       │        │\n\
    ├──────────┼───────┼────────┤\n\
    │ 4: 13:30 │       │ FOUR   │\n\
    │  - 15:00 │       │        │\n\
    ├──────────┼───────┼────────┤\n\
    │ 5: 15:15 │ FIVE  │ FIVE   │\n\
    │  - 16:45 │       │        │\n\
    └──────────┴───────┴────────┘\n"
}

fn inner_blocks_expected_second_first() -> &'static str {
    "\
    ┌──────────┬────────┬───────┐\n\
    │          │ SECOND │ FIRST │\n\
    ├──────────┼────────┼───────┤\n\
    │ 1: 08:00 │        │ ONE   │\n\
    │  - 09:30 │        │       │\n\
    ├──────────┼────────┼───────┤\n\
    │ 2: 09:50 │        │       │\n\
    │  - 11:20 │        │       │\n\
    ├──────────┼────────┼───────┤\n\
    │ 3: 11:40 │ THREE  │       │\n\
    │  - 13:10 │        │       │\n\
    ├──────────┼────────┼───────┤\n\
    │ 4: 13:30 │        │ FOUR  │\n\
    │  - 15:00 │        │       │\n\
    └──────────┴────────┴───────┘\n"
}

fn inner_blocks_expected_first_second() -> &'static str {
    "\
    ┌──────────┬───────┬────────┐\n\
    │          │ FIRST │ SECOND │\n\
    ├──────────┼───────┼────────┤\n\
    │ 1: 08:00 │ ONE   │        │\n\
    │  - 09:30 │       │        │\n\
    ├──────────┼───────┼────────┤\n\
    │ 2: 09:50 │       │        │\n\
    │  - 11:20 │       │        │\n\
    ├──────────┼───────┼────────┤\n\
    │ 3: 11:40 │       │ THREE  │\n\
    │  - 13:10 │       │        │\n\
    ├──────────┼───────┼────────┤\n\
    │ 4: 13:30 │ FOUR  │        │\n\
    │  - 15:00 │       │        │\n\
    └──────────┴───────┴────────┘\n"
}

#[test]
fn discord_test_table_generation() {
    let mut table_map = Vec::new();

    let mut first = Substitutions::new();
    let _ = first.block_1.insert("ONE".to_owned());
    let _ = first.block_3.insert("THREE".to_owned());
    let _ = first.block_5.insert("FIVE".to_owned());
    table_map.push(("FIRST".to_owned(), &first));

    let mut second = Substitutions::new();
    let _ = second.block_0.insert("ZERO".to_owned());
    let _ = second.block_1.insert("ONE".to_owned());
    let _ = second.block_2.insert("TWO".to_owned());
    let _ = second.block_3.insert("THREE".to_owned());
    let _ = second.block_4.insert("FOUR".to_owned());
    let _ = second.block_5.insert("FIVE".to_owned());
    table_map.push(("SECOND".to_owned(), &second));

    let out = table_from_substitutions(&table_map);

    let expected_1 = full_and_sparse_expected_second_first();
    let expected_2 = full_and_sparse_expected_first_second();

    assert!(out.to_string() == expected_1 || out.to_string() == expected_2);
}

#[test]
fn discord_test_table_generation_2() {
    let mut table_map = Vec::new();

    let mut first = Substitutions::new();
    let _ = first.block_1.insert("ONE".to_owned());
    let _ = first.block_4.insert("FOUR".to_owned());
    table_map.push(("FIRST".to_owned(), &first));

    let mut second = Substitutions::new();
    let _ = second.block_3.insert("THREE".to_owned());
    table_map.push(("SECOND".to_owned(), &second));

    let out = table_from_substitutions(&table_map);

    let expected_1 = inner_blocks_expected_second_first();
    let expected_2 = inner_blocks_expected_first_second();

    assert!(out.to_string() == expected_1 || out.to_string() == expected_2);
}

#[test]
fn discord_notifier_test_table_generation() {
    let mut table_map = Vec::new();

    let mut first = Substitutions::new();
    let _ = first.block_1.insert("ONE".to_owned());
    let _ = first.block_3.insert("THREE".to_owned());
    let _ = first.block_5.insert("FIVE".to_owned());
    table_map.push(("FIRST".to_owned(), &first));

    let mut second = Substitutions::new();
    let _ = second.block_0.insert("ZERO".to_owned());
    let _ = second.block_1.insert("ONE".to_owned());
    let _ = second.block_2.insert("TWO".to_owned());
    let _ = second.block_3.insert("THREE".to_owned());
    let _ = second.block_4.insert("FOUR".to_owned());
    let _ = second.block_5.insert("FIVE".to_owned());
    table_map.push(("SECOND".to_owned(), &second));

    let out = table_from_substitutions(&table_map);

    let expected_1 = full_and_sparse_expected_second_first();
    let expected_2 = full_and_sparse_expected_first_second();

    assert!(out.to_string() == expected_1 || out.to_string() == expected_2);
}

#[test]
fn discord_notifier_test_table_generation_2() {
    let mut table_map = Vec::new();

    let mut first = Substitutions::new();
    let _ = first.block_1.insert("ONE".to_owned());
    let _ = first.block_4.insert("FOUR".to_owned());
    table_map.push(("FIRST".to_owned(), &first));

    let mut second = Substitutions::new();
    let _ = second.block_3.insert("THREE".to_owned());
    table_map.push(("SECOND".to_owned(), &second));

    let out = table_from_substitutions(&table_map);

    let expected_1 = inner_blocks_expected_second_first();
    let expected_2 = inner_blocks_expected_first_second();

    assert!(out.to_string() == expected_1 || out.to_string() == expected_2);
}
