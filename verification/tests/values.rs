use school_substitution_plan_alert::error::StringError;
use school_substitution_plan_alert::substitutions::Substitutions;
use school_substitution_plan_alert::util::sanitize_and_check_register_class_input;

#[test]
fn string_error_is_its_message() {
    assert_eq!(StringError::new("broken").to_string(), "broken");
    assert_eq!(StringError::from("from str").to_string(), "from str");
    assert_eq!(StringError::from("owned".to_owned()).to_string(), "owned");
    assert_eq!(StringError::new("").clone().to_string(), "");
}

#[test]
fn new_substitutions_have_no_text() {
    let record = Substitutions::new();
    for block in record.as_array() {
        assert_eq!(*block, None);
    }
    assert_eq!(record.first_substitution(), 0);
    assert_eq!(record.last_substitution(), 5);
}

#[test]
fn first_and_last_substitution_are_the_outermost_texts() {
    let mut record = Substitutions::new();
    record.block_3 = Some("three".to_owned());
    assert_eq!(record.first_substitution(), 3);
    assert_eq!(record.last_substitution(), 3);
    record.block_1 = Some("".to_owned());
    assert_eq!(record.first_substitution(), 1);
    assert_eq!(record.last_substitution(), 3);
    record.block_5 = Some("five".to_owned());
    record.block_0 = Some("zero".to_owned());
    assert_eq!(record.first_substitution(), 0);
    assert_eq!(record.last_substitution(), 5);
}

#[test]
fn as_array_lists_the_blocks_in_order() {
    let mut record = Substitutions::new();
    record.block_0 = Some("0".to_owned());
    record.block_2 = Some("2".to_owned());
    record.block_5 = Some("5".to_owned());
    let blocks = record.as_array();
    assert_eq!(*blocks[0], Some("0".to_owned()));
    assert_eq!(*blocks[1], None);
    assert_eq!(*blocks[2], Some("2".to_owned()));
    assert_eq!(*blocks[3], None);
    assert_eq!(*blocks[4], None);
    assert_eq!(*blocks[5], Some("5".to_owned()));
}

#[test]
fn append_joins_lines_and_skips_empty_cells() {
    let mut record = Substitutions::new();
    record.append(2, &"".to_owned());
    assert_eq!(record.block_2, None);
    record.append(2, &"first".to_owned());
    assert_eq!(record.block_2, Some("first".to_owned()));
    record.append(2, &"".to_owned());
    assert_eq!(record.block_2, Some("first".to_owned()));
    record.append(2, &"second".to_owned());
    assert_eq!(record.block_2, Some("first\nsecond".to_owned()));
    record.append(0, &"a".to_owned());
    record.append(1, &"b".to_owned());
    record.append(3, &"d".to_owned());
    record.append(4, &"e".to_owned());
    record.append(5, &"f".to_owned());
    assert_eq!(record.block_0, Some("a".to_owned()));
    assert_eq!(record.block_1, Some("b".to_owned()));
    assert_eq!(record.block_3, Some("d".to_owned()));
    assert_eq!(record.block_4, Some("e".to_owned()));
    assert_eq!(record.block_5, Some("f".to_owned()));
}

#[test]
fn equality_looks_at_every_block() {
    let mut a = Substitutions::new();
    let mut b = Substitutions::new();
    assert!(a == b);
    a.block_4 = Some("x".to_owned());
    assert!(a != b);
    b.block_4 = Some("x".to_owned());
    assert!(a == b);
    b.block_4 = Some("y".to_owned());
    assert!(a != b);
    b.block_4 = Some("x".to_owned());
    b.block_0 = Some("".to_owned());
    assert!(a != b);
    assert!(a.clone() == a);
    assert!(b.clone() == b);
}

#[test]
fn sanitize_says_why_it_refuses() {
    assert_eq!(
        sanitize_and_check_register_class_input("B2").unwrap_err().to_string(),
        "Argument too short"
    );
    assert_eq!(
        sanitize_and_check_register_class_input("B.2.X").unwrap_err().to_string(),
        "Argument too short"
    );
    assert_eq!(
        sanitize_and_check_register_class_input("ELIAS").unwrap_err().to_string(),
        "Argument is incorrectly formatted"
    );
    assert_eq!(
        sanitize_and_check_register_class_input("1234567420").unwrap_err().to_string(),
        "Argument is incorrectly formatted"
    );
}

#[test]
fn sanitize_counts_bytes_and_raises_case() {
    assert_eq!(sanitize_and_check_register_class_input("bgym19.1").unwrap(), "BGYM191");
    assert_eq!(sanitize_and_check_register_class_input("ä1").unwrap_err().to_string(), "Argument too short");
    assert_eq!(sanitize_and_check_register_class_input("äö1").unwrap(), "ÄÖ1");
    assert_eq!(sanitize_and_check_register_class_input("straße7").unwrap(), "STRASSE7");
    assert_eq!(sanitize_and_check_register_class_input("BGY/@;19[1").unwrap(), "BGY/@;19[1");
}
