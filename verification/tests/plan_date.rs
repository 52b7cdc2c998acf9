use school_substitution_plan_alert::plan_date::{
    plan_date, read_date_parts, start_of_day, PlanDateError,
};

#[test]
fn date_is_read_from_its_line() {
    let text = "Vertretungsplan\nDatum: Montag, 20.09.2021\nKlasse 10A\n";
    assert_eq!(read_date_parts(text), Ok((20, 9, 2021)));
    assert_eq!(plan_date(text), Ok(1632096000));
}

#[test]
fn first_mark_and_last_comma_count() {
    let text = "x Datum: a, b, 1.2.3.4\nDatum: Dienstag, 5.6.7\n";
    assert_eq!(read_date_parts(text), Ok((1, 2, 3)));
    assert_eq!(read_date_parts("Datum: Mo,1.2.3, 04.05.2006\n"), Ok((4, 5, 2006)));
    assert_eq!(read_date_parts("Datum: , 0010.0002.1999\n"), Ok((10, 2, 1999)));
}

#[test]
fn missing_mark_is_reported() {
    assert_eq!(read_date_parts(""), Err(PlanDateError::DateNotFound));
    assert_eq!(read_date_parts("Datum:20.09.2021\n"), Err(PlanDateError::DateNotFound));
    assert_eq!(plan_date("datum: Mo, 20.09.2021\n"), Err(PlanDateError::DateNotFound));
}

#[test]
fn missing_line_end_is_reported() {
    assert_eq!(
        read_date_parts("first line\nDatum: Montag, 20.09.2021"),
        Err(PlanDateError::DateEndNotFound)
    );
    assert_eq!(plan_date("Datum: "), Err(PlanDateError::DateEndNotFound));
}

#[test]
fn parts_have_to_be_numbers() {
    assert_eq!(read_date_parts("Datum: 20.09.2021\n"), Err(PlanDateError::NotANumber));
    assert_eq!(read_date_parts("Datum: Mo, 20.Sep.2021\n"), Err(PlanDateError::NotANumber));
    assert_eq!(read_date_parts("Datum: Mo, 20.09.2021.\n"), Err(PlanDateError::NotANumber));
    assert_eq!(read_date_parts("Datum: Mo, 20.09.2021 \n"), Err(PlanDateError::NotANumber));
    assert_eq!(read_date_parts("Datum: Mo, 20.09.-2021\n"), Err(PlanDateError::NotANumber));
    assert_eq!(read_date_parts("Datum: Mo, 1.1.4294967296\n"), Err(PlanDateError::NotANumber));
    assert_eq!(read_date_parts("Datum: Mo, 1.1.4294967295\n"), Ok((1, 1, 4294967295)));
    assert_eq!(read_date_parts("Datum: Mo, \n"), Err(PlanDateError::NotANumber));
}

#[test]
fn three_parts_are_needed() {
    assert_eq!(read_date_parts("Datum: Mo, 20.09\n"), Err(PlanDateError::TooFewParts));
    assert_eq!(read_date_parts("Datum: Mo, 2021\n"), Err(PlanDateError::TooFewParts));
}

#[test]
fn day_has_to_exist() {
    assert_eq!(start_of_day(29, 2, 2024), Ok(1709164800));
    assert_eq!(start_of_day(1, 1, 1970), Ok(0));
    assert_eq!(start_of_day(29, 2, 2023), Err(PlanDateError::NoSuchDay));
    assert_eq!(start_of_day(0, 1, 2021), Err(PlanDateError::NoSuchDay));
    assert_eq!(start_of_day(1, 13, 2021), Err(PlanDateError::NoSuchDay));
    assert_eq!(start_of_day(1, 1, 4294967295), Err(PlanDateError::NoSuchDay));
    assert_eq!(plan_date("Datum: Mo, 31.04.2021\n"), Err(PlanDateError::NoSuchDay));
}

#[test]
fn errors_say_what_went_wrong() {
    assert_eq!(PlanDateError::DateNotFound.to_string(), "date not found");
    assert_eq!(PlanDateError::DateEndNotFound.to_string(), "date end not found");
    assert_eq!(PlanDateError::NotANumber.to_string(), "date part is not a number");
    assert_eq!(PlanDateError::TooFewParts.to_string(), "date has fewer than three parts");
    assert_eq!(PlanDateError::NoSuchDay.to_string(), "date is not a day of the calendar");
}
