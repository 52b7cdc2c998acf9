use school_substitution_plan_alert::substitution_pdf_getter::Weekdays;

#[test]
fn next_day_walks_the_school_week() {
    assert_eq!(Weekdays::Monday.next_day(), Weekdays::Tuesday);
    assert_eq!(Weekdays::Tuesday.next_day(), Weekdays::Wednesday);
    assert_eq!(Weekdays::Wednesday.next_day(), Weekdays::Thursday);
    assert_eq!(Weekdays::Thursday.next_day(), Weekdays::Friday);
    assert_eq!(Weekdays::Friday.next_day(), Weekdays::Monday);
}

#[test]
fn index_and_try_from_agree() {
    let days = [
        Weekdays::Monday,
        Weekdays::Tuesday,
        Weekdays::Wednesday,
        Weekdays::Thursday,
        Weekdays::Friday,
    ];
    for (position, day) in days.iter().enumerate() {
        assert_eq!(day.index(), position);
        assert_eq!(Weekdays::try_from(position as u8), Ok(*day));
    }
    assert_eq!(Weekdays::try_from(5u8), Err(()));
    assert_eq!(Weekdays::try_from(255u8), Err(()));
}

#[test]
fn weekend_counts_as_monday() {
    assert_eq!(Weekdays::from_days_from_monday(0), Weekdays::Monday);
    assert_eq!(Weekdays::from_days_from_monday(1), Weekdays::Tuesday);
    assert_eq!(Weekdays::from_days_from_monday(2), Weekdays::Wednesday);
    assert_eq!(Weekdays::from_days_from_monday(3), Weekdays::Thursday);
    assert_eq!(Weekdays::from_days_from_monday(4), Weekdays::Friday);
    assert_eq!(Weekdays::from_days_from_monday(5), Weekdays::Monday);
    assert_eq!(Weekdays::from_days_from_monday(6), Weekdays::Monday);
    assert_eq!(Weekdays::from_days_from_monday(7), Weekdays::Monday);
}

#[test]
fn names_and_sources() {
    assert_eq!(Weekdays::Monday.to_string(), "Monday");
    assert_eq!(Weekdays::Tuesday.name(), "Tuesday");
    assert_eq!(Weekdays::Wednesday.to_string(), "Wednesday");
    assert_eq!(Weekdays::Thursday.lower_name(), "thursday");
    assert_eq!(Weekdays::Friday.to_string(), "Friday");
    assert_eq!(
        Weekdays::Monday.source_url(),
        "https://buessing.schule/plaene/VertretungsplanA4_Montag.pdf"
    );
    assert_eq!(
        Weekdays::Tuesday.source_url(),
        "https://buessing.schule/plaene/VertretungsplanA4_Dienstag.pdf"
    );
    assert_eq!(
        Weekdays::Wednesday.source_url(),
        "https://buessing.schule/plaene/VertretungsplanA4_Mittwoch.pdf"
    );
    assert_eq!(
        Weekdays::Thursday.source_url(),
        "https://buessing.schule/plaene/VertretungsplanA4_Donnerstag.pdf"
    );
    assert_eq!(
        Weekdays::Friday.source_url(),
        "https://buessing.schule/plaene/VertretungsplanA4_Freitag.pdf"
    );
}

#[test]
fn least_distance_below_five_names_the_day() {
    assert_eq!(Weekdays::nearest(&[3, 2, 1, 4, 9]), Ok(Weekdays::Wednesday));
    assert_eq!(Weekdays::nearest(&[0, 0, 0, 0, 0]), Ok(Weekdays::Monday));
    assert_eq!(Weekdays::nearest(&[7, 4, 6, 4, 5]), Ok(Weekdays::Tuesday));
    assert_eq!(Weekdays::nearest(&[9, 9, 9, 9, 4]), Ok(Weekdays::Friday));
    assert_eq!(Weekdays::nearest(&[5, 5, 5, 5, 5]), Err(()));
    assert_eq!(Weekdays::nearest(&[7, 6, 5, 8, 100]), Err(()));
}

#[test]
fn names_are_matched_loosely() {
    assert_eq!(Weekdays::try_from_name("monday"), Ok(Weekdays::Monday));
    assert_eq!(Weekdays::try_from_name("TUESDAY"), Ok(Weekdays::Tuesday));
    assert_eq!(Weekdays::try_from_name("Wendesday"), Ok(Weekdays::Wednesday));
    assert_eq!(Weekdays::try_from_name("thursdy"), Ok(Weekdays::Thursday));
    assert_eq!(Weekdays::try_from_name("fri"), Ok(Weekdays::Friday));
    assert_eq!(Weekdays::try_from_name("a day far too long to be a weekday"), Err(()));
    assert_eq!(Weekdays::try_from_name("xxxxxxxxxxxx"), Err(()));
}
