use school_substitution_plan_alert::classes_and_users::ClassesAndUsers;

#[test]
fn test_insert_get_and_remove_user() {
    let mut classes_and_users = ClassesAndUsers::default();

    let class = "TEST";
    let class_2 = "TEST2";

    classes_and_users.insert_user(class.to_owned(), 1);
    classes_and_users.insert_user(class.to_owned(), 2);
    classes_and_users.insert_user(class_2.to_owned(), 1);
    classes_and_users.insert_user(class_2.to_owned(), 3);

    assert_eq!(classes_and_users.get_user_classes(1), vec![class.to_owned(), class_2.to_owned()]);
    assert_eq!(classes_and_users.get_user_classes(2), vec![class.to_owned()]);
    assert_eq!(classes_and_users.get_user_classes(3), vec![class_2.to_owned()]);

    classes_and_users.remove_user_from_class(class, 1);

    assert_eq!(classes_and_users.get_user_classes(1), vec![class_2.to_owned()]);
}
