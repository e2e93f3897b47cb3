use phrase_reducer::PhraseInfo;

#[test]
fn new_phrase_info_holds_one_part() {
    let info = PhraseInfo::new(String::from("perform"));
    assert_eq!(info.phrase_parts, vec![String::from("perform")]);
    assert_eq!(info.arguments, Vec::<usize>::new());
    assert_eq!(info.full_text(), "perform");
}

#[test]
fn full_text_joins_parts_with_separator() {
    let mut info = PhraseInfo::new(String::from("perform"));
    info.add_part(String::from("special"));
    info.add_part(String::from("task"));
    assert_eq!(info.full_text(), "perform_special_task");
}

#[test]
fn full_text_with_appends_one_more_part() {
    let mut info = PhraseInfo::new(String::from("perform"));
    info.add_part(String::from("special"));
    assert_eq!(info.full_text_with("task"), "perform_special_task");
    assert_eq!(info.full_text(), "perform_special");
}

#[test]
fn add_argument_collects_indices_in_order() {
    let mut info = PhraseInfo::new(String::from("perform"));
    info.add_argument(2);
    info.add_argument(7);
    assert_eq!(info.arguments, vec![2, 7]);
}
