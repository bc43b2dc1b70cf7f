use icli::builder::build_command;
use icli::model::CliOption;

fn bool_flag(short: Option<char>, long: Option<&str>) -> CliOption {
    CliOption::new(short, long.map(|l| l.to_string()), String::new(), false, None, None)
}

#[test]
fn test_base_alone_when_nothing_selected() {
    let base = vec!["ls".to_string()];
    let opts = vec![bool_flag(Some('a'), Some("all")), bool_flag(Some('l'), None)];
    assert_eq!(build_command(&base, &opts), "ls");
}

#[test]
fn test_base_tokens_joined() {
    let base = vec!["git".to_string(), "commit".to_string()];
    assert_eq!(build_command(&base, &[]), "git commit");
}

#[test]
fn test_selected_options_appended_in_order() {
    let base = vec!["ls".to_string()];
    let mut a = bool_flag(Some('a'), Some("all"));
    let mut l = bool_flag(Some('l'), None);
    a.selected = true;
    l.selected = true;
    assert_eq!(build_command(&base, &[a, l]), "ls --all -l");
}

#[test]
fn test_order_is_extraction_order_not_toggle_order() {
    let base = vec!["ls".to_string()];
    let mut first = vec![bool_flag(Some('a'), None), bool_flag(Some('b'), None)];
    let mut second = vec![bool_flag(Some('a'), None), bool_flag(Some('b'), None)];
    // toggle 0 then 1 in one set, 1 then 0 in the other
    first[0].selected = true;
    first[1].selected = true;
    second[1].selected = true;
    second[0].selected = true;
    assert_eq!(build_command(&base, &first), build_command(&base, &second));
    assert_eq!(build_command(&base, &first), "ls -a -b");
}

#[test]
fn test_repeated_calls_are_identical() {
    let base = vec!["ls".to_string()];
    let mut a = bool_flag(Some('a'), Some("all"));
    a.selected = true;
    let opts = vec![a];
    let once = build_command(&base, &opts);
    let twice = build_command(&base, &opts);
    assert_eq!(once, twice);
}

#[test]
fn test_value_taking_option_without_value_is_skipped() {
    let base = vec!["ls".to_string()];
    let mut o = CliOption::new(
        None,
        Some("output".to_string()),
        String::new(),
        true,
        Some("FILE".to_string()),
        None,
    );
    o.selected = true;
    assert_eq!(build_command(&base, &[o]), "ls");
}
