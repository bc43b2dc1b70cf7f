use icli::model::CliOption;

fn bool_flag(short: Option<char>, long: Option<&str>) -> CliOption {
    CliOption::new(
        short,
        long.map(|l| l.to_string()),
        "a description".to_string(),
        false,
        None,
        None,
    )
}

fn choice_flag(long: &str, choices: &[&str]) -> CliOption {
    CliOption::new(
        None,
        Some(long.to_string()),
        "a description".to_string(),
        true,
        Some("WHEN".to_string()),
        Some(choices.iter().map(|c| c.to_string()).collect()),
    )
}

fn value_flag(long: &str) -> CliOption {
    CliOption::new(
        None,
        Some(long.to_string()),
        "a description".to_string(),
        true,
        Some("FILE".to_string()),
        None,
    )
}

#[test]
fn test_new_defaults() {
    let o = bool_flag(Some('v'), Some("verbose"));
    assert!(!o.selected);
    assert_eq!(o.value, "");
    assert_eq!(o.choice_index, 0);
}

#[test]
fn test_to_arg_unselected_is_none() {
    let mut o = choice_flag("color", &["auto", "always"]);
    assert_eq!(o.to_arg(), None);
    o.value = "filled".to_string();
    o.choice_index = 1;
    assert_eq!(o.to_arg(), None);
    let b = bool_flag(Some('v'), Some("verbose"));
    assert_eq!(b.to_arg(), None);
}

#[test]
fn test_to_arg_boolean_long() {
    let mut o = bool_flag(Some('v'), Some("verbose"));
    o.selected = true;
    assert_eq!(o.to_arg(), Some("--verbose".to_string()));
}

#[test]
fn test_to_arg_boolean_short_only() {
    let mut o = bool_flag(Some('v'), None);
    o.selected = true;
    assert_eq!(o.to_arg(), Some("-v".to_string()));
}

#[test]
fn test_to_arg_nameless_is_none() {
    let mut o = bool_flag(None, None);
    o.selected = true;
    assert_eq!(o.to_arg(), None);
}

#[test]
fn test_to_arg_choice_uses_current_choice() {
    let mut o = choice_flag("color", &["auto", "always", "never"]);
    o.selected = true;
    assert_eq!(o.to_arg(), Some("--color auto".to_string()));
    o.next_choice();
    assert_eq!(o.to_arg(), Some("--color always".to_string()));
}

#[test]
fn test_to_arg_value_nonempty() {
    let mut o = value_flag("output");
    o.selected = true;
    o.value = "out.txt".to_string();
    assert_eq!(o.to_arg(), Some("--output out.txt".to_string()));
}

#[test]
fn test_to_arg_value_missing_is_none() {
    let mut o = value_flag("output");
    o.selected = true;
    assert_eq!(o.to_arg(), None);
}

#[test]
fn test_next_choice_wraps_to_first() {
    let mut o = choice_flag("color", &["auto", "always", "never"]);
    o.choice_index = 2;
    o.next_choice();
    assert_eq!(o.choice_index, 0);
}

#[test]
fn test_prev_choice_wraps_to_last() {
    let mut o = choice_flag("color", &["auto", "always", "never"]);
    o.prev_choice();
    assert_eq!(o.choice_index, 2);
    o.prev_choice();
    assert_eq!(o.choice_index, 1);
}

#[test]
fn test_cycle_no_op_without_choices() {
    let mut o = value_flag("output");
    o.next_choice();
    assert_eq!(o.choice_index, 0);
    o.prev_choice();
    assert_eq!(o.choice_index, 0);
    let mut e = CliOption::new(None, Some("x".to_string()), String::new(), true, None, Some(vec![]));
    e.next_choice();
    assert_eq!(e.choice_index, 0);
}

#[test]
fn test_has_choices() {
    assert!(choice_flag("color", &["a"]).has_choices());
    assert!(!value_flag("output").has_choices());
    let e = CliOption::new(None, Some("x".to_string()), String::new(), true, None, Some(vec![]));
    assert!(!e.has_choices());
}

#[test]
fn test_current_choice() {
    let o = choice_flag("color", &["auto", "always"]);
    assert_eq!(o.current_choice(), Some("auto"));
    let mut oob = choice_flag("color", &["auto"]);
    oob.choice_index = 5;
    assert_eq!(oob.current_choice(), None);
    assert_eq!(value_flag("output").current_choice(), None);
}

#[test]
fn test_display_flag_forms() {
    assert_eq!(bool_flag(Some('v'), Some("verbose")).display_flag(), "-v, --verbose");
    assert_eq!(bool_flag(Some('v'), None).display_flag(), "-v");
    assert_eq!(bool_flag(None, Some("verbose")).display_flag(), "--verbose");
    assert_eq!(bool_flag(None, None).display_flag(), "");
}
