use icli::engine::{App, EditKey, Mode};
use icli::parser::parse_help;

#[test]
fn test_new_session_state() {
    let opts = parse_help("  -a, --all    Show all");
    let app = App::new(opts, vec!["ls".to_string()]);
    assert_eq!(app.mode(), Mode::Normal);
    assert_eq!(app.selected_index(), Some(0));
    assert!(!app.options()[0].selected);
}

#[test]
fn test_selected_index_none_when_empty() {
    let app = App::new(vec![], vec!["ls".to_string()]);
    assert_eq!(app.selected_index(), None);
    assert!(app.selected_option().is_none());
}

#[test]
fn test_cursor_moves_are_clamped() {
    let opts = parse_help("  -a    First\n  -b    Second");
    let mut app = App::new(opts, vec!["x".to_string()]);
    app.move_up();
    assert_eq!(app.selected_index(), Some(0));
    app.move_down();
    assert_eq!(app.selected_index(), Some(1));
    app.move_down();
    assert_eq!(app.selected_index(), Some(1));
    app.move_up();
    assert_eq!(app.selected_index(), Some(0));
}

#[test]
fn test_toggle_boolean_stays_normal() {
    let opts = parse_help("  -a, --all    Show all");
    let mut app = App::new(opts, vec!["ls".to_string()]);
    app.toggle_selected();
    assert_eq!(app.mode(), Mode::Normal);
    assert!(app.options()[0].selected);
    app.toggle_selected();
    assert!(!app.options()[0].selected);
}

#[test]
fn test_toggle_value_option_enters_editing() {
    let opts = parse_help("  -o, --output <FILE>    Output file");
    let mut app = App::new(opts, vec!["x".to_string()]);
    app.toggle_selected();
    assert_eq!(app.mode(), Mode::Input);
    assert_eq!(app.input_buffer(), "");
}

#[test]
fn test_toggle_choice_option_stays_normal() {
    let opts = parse_help("  --color <WHEN>  Coloring [possible values: auto, always, never]");
    let mut app = App::new(opts, vec!["x".to_string()]);
    app.toggle_selected();
    assert_eq!(app.mode(), Mode::Normal);
}

#[test]
fn test_editing_appends_and_deletes() {
    let opts = parse_help("  -o, --output <FILE>    Output file");
    let mut app = App::new(opts, vec!["x".to_string()]);
    app.toggle_selected();
    app.handle_input_key(EditKey::Char('a'));
    app.handle_input_key(EditKey::Char('b'));
    app.handle_input_key(EditKey::Backspace);
    app.handle_input_key(EditKey::Char('c'));
    assert_eq!(app.input_buffer(), "ac");
    app.handle_input_key(EditKey::Confirm);
    assert_eq!(app.mode(), Mode::Normal);
    assert_eq!(app.options()[0].value, "ac");
    assert!(app.options()[0].selected);
    assert_eq!(app.input_buffer(), "");
}

#[test]
fn test_backspace_on_empty_buffer_is_no_op() {
    let opts = parse_help("  -o, --output <FILE>    Output file");
    let mut app = App::new(opts, vec!["x".to_string()]);
    app.toggle_selected();
    app.handle_input_key(EditKey::Backspace);
    assert_eq!(app.input_buffer(), "");
}

#[test]
fn test_empty_commit_deselects() {
    // Toggling a value-taking option on and confirming the untouched
    // empty buffer leaves it deselected.
    let opts = parse_help("  -o, --output <FILE>    Output file");
    let mut app = App::new(opts, vec!["x".to_string()]);
    app.toggle_selected();
    assert_eq!(app.mode(), Mode::Input);
    app.handle_input_key(EditKey::Confirm);
    assert_eq!(app.mode(), Mode::Normal);
    assert!(!app.options()[0].selected);
    assert_eq!(app.options()[0].value, "");
}

#[test]
fn test_cancel_commits_like_confirm() {
    let opts = parse_help("  -o, --output <FILE>    Output file");
    let mut app = App::new(opts, vec!["x".to_string()]);
    app.toggle_selected();
    app.handle_input_key(EditKey::Char('z'));
    app.handle_input_key(EditKey::Cancel);
    assert_eq!(app.mode(), Mode::Normal);
    assert_eq!(app.options()[0].value, "z");
    assert!(app.options()[0].selected);
}

#[test]
fn test_cycle_locked_until_selected() {
    let opts = parse_help("  --color <WHEN>  Coloring [possible values: auto, always, never]");
    let mut app = App::new(opts, vec!["x".to_string()]);
    app.cycle_choice_next();
    assert_eq!(app.options()[0].choice_index, 0);
    app.toggle_selected();
    app.cycle_choice_next();
    assert_eq!(app.options()[0].choice_index, 1);
    app.cycle_choice_prev();
    app.cycle_choice_prev();
    assert_eq!(app.options()[0].choice_index, 2);
}

#[test]
fn test_request_edit_needs_selected_value_option() {
    let opts = parse_help("  -o, --output <FILE>    Output file\n  -a, --all    Show all");
    let mut app = App::new(opts, vec!["x".to_string()]);
    app.request_edit();
    assert_eq!(app.mode(), Mode::Normal);
    app.toggle_selected();
    app.handle_input_key(EditKey::Char('f'));
    app.handle_input_key(EditKey::Confirm);
    app.request_edit();
    assert_eq!(app.mode(), Mode::Input);
    assert_eq!(app.input_buffer(), "f");
    app.handle_input_key(EditKey::Confirm);
    app.move_down();
    app.request_edit();
    assert_eq!(app.mode(), Mode::Normal);
}

#[test]
fn test_session_both_flags_selected() {
    // Select both options of a two-line help text; the long form wins for
    // the first flag, the short form is all the second one has.
    let opts = parse_help("Options:\n  -a, --all    Show all\n  -l            Use long format");
    let mut app = App::new(opts, vec!["ls".to_string()]);
    app.toggle_selected();
    app.move_down();
    app.toggle_selected();
    assert_eq!(app.build_command(), "ls --all -l");
}

#[test]
fn test_session_short_only_flags_selected() {
    let opts = parse_help("Options:\n  -a    Show all\n  -l    Use long format");
    let mut app = App::new(opts, vec!["ls".to_string()]);
    app.toggle_selected();
    app.move_down();
    app.toggle_selected();
    assert_eq!(app.build_command(), "ls -a -l");
}

#[test]
fn test_session_choice_cycled_once() {
    // Select the choice option and cycle once from the default.
    let opts = parse_help("--color <WHEN>  Coloring [possible values: auto, always, never]");
    let mut app = App::new(opts, vec!["ls".to_string()]);
    app.toggle_selected();
    app.cycle_choice_next();
    assert_eq!(app.build_command(), "ls --color always");
}

#[test]
fn test_build_command_ignores_toggle_order() {
    let help = "  -a    First\n  -b    Second";
    let mut one = App::new(parse_help(help), vec!["x".to_string()]);
    one.toggle_selected();
    one.move_down();
    one.toggle_selected();
    let mut other = App::new(parse_help(help), vec!["x".to_string()]);
    other.move_down();
    other.toggle_selected();
    other.move_up();
    other.toggle_selected();
    assert_eq!(one.build_command(), other.build_command());
    assert_eq!(one.build_command(), "x -a -b");
}
