use icli::parser::parse_help;

#[test]
fn test_gnu_style() {
    let help = "  -v, --verbose    Enable verbose output";
    let opts = parse_help(help);
    assert_eq!(opts.len(), 1);
    assert_eq!(opts[0].short, Some('v'));
    assert_eq!(opts[0].long, Some("verbose".to_string()));
}

#[test]
fn test_with_value() {
    let help = "  -o, --output <FILE>    Output file";
    let opts = parse_help(help);
    assert_eq!(opts.len(), 1);
    assert!(opts[0].takes_value);
    assert_eq!(opts[0].value_hint, Some("FILE".to_string()));
}

#[test]
fn test_with_choices() {
    let help = "  --color <WHEN>    Coloring [possible values: auto, always, never]";
    let opts = parse_help(help);
    assert_eq!(opts.len(), 1);
    assert!(opts[0].takes_value);
    assert!(opts[0].has_choices());
    assert_eq!(
        opts[0].choices,
        Some(vec!["auto".to_string(), "always".to_string(), "never".to_string()])
    );
    assert_eq!(opts[0].description, "Coloring");
}

#[test]
fn test_cargo_help_format() {
    let help = r#"Options:
  -V, --version                  Print version info and exit
      --list                     List installed commands
      --explain <CODE>           Provide a detailed explanation
  -v, --verbose...               Use verbose output
  -q, --quiet                    Do not print cargo log messages
      --color <WHEN>             Coloring [possible values: auto, always, never]
  -h, --help                     Print help"#;
    let opts = parse_help(help);
    println!("Parsed {} options:", opts.len());
    for opt in &opts {
        println!(
            "  {:?} {:?} - {} | choices: {:?}",
            opt.short, opt.long, opt.description, opt.choices
        );
    }
    assert!(opts.len() >= 5, "Expected at least 5 options, got {}", opts.len());

    let color_opt = opts.iter().find(|o| o.long.as_deref() == Some("color")).unwrap();
    assert!(color_opt.has_choices(), "color option should have choices");
}

#[test]
fn test_no_matching_lines_yield_empty_set() {
    let opts = parse_help("This program does things.\nUsage: prog FILE\n\nSee the manual.");
    assert!(opts.is_empty());
    let opts = parse_help("");
    assert!(opts.is_empty());
}

#[test]
fn test_gnu_style_fields() {
    let opts = parse_help("  -v, --verbose    Enable verbose output");
    assert_eq!(opts.len(), 1);
    assert_eq!(opts[0].short, Some('v'));
    assert_eq!(opts[0].long, Some("verbose".to_string()));
    assert!(!opts[0].takes_value);
    assert_eq!(opts[0].choices, None);
    assert_eq!(opts[0].description, "Enable verbose output");
    assert!(!opts[0].selected);
    assert_eq!(opts[0].value, "");
    assert_eq!(opts[0].choice_index, 0);
}

#[test]
fn test_bracketed_placeholder_sets_value_hint() {
    let opts = parse_help("  -o, --output <FILE>    Output file");
    assert_eq!(opts.len(), 1);
    assert!(opts[0].takes_value);
    assert_eq!(opts[0].value_hint, Some("FILE".to_string()));
}

#[test]
fn test_equals_placeholder_sets_value_hint() {
    let opts = parse_help("  --output=PATH    Output path");
    assert_eq!(opts.len(), 1);
    assert!(opts[0].takes_value);
    assert_eq!(opts[0].value_hint, Some("PATH".to_string()));
}

#[test]
fn test_choices_cleaned_description() {
    let opts = parse_help("  --color <WHEN>  Coloring [possible values: auto, always, never]");
    assert_eq!(opts.len(), 1);
    assert_eq!(
        opts[0].choices,
        Some(vec!["auto".to_string(), "always".to_string(), "never".to_string()])
    );
    assert_eq!(opts[0].description, "Coloring");
}

#[test]
fn test_choices_short_form_and_case() {
    let opts = parse_help("  --when <W>  When to act [Values: now, later]");
    assert_eq!(opts.len(), 1);
    assert_eq!(opts[0].choices, Some(vec!["now".to_string(), "later".to_string()]));
    assert_eq!(opts[0].description, "When to act");
}

#[test]
fn test_choices_empty_entries_dropped() {
    let opts = parse_help("  --pick <P>  Pick one [values: , a,,  b , ]");
    assert_eq!(opts.len(), 1);
    assert_eq!(opts[0].choices, Some(vec!["a".to_string(), "b".to_string()]));
}

#[test]
fn test_choices_all_empty_leaves_description() {
    let opts = parse_help("  --pick <P>  Pick one [values: , ]");
    assert_eq!(opts.len(), 1);
    assert_eq!(opts[0].choices, None);
    assert_eq!(opts[0].description, "Pick one [values: , ]");
}

#[test]
fn test_duplicate_identity_collapses_to_first() {
    let help = "  -v, --verbose    Enable verbose output\n  -v, --verbose    Shown twice";
    let opts = parse_help(help);
    assert_eq!(opts.len(), 1);
    assert_eq!(opts[0].description, "Enable verbose output");
}

#[test]
fn test_distinct_identities_all_kept_in_order() {
    let help = "  -a, --all    Show all\n  -v    Verbose\n  --color    Coloring";
    let opts = parse_help(help);
    assert_eq!(opts.len(), 3);
    assert_eq!(opts[0].long, Some("all".to_string()));
    assert_eq!(opts[1].short, Some('v'));
    assert_eq!(opts[1].long, None);
    assert_eq!(opts[2].long, Some("color".to_string()));
}

#[test]
fn test_short_only_line() {
    let opts = parse_help("  -l            Use long format");
    assert_eq!(opts.len(), 1);
    assert_eq!(opts[0].short, Some('l'));
    assert_eq!(opts[0].long, None);
    assert_eq!(opts[0].description, "Use long format");
}

#[test]
fn test_single_space_gap_is_no_option() {
    let opts = parse_help("  -v, --verbose description after one space only? no: -x y");
    assert!(opts.is_empty());
}

#[test]
fn test_crlf_line_endings() {
    let opts = parse_help("  -a, --all    Show all\r\n  -l            Use long format\r\n");
    assert_eq!(opts.len(), 2);
    assert_eq!(opts[0].description, "Show all");
    assert_eq!(opts[1].description, "Use long format");
}

#[test]
fn test_hyphenated_long_flag() {
    let opts = parse_help("      --no-color    Disable colored output");
    assert_eq!(opts.len(), 1);
    assert_eq!(opts[0].long, Some("no-color".to_string()));
}

#[test]
fn test_short_with_value_hint() {
    let opts = parse_help("  -o <FILE>    Output file");
    assert_eq!(opts.len(), 1);
    assert_eq!(opts[0].short, Some('o'));
    assert_eq!(opts[0].long, None);
    assert!(opts[0].takes_value);
    assert_eq!(opts[0].value_hint, Some("FILE".to_string()));
}

#[test]
fn test_description_keeps_other_brackets() {
    let opts = parse_help("  -t, --time <WHEN>    Show time [default: modified]");
    assert_eq!(opts.len(), 1);
    assert_eq!(opts[0].choices, None);
    assert_eq!(opts[0].description, "Show time [default: modified]");
}

#[test]
fn test_repeat_marker_is_skipped() {
    let opts = parse_help("  -v, --verbose...    Use verbose output");
    assert_eq!(opts.len(), 1);
    assert_eq!(opts[0].short, Some('v'));
    assert_eq!(opts[0].long, Some("verbose".to_string()));
    assert_eq!(opts[0].description, "Use verbose output");
}
