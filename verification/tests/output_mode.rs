use icli::output::OutputMode;

#[test]
fn test_output_mode_equality() {
    assert_eq!(OutputMode::Print, OutputMode::Print);
    assert_eq!(OutputMode::Clipboard, OutputMode::Clipboard);
    assert_eq!(OutputMode::Execute, OutputMode::Execute);

    assert_ne!(OutputMode::Print, OutputMode::Clipboard);
    assert_ne!(OutputMode::Print, OutputMode::Execute);
    assert_ne!(OutputMode::Clipboard, OutputMode::Execute);
}

#[test]
fn test_output_mode_clone() {
    let mode = OutputMode::Execute;
    let cloned = mode.clone();
    assert_eq!(mode, cloned);
}

#[test]
fn test_output_mode_copy() {
    let mode = OutputMode::Print;
    let copied = mode; // Copy semantics
    assert_eq!(mode, copied);
}

#[test]
fn test_output_mode_debug() {
    assert_eq!(format!("{:?}", OutputMode::Print), "Print");
    assert_eq!(format!("{:?}", OutputMode::Clipboard), "Clipboard");
    assert_eq!(format!("{:?}", OutputMode::Execute), "Execute");
}
