use sslchains::options::{Options, OptionsDisplayMode};

#[test]
fn starts_with_defaults() {
    let options = Options::new();
    assert!(!options.print_help);
    assert!(!options.disable_file_limit);
    assert_eq!(options.display_mode, OptionsDisplayMode::Default);
    assert!(!options.follow_symlinks);
    assert!(!options.include_hidden_files);
    assert!(!options.recursive);
    assert!(options.same_file_system);
    assert!(!options.suppress_oneline_header);
    assert_eq!(options.index, 0);
}

#[test]
fn applies_each_flag() {
    let mut options = Options::new();
    options.apply_flag('h');
    assert!(options.print_help);
    options.apply_flag('H');
    assert!(options.include_hidden_files);
    options.apply_flag('l');
    assert_eq!(options.display_mode, OptionsDisplayMode::OneLine);
    assert!(!options.suppress_oneline_header);
    options.apply_flag('r');
    assert!(options.recursive);
    options.apply_flag('S');
    assert!(options.follow_symlinks);
    options.apply_flag('U');
    assert!(options.disable_file_limit);
    options.apply_flag('X');
    assert!(!options.same_file_system);
}

#[test]
fn capital_l_sets_oneline_and_suppresses_header() {
    let mut options = Options::new();
    options.apply_flag('L');
    assert_eq!(options.display_mode, OptionsDisplayMode::OneLine);
    assert!(options.suppress_oneline_header);
}

#[test]
fn unknown_flag_changes_nothing() {
    let mut options = Options::new();
    options.apply_flag('q');
    assert!(!options.print_help);
    assert_eq!(options.display_mode, OptionsDisplayMode::Default);
    assert!(options.same_file_system);
    assert_eq!(options.index, 0);
}

#[test]
fn records_argument_index() {
    let mut options = Options::new();
    options.set_index(3);
    assert_eq!(options.index, 3);
}
