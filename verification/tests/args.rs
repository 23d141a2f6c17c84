use harvcode::args::{after_equal, classify_arg, parse_args, parse_values, ArgError, ArgKind, Config, PickerKind, Switch, ValueOption};

/// Parse a list of string slices into a Config.
fn parse(input: &[&str]) -> Config {
    parse_args(input.iter().map(|s| s.to_string()).collect()).unwrap()
}

fn parse_err(input: &[&str]) -> ArgError {
    match parse_args(input.iter().map(|s| s.to_string()).collect()) {
        Ok(_) => panic!("expected an error for {:?}", input),
        Err(e) => e,
    }
}

#[test]
fn defaults_to_current_dir() {
    let cfg = parse(&[]);

    assert_eq!(cfg.roots, vec![".".to_string()]);
}

#[test]
fn defaults_to_clipboard_when_no_output_flag_is_given() {
    let cfg = parse(&[]);

    assert!(cfg.output.clipboard);
    assert!(!cfg.output.stdout);
    assert!(cfg.output.file.is_none());
    assert!(!cfg.output.explicit);
}

#[test]
fn parses_stdout_output() {
    let cfg = parse(&["--stdout"]);

    assert!(!cfg.output.clipboard);
    assert!(cfg.output.stdout);
    assert!(cfg.output.file.is_none());
    assert!(cfg.output.explicit);
}

#[test]
fn parses_clipboard_output() {
    let cfg = parse(&["--clipboard"]);

    assert!(cfg.output.clipboard);
    assert!(!cfg.output.stdout);
    assert!(cfg.output.file.is_none());
    assert!(cfg.output.explicit);
}

#[test]
fn parses_output_file() {
    let cfg = parse(&["--output", "context.md"]);

    assert!(!cfg.output.clipboard);
    assert!(!cfg.output.stdout);
    assert_eq!(cfg.output.file, Some("context.md".to_string()));
    assert!(cfg.output.explicit);
}

#[test]
fn parses_output_file_with_equal_syntax() {
    let cfg = parse(&["--output=context.md"]);

    assert!(!cfg.output.clipboard);
    assert!(!cfg.output.stdout);
    assert_eq!(cfg.output.file, Some("context.md".to_string()));
    assert!(cfg.output.explicit);
}

#[test]
fn parses_combined_output_modes() {
    let cfg = parse(&["--clipboard", "--stdout", "--output", "context.md"]);

    assert!(cfg.output.clipboard);
    assert!(cfg.output.stdout);
    assert_eq!(cfg.output.file, Some("context.md".to_string()));
    assert!(cfg.output.explicit);
}

#[test]
fn returns_error_for_missing_output_value() {
    let result = parse_args(vec!["--output".to_string()]);

    assert!(result.is_err());
}

#[test]
fn returns_error_for_empty_output_value() {
    let result = parse_args(vec!["--output=".to_string()]);

    assert!(result.is_err());
}

#[test]
fn returns_error_for_unknown_option() {
    let result = parse_args(vec!["--unknown".to_string()]);

    assert!(result.is_err());
}

#[test]
fn parses_include_extensions() {
    let cfg = parse(&["--include-ext", "rs,toml,MD"]);

    assert_eq!(cfg.rules.include_ext, vec!["rs", "toml", "md"]);
}

#[test]
fn parses_exclude_extensions() {
    let cfg = parse(&["--exclude-ext", "LOCK,JSON"]);

    assert_eq!(cfg.rules.exclude_ext, vec!["lock", "json"]);
}

#[test]
fn parses_exclude_dirs() {
    let cfg = parse(&["--exclude-dir", "target,node_modules"]);

    assert_eq!(cfg.rules.exclude_dirs, vec!["target", "node_modules"]);
}

#[test]
fn parses_exclude_files() {
    let cfg = parse(&["--exclude-file", "Cargo.lock,secret.rs"]);

    assert_eq!(cfg.rules.exclude_files, vec!["cargo.lock", "secret.rs"]);
}

// ---------------------------------------------------------------------
// Further parser behavior
// ---------------------------------------------------------------------

#[test]
fn paths_are_collected_in_order() {
    let cfg = parse(&["src", "README.md"]);
    assert_eq!(cfg.roots, vec!["src", "README.md"]);
    assert!(!cfg.pick);
}

#[test]
fn list_mode_does_not_enable_implicit_clipboard() {
    let cfg = parse(&["--list"]);
    assert!(cfg.list);
    assert!(!cfg.output.clipboard);
    assert!(!cfg.output.explicit);
}

#[test]
fn list_mode_keeps_explicit_output_flags() {
    let cfg = parse(&["--list", "--stdout", "--output", "context.md"]);
    assert!(cfg.list);
    assert!(cfg.output.stdout);
    assert_eq!(cfg.output.file, Some("context.md".to_string()));
    assert!(cfg.output.explicit);
    assert!(!cfg.output.clipboard);
}

#[test]
fn picker_option_selects_picker_and_enables_pick() {
    let cfg = parse(&["--picker", "sk"]);
    assert!(cfg.pick);
    assert_eq!(cfg.picker, Some(PickerKind::Sk));

    let cfg = parse(&["--picker=fzf"]);
    assert!(cfg.pick);
    assert_eq!(cfg.picker, Some(PickerKind::Fzf));

    let cfg = parse(&["--pick"]);
    assert!(cfg.pick);
    assert_eq!(cfg.picker, None);
}

#[test]
fn quiet_and_verbose_are_parsed() {
    let cfg = parse(&["--quiet", "--verbose"]);
    assert!(cfg.quiet);
    assert!(cfg.verbose);
    let cfg = parse(&[]);
    assert!(!cfg.quiet);
    assert!(!cfg.verbose);
}

#[test]
fn each_error_variant_is_reported() {
    assert!(matches!(parse_err(&["--help"]), ArgError::Help));
    assert!(matches!(parse_err(&["-h"]), ArgError::Help));
    assert!(matches!(parse_err(&["--version"]), ArgError::Version));
    assert!(matches!(parse_err(&["-V"]), ArgError::Version));
    match parse_err(&["--exclude-dir"]) {
        ArgError::MissingValue(flag) => assert_eq!(flag, "--exclude-dir"),
        other => panic!("unexpected {:?}", other),
    }
    match parse_err(&["--picker="]) {
        ArgError::EmptyValue(flag) => assert_eq!(flag, "--picker"),
        other => panic!("unexpected {:?}", other),
    }
    match parse_err(&["--output="]) {
        ArgError::EmptyValue(flag) => assert_eq!(flag, "--output"),
        other => panic!("unexpected {:?}", other),
    }
    match parse_err(&["src", "-x"]) {
        ArgError::UnknownOption(arg) => assert_eq!(arg, "-x"),
        other => panic!("unexpected {:?}", other),
    }
    match parse_err(&["--picker", "rofi"]) {
        ArgError::UnknownPicker(value) => assert_eq!(value, "rofi"),
        other => panic!("unexpected {:?}", other),
    }
}

#[test]
fn help_stops_parsing_before_later_errors() {
    assert!(matches!(parse_err(&["--help", "--unknown"]), ArgError::Help));
    assert!(matches!(parse_err(&["--unknown", "--help"]), ArgError::UnknownOption(_)));
}

#[test]
fn option_value_may_look_like_a_flag() {
    let cfg = parse(&["--output", "--stdout"]);
    assert_eq!(cfg.output.file, Some("--stdout".to_string()));
    assert!(!cfg.output.stdout);
}

#[test]
fn later_filter_option_replaces_earlier_one() {
    let cfg = parse(&["--include-ext", "rs", "--include-ext=md,TOML"]);
    assert_eq!(cfg.rules.include_ext, vec!["md", "toml"]);
}

#[test]
fn parse_values_trims_lowers_and_drops_empty_entries() {
    assert_eq!(parse_values(" Rs , ,TOML,,md "), vec!["rs", "toml", "md"]);
    assert_eq!(parse_values(""), Vec::<String>::new());
    assert_eq!(parse_values("\tJSON\n"), vec!["json"]);
}

#[test]
fn after_equal_takes_text_after_first_equal_sign() {
    assert_eq!(after_equal("--output=a=b"), "a=b");
    assert_eq!(after_equal("--output="), "");
    assert_eq!(after_equal("no-equal"), "");
}

#[test]
fn classify_recognizes_each_form() {
    assert_eq!(classify_arg("--stdout"), ArgKind::Switch(Switch::Stdout));
    assert_eq!(classify_arg("--output"), ArgKind::Separate(ValueOption::Output));
    assert_eq!(classify_arg("--exclude-file=x"), ArgKind::Inline(ValueOption::ExcludeFile));
    assert_eq!(classify_arg("-"), ArgKind::Unknown);
    assert_eq!(classify_arg("src"), ArgKind::Path);
}

#[test]
fn adding_stdout_keeps_explicit_outputs() {
    // Scenario for combining output modes.
    let base = parse(&["--output", "a.md"]);
    let more = parse(&["--output", "a.md", "--stdout"]);
    assert_eq!(base.output.file, more.output.file);
    assert!(more.output.stdout);
    assert!(!more.output.clipboard);

    let implicit = parse(&["src"]);
    assert!(implicit.output.clipboard);
    let with_stdout = parse(&["src", "--stdout"]);
    assert!(!with_stdout.output.clipboard);
    assert!(with_stdout.output.stdout);
}
