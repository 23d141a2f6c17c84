use harvcode::args::{parse_args, Config, OutputConfig, PickerKind};
use harvcode::list::{list_output_size, run};
use harvcode::output::{clipboard_outcome, exit_code, file_destination, record_write, ClipboardOutcome};
use harvcode::picker::{parse_selection, picker_commands, selection_input};
use harvcode::report::{ClipboardStatus, Report};
use harvcode::walker::{entry_action, EntryAction, EntryKind};
use harvcode::filter::Rules;

fn config(args: &[&str]) -> Config {
    parse_args(args.iter().map(|s| s.to_string()).collect()).unwrap()
}

fn strings(items: &[&str]) -> Vec<String> {
    items.iter().map(|s| s.to_string()).collect()
}

#[test]
fn report_counts_and_destinations() {
    let mut report = Report::new();
    assert_eq!(report.collected_files(), 0);
    assert_eq!(report.destination_summary(), "none");
    report.collect_file();
    report.collect_file();
    report.skip_file();
    report.set_output_size(2048);
    report.add_destination("stdout".to_string());
    report.add_destination("file: out.md".to_string());
    report.set_clipboard(ClipboardStatus::Failed);
    assert_eq!(report.collected_files(), 2);
    assert_eq!(report.skipped_files(), 1);
    assert_eq!(report.output_size(), 2048);
    assert_eq!(report.destination_summary(), "stdout, file: out.md");
    assert_eq!(report.clipboard(), ClipboardStatus::Failed);
    assert_eq!(report.clipboard().label(), "failed");
    assert_eq!(ClipboardStatus::default().label(), "not requested");
    assert_eq!(ClipboardStatus::Success.label(), "success");
}

#[test]
fn report_is_printed_only_in_verbose_non_quiet_mode() {
    assert!(Report::is_enabled(&config(&["--verbose"])));
    assert!(!Report::is_enabled(&config(&["--verbose", "--quiet"])));
    assert!(!Report::is_enabled(&config(&[])));
}

#[test]
fn list_mode_filters_sorts_and_counts() {
    let cfg = config(&["--list"]);
    let mut report = Report::new();
    let files = strings(&["src/main.rs", "README.md", ".env", "Cargo.toml", "image.png", "src/lib.rs"]);
    let listed = run(files, &cfg, &mut report);
    assert_eq!(listed, vec!["Cargo.toml", "README.md", "src/lib.rs", "src/main.rs"]);
    assert_eq!(report.collected_files(), 4);
    assert_eq!(report.skipped_files(), 2);
    // 10 + 9 + 10 + 11 bytes of paths, plus one newline each.
    assert_eq!(report.output_size(), 44);
    assert_eq!(report.destination_summary(), "none");
}

#[test]
fn list_mode_respects_filters_and_is_order_independent() {
    let cfg = config(&["--list", "--include-ext", "rs,md"]);
    let mut r1 = Report::new();
    let mut r2 = Report::new();
    let a = run(strings(&["b.rs", "a.md", "c.toml", "a.rs"]), &cfg, &mut r1);
    let b = run(strings(&["a.rs", "c.toml", "a.md", "b.rs"]), &cfg, &mut r2);
    assert_eq!(a, vec!["a.md", "a.rs", "b.rs"]);
    assert_eq!(a, b);
}

#[test]
fn list_sorting_orders_by_code_point() {
    let cfg = config(&["--list"]);
    let mut report = Report::new();
    let listed = run(strings(&["b", "B", "a", "ä.txt", "Z", "ab", "a"]), &cfg, &mut report);
    let mut expected = strings(&["b", "B", "a", "ä.txt", "Z", "ab", "a"]);
    expected.sort();
    assert_eq!(listed, expected);
}

#[test]
fn list_output_size_counts_utf8_bytes_and_newlines() {
    assert_eq!(list_output_size(&strings(&[])), 0);
    assert_eq!(list_output_size(&strings(&["ä", "ab"])), 3 + 3);
}

#[test]
fn picker_candidates_follow_priority() {
    assert_eq!(picker_commands(None), vec![PickerKind::Sk, PickerKind::Fzf]);
    assert_eq!(picker_commands(Some(PickerKind::Fzf)), vec![PickerKind::Fzf]);
    assert_eq!(PickerKind::Sk.program(), "sk");
    assert_eq!(PickerKind::Fzf.program(), "fzf");
    assert_eq!(PickerKind::Fzf.arguments(), "-m");
}

#[test]
fn picker_input_and_output() {
    assert_eq!(selection_input(&strings(&["a.rs", "src/b.rs"])), "a.rs\nsrc/b.rs");
    assert_eq!(selection_input(&strings(&[])), "");
    assert_eq!(parse_selection("a.rs\n  src/b.rs \r\n\n"), Some(strings(&["a.rs", "src/b.rs"])));
    assert_eq!(parse_selection(""), None);
    assert_eq!(parse_selection(" \n\t\n"), None);
}

#[test]
fn walker_never_follows_symlinks() {
    let mut rules = Rules::default();
    rules.exclude_dirs = vec!["target".to_string()];
    assert_eq!(entry_action("project/link", EntryKind::Symlink, &rules), EntryAction::Skip);
    assert_eq!(entry_action("project/src", EntryKind::Directory, &rules), EntryAction::Descend);
    assert_eq!(entry_action("project/target", EntryKind::Directory, &rules), EntryAction::Skip);
    assert_eq!(entry_action("project/.git", EntryKind::Directory, &rules), EntryAction::Skip);
    assert_eq!(entry_action("project/.env", EntryKind::File, &rules), EntryAction::Collect);
    assert_eq!(entry_action("project/fifo", EntryKind::Other, &rules), EntryAction::Skip);
    assert_eq!(entry_action(".", EntryKind::Directory, &rules), EntryAction::Descend);
}

#[test]
fn clipboard_failure_depends_on_explicit_choice() {
    let implicit = OutputConfig::default();
    let mut explicit = OutputConfig::default();
    explicit.clipboard = true;
    explicit.explicit = true;
    assert_eq!(clipboard_outcome(&implicit, true), ClipboardOutcome::Copied);
    assert_eq!(clipboard_outcome(&explicit, true), ClipboardOutcome::Copied);
    assert_eq!(clipboard_outcome(&explicit, false), ClipboardOutcome::Failed);
    assert_eq!(clipboard_outcome(&implicit, false), ClipboardOutcome::FallBackToStdout);
}

#[test]
fn output_bookkeeping_records_destinations_and_failures() {
    let mut report = Report::new();
    let failed = record_write(&mut report, "stdout".to_string(), true, false);
    assert!(!failed);
    let failed = record_write(&mut report, file_destination("out.md"), false, failed);
    assert!(failed);
    let failed = record_write(&mut report, "clipboard".to_string(), true, failed);
    assert!(failed);
    assert_eq!(report.destination_summary(), "stdout, clipboard");
    assert_eq!(file_destination("a/b.md"), "file: a/b.md");
    assert_eq!(exit_code(false), 0);
    assert_eq!(exit_code(true), 3);
}
