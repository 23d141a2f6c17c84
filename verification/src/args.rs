//! Command-line argument parsing.
//!
//! The parser reads the arguments from left to right. Each argument is
//! classified (a switch, an option whose value is the next argument, an
//! option written `--name=value`, an unknown option, or a path) and applied
//! to the configuration built so far. The model is that left fold,
//! `parse_spec`, and `parse_args` computes exactly it.
use vstd::prelude::*;
use vstd::string::*;

use crate::filter::{Rules, RulesView};
use crate::text::{
    chars_of, has_prefix, lower, split, split_str, starts_with, str_eq, strings_view,
    to_ascii_lowercase, trim, trim_str, lemma_lower_idempotent, lemma_split_concat, lemma_split_single,
};

verus! {

// ---------------------------------------------------------------------
// Types and their models
// ---------------------------------------------------------------------

/// The interactive picker to run.
#[derive(Clone, Copy, Debug, PartialEq, Eq, Structural)]
pub enum PickerKind {
    Sk,
    Fzf,
}

/// Output behavior derived from CLI arguments.
///
/// Default:
/// - If no output flags are specified (and list mode is off), clipboard is enabled.
///
/// Explicit output flags:
/// - `--clipboard` copy to clipboard
/// - `--stdout` write to stdout
/// - `--output <file>` write to file
pub struct OutputConfig {
    pub clipboard: bool,
    pub stdout: bool,
    pub file: Option<String>,
    /// Whether the user explicitly selected at least one output mode.
    ///
    /// Used to distinguish implicit default clipboard behavior from an
    /// explicit `--clipboard`.
    pub explicit: bool,
}

/// Runtime configuration derived from CLI arguments.
///
/// - `roots`: input files/directories
/// - `pick`: whether interactive selection is enabled
/// - `picker`: the picker chosen with `--picker`, if any
/// - `list`: list mode (`--list`)
/// - `quiet`, `verbose`: status output switches
/// - `rules`: file filtering rules
/// - `output`: output behavior
pub struct Config {
    pub roots: Vec<String>,
    pub pick: bool,
    pub picker: Option<PickerKind>,
    pub list: bool,
    pub quiet: bool,
    pub verbose: bool,
    pub rules: Rules,
    pub output: OutputConfig,
}

/// Why parsing stopped without a configuration.
#[derive(Debug)]
pub enum ArgError {
    /// `-h` or `--help` was given: the caller prints the help text.
    Help,
    /// `-V` or `--version` was given: the caller prints the version.
    Version,
    /// The option (named) takes a value and none followed it.
    MissingValue(String),
    /// The option (named) was given as `--name=` with nothing after `=`.
    EmptyValue(String),
    /// The argument starts with `-` and is no known option.
    UnknownOption(String),
    /// `--picker` was given a value other than `sk` or `fzf`.
    UnknownPicker(String),
}

#[verifier::ext_equal]
pub struct OutputView {
    pub clipboard: bool,
    pub stdout: bool,
    pub file: Option<Seq<char>>,
    pub explicit: bool,
}

#[verifier::ext_equal]
pub struct ConfigView {
    pub roots: Seq<Seq<char>>,
    pub pick: bool,
    pub picker: Option<PickerKind>,
    pub list: bool,
    pub quiet: bool,
    pub verbose: bool,
    pub rules: RulesView,
    pub output: OutputView,
}

pub enum ArgErrorView {
    Help,
    Version,
    MissingValue(Seq<char>),
    EmptyValue(Seq<char>),
    UnknownOption(Seq<char>),
    UnknownPicker(Seq<char>),
}

impl View for OutputConfig {
    type V = OutputView;

    open spec fn view(&self) -> OutputView {
        OutputView {
            clipboard: self.clipboard,
            stdout: self.stdout,
            file: match self.file {
                Some(f) => Some(f@),
                None => None,
            },
            explicit: self.explicit,
        }
    }
}

impl View for Config {
    type V = ConfigView;

    open spec fn view(&self) -> ConfigView {
        ConfigView {
            roots: strings_view(self.roots@),
            pick: self.pick,
            picker: self.picker,
            list: self.list,
            quiet: self.quiet,
            verbose: self.verbose,
            rules: self.rules@,
            output: self.output@,
        }
    }
}

impl View for ArgError {
    type V = ArgErrorView;

    open spec fn view(&self) -> ArgErrorView {
        match self {
            ArgError::Help => ArgErrorView::Help,
            ArgError::Version => ArgErrorView::Version,
            ArgError::MissingValue(s) => ArgErrorView::MissingValue(s@),
            ArgError::EmptyValue(s) => ArgErrorView::EmptyValue(s@),
            ArgError::UnknownOption(s) => ArgErrorView::UnknownOption(s@),
            ArgError::UnknownPicker(s) => ArgErrorView::UnknownPicker(s@),
        }
    }
}

impl Default for OutputConfig {
    /// No output selected, nothing explicit.
    fn default() -> (r: Self)
        ensures
            r@ == (OutputView { clipboard: false, stdout: false, file: None, explicit: false }),
    {
        OutputConfig { clipboard: false, stdout: false, file: None, explicit: false }
    }
}

// ---------------------------------------------------------------------
// Classification of one argument
// ---------------------------------------------------------------------

/// An option that stands alone.
#[derive(Clone, Copy, Debug, PartialEq, Eq, Structural)]
pub enum Switch {
    Pick,
    List,
    Quiet,
    Verbose,
    Clipboard,
    Stdout,
    Help,
    Version,
}

/// An option that takes a value.
#[derive(Clone, Copy, Debug, PartialEq, Eq, Structural)]
pub enum ValueOption {
    Output,
    Picker,
    IncludeExt,
    ExcludeExt,
    ExcludeDir,
    ExcludeFile,
}

/// What one argument is.
#[derive(Clone, Copy, Debug, PartialEq, Eq, Structural)]
pub enum ArgKind {
    Switch(Switch),
    /// The option; its value is the next argument.
    Separate(ValueOption),
    /// The option written `--name=value`.
    Inline(ValueOption),
    Unknown,
    Path,
}

/// The option's name as it is written on the command line.
pub open spec fn option_name(o: ValueOption) -> Seq<char> {
    match o {
        ValueOption::Output => "--output"@,
        ValueOption::Picker => "--picker"@,
        ValueOption::IncludeExt => "--include-ext"@,
        ValueOption::ExcludeExt => "--exclude-ext"@,
        ValueOption::ExcludeDir => "--exclude-dir"@,
        ValueOption::ExcludeFile => "--exclude-file"@,
    }
}

/// The prefix of the option written with `=`.
pub open spec fn inline_prefix(o: ValueOption) -> Seq<char> {
    match o {
        ValueOption::Output => "--output="@,
        ValueOption::Picker => "--picker="@,
        ValueOption::IncludeExt => "--include-ext="@,
        ValueOption::ExcludeExt => "--exclude-ext="@,
        ValueOption::ExcludeDir => "--exclude-dir="@,
        ValueOption::ExcludeFile => "--exclude-file="@,
    }
}

/// The kind of argument `a` is.
pub open spec fn classify(a: Seq<char>) -> ArgKind {
    if a == "--pick"@ {
        ArgKind::Switch(Switch::Pick)
    } else if a == "--list"@ {
        ArgKind::Switch(Switch::List)
    } else if a == "--quiet"@ {
        ArgKind::Switch(Switch::Quiet)
    } else if a == "--verbose"@ {
        ArgKind::Switch(Switch::Verbose)
    } else if a == "--clipboard"@ {
        ArgKind::Switch(Switch::Clipboard)
    } else if a == "--stdout"@ {
        ArgKind::Switch(Switch::Stdout)
    } else if a == "-h"@ || a == "--help"@ {
        ArgKind::Switch(Switch::Help)
    } else if a == "-V"@ || a == "--version"@ {
        ArgKind::Switch(Switch::Version)
    } else if a == option_name(ValueOption::Output) {
        ArgKind::Separate(ValueOption::Output)
    } else if a == option_name(ValueOption::Picker) {
        ArgKind::Separate(ValueOption::Picker)
    } else if a == option_name(ValueOption::IncludeExt) {
        ArgKind::Separate(ValueOption::IncludeExt)
    } else if a == option_name(ValueOption::ExcludeExt) {
        ArgKind::Separate(ValueOption::ExcludeExt)
    } else if a == option_name(ValueOption::ExcludeDir) {
        ArgKind::Separate(ValueOption::ExcludeDir)
    } else if a == option_name(ValueOption::ExcludeFile) {
        ArgKind::Separate(ValueOption::ExcludeFile)
    } else if has_prefix(a, inline_prefix(ValueOption::Output)) {
        ArgKind::Inline(ValueOption::Output)
    } else if has_prefix(a, inline_prefix(ValueOption::Picker)) {
        ArgKind::Inline(ValueOption::Picker)
    } else if has_prefix(a, inline_prefix(ValueOption::IncludeExt)) {
        ArgKind::Inline(ValueOption::IncludeExt)
    } else if has_prefix(a, inline_prefix(ValueOption::ExcludeExt)) {
        ArgKind::Inline(ValueOption::ExcludeExt)
    } else if has_prefix(a, inline_prefix(ValueOption::ExcludeDir)) {
        ArgKind::Inline(ValueOption::ExcludeDir)
    } else if has_prefix(a, inline_prefix(ValueOption::ExcludeFile)) {
        ArgKind::Inline(ValueOption::ExcludeFile)
    } else if a.len() > 0 && a[0] == '-' {
        ArgKind::Unknown
    } else {
        ArgKind::Path
    }
}

/// The part of `a` after its first `c`; empty when `a` has no `c`.
pub open spec fn after_char(a: Seq<char>, c: char) -> Seq<char>
    decreases a.len(),
{
    if a.len() == 0 {
        Seq::<char>::empty()
    } else if a[0] == c {
        a.drop_first()
    } else {
        after_char(a.drop_first(), c)
    }
}

/// A comma-separated list: each entry trimmed and lowered, empty entries dropped.
pub open spec fn parse_values_spec(v: Seq<char>) -> Seq<Seq<char>> {
    split(v, ',').map_values(|p: Seq<char>| lower(trim(p))).filter(|p: Seq<char>| p.len() > 0)
}

// ---------------------------------------------------------------------
// The fold
// ---------------------------------------------------------------------

/// The configuration before any argument is read.
pub open spec fn initial_state() -> ConfigView {
    ConfigView {
        roots: Seq::empty(),
        pick: false,
        picker: None,
        list: false,
        quiet: false,
        verbose: false,
        rules: RulesView {
            include_ext: Seq::empty(),
            exclude_ext: Seq::empty(),
            exclude_dirs: Seq::empty(),
            exclude_files: Seq::empty(),
        },
        output: OutputView { clipboard: false, stdout: false, file: None, explicit: false },
    }
}

/// The effect of a switch other than help and version.
pub open spec fn apply_switch(st: ConfigView, s: Switch) -> ConfigView {
    match s {
        Switch::Pick => ConfigView { pick: true, ..st },
        Switch::List => ConfigView { list: true, ..st },
        Switch::Quiet => ConfigView { quiet: true, ..st },
        Switch::Verbose => ConfigView { verbose: true, ..st },
        Switch::Clipboard => ConfigView {
            output: OutputView { clipboard: true, explicit: true, ..st.output },
            ..st
        },
        Switch::Stdout => ConfigView {
            output: OutputView { stdout: true, explicit: true, ..st.output },
            ..st
        },
        _ => st,
    }
}

/// The effect of an option with value `v`; `inline` when it was written
/// `--name=value`, where an empty file or picker value is refused.
pub open spec fn apply_value(st: ConfigView, o: ValueOption, v: Seq<char>, inline: bool) -> Result<
    ConfigView,
    ArgErrorView,
> {
    match o {
        ValueOption::Output => if inline && v.len() == 0 {
            Err(ArgErrorView::EmptyValue(option_name(o)))
        } else {
            Ok(
                ConfigView {
                    output: OutputView { file: Some(v), explicit: true, ..st.output },
                    ..st
                },
            )
        },
        ValueOption::Picker => if inline && v.len() == 0 {
            Err(ArgErrorView::EmptyValue(option_name(o)))
        } else if v == "sk"@ {
            Ok(ConfigView { pick: true, picker: Some(PickerKind::Sk), ..st })
        } else if v == "fzf"@ {
            Ok(ConfigView { pick: true, picker: Some(PickerKind::Fzf), ..st })
        } else {
            Err(ArgErrorView::UnknownPicker(v))
        },
        ValueOption::IncludeExt => Ok(
            ConfigView { rules: RulesView { include_ext: parse_values_spec(v), ..st.rules }, ..st },
        ),
        ValueOption::ExcludeExt => Ok(
            ConfigView { rules: RulesView { exclude_ext: parse_values_spec(v), ..st.rules }, ..st },
        ),
        ValueOption::ExcludeDir => Ok(
            ConfigView {
                rules: RulesView { exclude_dirs: parse_values_spec(v), ..st.rules },
                ..st
            },
        ),
        ValueOption::ExcludeFile => Ok(
            ConfigView {
                rules: RulesView { exclude_files: parse_values_spec(v), ..st.rules },
                ..st
            },
        ),
    }
}

/// Read the arguments from index `i` on, starting from state `st`.
pub open spec fn fold_args(args: Seq<Seq<char>>, i: int, st: ConfigView) -> Result<
    ConfigView,
    ArgErrorView,
>
    decreases args.len() - i,
{
    if i < 0 || i >= args.len() {
        Ok(st)
    } else {
        match classify(args[i]) {
            ArgKind::Switch(Switch::Help) => Err(ArgErrorView::Help),
            ArgKind::Switch(Switch::Version) => Err(ArgErrorView::Version),
            ArgKind::Switch(s) => fold_args(args, i + 1, apply_switch(st, s)),
            ArgKind::Separate(o) => if i + 1 >= args.len() {
                Err(ArgErrorView::MissingValue(option_name(o)))
            } else {
                match apply_value(st, o, args[i + 1], false) {
                    Ok(next) => fold_args(args, i + 2, next),
                    Err(e) => Err(e),
                }
            },
            ArgKind::Inline(o) => match apply_value(st, o, after_char(args[i], '='), true) {
                Ok(next) => fold_args(args, i + 1, next),
                Err(e) => Err(e),
            },
            ArgKind::Unknown => Err(ArgErrorView::UnknownOption(args[i])),
            ArgKind::Path => fold_args(args, i + 1, ConfigView { roots: st.roots.push(args[i]), ..st }),
        }
    }
}

/// The defaults applied after the last argument: the current directory
/// when no path was given, and clipboard output when no output mode was
/// chosen and list mode is off.
pub open spec fn finish(st: ConfigView) -> ConfigView {
    ConfigView {
        roots: if st.roots.len() == 0 {
            seq!["."@]
        } else {
            st.roots
        },
        output: OutputView {
            clipboard: st.output.clipboard || (!st.output.explicit && !st.list),
            ..st.output
        },
        ..st
    }
}

/// What parsing `args` gives.
pub open spec fn parse_spec(args: Seq<Seq<char>>) -> Result<ConfigView, ArgErrorView> {
    match fold_args(args, 0, initial_state()) {
        Ok(st) => Ok(finish(st)),
        Err(e) => Err(e),
    }
}

pub open spec fn result_view(r: Result<Config, ArgError>) -> Result<ConfigView, ArgErrorView> {
    match r {
        Ok(c) => Ok(c@),
        Err(e) => Err(e@),
    }
}

// ---------------------------------------------------------------------
// Laws
// ---------------------------------------------------------------------

/// The invariants that every state of the fold keeps.
pub open spec fn state_invariant(st: ConfigView) -> bool {
    &&& st.output.explicit || (!st.output.clipboard && !st.output.stdout
        && st.output.file is None)
    &&& st.picker is Some ==> st.pick
    &&& normalized(st.rules.include_ext)
    &&& normalized(st.rules.exclude_ext)
    &&& normalized(st.rules.exclude_dirs)
    &&& normalized(st.rules.exclude_files)
}

/// Every entry is non-empty and lower-case.
pub open spec fn normalized(list: Seq<Seq<char>>) -> bool {
    forall|j: int| 0 <= j < list.len() ==> (#[trigger] list[j]).len() > 0 && lower(list[j])
        == list[j]
}

proof fn lemma_parse_values_normalized(v: Seq<char>)
    ensures
        normalized(parse_values_spec(v)),
{
    let mapped = split(v, ',').map_values(|p: Seq<char>| lower(trim(p)));
    let keep = |p: Seq<char>| p.len() > 0;
    let r = mapped.filter(keep);
    assert forall|j: int| 0 <= j < r.len() implies (#[trigger] r[j]).len() > 0 && lower(r[j])
        == r[j] by {
        mapped.lemma_filter_pred(keep, j);
        assert(r.contains(r[j]));
        mapped.lemma_filter_contains_rev(keep, r[j]);
        let k = choose|k: int| 0 <= k < mapped.len() && mapped[k] == r[j];
        lemma_lower_idempotent(trim(split(v, ',')[k]));
    }
}

proof fn lemma_apply_keeps_invariant(st: ConfigView, o: ValueOption, v: Seq<char>, inline: bool)
    requires
        state_invariant(st),
    ensures
        apply_value(st, o, v, inline) matches Ok(next) ==> state_invariant(next),
{
    lemma_parse_values_normalized(v);
}

proof fn lemma_fold_keeps_invariant(args: Seq<Seq<char>>, i: int, st: ConfigView)
    requires
        state_invariant(st),
    ensures
        fold_args(args, i, st) matches Ok(end) ==> state_invariant(end),
    decreases args.len() - i,
{
    if 0 <= i < args.len() {
        match classify(args[i]) {
            ArgKind::Switch(s) => {
                lemma_fold_keeps_invariant(args, i + 1, apply_switch(st, s));
            },
            ArgKind::Separate(o) => {
                if i + 1 < args.len() {
                    lemma_apply_keeps_invariant(st, o, args[i + 1], false);
                    if let Ok(next) = apply_value(st, o, args[i + 1], false) {
                        lemma_fold_keeps_invariant(args, i + 2, next);
                    }
                }
            },
            ArgKind::Inline(o) => {
                lemma_apply_keeps_invariant(st, o, after_char(args[i], '='), true);
                if let Ok(next) = apply_value(st, o, after_char(args[i], '='), true) {
                    lemma_fold_keeps_invariant(args, i + 1, next);
                }
            },
            ArgKind::Unknown => {},
            ArgKind::Path => {
                lemma_fold_keeps_invariant(
                    args,
                    i + 1,
                    ConfigView { roots: st.roots.push(args[i]), ..st },
                );
            },
        }
    }
}

/// What every successful parse gives: at least one root; clipboard output
/// exactly when no output mode was chosen and list mode is off (and then no
/// other output); a chosen picker implies picker mode; every filter list
/// entry non-empty and lower-case.
pub proof fn law_parsed_config(args: Seq<Seq<char>>)
    ensures
        parse_spec(args) matches Ok(c) ==> {
            &&& c.roots.len() > 0
            &&& !c.output.explicit ==> c.output.clipboard == !c.list && !c.output.stdout
                && c.output.file is None
            &&& c.picker is Some ==> c.pick
            &&& normalized(c.rules.include_ext)
            &&& normalized(c.rules.exclude_ext)
            &&& normalized(c.rules.exclude_dirs)
            &&& normalized(c.rules.exclude_files)
        },
{
    lemma_fold_keeps_invariant(args, 0, initial_state());
}

proof fn lemma_fold_extend(args: Seq<Seq<char>>, extra: Seq<Seq<char>>, i: int, st: ConfigView)
    requires
        0 <= i <= args.len(),
    ensures
        fold_args(args, i, st) matches Ok(end) ==> fold_args(args + extra, i, st) == fold_args(
            args + extra,
            args.len() as int,
            end,
        ),
    decreases args.len() - i,
{
    let all = args + extra;
    if i < args.len() {
        assert(all[i] == args[i]);
        match classify(args[i]) {
            ArgKind::Switch(s) => {
                lemma_fold_extend(args, extra, i + 1, apply_switch(st, s));
            },
            ArgKind::Separate(o) => {
                if i + 1 < args.len() {
                    assert(all[i + 1] == args[i + 1]);
                    if let Ok(next) = apply_value(st, o, args[i + 1], false) {
                        lemma_fold_extend(args, extra, i + 2, next);
                    }
                }
            },
            ArgKind::Inline(o) => {
                if let Ok(next) = apply_value(st, o, after_char(args[i], '='), true) {
                    lemma_fold_extend(args, extra, i + 1, next);
                }
            },
            ArgKind::Unknown => {},
            ArgKind::Path => {
                lemma_fold_extend(
                    args,
                    extra,
                    i + 1,
                    ConfigView { roots: st.roots.push(args[i]), ..st },
                );
            },
        }
    }
}

proof fn lemma_switch_literals()
    ensures
        classify("--clipboard"@) == ArgKind::Switch(Switch::Clipboard),
        classify("--stdout"@) == ArgKind::Switch(Switch::Stdout),
        classify("--output"@) == ArgKind::Separate(ValueOption::Output),
{
    reveal_strlit("--pick");
    reveal_strlit("--list");
    reveal_strlit("--quiet");
    reveal_strlit("--verbose");
    reveal_strlit("--clipboard");
    reveal_strlit("--stdout");
    reveal_strlit("-h");
    reveal_strlit("--help");
    reveal_strlit("-V");
    reveal_strlit("--version");
    reveal_strlit("--output");
    assert("--pick"@.len() == 6);
    assert("--list"@.len() == 6);
    assert("--quiet"@.len() == 7);
    assert("--verbose"@.len() == 9);
    assert("--clipboard"@.len() == 11);
    assert("--stdout"@.len() == 8);
    assert("-h"@.len() == 2);
    assert("--help"@.len() == 6);
    assert("-V"@.len() == 2);
    assert("--version"@.len() == 9);
    assert("--output"@.len() == 8);
    assert("--output"@[2] != "--stdout"@[2]);
}

proof fn lemma_after_char_prefix(q: Seq<char>, c: char, v: Seq<char>)
    requires
        !q.contains(c),
    ensures
        after_char(q.push(c) + v, c) == v,
    decreases q.len(),
{
    let a = q.push(c) + v;
    if q.len() == 0 {
        assert(a[0] == c);
        assert(a.drop_first() =~= v);
    } else {
        assert(a[0] == q[0]);
        assert(q[0] != c);
        let r = q.drop_first();
        if r.contains(c) {
            let k = choose|k: int| 0 <= k < r.len() && r[k] == c;
            assert(q[k + 1] == c);
        }
        assert(a.drop_first() =~= r.push(c) + v);
        lemma_after_char_prefix(r, c, v);
    }
}

/// The literal facts that tell the options apart.
proof fn lemma_option_forms(o: ValueOption, v: Seq<char>)
    ensures
        classify(option_name(o)) == ArgKind::Separate(o),
        classify(inline_prefix(o) + v) == ArgKind::Inline(o),
        after_char(inline_prefix(o) + v, '=') == v,
{
    reveal_strlit("--pick");
    reveal_strlit("--list");
    reveal_strlit("--quiet");
    reveal_strlit("--verbose");
    reveal_strlit("--clipboard");
    reveal_strlit("--stdout");
    reveal_strlit("-h");
    reveal_strlit("--help");
    reveal_strlit("-V");
    reveal_strlit("--version");
    reveal_strlit("--output");
    reveal_strlit("--picker");
    reveal_strlit("--include-ext");
    reveal_strlit("--exclude-ext");
    reveal_strlit("--exclude-dir");
    reveal_strlit("--exclude-file");
    reveal_strlit("--output=");
    reveal_strlit("--picker=");
    reveal_strlit("--include-ext=");
    reveal_strlit("--exclude-ext=");
    reveal_strlit("--exclude-dir=");
    reveal_strlit("--exclude-file=");
    assert("--pick"@.len() == 6);
    assert("--list"@.len() == 6);
    assert("--quiet"@.len() == 7);
    assert("--verbose"@.len() == 9);
    assert("--clipboard"@.len() == 11);
    assert("--stdout"@.len() == 8);
    assert("-h"@.len() == 2);
    assert("--help"@.len() == 6);
    assert("-V"@.len() == 2);
    assert("--version"@.len() == 9);
    assert("--output"@.len() == 8);
    assert("--picker"@.len() == 8);
    assert("--include-ext"@.len() == 13);
    assert("--exclude-ext"@.len() == 13);
    assert("--exclude-dir"@.len() == 13);
    assert("--exclude-file"@.len() == 14);
    assert("--output="@.len() == 9);
    assert("--picker="@.len() == 9);
    assert("--include-ext="@.len() == 14);
    assert("--exclude-ext="@.len() == 14);
    assert("--exclude-dir="@.len() == 14);
    assert("--exclude-file="@.len() == 15);
    assert("--pick"@[2] == 'p');
    assert("--list"@[2] == 'l');
    assert("--quiet"@[2] == 'q');
    assert("--verbose"@[2] == 'v');
    assert("--clipboard"@[2] == 'c');
    assert("--clipboard"@[10] == 'd');
    assert("--stdout"@[2] == 's');
    assert("--help"@[2] == 'h');
    assert("--version"@[2] == 'v');
    assert("--output"@[2] == 'o');
    assert("--picker"@[2] == 'p');
    assert("--include-ext"@[2] == 'i');
    assert("--include-ext"@[10] == 'e');
    assert("--exclude-ext"@[2] == 'e');
    assert("--exclude-ext"@[10] == 'e');
    assert("--exclude-dir"@[2] == 'e');
    assert("--exclude-dir"@[10] == 'd');
    assert("--exclude-file"@[2] == 'e');
    assert("--exclude-file"@[10] == 'f');
    assert("--output="@[2] == 'o');
    assert("--picker="@[2] == 'p');
    assert("--include-ext="@[2] == 'i');
    assert("--include-ext="@[10] == 'e');
    assert("--exclude-ext="@[2] == 'e');
    assert("--exclude-ext="@[10] == 'e');
    assert("--exclude-dir="@[2] == 'e');
    assert("--exclude-dir="@[10] == 'd');
    assert("--exclude-file="@[2] == 'e');
    assert("--exclude-file="@[10] == 'f');
    let p = inline_prefix(o);
    let a = p + v;
    assert(a[2] == p[2]);
    if p.len() > 10 {
        assert(a[10] == p[10]);
    }
    assert(a.subrange(0, p.len() as int) =~= p);
    let q = p.drop_last();
    assert(q.push('=') =~= p);
    assert(!q.contains('=')) by {
        if q.contains('=') {
            let k = choose|k: int| 0 <= k < q.len() && q[k] == '=';
            assert(p[k] == '=');
            assert(p[k] == inline_prefix(o)[k]);
        }
    }
    lemma_after_char_prefix(q, '=', v);
}

/// The two forms of an option agree: after a successful parse, appending
/// `--name=value` gives the same result as appending `--name value`. For
/// `--output` and `--picker` the value must be non-empty (an empty value
/// after `=` is refused).
pub proof fn law_inline_and_separate_forms_agree(args: Seq<Seq<char>>, o: ValueOption, v: Seq<char>)
    requires
        parse_spec(args) is Ok,
        v.len() > 0 || (o != ValueOption::Output && o != ValueOption::Picker),
    ensures
        parse_spec(args.push(inline_prefix(o) + v)) == parse_spec(
            args.push(option_name(o)).push(v),
        ),
{
    lemma_option_forms(o, v);
    let inl = seq![inline_prefix(o) + v];
    let sep = seq![option_name(o), v];
    assert(args.push(inline_prefix(o) + v) =~= args + inl);
    assert(args.push(option_name(o)).push(v) =~= args + sep);
    lemma_fold_extend(args, inl, 0, initial_state());
    lemma_fold_extend(args, sep, 0, initial_state());
    let end = fold_args(args, 0, initial_state())->Ok_0;
    let n = args.len() as int;
    assert((args + inl)[n] == inline_prefix(o) + v);
    assert((args + sep)[n] == option_name(o));
    assert((args + sep)[n + 1] == v);
    assert(apply_value(end, o, v, true) == apply_value(end, o, v, false));
    match apply_value(end, o, v, false) {
        Ok(next) => {
            assert(fold_args(args + inl, n + 1, next) == Ok::<ConfigView, ArgErrorView>(next));
            assert(fold_args(args + sep, n + 2, next) == Ok::<ConfigView, ArgErrorView>(next));
        },
        Err(e) => {},
    }
}

/// Each filter option, in either form, sets its list to the comma-separated
/// entries of the value, trimmed and lowered, and leaves the other lists
/// alone: `--exclude-dir=target,node_modules` excludes both directories.
pub proof fn law_filter_option_values(args: Seq<Seq<char>>, v: Seq<char>)
    requires
        parse_spec(args) matches Ok(c),
    ensures
        parse_spec(args.push("--include-ext="@ + v)) matches Ok(d) && d.rules == (RulesView {
            include_ext: parse_values_spec(v),
            ..parse_spec(args)->Ok_0.rules
        }),
        parse_spec(args.push("--exclude-ext="@ + v)) matches Ok(d) && d.rules == (RulesView {
            exclude_ext: parse_values_spec(v),
            ..parse_spec(args)->Ok_0.rules
        }),
        parse_spec(args.push("--exclude-dir="@ + v)) matches Ok(d) && d.rules == (RulesView {
            exclude_dirs: parse_values_spec(v),
            ..parse_spec(args)->Ok_0.rules
        }),
        parse_spec(args.push("--exclude-file="@ + v)) matches Ok(d) && d.rules == (RulesView {
            exclude_files: parse_values_spec(v),
            ..parse_spec(args)->Ok_0.rules
        }),
        parse_spec(args.push("--exclude-dir="@ + v)) == parse_spec(
            args.push("--exclude-dir"@).push(v),
        ),
        parse_spec(args.push("--include-ext="@ + v)) == parse_spec(
            args.push("--include-ext"@).push(v),
        ),
        parse_spec(args.push("--exclude-ext="@ + v)) == parse_spec(
            args.push("--exclude-ext"@).push(v),
        ),
        parse_spec(args.push("--exclude-file="@ + v)) == parse_spec(
            args.push("--exclude-file"@).push(v),
        ),
{
    let end = fold_args(args, 0, initial_state())->Ok_0;
    let n = args.len() as int;
    law_inline_and_separate_forms_agree(args, ValueOption::IncludeExt, v);
    law_inline_and_separate_forms_agree(args, ValueOption::ExcludeExt, v);
    law_inline_and_separate_forms_agree(args, ValueOption::ExcludeDir, v);
    law_inline_and_separate_forms_agree(args, ValueOption::ExcludeFile, v);
    assert forall|o: ValueOption|
        o != ValueOption::Output && o != ValueOption::Picker implies #[trigger] parse_spec(
        args.push(inline_prefix(o) + v),
    ) == Ok::<ConfigView, ArgErrorView>(finish(apply_value(end, o, v, true)->Ok_0)) by {
        lemma_option_forms(o, v);
        let inl = seq![inline_prefix(o) + v];
        assert(args.push(inline_prefix(o) + v) =~= args + inl);
        lemma_fold_extend(args, inl, 0, initial_state());
        assert((args + inl)[n] == inline_prefix(o) + v);
        let next = apply_value(end, o, v, true)->Ok_0;
        assert(fold_args(args + inl, n + 1, next) == Ok::<ConfigView, ArgErrorView>(next));
    }
    assert(parse_spec(args.push(inline_prefix(ValueOption::IncludeExt) + v)) is Ok);
    assert(parse_spec(args.push(inline_prefix(ValueOption::ExcludeExt) + v)) is Ok);
    assert(parse_spec(args.push(inline_prefix(ValueOption::ExcludeDir) + v)) is Ok);
    assert(parse_spec(args.push(inline_prefix(ValueOption::ExcludeFile) + v)) is Ok);
    assert(finish(apply_value(end, ValueOption::IncludeExt, v, true)->Ok_0).rules =~= (RulesView {
        include_ext: parse_values_spec(v),
        ..finish(end).rules
    }));
    assert(finish(apply_value(end, ValueOption::ExcludeExt, v, true)->Ok_0).rules =~= (RulesView {
        exclude_ext: parse_values_spec(v),
        ..finish(end).rules
    }));
    assert(finish(apply_value(end, ValueOption::ExcludeDir, v, true)->Ok_0).rules =~= (RulesView {
        exclude_dirs: parse_values_spec(v),
        ..finish(end).rules
    }));
    assert(finish(apply_value(end, ValueOption::ExcludeFile, v, true)->Ok_0).rules =~= (RulesView {
        exclude_files: parse_values_spec(v),
        ..finish(end).rules
    }));
}

/// Comma-separated values split at each comma: the values of `a,b` are
/// the values of `a` followed by those of `b`; a single entry without a
/// comma gives itself, trimmed and lowered, unless it is blank.
pub proof fn law_values_split_at_commas(a: Seq<char>, b: Seq<char>)
    ensures
        parse_values_spec(a.push(',') + b) == parse_values_spec(a) + parse_values_spec(b),
        !a.contains(',') && trim(a).len() > 0 ==> parse_values_spec(a) == seq![lower(trim(a))],
        !a.contains(',') && trim(a).len() == 0 ==> parse_values_spec(a).len() == 0,
{
    let f = |p: Seq<char>| lower(trim(p));
    let keep = |p: Seq<char>| p.len() > 0;
    lemma_split_concat(a, ',', b);
    let sa = split(a, ',');
    let sb = split(b, ',');
    assert((sa + sb).map_values(f) =~= sa.map_values(f) + sb.map_values(f));
    Seq::filter_distributes_over_add(sa.map_values(f), sb.map_values(f), keep);
    if !a.contains(',') {
        lemma_split_single(a, ',');
        reveal_with_fuel(Seq::<_>::filter, 2);
        let m = sa.map_values(f);
        assert(m =~= seq![lower(trim(a))]);
        assert(m.drop_last() =~= Seq::<Seq<char>>::empty());
        assert(lower(trim(a)).len() == trim(a).len());
        if trim(a).len() > 0 {
            assert(m.filter(keep) =~= seq![lower(trim(a))]);
        } else {
            assert(m.filter(keep) =~= Seq::<Seq<char>>::empty());
        }
    }
}

/// Output modes combine: adding `--stdout` after a successful parse turns
/// on stdout output and keeps an explicitly chosen clipboard and file;
/// only the implicit default clipboard is dropped.
pub proof fn law_stdout_combines(args: Seq<Seq<char>>)
    ensures
        parse_spec(args) matches Ok(c) ==> parse_spec(args.push("--stdout"@)) == Ok::<
            ConfigView,
            ArgErrorView,
        >(
            ConfigView {
                output: OutputView {
                    stdout: true,
                    explicit: true,
                    clipboard: c.output.explicit && c.output.clipboard,
                    ..c.output
                },
                ..c
            },
        ),
{
    lemma_switch_literals();
    lemma_fold_keeps_invariant(args, 0, initial_state());
    let extra = seq!["--stdout"@];
    assert(args.push("--stdout"@) =~= args + extra);
    lemma_fold_extend(args, extra, 0, initial_state());
    if let Ok(end) = fold_args(args, 0, initial_state()) {
        assert((args + extra)[args.len() as int] == "--stdout"@);
        let next = apply_switch(end, Switch::Stdout);
        assert(fold_args(args + extra, args.len() as int, end) == fold_args(
            args + extra,
            args.len() + 1int,
            next,
        ));
        assert(finish(next) =~= ({
            let c = finish(end);
            ConfigView {
                output: OutputView {
                    stdout: true,
                    explicit: true,
                    clipboard: c.output.explicit && c.output.clipboard,
                    ..c.output
                },
                ..c
            }
        }));
    }
}

/// Output modes combine: adding `--clipboard` after a successful parse
/// turns on explicit clipboard output and keeps stdout and file output.
pub proof fn law_clipboard_combines(args: Seq<Seq<char>>)
    ensures
        parse_spec(args) matches Ok(c) ==> parse_spec(args.push("--clipboard"@)) == Ok::<
            ConfigView,
            ArgErrorView,
        >(ConfigView { output: OutputView { clipboard: true, explicit: true, ..c.output }, ..c }),
{
    lemma_switch_literals();
    lemma_fold_keeps_invariant(args, 0, initial_state());
    let extra = seq!["--clipboard"@];
    assert(args.push("--clipboard"@) =~= args + extra);
    lemma_fold_extend(args, extra, 0, initial_state());
    if let Ok(end) = fold_args(args, 0, initial_state()) {
        assert((args + extra)[args.len() as int] == "--clipboard"@);
        let next = apply_switch(end, Switch::Clipboard);
        assert(fold_args(args + extra, args.len() as int, end) == fold_args(
            args + extra,
            args.len() + 1int,
            next,
        ));
        assert(finish(next) =~= ({
            let c = finish(end);
            ConfigView { output: OutputView { clipboard: true, explicit: true, ..c.output }, ..c }
        }));
    }
}

/// Output modes combine: adding `--output <file>` after a successful parse
/// writes to that file and keeps an explicitly chosen clipboard and stdout.
pub proof fn law_output_file_combines(args: Seq<Seq<char>>, file: Seq<char>)
    ensures
        parse_spec(args) matches Ok(c) ==> parse_spec(args.push("--output"@).push(file)) == Ok::<
            ConfigView,
            ArgErrorView,
        >(
            ConfigView {
                output: OutputView {
                    file: Some(file),
                    explicit: true,
                    clipboard: c.output.explicit && c.output.clipboard,
                    ..c.output
                },
                ..c
            },
        ),
{
    lemma_switch_literals();
    lemma_fold_keeps_invariant(args, 0, initial_state());
    let extra = seq!["--output"@, file];
    assert(args.push("--output"@).push(file) =~= args + extra);
    lemma_fold_extend(args, extra, 0, initial_state());
    if let Ok(end) = fold_args(args, 0, initial_state()) {
        let all = args + extra;
        assert(all[args.len() as int] == "--output"@);
        assert(all[args.len() + 1int] == file);
        let next = ConfigView {
            output: OutputView { file: Some(file), explicit: true, ..end.output },
            ..end
        };
        assert(apply_value(end, ValueOption::Output, file, false) == Ok::<
            ConfigView,
            ArgErrorView,
        >(next));
        assert(fold_args(all, args.len() as int, end) == fold_args(all, args.len() + 2int, next));
        assert(finish(next) =~= ({
            let c = finish(end);
            ConfigView {
                output: OutputView {
                    file: Some(file),
                    explicit: true,
                    clipboard: c.output.explicit && c.output.clipboard,
                    ..c.output
                },
                ..c
            }
        }));
    }
}

/// The path arguments from index `i` on, in order: the arguments that are
/// no option, leaving out each value that follows an option written
/// `--name value`.
pub open spec fn path_args(args: Seq<Seq<char>>, i: int) -> Seq<Seq<char>>
    decreases args.len() + 1 - i,
{
    if i < 0 || i >= args.len() {
        Seq::empty()
    } else {
        match classify(args[i]) {
            ArgKind::Separate(_) => path_args(args, i + 2),
            ArgKind::Path => seq![args[i]] + path_args(args, i + 1),
            _ => path_args(args, i + 1),
        }
    }
}

/// Whether switch `s` is given from index `i` on (not as an option's value).
pub open spec fn switch_given(args: Seq<Seq<char>>, i: int, s: Switch) -> bool
    decreases args.len() + 1 - i,
{
    if i < 0 || i >= args.len() {
        false
    } else {
        match classify(args[i]) {
            ArgKind::Separate(_) => switch_given(args, i + 2, s),
            ArgKind::Switch(t) => t == s || switch_given(args, i + 1, s),
            _ => switch_given(args, i + 1, s),
        }
    }
}

/// Whether option `o` is given, as `--name value` or `--name=value`, from
/// index `i` on (not as another option's value).
pub open spec fn option_given(args: Seq<Seq<char>>, i: int, o: ValueOption) -> bool
    decreases args.len() + 1 - i,
{
    if i < 0 || i >= args.len() {
        false
    } else {
        match classify(args[i]) {
            ArgKind::Separate(p) => p == o || option_given(args, i + 2, o),
            ArgKind::Inline(p) => p == o || option_given(args, i + 1, o),
            _ => option_given(args, i + 1, o),
        }
    }
}

/// An output mode is chosen from index `i` on: `--clipboard`, `--stdout`
/// or `--output`.
pub open spec fn output_chosen(args: Seq<Seq<char>>, i: int) -> bool {
    switch_given(args, i, Switch::Clipboard) || switch_given(args, i, Switch::Stdout)
        || option_given(args, i, ValueOption::Output)
}

proof fn lemma_fold_tokens(args: Seq<Seq<char>>, i: int, st: ConfigView)
    requires
        0 <= i,
    ensures
        fold_args(args, i, st) matches Ok(end) ==> {
            &&& end.roots == st.roots + path_args(args, i)
            &&& end.output.explicit == (st.output.explicit || output_chosen(args, i))
            &&& end.output.clipboard == (st.output.clipboard || switch_given(
                args,
                i,
                Switch::Clipboard,
            ))
            &&& end.list == (st.list || switch_given(args, i, Switch::List))
            &&& end.quiet == (st.quiet || switch_given(args, i, Switch::Quiet))
            &&& end.verbose == (st.verbose || switch_given(args, i, Switch::Verbose))
            &&& end.output.stdout == (st.output.stdout || switch_given(args, i, Switch::Stdout))
            &&& (end.output.file is Some) == (st.output.file is Some || option_given(
                args,
                i,
                ValueOption::Output,
            ))
            &&& end.pick == (st.pick || switch_given(args, i, Switch::Pick) || option_given(
                args,
                i,
                ValueOption::Picker,
            ))
        },
    decreases args.len() - i,
{
    if i >= args.len() {
        assert(st.roots + path_args(args, i) =~= st.roots);
    } else {
        match classify(args[i]) {
            ArgKind::Switch(s) => {
                lemma_fold_tokens(args, i + 1, apply_switch(st, s));
            },
            ArgKind::Separate(o) => {
                if i + 1 < args.len() {
                    if let Ok(next) = apply_value(st, o, args[i + 1], false) {
                        lemma_fold_tokens(args, i + 2, next);
                    }
                }
            },
            ArgKind::Inline(o) => {
                if let Ok(next) = apply_value(st, o, after_char(args[i], '='), true) {
                    lemma_fold_tokens(args, i + 1, next);
                }
            },
            ArgKind::Unknown => {},
            ArgKind::Path => {
                let next = ConfigView { roots: st.roots.push(args[i]), ..st };
                lemma_fold_tokens(args, i + 1, next);
                assert(next.roots + path_args(args, i + 1) =~= st.roots + (seq![args[i]]
                    + path_args(args, i + 1)));
            },
        }
    }
}

/// What a successful parse holds of the arguments: the roots are the path
/// arguments in order (the current directory when there are none); output
/// is explicit exactly when `--clipboard`, `--stdout` or `--output` is
/// given; list mode exactly when `--list` is given; and the clipboard is
/// used exactly when `--clipboard` is given or no output mode is chosen
/// outside list mode. Each other switch (`--stdout`, `--quiet`,
/// `--verbose`) is on exactly when given; a file is written exactly when
/// `--output` is given; picker mode is on exactly when `--pick` or
/// `--picker` is given.
pub proof fn law_parsed_from_arguments(args: Seq<Seq<char>>)
    ensures
        parse_spec(args) matches Ok(c) ==> {
            &&& c.output.stdout == switch_given(args, 0, Switch::Stdout)
            &&& c.quiet == switch_given(args, 0, Switch::Quiet)
            &&& c.verbose == switch_given(args, 0, Switch::Verbose)
            &&& (c.output.file is Some) == option_given(args, 0, ValueOption::Output)
            &&& c.pick == (switch_given(args, 0, Switch::Pick) || option_given(
                args,
                0,
                ValueOption::Picker,
            ))
            &&& c.roots == (if path_args(args, 0).len() == 0 {
                seq!["."@]
            } else {
                path_args(args, 0)
            })
            &&& c.output.explicit == output_chosen(args, 0)
            &&& c.list == switch_given(args, 0, Switch::List)
            &&& c.output.clipboard == (switch_given(args, 0, Switch::Clipboard) || (
            !c.output.explicit && !c.list))
        },
{
    lemma_fold_tokens(args, 0, initial_state());
    assert(Seq::<Seq<char>>::empty() + path_args(args, 0) =~= path_args(args, 0));
}

// ---------------------------------------------------------------------
// Executable functions
// ---------------------------------------------------------------------

fn option_flag(o: ValueOption) -> (r: &'static str)
    ensures
        r@ == option_name(o),
{
    match o {
        ValueOption::Output => "--output",
        ValueOption::Picker => "--picker",
        ValueOption::IncludeExt => "--include-ext",
        ValueOption::ExcludeExt => "--exclude-ext",
        ValueOption::ExcludeDir => "--exclude-dir",
        ValueOption::ExcludeFile => "--exclude-file",
    }
}

fn option_inline_prefix(o: ValueOption) -> (r: &'static str)
    ensures
        r@ == inline_prefix(o),
{
    match o {
        ValueOption::Output => "--output=",
        ValueOption::Picker => "--picker=",
        ValueOption::IncludeExt => "--include-ext=",
        ValueOption::ExcludeExt => "--exclude-ext=",
        ValueOption::ExcludeDir => "--exclude-dir=",
        ValueOption::ExcludeFile => "--exclude-file=",
    }
}

/// The kind of argument `a` is.
pub fn classify_arg(a: &str) -> (r: ArgKind)
    ensures
        r == classify(a@),
{
    if str_eq(a, "--pick") {
        ArgKind::Switch(Switch::Pick)
    } else if str_eq(a, "--list") {
        ArgKind::Switch(Switch::List)
    } else if str_eq(a, "--quiet") {
        ArgKind::Switch(Switch::Quiet)
    } else if str_eq(a, "--verbose") {
        ArgKind::Switch(Switch::Verbose)
    } else if str_eq(a, "--clipboard") {
        ArgKind::Switch(Switch::Clipboard)
    } else if str_eq(a, "--stdout") {
        ArgKind::Switch(Switch::Stdout)
    } else if str_eq(a, "-h") || str_eq(a, "--help") {
        ArgKind::Switch(Switch::Help)
    } else if str_eq(a, "-V") || str_eq(a, "--version") {
        ArgKind::Switch(Switch::Version)
    } else if str_eq(a, option_flag(ValueOption::Output)) {
        ArgKind::Separate(ValueOption::Output)
    } else if str_eq(a, option_flag(ValueOption::Picker)) {
        ArgKind::Separate(ValueOption::Picker)
    } else if str_eq(a, option_flag(ValueOption::IncludeExt)) {
        ArgKind::Separate(ValueOption::IncludeExt)
    } else if str_eq(a, option_flag(ValueOption::ExcludeExt)) {
        ArgKind::Separate(ValueOption::ExcludeExt)
    } else if str_eq(a, option_flag(ValueOption::ExcludeDir)) {
        ArgKind::Separate(ValueOption::ExcludeDir)
    } else if str_eq(a, option_flag(ValueOption::ExcludeFile)) {
        ArgKind::Separate(ValueOption::ExcludeFile)
    } else if starts_with(a, option_inline_prefix(ValueOption::Output)) {
        ArgKind::Inline(ValueOption::Output)
    } else if starts_with(a, option_inline_prefix(ValueOption::Picker)) {
        ArgKind::Inline(ValueOption::Picker)
    } else if starts_with(a, option_inline_prefix(ValueOption::IncludeExt)) {
        ArgKind::Inline(ValueOption::IncludeExt)
    } else if starts_with(a, option_inline_prefix(ValueOption::ExcludeExt)) {
        ArgKind::Inline(ValueOption::ExcludeExt)
    } else if starts_with(a, option_inline_prefix(ValueOption::ExcludeDir)) {
        ArgKind::Inline(ValueOption::ExcludeDir)
    } else if starts_with(a, option_inline_prefix(ValueOption::ExcludeFile)) {
        ArgKind::Inline(ValueOption::ExcludeFile)
    } else {
        let v = chars_of(a);
        if v.len() > 0 && v[0] == '-' {
            ArgKind::Unknown
        } else {
            ArgKind::Path
        }
    }
}

/// Return the part after the first `=` in `--flag=value` (empty if there is none).
pub fn after_equal(arg: &str) -> (r: String)
    ensures
        r@ == after_char(arg@, '='),
{
    let v = chars_of(arg);
    let n = v.len();
    let mut i: usize = 0;
    assert(arg@.skip(0) =~= arg@);
    while i < n && v[i] != '='
        invariant
            v@ == arg@,
            n == v.len(),
            i <= n,
            after_char(arg@, '=') == after_char(arg@.skip(i as int), '='),
        decreases n - i,
    {
        proof {
            assert(arg@.skip(i as int).drop_first() =~= arg@.skip(i + 1));
        }
        i = i + 1;
    }
    if i < n {
        proof {
            assert(arg@.skip(i as int).drop_first() =~= arg@.skip(i + 1));
        }
        String::from_str(arg.substring_char(i + 1, n))
    } else {
        proof {
            assert(arg@.skip(i as int) =~= Seq::<char>::empty());
        }
        String::new()
    }
}

/// Parse comma-separated values: each trimmed and lower-cased, empty
/// entries dropped.
pub fn parse_values(value: &str) -> (r: Vec<String>)
    ensures
        strings_view(r@) == parse_values_spec(value@),
{
    let pieces = split_str(value, ',');
    let ghost mapped = split(value@, ',').map_values(|p: Seq<char>| lower(trim(p)));
    let ghost keep = |p: Seq<char>| p.len() > 0;
    let mut out: Vec<String> = Vec::new();
    let mut i: usize = 0;
    while i < pieces.len()
        invariant
            strings_view(pieces@) == split(value@, ','),
            mapped == split(value@, ',').map_values(|p: Seq<char>| lower(trim(p))),
            keep == (|p: Seq<char>| p.len() > 0),
            i <= pieces.len(),
            strings_view(out@) == mapped.take(i as int).filter(keep),
        decreases pieces.len() - i,
    {
        let t = trim_str(pieces[i].as_str());
        let l = to_ascii_lowercase(t);
        proof {
            reveal_with_fuel(Seq::<_>::filter, 1);
            assert(pieces@[i as int]@ == split(value@, ',')[i as int]);
            assert(mapped[i as int] == l@);
            assert(mapped.take(i + 1).drop_last() =~= mapped.take(i as int));
        }
        if l.unicode_len() > 0 {
            proof {
                assert(strings_view(out@.push(l)) =~= strings_view(out@).push(l@));
            }
            out.push(l);
        }
        i = i + 1;
    }
    proof {
        assert(mapped.take(pieces.len() as int) =~= mapped);
    }
    out
}

/// Apply a switch (other than help and version).
fn apply_switch_exec(cfg: &mut Config, s: Switch)
    requires
        s != Switch::Help,
        s != Switch::Version,
    ensures
        final(cfg)@ == apply_switch(old(cfg)@, s),
{
    match s {
        Switch::Pick => cfg.pick = true,
        Switch::List => cfg.list = true,
        Switch::Quiet => cfg.quiet = true,
        Switch::Verbose => cfg.verbose = true,
        Switch::Clipboard => {
            cfg.output.clipboard = true;
            cfg.output.explicit = true;
        },
        Switch::Stdout => {
            cfg.output.stdout = true;
            cfg.output.explicit = true;
        },
        _ => {},
    }
    assert(cfg@ =~= apply_switch(old(cfg)@, s));
}

/// Apply an option with its value.
fn apply_value_exec(cfg: &mut Config, o: ValueOption, v: &str, inline: bool) -> (r: Result<
    (),
    ArgError,
>)
    ensures
        match apply_value(old(cfg)@, o, v@, inline) {
            Ok(next) => r is Ok && final(cfg)@ == next,
            Err(e) => r matches Err(err) && err@ == e,
        },
{
    match o {
        ValueOption::Output => {
            if inline && v.unicode_len() == 0 {
                return Err(ArgError::EmptyValue(String::from_str(option_flag(o))));
            }
            cfg.output.file = Some(String::from_str(v));
            cfg.output.explicit = true;
        },
        ValueOption::Picker => {
            if inline && v.unicode_len() == 0 {
                return Err(ArgError::EmptyValue(String::from_str(option_flag(o))));
            }
            if str_eq(v, "sk") {
                cfg.pick = true;
                cfg.picker = Some(PickerKind::Sk);
            } else if str_eq(v, "fzf") {
                cfg.pick = true;
                cfg.picker = Some(PickerKind::Fzf);
            } else {
                return Err(ArgError::UnknownPicker(String::from_str(v)));
            }
        },
        ValueOption::IncludeExt => cfg.rules.include_ext = parse_values(v),
        ValueOption::ExcludeExt => cfg.rules.exclude_ext = parse_values(v),
        ValueOption::ExcludeDir => cfg.rules.exclude_dirs = parse_values(v),
        ValueOption::ExcludeFile => cfg.rules.exclude_files = parse_values(v),
    }
    assert(apply_value(old(cfg)@, o, v@, inline) matches Ok(next) && cfg@ =~= next);
    Ok(())
}

/// Parse command-line arguments (without the program name) into a `Config`.
///
/// Supported forms:
/// - `--pick`, `--list`, `--quiet`, `--verbose`
/// - `--clipboard`, `--stdout`
/// - `--output context.md`, `--output=context.md`
/// - `--picker sk|fzf`, `--picker=sk|fzf` (implies `--pick`)
/// - `--include-ext rs,toml,md`, `--include-ext=rs,toml,md`
/// - `--exclude-ext lock,json`
/// - `--exclude-dir target,node_modules`
/// - `--exclude-file Cargo.lock`
/// - `-h`/`--help` and `-V`/`--version` stop parsing
///
/// Behavior:
/// - Treats non-flag arguments as file/directory paths
/// - Returns an error on unknown flags or missing values
/// - Defaults to the current directory if no paths are provided
/// - Defaults to clipboard output if no output mode is specified and list
///   mode is off
pub fn parse_args(args: Vec<String>) -> (r: Result<Config, ArgError>)
    ensures
        result_view(r) == parse_spec(strings_view(args@)),
{
    let ghost a = strings_view(args@);
    let mut cfg = Config {
        roots: Vec::new(),
        pick: false,
        picker: None,
        list: false,
        quiet: false,
        verbose: false,
        rules: Rules::default(),
        output: OutputConfig::default(),
    };
    assert(cfg@ =~= initial_state());
    let mut i: usize = 0;
    while i < args.len()
        invariant
            a == strings_view(args@),
            i <= args.len(),
            fold_args(a, 0, initial_state()) == fold_args(a, i as int, cfg@),
        decreases args.len() - i,
    {
        let arg = args[i].as_str();
        assert(arg@ == a[i as int]);
        let kind = classify_arg(arg);
        match kind {
            ArgKind::Switch(Switch::Help) => return Err(ArgError::Help),
            ArgKind::Switch(Switch::Version) => return Err(ArgError::Version),
            ArgKind::Switch(s) => {
                apply_switch_exec(&mut cfg, s);
                i = i + 1;
            },
            ArgKind::Separate(o) => {
                if i + 1 >= args.len() {
                    return Err(ArgError::MissingValue(String::from_str(option_flag(o))));
                }
                assert(args[i + 1]@ == a[i + 1]);
                match apply_value_exec(&mut cfg, o, args[i + 1].as_str(), false) {
                    Ok(()) => {},
                    Err(e) => return Err(e),
                }
                i = i + 2;
            },
            ArgKind::Inline(o) => {
                let value = after_equal(arg);
                match apply_value_exec(&mut cfg, o, value.as_str(), true) {
                    Ok(()) => {},
                    Err(e) => return Err(e),
                }
                i = i + 1;
            },
            ArgKind::Unknown => return Err(ArgError::UnknownOption(String::from_str(arg))),
            ArgKind::Path => {
                let ghost before = cfg@;
                cfg.roots.push(String::from_str(arg));
                assert(cfg@ =~= ConfigView { roots: before.roots.push(a[i as int]), ..before });
                i = i + 1;
            },
        }
    }
    if cfg.roots.len() == 0 {
        cfg.roots.push(String::from_str("."));
    }
    if !cfg.output.explicit && !cfg.list {
        cfg.output.clipboard = true;
    }
    assert(cfg@ =~= finish(fold_args(a, 0, initial_state())->Ok_0));
    Ok(cfg)
}

} // verus!
