//! Which files and directories are collected.
//!
//! A path is judged by its final component, its file name, as
//! `std::path::Path::file_name` finds it. Everything that follows from the
//! file name (hidden names, excluded names, the extension and the extension
//! rules) is decided here and verified.
use vstd::prelude::*;

use crate::text::{
    chars_of, contains_str, lemma_lower_idempotent, lower, lower_char, str_eq, strings_view,
    to_ascii_lowercase,
};

verus! {

// ---------------------------------------------------------------------
// Trusted item: the file name of a path.
// ---------------------------------------------------------------------

/// The final component of `path` as `Path::file_name` gives it (as text);
/// `None` where the path has no such component (`/`, `..`, a path ending in `..`).
pub uninterp spec fn path_file_name(path: Seq<char>) -> Option<Seq<char>>;

/// A path made of one ordinary component: non-empty, no separator (`/`
/// or `\`), no drive or prefix marker (`:`), and neither `.` nor `..`.
pub open spec fn plain_name(path: Seq<char>) -> bool {
    &&& path.len() > 0
    &&& !path.contains('/')
    &&& !path.contains('\\')
    &&& !path.contains(':')
    &&& path != "."@
    &&& path != ".."@
}

/// Calls `Path::file_name` on `path` and converts the name to a `String`.
/// The contract claims that the result is `path_file_name` at `path`, and
/// that a path of one ordinary component is its own file name (the final
/// component, as std documents); how std splits other paths into components
/// is not restated.
#[verifier::external_body]
fn file_name(path: &str) -> (r: Option<String>)
    ensures
        opt_string_view(r) == path_file_name(path@),
        plain_name(path@) ==> opt_string_view(r) == Some(path@),
{
    std::path::Path::new(path).file_name().and_then(|n| n.to_str()).map(|n| n.to_string())
}

// ---------------------------------------------------------------------
// Rules and their model
// ---------------------------------------------------------------------

/// User-defined filtering rules from CLI arguments.
///
/// The lists hold lower-case entries when they come from the argument
/// parser; matching lowers the file name or extension before comparing.
pub struct Rules {
    pub include_ext: Vec<String>,
    pub exclude_ext: Vec<String>,
    pub exclude_dirs: Vec<String>,
    pub exclude_files: Vec<String>,
}

/// The model of `Rules`: each list as a sequence of character sequences.
#[verifier::ext_equal]
pub struct RulesView {
    pub include_ext: Seq<Seq<char>>,
    pub exclude_ext: Seq<Seq<char>>,
    pub exclude_dirs: Seq<Seq<char>>,
    pub exclude_files: Seq<Seq<char>>,
}

impl View for Rules {
    type V = RulesView;

    open spec fn view(&self) -> RulesView {
        RulesView {
            include_ext: strings_view(self.include_ext@),
            exclude_ext: strings_view(self.exclude_ext@),
            exclude_dirs: strings_view(self.exclude_dirs@),
            exclude_files: strings_view(self.exclude_files@),
        }
    }
}

impl Default for Rules {
    /// No include list and no exclusions.
    fn default() -> (r: Self)
        ensures
            r@.include_ext.len() == 0,
            r@.exclude_ext.len() == 0,
            r@.exclude_dirs.len() == 0,
            r@.exclude_files.len() == 0,
    {
        Rules {
            include_ext: Vec::new(),
            exclude_ext: Vec::new(),
            exclude_dirs: Vec::new(),
            exclude_files: Vec::new(),
        }
    }
}

// ---------------------------------------------------------------------
// Specifications
// ---------------------------------------------------------------------

pub open spec fn opt_string_view(o: Option<String>) -> Option<Seq<char>> {
    match o {
        Some(s) => Some(s@),
        None => None,
    }
}

pub open spec fn opt_str_view(o: Option<&str>) -> Option<Seq<char>> {
    match o {
        Some(s) => Some(s@),
        None => None,
    }
}

/// A name is hidden when it starts with `.`.
pub open spec fn hidden_name(name: Option<Seq<char>>) -> bool {
    name matches Some(n) && n.len() > 0 && n[0] == '.'
}

/// The name, lowered, is one of `names`.
pub open spec fn name_listed(name: Option<Seq<char>>, names: Seq<Seq<char>>) -> bool {
    name matches Some(n) && names.contains(lower(n))
}

/// The index of the last `.` in `n`.
pub open spec fn last_dot(n: Seq<char>) -> Option<int>
    decreases n.len(),
{
    if n.len() == 0 {
        None
    } else if n.last() == '.' {
        Some(n.len() - 1)
    } else {
        last_dot(n.drop_last())
    }
}

/// The extension of a file name: what follows its last `.`, unless the name
/// has no `.` or its only `.` is the first character.
pub open spec fn extension_of(n: Seq<char>) -> Option<Seq<char>> {
    match last_dot(n) {
        Some(i) => if i > 0 {
            Some(n.skip(i + 1))
        } else {
            None
        },
        None => None,
    }
}

/// The lowered extension of a (possibly absent) file name.
pub open spec fn lowered_extension(name: Option<Seq<char>>) -> Option<Seq<char>> {
    match name {
        Some(n) => match extension_of(n) {
            Some(e) => Some(lower(e)),
            None => None,
        },
        None => None,
    }
}

/// Binary and archive extensions that are always skipped, whatever the rules.
pub open spec fn default_skipped(ext: Seq<char>) -> bool {
    ||| ext == "png"@
    ||| ext == "jpg"@
    ||| ext == "jpeg"@
    ||| ext == "gif"@
    ||| ext == "bmp"@
    ||| ext == "ico"@
    ||| ext == "mp3"@
    ||| ext == "mp4"@
    ||| ext == "avi"@
    ||| ext == "exe"@
    ||| ext == "dll"@
    ||| ext == "so"@
    ||| ext == "zip"@
    ||| ext == "tar"@
    ||| ext == "gz"@
    ||| ext == "lock"@
}

/// A directory with this name is not entered: it is hidden or excluded.
pub open spec fn skip_dir_name(name: Option<Seq<char>>, rules: RulesView) -> bool {
    hidden_name(name) || name_listed(name, rules.exclude_dirs)
}

/// A file with this name is collected.
pub open spec fn valid_file_name(name: Option<Seq<char>>, rules: RulesView) -> bool {
    &&& !hidden_name(name)
    &&& !name_listed(name, rules.exclude_files)
    &&& match lowered_extension(name) {
        None => rules.include_ext.len() == 0,
        Some(e) => {
            &&& !default_skipped(e)
            &&& !rules.exclude_ext.contains(e)
            &&& (rules.include_ext.len() == 0 || rules.include_ext.contains(e))
        },
    }
}

/// A file at this path is collected.
pub open spec fn valid_path(path: Seq<char>, rules: RulesView) -> bool {
    valid_file_name(path_file_name(path), rules)
}

// ---------------------------------------------------------------------
// Laws
// ---------------------------------------------------------------------

/// A hidden file is never collected and a hidden directory is never
/// entered, whatever the rules.
pub proof fn law_hidden_never_collected(name: Option<Seq<char>>, rules: RulesView)
    requires
        hidden_name(name),
    ensures
        !valid_file_name(name, rules),
        skip_dir_name(name, rules),
{
}

/// The default binary/archive exclusions apply even when `--include-ext`
/// lists the extension.
pub proof fn law_default_skip_always_applies(name: Option<Seq<char>>, rules: RulesView)
    requires
        lowered_extension(name) matches Some(e) && default_skipped(e),
    ensures
        !valid_file_name(name, rules),
{
}

/// With a non-empty include list, every collected file has an extension
/// from that list (so files without an extension are not collected).
pub proof fn law_include_list_restricts(name: Option<Seq<char>>, rules: RulesView)
    requires
        rules.include_ext.len() > 0,
        valid_file_name(name, rules),
    ensures
        lowered_extension(name) matches Some(e) && rules.include_ext.contains(e),
{
}

proof fn lemma_last_dot_append(n: Seq<char>, e: Seq<char>)
    requires
        !e.contains('.'),
    ensures
        last_dot(n + e) == last_dot(n),
    decreases e.len(),
{
    if e.len() == 0 {
        assert(n + e =~= n);
    } else {
        assert((n + e).drop_last() =~= n + e.drop_last());
        assert((n + e).last() == e.last());
        assert(e.drop_last().len() < e.len());
        if e.drop_last().contains('.') {
            let k = choose|k: int| 0 <= k < e.drop_last().len() && e.drop_last()[k] == '.';
            assert(e[k] == '.');
        }
        lemma_last_dot_append(n, e.drop_last());
    }
}

/// A file `stem.e` (a visible stem, an extension `e` without dots) whose
/// lowered extension is listed anywhere in the include list, is neither
/// always skipped nor excluded, and whose lowered name is not excluded, is
/// collected. With `law_include_list_restricts` this says the include list
/// admits exactly its own entries.
pub proof fn law_listed_extension_collected(
    stem: Seq<char>,
    e: Seq<char>,
    rules: RulesView,
    k: int,
)
    requires
        stem.len() > 0,
        stem[0] != '.',
        !e.contains('.'),
        0 <= k < rules.include_ext.len(),
        rules.include_ext[k] == lower(e),
        !default_skipped(lower(e)),
        !rules.exclude_ext.contains(lower(e)),
        !rules.exclude_files.contains(lower(stem + seq!['.'] + e)),
    ensures
        valid_file_name(Some(stem + seq!['.'] + e), rules),
{
    let n = stem + seq!['.'] + e;
    let head = stem.push('.');
    assert(n =~= head + e);
    lemma_last_dot_append(head, e);
    assert(head.last() == '.');
    assert(last_dot(head) == Some(stem.len() as int));
    assert(n.skip(stem.len() + 1int) =~= e);
    assert(n[0] == stem[0]);
    assert(rules.include_ext.contains(lower(e)));
}

/// A visible file name without a dot (`Makefile`) that is not excluded is
/// collected exactly when there is no include list.
pub proof fn law_name_without_extension(n: Seq<char>, rules: RulesView)
    requires
        n.len() > 0,
        n[0] != '.',
        !n.contains('.'),
        !rules.exclude_files.contains(lower(n)),
    ensures
        valid_file_name(Some(n), rules) == (rules.include_ext.len() == 0),
{
    lemma_last_dot_append(Seq::<char>::empty(), n);
    assert(Seq::<char>::empty() + n =~= n);
}

/// A file whose lowered extension or lowered name is excluded is not
/// collected, and a directory whose lowered name is excluded is skipped.
pub proof fn law_exclusions_reject(name: Option<Seq<char>>, rules: RulesView)
    ensures
        (lowered_extension(name) matches Some(e) && rules.exclude_ext.contains(e))
            ==> !valid_file_name(name, rules),
        name_listed(name, rules.exclude_files) ==> !valid_file_name(name, rules),
        name_listed(name, rules.exclude_dirs) ==> skip_dir_name(name, rules),
{
}

/// Longer exclusion lists never collect more: a file collected under the
/// larger exclusions is collected under the smaller ones, and a directory
/// skipped under the smaller ones is skipped under the larger ones.
pub proof fn law_exclusions_monotone(name: Option<Seq<char>>, small: RulesView, large: RulesView)
    requires
        small.include_ext == large.include_ext,
        forall|x: Seq<char>| small.exclude_ext.contains(x) ==> large.exclude_ext.contains(x),
        forall|x: Seq<char>| small.exclude_files.contains(x) ==> large.exclude_files.contains(x),
        forall|x: Seq<char>| small.exclude_dirs.contains(x) ==> large.exclude_dirs.contains(x),
    ensures
        valid_file_name(name, large) ==> valid_file_name(name, small),
        skip_dir_name(name, small) ==> skip_dir_name(name, large),
{
}

proof fn lemma_lower_char_dot(c: char)
    ensures
        (lower_char(c) == '.') == (c == '.'),
{
}

proof fn lemma_last_dot_lower(n: Seq<char>)
    ensures
        last_dot(lower(n)) == last_dot(n),
    decreases n.len(),
{
    if n.len() > 0 {
        assert(lower(n).drop_last() =~= lower(n.drop_last()));
        lemma_lower_char_dot(n.last());
        lemma_last_dot_lower(n.drop_last());
    }
}

proof fn lemma_last_dot_bounds(n: Seq<char>)
    ensures
        last_dot(n) matches Some(i) ==> 0 <= i < n.len() && n[i] == '.',
    decreases n.len(),
{
    if n.len() > 0 {
        lemma_last_dot_bounds(n.drop_last());
    }
}

proof fn lemma_lowered_extension_of_lower(n: Seq<char>)
    ensures
        lowered_extension(Some(lower(n))) == lowered_extension(Some(n)),
{
    lemma_last_dot_lower(n);
    lemma_last_dot_bounds(n);
    if let Some(i) = last_dot(n) {
        if i > 0 {
            assert(lower(n).skip(i + 1) =~= lower(n.skip(i + 1)));
            lemma_lower_idempotent(n.skip(i + 1));
        }
    }
}

/// Name matching is case-insensitive: a name and its lower-cased form are
/// judged alike, for files and for directories.
pub proof fn law_names_case_insensitive(n: Seq<char>, rules: RulesView)
    ensures
        valid_file_name(Some(lower(n)), rules) == valid_file_name(Some(n), rules),
        skip_dir_name(Some(lower(n)), rules) == skip_dir_name(Some(n), rules),
{
    lemma_lower_idempotent(n);
    lemma_lowered_extension_of_lower(n);
    if n.len() > 0 {
        lemma_lower_char_dot(n[0]);
    }
}

// ---------------------------------------------------------------------
// Executable functions on file names
// ---------------------------------------------------------------------

/// Whether a file or directory name is hidden (starts with `.`).
pub fn is_hidden_name(name: Option<&str>) -> (r: bool)
    ensures
        r == hidden_name(opt_str_view(name)),
{
    match name {
        Some(n) => {
            let v = chars_of(n);
            v.len() > 0 && v[0] == '.'
        },
        None => false,
    }
}

/// Match a file or directory name case-insensitively against `names`:
/// the name, lowered, is one of them.
pub fn matches_name(name: Option<&str>, names: &Vec<String>) -> (r: bool)
    ensures
        r == name_listed(opt_str_view(name), strings_view(names@)),
{
    match name {
        Some(n) => {
            let lowered = to_ascii_lowercase(n);
            contains_str(names, lowered.as_str())
        },
        None => false,
    }
}

/// The lower-case extension of a file name.
fn extension(name: &str) -> (r: Option<String>)
    ensures
        opt_string_view(r) == lowered_extension(Some(name@)),
{
    let v = chars_of(name);
    let n = v.len();
    let mut i: usize = n;
    assert(name@.take(n as int) =~= name@);
    while i > 0 && v[i - 1] != '.'
        invariant
            v@ == name@,
            n == v.len(),
            i <= n,
            forall|k: int| i <= k < n ==> v@[k] != '.',
            last_dot(name@) == last_dot(name@.take(i as int)),
        decreases i,
    {
        proof {
            let t = name@.take(i as int);
            assert(t.drop_last() =~= name@.take(i - 1));
        }
        i = i - 1;
    }
    proof {
        if i > 0 {
            assert(name@.take(i as int).last() == '.');
        } else {
            assert(name@.take(0) =~= Seq::<char>::empty());
        }
    }
    if i <= 1 {
        None
    } else {
        Some(to_ascii_lowercase(name.substring_char(i, n)))
    }
}

/// Whether `ext` is one of the always-skipped binary/archive extensions.
fn is_default_skipped(ext: &str) -> (r: bool)
    ensures
        r == default_skipped(ext@),
{
    str_eq(ext, "png") || str_eq(ext, "jpg") || str_eq(ext, "jpeg") || str_eq(ext, "gif")
        || str_eq(ext, "bmp") || str_eq(ext, "ico") || str_eq(ext, "mp3") || str_eq(ext, "mp4")
        || str_eq(ext, "avi") || str_eq(ext, "exe") || str_eq(ext, "dll") || str_eq(ext, "so")
        || str_eq(ext, "zip") || str_eq(ext, "tar") || str_eq(ext, "gz") || str_eq(ext, "lock")
}

/// Whether a directory with this name is skipped during traversal:
/// hidden directories and directories listed in `--exclude-dir`.
pub fn should_skip_dir_name(name: Option<&str>, rules: &Rules) -> (r: bool)
    ensures
        r == skip_dir_name(opt_str_view(name), rules@),
{
    is_hidden_name(name) || matches_name(name, &rules.exclude_dirs)
}

/// Whether a file with this name is collected.
///
/// Rules:
/// - Skip hidden files
/// - Skip files listed in `--exclude-file`
/// - Skip default binary/archive extensions
/// - Skip extensions listed in `--exclude-ext`
/// - If `--include-ext` is provided, only include matching extensions
///   (and no file without an extension)
pub fn is_valid_name(name: Option<&str>, rules: &Rules) -> (r: bool)
    ensures
        r == valid_file_name(opt_str_view(name), rules@),
{
    if is_hidden_name(name) {
        return false;
    }
    if matches_name(name, &rules.exclude_files) {
        return false;
    }
    let ext = match name {
        Some(n) => extension(n),
        None => None,
    };
    let ext = match ext {
        Some(e) => e,
        None => return rules.include_ext.len() == 0,
    };
    if is_default_skipped(ext.as_str()) {
        return false;
    }
    if contains_str(&rules.exclude_ext, ext.as_str()) {
        return false;
    }
    if rules.include_ext.len() != 0 && !contains_str(&rules.include_ext, ext.as_str()) {
        return false;
    }
    true
}

// ---------------------------------------------------------------------
// Executable functions on paths
// ---------------------------------------------------------------------

/// Check if a file or directory is hidden (its name starts with `.`).
pub fn is_hidden(path: &str) -> (r: bool)
    ensures
        r == hidden_name(path_file_name(path@)),
        plain_name(path@) ==> r == hidden_name(Some(path@)),
{
    let name = file_name(path);
    match name {
        Some(n) => is_hidden_name(Some(n.as_str())),
        None => is_hidden_name(None),
    }
}

/// Check if a directory should be skipped during traversal.
///
/// Rules:
/// - Hidden directories are skipped
/// - Directories listed in `--exclude-dir` are skipped
pub fn should_skip_dir(path: &str, rules: &Rules) -> (r: bool)
    ensures
        r == skip_dir_name(path_file_name(path@), rules@),
        plain_name(path@) ==> r == skip_dir_name(Some(path@), rules@),
{
    let name = file_name(path);
    match name {
        Some(n) => should_skip_dir_name(Some(n.as_str()), rules),
        None => should_skip_dir_name(None, rules),
    }
}

/// Final file filter: whether the file at `path` is collected.
pub fn is_valid(path: &str, rules: &Rules) -> (r: bool)
    ensures
        r == valid_path(path@, rules@),
        plain_name(path@) ==> r == valid_file_name(Some(path@), rules@),
{
    let name = file_name(path);
    match name {
        Some(n) => is_valid_name(Some(n.as_str()), rules),
        None => is_valid_name(None, rules),
    }
}

} // verus!
