//! The decisions of the recursive file collection. Reading directories
//! is the caller's part; what to do with each entry is decided here.
use vstd::prelude::*;

use crate::filter::{path_file_name, should_skip_dir, skip_dir_name, Rules, RulesView};

verus! {

/// The type of a directory entry (or of a root), as the file system
/// reports it without following symbolic links.
#[derive(Clone, Copy, Debug, PartialEq, Eq, Structural)]
pub enum EntryKind {
    Symlink,
    Directory,
    File,
    Other,
}

/// What the collector does with an entry.
#[derive(Clone, Copy, Debug, PartialEq, Eq, Structural)]
pub enum EntryAction {
    /// Leave it out.
    Skip,
    /// Visit the directory's entries.
    Descend,
    /// Add the file to the collected paths.
    Collect,
}

/// Symbolic links are never followed or collected; skipped directories
/// are not entered; regular files are collected.
pub open spec fn entry_action_spec(path: Seq<char>, kind: EntryKind, rules: RulesView) -> EntryAction {
    match kind {
        EntryKind::Symlink => EntryAction::Skip,
        EntryKind::Directory => if skip_dir_name(path_file_name(path), rules) {
            EntryAction::Skip
        } else {
            EntryAction::Descend
        },
        EntryKind::File => EntryAction::Collect,
        EntryKind::Other => EntryAction::Skip,
    }
}

/// Decide what to do with a root or a directory entry at `path`.
///
/// Security: symbolic links are never followed, so a link inside the tree
/// cannot pull in files from outside it. Directory filtering is applied
/// here to avoid visiting excluded trees.
pub fn entry_action(path: &str, kind: EntryKind, rules: &Rules) -> (r: EntryAction)
    ensures
        r == entry_action_spec(path@, kind, rules@),
{
    match kind {
        EntryKind::Symlink => EntryAction::Skip,
        EntryKind::Directory => if should_skip_dir(path, rules) {
            EntryAction::Skip
        } else {
            EntryAction::Descend
        },
        EntryKind::File => EntryAction::Collect,
        EntryKind::Other => EntryAction::Skip,
    }
}

/// Symbolic links are neither followed nor collected, whatever the path
/// and the rules; hidden or excluded directories are never entered.
pub proof fn law_symlinks_never_followed(path: Seq<char>, rules: RulesView)
    ensures
        entry_action_spec(path, EntryKind::Symlink, rules) == EntryAction::Skip,
        skip_dir_name(path_file_name(path), rules) ==> entry_action_spec(
            path,
            EntryKind::Directory,
            rules,
        ) != EntryAction::Descend,
{
}

} // verus!
