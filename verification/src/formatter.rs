//! Markdown formatting of one collected file.
use vstd::prelude::*;
use vstd::string::*;

use crate::filter::opt_string_view;
use crate::text::ends_with_char;

verus! {

// ---------------------------------------------------------------------
// Trusted item: removing a leading part of a path.
// ---------------------------------------------------------------------

/// The rest of `path` after its leading components `base`, as text, as
/// `Path::strip_prefix` gives it; `None` where `base` is not a prefix of
/// `path` (compared component by component).
pub uninterp spec fn path_strip_prefix(path: Seq<char>, base: Seq<char>) -> Option<Seq<char>>;

/// Calls `Path::strip_prefix(base)` on `path` and converts the rest to text.
///
/// The contract claims that the result is `path_strip_prefix` at both
/// arguments, and one fact of std's documentation: `strip_prefix` fails
/// where `base` is not a prefix of the path by whole components, so a path
/// that does not begin with `.` (or is empty) has no leading `.` component.
/// How std splits paths into components is not restated.
#[verifier::external_body]
fn strip_prefix(path: &str, base: &str) -> (r: Option<String>)
    ensures
        opt_string_view(r) == path_strip_prefix(path@, base@),
        base@ == "."@ && (path@.len() == 0 || path@[0] != '.') ==> r is None,
{
    std::path::Path::new(path).strip_prefix(base).ok().map(|rest| rest.to_string_lossy().into_owned())
}

// ---------------------------------------------------------------------
// Specification
// ---------------------------------------------------------------------

/// The path as the opening fence shows it: without a leading `.`
/// component where it has one, else unchanged.
pub open spec fn display_text(path: Seq<char>) -> Seq<char> {
    match path_strip_prefix(path, "."@) {
        Some(rest) => rest,
        None => path,
    }
}

/// The newline inserted before the closing fence: none when the content
/// already ends with one.
pub open spec fn closing_newline(content: Seq<char>) -> Seq<char> {
    if content.len() > 0 && content.last() == '\n' {
        Seq::<char>::empty()
    } else {
        seq!['\n']
    }
}

/// One Markdown code block: an opening fence carrying the path, the content
/// unchanged, a newline where the content lacks a final one, the closing
/// fence and a blank line.
pub open spec fn code_block(display: Seq<char>, content: Seq<char>) -> Seq<char> {
    "```"@ + display + seq!['\n'] + content + closing_newline(content) + "```\n\n"@
}

// ---------------------------------------------------------------------
// Executable functions
// ---------------------------------------------------------------------

/// Append `content` to `output` as a Markdown code block whose opening
/// fence carries `display`, the path as it is shown.
pub fn append_block(output: &mut String, display: &str, content: &str)
    ensures
        final(output)@ == old(output)@ + code_block(display@, content@),
{
    output.append("```");
    output.append(display);
    output.append("\n");
    output.append(content);
    if !ends_with_char(content, '\n') {
        output.append("\n");
    }
    output.append("```\n\n");
    proof {
        reveal_strlit("\n");
        assert(final(output)@ =~= old(output)@ + code_block(display@, content@));
    }
}

/// Append file content to an existing output buffer as a Markdown code block.
///
/// The opening fence carries the path with a leading `.` component removed,
/// so `./src/main.rs` is shown as `src/main.rs`; a path that does not begin
/// with `.` is shown unchanged. A newline is inserted before
/// the closing fence when the content does not already end with one, and
/// each block ends with one blank line so that blocks stay separated.
pub fn append(output: &mut String, path: &str, content: &str)
    ensures
        final(output)@ == old(output)@ + code_block(display_text(path@), content@),
        path@.len() == 0 || path@[0] != '.' ==> final(output)@ == old(output)@ + code_block(
            path@,
            content@,
        ),
{
    match strip_prefix(path, ".") {
        Some(rest) => append_block(output, rest.as_str(), content),
        None => append_block(output, path, content),
    }
}

// ---------------------------------------------------------------------
// Laws
// ---------------------------------------------------------------------

/// Appending a block never changes what the buffer held before.
pub proof fn law_append_keeps_earlier_output(
    before: Seq<char>,
    display: Seq<char>,
    content: Seq<char>,
)
    ensures
        (before + code_block(display, content)).subrange(0, before.len() as int) == before,
{
    assert((before + code_block(display, content)).subrange(0, before.len() as int) =~= before);
}

/// The content stands unchanged right after the opening fence line, the
/// closing fence starts on a line of its own and the block ends with a
/// blank line.
pub proof fn law_block_layout(display: Seq<char>, content: Seq<char>)
    ensures
        ({
            let b = code_block(display, content);
            let start: int = 4 + display.len() as int;
            &&& b.subrange(start, start + content.len() as int) == content
            &&& b.len() >= 6
            &&& b.subrange(b.len() - 6, b.len() as int) == seq!['\n', '`', '`', '`', '\n', '\n']
        }),
{
    reveal_strlit("```");
    reveal_strlit("```\n\n");
    let b = code_block(display, content);
    let start: int = 4 + display.len() as int;
    assert(b.subrange(start, start + content.len() as int) =~= content);
    let head = "```"@ + display + seq!['\n'] + content + closing_newline(content);
    assert(head.len() >= 1);
    assert(head.last() == '\n');
    assert(b =~= head + "```\n\n"@);
    assert(b.subrange(b.len() - 6, b.len() as int) =~= seq!['\n', '`', '`', '`', '\n', '\n']);
}

/// A final newline in the content is not doubled; a missing one is added.
pub proof fn law_single_final_newline(display: Seq<char>, content: Seq<char>)
    ensures
        content.len() > 0 && content.last() == '\n' ==> code_block(display, content) == "```"@
            + display + seq!['\n'] + content + "```\n\n"@,
        !(content.len() > 0 && content.last() == '\n') ==> code_block(display, content)
            == "```"@ + display + seq!['\n'] + content.push('\n') + "```\n\n"@,
{
    assert(content + Seq::<char>::empty() =~= content);
    assert(content + seq!['\n'] =~= content.push('\n'));
}

} // verus!
