//! Interactive selection: which picker commands to try, what they are fed
//! and how their output is read. Running them is the caller's part.
use vstd::prelude::*;

use crate::args::PickerKind;
use crate::text::{
    join_strings, join_with, lemma_split_single, split, split_str, strings_view, trim, trim_end,
    trim_start, trim_str,
};

verus! {

/// The pickers to try, in order.
pub open spec fn picker_order(picker: Option<PickerKind>) -> Seq<PickerKind> {
    match picker {
        Some(k) => seq![k],
        None => seq![PickerKind::Sk, PickerKind::Fzf],
    }
}

/// The lines of picker output that name a selected file: each line
/// trimmed, empty lines dropped.
pub open spec fn selected_lines(output: Seq<char>) -> Seq<Seq<char>> {
    split(output, '\n').map_values(|p: Seq<char>| trim(p)).filter(|p: Seq<char>| p.len() > 0)
}

/// The selection read from picker output: `None` when nothing was selected.
pub open spec fn selection(output: Seq<char>) -> Option<Seq<Seq<char>>> {
    if selected_lines(output).len() == 0 {
        None
    } else {
        Some(selected_lines(output))
    }
}

/// Return the pickers that should be attempted.
///
/// - An explicitly selected picker produces exactly one candidate.
/// - Automatic selection tries `sk` first, followed by `fzf`.
pub fn picker_commands(picker: Option<PickerKind>) -> (r: Vec<PickerKind>)
    ensures
        r@ == picker_order(picker),
{
    let mut r: Vec<PickerKind> = Vec::new();
    match picker {
        Some(k) => r.push(k),
        None => {
            r.push(PickerKind::Sk);
            r.push(PickerKind::Fzf);
        },
    }
    assert(r@ =~= picker_order(picker));
    r
}

impl PickerKind {
    /// The program to run for this picker.
    pub fn program(&self) -> (r: &'static str)
        ensures
            r@ == (match *self {
                PickerKind::Sk => "sk"@,
                PickerKind::Fzf => "fzf"@,
            }),
    {
        match self {
            PickerKind::Sk => "sk",
            PickerKind::Fzf => "fzf",
        }
    }

    /// The arguments passed to every picker: multi-selection.
    pub fn arguments(&self) -> (r: &'static str)
        ensures
            r@ == "-m"@,
    {
        "-m"
    }
}

/// The picker's input: the file paths, one per line.
pub fn selection_input(files: &Vec<String>) -> (r: String)
    ensures
        r@ == join_with(strings_view(files@), "\n"@),
{
    join_strings(files, "\n")
}

/// Read the picker's output: each non-empty trimmed line is one selected
/// file path; an empty result counts as a cancelled selection.
pub fn parse_selection(output: &str) -> (r: Option<Vec<String>>)
    ensures
        match r {
            Some(v) => selection(output@) == Some(strings_view(v@)),
            None => selection(output@) is None,
        },
{
    let pieces = split_str(output, '\n');
    let ghost mapped = split(output@, '\n').map_values(|p: Seq<char>| trim(p));
    let ghost keep = |p: Seq<char>| p.len() > 0;
    let mut out: Vec<String> = Vec::new();
    let mut i: usize = 0;
    while i < pieces.len()
        invariant
            strings_view(pieces@) == split(output@, '\n'),
            mapped == split(output@, '\n').map_values(|p: Seq<char>| trim(p)),
            keep == (|p: Seq<char>| p.len() > 0),
            i <= pieces.len(),
            strings_view(out@) == mapped.take(i as int).filter(keep),
        decreases pieces.len() - i,
    {
        let t = trim_str(pieces[i].as_str());
        proof {
            reveal_with_fuel(Seq::<_>::filter, 1);
            assert(pieces@[i as int]@ == split(output@, '\n')[i as int]);
            assert(mapped[i as int] == t@);
            assert(mapped.take(i + 1).drop_last() =~= mapped.take(i as int));
        }
        if t.unicode_len() > 0 {
            let line = String::from_str(t);
            proof {
                assert(strings_view(out@.push(line)) =~= strings_view(out@).push(line@));
            }
            out.push(line);
        }
        i = i + 1;
    }
    proof {
        assert(mapped.take(pieces.len() as int) =~= mapped);
    }
    if out.len() == 0 {
        None
    } else {
        Some(out)
    }
}

/// An explicitly chosen picker is the only one tried; without a choice,
/// `sk` is tried first and `fzf` second.
pub proof fn law_picker_choice(k: PickerKind)
    ensures
        picker_order(Some(k)).len() == 1,
        picker_order(Some(k))[0] == k,
        picker_order(Some(PickerKind::Sk)) == seq![PickerKind::Sk],
        picker_order(Some(PickerKind::Fzf)) == seq![PickerKind::Fzf],
        picker_order(None) == seq![PickerKind::Sk, PickerKind::Fzf],
{
}

/// The selection is `None` exactly when every line of the picker output is
/// blank. Otherwise it lists only lines of the output, trimmed and
/// non-empty, and every non-blank line is listed.
pub proof fn law_selection_lines(output: Seq<char>)
    ensures
        (selection(output) is None) <==> (forall|i: int|
            0 <= i < split(output, '\n').len() ==> trim(#[trigger] split(output, '\n')[i]).len()
                == 0),
        selection(output) matches Some(v) ==> forall|j: int|
            0 <= j < v.len() ==> (#[trigger] v[j]).len() > 0 && exists|i: int|
                0 <= i < split(output, '\n').len() && v[j] == trim(split(output, '\n')[i]),
        selection(output) matches Some(v) ==> forall|i: int|
            0 <= i < split(output, '\n').len() && trim(#[trigger] split(output, '\n')[i]).len()
                > 0 ==> v.contains(trim(split(output, '\n')[i])),
{
    let pieces = split(output, '\n');
    let mapped = pieces.map_values(|p: Seq<char>| trim(p));
    let keep = |p: Seq<char>| p.len() > 0;
    let sel = mapped.filter(keep);
    assert forall|i: int| 0 <= i < pieces.len() && trim(#[trigger] pieces[i]).len() > 0 implies sel.contains(
        trim(pieces[i]),
    ) by {
        assert(mapped[i] == trim(pieces[i]));
        mapped.lemma_filter_contains(keep, i);
    }
    assert forall|j: int| 0 <= j < sel.len() implies (#[trigger] sel[j]).len() > 0 && exists|i: int|
        0 <= i < pieces.len() && sel[j] == trim(pieces[i]) by {
        mapped.lemma_filter_pred(keep, j);
        assert(sel.contains(sel[j]));
        mapped.lemma_filter_contains_rev(keep, sel[j]);
        let i = choose|i: int| 0 <= i < mapped.len() && mapped[i] == sel[j];
        assert(sel[j] == trim(pieces[i]));
    }
    if sel.len() > 0 {
        assert(sel[0].len() > 0);
        let i = choose|i: int| 0 <= i < pieces.len() && sel[0] == trim(pieces[i]);
        assert(trim(pieces[i]).len() > 0);
    }
}

/// A single non-blank line, with or without its final newline, selects
/// exactly that line, trimmed.
pub proof fn law_single_line_selected(line: Seq<char>)
    requires
        !line.contains('\n'),
        trim(line).len() > 0,
    ensures
        selection(line) == Some(seq![trim(line)]),
        selection(line.push('\n')) == Some(seq![trim(line)]),
{
    reveal_with_fuel(Seq::<_>::filter, 2);
    let keep = |p: Seq<char>| p.len() > 0;
    lemma_split_single(line, '\n');
    let m1 = split(line, '\n').map_values(|p: Seq<char>| trim(p));
    assert(m1 =~= seq![trim(line)]);
    assert(m1.drop_last() =~= Seq::<Seq<char>>::empty());
    assert(m1.filter(keep) =~= seq![trim(line)]);
    let with_nl = line.push('\n');
    assert(with_nl.drop_last() =~= line);
    assert(split(with_nl, '\n') =~= seq![line, Seq::<char>::empty()]);
    let e = Seq::<char>::empty();
    assert(trim_start(e) == e);
    assert(trim_end(e) == e);
    let m2 = split(with_nl, '\n').map_values(|p: Seq<char>| trim(p));
    assert(m2 =~= seq![trim(line), e]);
    assert(m2.drop_last() =~= seq![trim(line)]);
    assert(m2.drop_last().drop_last() =~= Seq::<Seq<char>>::empty());
    assert(m2.filter(keep) =~= seq![trim(line)]);
}

} // verus!
