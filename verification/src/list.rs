//! `--list` mode: the final set of files, filtered and in a stable order.
use vstd::prelude::*;
use vstd::relations::{sorted_by, total_ordering};
use vstd::utf8::encode_utf8;

use crate::args::Config;
use crate::filter::{is_valid, valid_path, RulesView};
use crate::report::{Report, ReportView};
use crate::text::{chars_of, strings_view};

verus! {

// ---------------------------------------------------------------------
// Specification
// ---------------------------------------------------------------------

/// Lexicographic order of paths by character (code point). For UTF-8
/// text it coincides with the byte order by which strings compare.
pub open spec fn path_le(a: Seq<char>, b: Seq<char>) -> bool
    decreases a.len(),
{
    if a.len() == 0 {
        true
    } else if b.len() == 0 {
        false
    } else if a[0] != b[0] {
        a[0] < b[0]
    } else {
        path_le(a.drop_first(), b.drop_first())
    }
}

pub open spec fn path_order() -> spec_fn(Seq<char>, Seq<char>) -> bool {
    |a: Seq<char>, b: Seq<char>| path_le(a, b)
}

/// The paths that the filter accepts, in the order they were given.
pub open spec fn valid_files(files: Seq<Seq<char>>, rules: RulesView) -> Seq<Seq<char>> {
    files.filter(|f: Seq<char>| valid_path(f, rules))
}

/// What list mode prints: the accepted paths, sorted.
pub open spec fn listed_files(files: Seq<Seq<char>>, rules: RulesView) -> Seq<Seq<char>> {
    valid_files(files, rules).sort_by(path_order())
}

/// The bytes that list mode writes: each path in UTF-8 and a newline.
pub open spec fn list_size(files: Seq<Seq<char>>) -> nat
    decreases files.len(),
{
    if files.len() == 0 {
        0
    } else {
        list_size(files.drop_last()) + encode_utf8(files.last()).len() + 1
    }
}

// ---------------------------------------------------------------------
// Lemmas: `path_le` is a total order
// ---------------------------------------------------------------------

proof fn lemma_le_reflexive(a: Seq<char>)
    ensures
        path_le(a, a),
    decreases a.len(),
{
    if a.len() > 0 {
        lemma_le_reflexive(a.drop_first());
    }
}

proof fn lemma_le_antisymmetric(a: Seq<char>, b: Seq<char>)
    requires
        path_le(a, b),
        path_le(b, a),
    ensures
        a == b,
    decreases a.len(),
{
    if a.len() == 0 {
        assert(b.len() == 0);
        assert(a =~= b);
    } else {
        assert(b.len() > 0);
        assert(a[0] == b[0]);
        lemma_le_antisymmetric(a.drop_first(), b.drop_first());
        assert(a =~= seq![a[0]] + a.drop_first());
        assert(b =~= seq![b[0]] + b.drop_first());
    }
}

proof fn lemma_le_transitive(a: Seq<char>, b: Seq<char>, c: Seq<char>)
    requires
        path_le(a, b),
        path_le(b, c),
    ensures
        path_le(a, c),
    decreases a.len(),
{
    if a.len() > 0 && b.len() > 0 && c.len() > 0 {
        if a[0] == b[0] && b[0] == c[0] {
            lemma_le_transitive(a.drop_first(), b.drop_first(), c.drop_first());
        }
    }
}

proof fn lemma_le_total(a: Seq<char>, b: Seq<char>)
    ensures
        path_le(a, b) || path_le(b, a),
    decreases a.len(),
{
    if a.len() > 0 && b.len() > 0 && a[0] == b[0] {
        lemma_le_total(a.drop_first(), b.drop_first());
    }
}

/// The path order is a total order.
pub proof fn lemma_path_order_total()
    ensures
        total_ordering(path_order()),
{
    let r = path_order();
    assert forall|x: Seq<char>| #[trigger] r(x, x) by {
        lemma_le_reflexive(x);
    }
    assert forall|x: Seq<char>, y: Seq<char>| #[trigger] r(x, y) && #[trigger] r(y, x) implies x
        == y by {
        lemma_le_antisymmetric(x, y);
    }
    assert forall|x: Seq<char>, y: Seq<char>, z: Seq<char>| #[trigger] r(x, y) && #[trigger] r(
        y,
        z,
    ) implies r(x, z) by {
        lemma_le_transitive(x, y, z);
    }
    assert forall|x: Seq<char>, y: Seq<char>| #[trigger] r(x, y) || #[trigger] r(y, x) by {
        lemma_le_total(x, y);
    }
}

/// Inserting `x` after everything no later than it and before everything
/// later keeps a sequence sorted.
proof fn lemma_insert_sorted(s: Seq<Seq<char>>, pos: int, x: Seq<char>)
    requires
        0 <= pos <= s.len(),
        sorted_by(s, path_order()),
        forall|j: int| 0 <= j < pos ==> path_le(#[trigger] s[j], x),
        forall|j: int| pos <= j < s.len() ==> !path_le(#[trigger] s[j], x),
    ensures
        sorted_by(s.insert(pos, x), path_order()),
{
    s.insert_ensures(pos, x);
    let t = s.insert(pos, x);
    assert forall|a: int, b: int| 0 <= a < b < t.len() implies #[trigger] path_order()(
        t[a],
        t[b],
    ) by {
        if b < pos {
            assert(t[a] == s[a] && t[b] == s[b]);
            assert(path_order()(s[a], s[b]));
        } else if b == pos {
            assert(t[a] == s[a]);
        } else if a < pos {
            assert(t[a] == s[a] && t[b] == s[b - 1]);
            assert(path_order()(s[a], s[b - 1]));
        } else if a == pos {
            assert(t[b] == s[b - 1]);
            lemma_le_total(x, s[b - 1]);
        } else {
            assert(t[a] == s[a - 1] && t[b] == s[b - 1]);
            assert(path_order()(s[a - 1], s[b - 1]));
        }
    }
}

proof fn lemma_filter_take_step(s: Seq<Seq<char>>, i: int, p: spec_fn(Seq<char>) -> bool)
    requires
        0 <= i < s.len(),
    ensures
        s.take(i + 1).filter(p) == (if p(s[i]) {
            s.take(i).filter(p).push(s[i])
        } else {
            s.take(i).filter(p)
        }),
        s.take(i).filter(p).len() <= i,
{
    reveal_with_fuel(Seq::<_>::filter, 1);
    assert(s.take(i + 1).drop_last() =~= s.take(i));
    s.take(i).lemma_filter_len(p);
}

/// Inserting into the sorted copy matches pushing onto the filtered prefix:
/// same elements, same size, same length.
proof fn lemma_insert_step(before: Seq<Seq<char>>, acc: Seq<Seq<char>>, pos: int, x: Seq<char>)
    requires
        0 <= pos <= before.len(),
        before.to_multiset() == acc.to_multiset(),
        list_size(before) == list_size(acc),
        before.len() == acc.len(),
    ensures
        before.insert(pos, x).to_multiset() == acc.push(x).to_multiset(),
        list_size(before.insert(pos, x)) == list_size(acc.push(x)),
        before.insert(pos, x).len() == acc.push(x).len(),
{
    vstd::seq_lib::to_multiset_insert(before, pos, x);
    vstd::seq_lib::to_multiset_build(acc, x);
    lemma_list_size_insert(before, pos, x);
    assert(acc.push(x).drop_last() =~= acc);
}

// ---------------------------------------------------------------------
// Lemmas: sizes
// ---------------------------------------------------------------------

proof fn lemma_list_size_insert(s: Seq<Seq<char>>, pos: int, x: Seq<char>)
    requires
        0 <= pos <= s.len(),
    ensures
        list_size(s.insert(pos, x)) == list_size(s) + encode_utf8(x).len() + 1,
    decreases s.len(),
{
    let t = s.insert(pos, x);
    if pos == s.len() {
        assert(t =~= s.push(x));
        assert(t.drop_last() =~= s);
    } else {
        assert(t.drop_last() =~= s.drop_last().insert(pos, x));
        assert(t.last() == s.last());
        lemma_list_size_insert(s.drop_last(), pos, x);
    }
}

proof fn lemma_list_size_filter(s: Seq<Seq<char>>, p: spec_fn(Seq<char>) -> bool)
    ensures
        list_size(s.filter(p)) <= list_size(s),
    decreases s.len(),
{
    reveal_with_fuel(Seq::<_>::filter, 1);
    if s.len() > 0 {
        lemma_list_size_filter(s.drop_last(), p);
        if p(s.last()) {
            assert(s.filter(p).drop_last() =~= s.drop_last().filter(p));
        }
    }
}

proof fn lemma_list_size_prefix(s: Seq<Seq<char>>, i: int)
    requires
        0 <= i <= s.len(),
    ensures
        list_size(s.take(i)) <= list_size(s),
    decreases s.len() - i,
{
    if i < s.len() {
        lemma_list_size_prefix(s, i + 1);
        assert(s.take(i + 1).drop_last() =~= s.take(i));
    } else {
        assert(s.take(i) =~= s);
    }
}

// ---------------------------------------------------------------------
// Executable functions
// ---------------------------------------------------------------------

pub open spec fn keys_view(keys: Seq<Vec<char>>) -> Seq<Seq<char>> {
    keys.map_values(|k: Vec<char>| k@)
}

/// Whether path `a` comes no later than path `b`.
fn key_le(a: &Vec<char>, b: &Vec<char>) -> (r: bool)
    ensures
        r == path_le(a@, b@),
{
    let mut i: usize = 0;
    assert(a@.skip(0) =~= a@);
    assert(b@.skip(0) =~= b@);
    while i < a.len() && i < b.len() && a[i] == b[i]
        invariant
            i <= a.len(),
            i <= b.len(),
            path_le(a@, b@) == path_le(a@.skip(i as int), b@.skip(i as int)),
        decreases a.len() - i,
    {
        assert(a@.skip(i as int).drop_first() =~= a@.skip(i + 1));
        assert(b@.skip(i as int).drop_first() =~= b@.skip(i + 1));
        i = i + 1;
    }
    if i == a.len() {
        true
    } else if i == b.len() {
        false
    } else {
        assert(a@.skip(i as int)[0] == a@[i as int]);
        assert(b@.skip(i as int)[0] == b@[i as int]);
        a[i] < b[i]
    }
}

/// The first position in the sorted `keys` whose key comes after `k`.
fn upper_bound(keys: &Vec<Vec<char>>, k: &Vec<char>) -> (pos: usize)
    requires
        sorted_by(keys_view(keys@), path_order()),
    ensures
        pos <= keys.len(),
        forall|j: int| 0 <= j < pos ==> path_le(#[trigger] keys@[j]@, k@),
        forall|j: int| pos <= j < keys.len() ==> !path_le(#[trigger] keys@[j]@, k@),
{
    let mut lo: usize = 0;
    let mut hi: usize = keys.len();
    while lo < hi
        invariant
            sorted_by(keys_view(keys@), path_order()),
            lo <= hi <= keys.len(),
            forall|j: int| 0 <= j < lo ==> path_le(#[trigger] keys@[j]@, k@),
            forall|j: int| hi <= j < keys.len() ==> !path_le(#[trigger] keys@[j]@, k@),
        decreases hi - lo,
    {
        let mid = lo + (hi - lo) / 2;
        if key_le(&keys[mid], k) {
            assert forall|j: int| 0 <= j <= mid implies path_le(#[trigger] keys@[j]@, k@) by {
                if j < mid {
                    assert(keys_view(keys@)[j] == keys@[j]@);
                    assert(keys_view(keys@)[mid as int] == keys@[mid as int]@);
                    assert(path_order()(keys_view(keys@)[j], keys_view(keys@)[mid as int]));
                    lemma_le_transitive(keys@[j]@, keys@[mid as int]@, k@);
                }
            }
            lo = mid + 1;
        } else {
            assert forall|j: int| mid <= j < keys.len() implies !path_le(
                #[trigger] keys@[j]@,
                k@,
            ) by {
                if mid < j && path_le(keys@[j]@, k@) {
                    assert(keys_view(keys@)[j] == keys@[j]@);
                    assert(keys_view(keys@)[mid as int] == keys@[mid as int]@);
                    assert(path_order()(keys_view(keys@)[mid as int], keys_view(keys@)[j]));
                    lemma_le_transitive(keys@[mid as int]@, keys@[j]@, k@);
                }
            }
            hi = mid;
        }
    }
    lo
}

/// Return the number of bytes that list mode writes: each path followed
/// by a newline.
pub fn list_output_size(files: &Vec<String>) -> (r: usize)
    requires
        list_size(strings_view(files@)) <= usize::MAX,
    ensures
        r == list_size(strings_view(files@)),
{
    let ghost fv = strings_view(files@);
    let mut total: usize = 0;
    let mut i: usize = 0;
    while i < files.len()
        invariant
            fv == strings_view(files@),
            list_size(fv) <= usize::MAX,
            i <= files.len(),
            total == list_size(fv.take(i as int)),
        decreases files.len() - i,
    {
        proof {
            assert(fv.take(i + 1).drop_last() =~= fv.take(i as int));
            assert(fv.take(i + 1).last() == files@[i as int]@);
            lemma_list_size_prefix(fv, i + 1);
        }
        let bytes = files[i].as_str().len();
        total = total + bytes + 1;
        i = i + 1;
    }
    proof {
        assert(fv.take(files.len() as int) =~= fv);
    }
    total
}

/// Run `--list` mode over the expanded file list.
///
/// Applies the same file filter as normal output, counts every file as
/// collected or skipped, sorts the accepted paths for stable output and
/// records the number of bytes that writing them (one per line) takes.
/// The caller writes the returned paths, one per line, and records the
/// destination.
pub fn run(files: Vec<String>, cfg: &Config, report: &mut Report) -> (r: Vec<String>)
    requires
        old(report)@.collected_files + files.len() <= usize::MAX,
        old(report)@.skipped_files + files.len() <= usize::MAX,
        list_size(strings_view(files@)) <= usize::MAX,
    ensures
        strings_view(r@) == listed_files(strings_view(files@), cfg.rules@),
        final(report)@ == (ReportView {
            collected_files: old(report)@.collected_files + valid_files(
                strings_view(files@),
                cfg.rules@,
            ).len(),
            skipped_files: (old(report)@.skipped_files + files.len() - valid_files(
                strings_view(files@),
                cfg.rules@,
            ).len()) as nat,
            output_size: list_size(strings_view(r@)),
            ..old(report)@
        }),
{
    let ghost fv = strings_view(files@);
    let ghost rules = cfg.rules@;
    let ghost keep = |f: Seq<char>| valid_path(f, rules);
    let mut sorted: Vec<String> = Vec::new();
    let mut keys: Vec<Vec<char>> = Vec::new();
    let mut i: usize = 0;
    proof {
        lemma_path_order_total();
        reveal_with_fuel(Seq::<_>::filter, 1);
        assert(fv.take(0) =~= Seq::<Seq<char>>::empty());
        assert(strings_view(sorted@) =~= Seq::<Seq<char>>::empty());
        assert(keys_view(keys@) =~= Seq::<Seq<char>>::empty());
    }
    while i < files.len()
        invariant
            fv == strings_view(files@),
            rules == cfg.rules@,
            keep == (|f: Seq<char>| valid_path(f, rules)),
            old(report)@.collected_files + files.len() <= usize::MAX,
            old(report)@.skipped_files + files.len() <= usize::MAX,
            total_ordering(path_order()),
            i <= files.len(),
            keys_view(keys@) == strings_view(sorted@),
            sorted_by(strings_view(sorted@), path_order()),
            strings_view(sorted@).to_multiset() == fv.take(i as int).filter(keep).to_multiset(),
            list_size(strings_view(sorted@)) == list_size(fv.take(i as int).filter(keep)),
            sorted.len() == fv.take(i as int).filter(keep).len(),
            sorted.len() <= i,
            report@ == (ReportView {
                collected_files: old(report)@.collected_files + sorted.len() as nat,
                skipped_files: (old(report)@.skipped_files + i - sorted.len()) as nat,
                ..old(report)@
            }),
        decreases files.len() - i,
    {
        let ghost before = strings_view(sorted@);
        let ghost acc = fv.take(i as int).filter(keep);
        proof {
            lemma_filter_take_step(fv, i as int, keep);
            assert(fv[i as int] == files@[i as int]@);
        }
        let path = files[i].as_str();
        if is_valid(path, &cfg.rules) {
            report.collect_file();
            let k = chars_of(path);
            let pos = upper_bound(&keys, &k);
            let ghost x = fv[i as int];
            proof {
                assert forall|j: int| 0 <= j < pos implies path_le(#[trigger] before[j], x) by {
                    assert(before[j] == keys_view(keys@)[j]);
                }
                assert forall|j: int| pos <= j < before.len() implies !path_le(
                    #[trigger] before[j],
                    x,
                ) by {
                    assert(before[j] == keys_view(keys@)[j]);
                }
                lemma_insert_sorted(before, pos as int, x);
                lemma_insert_step(before, acc, pos as int, x);
            }
            sorted.insert(pos, files[i].clone());
            keys.insert(pos, k);
            proof {
                assert(strings_view(sorted@) =~= before.insert(pos as int, x));
                assert(keys_view(keys@) =~= before.insert(pos as int, x));
            }
        } else {
            report.skip_file();
        }
        i = i + 1;
    }
    proof {
        assert(fv.take(files.len() as int) =~= fv);
        let v = valid_files(fv, rules);
        assert(fv.filter(keep) == v);
        lemma_list_size_filter(fv, keep);
        v.lemma_sort_by_ensures(path_order());
        vstd::seq_lib::lemma_sorted_unique(
            strings_view(sorted@),
            v.sort_by(path_order()),
            path_order(),
        );
    }
    let size = list_output_size(&sorted);
    report.set_output_size(size);
    sorted
}

// ---------------------------------------------------------------------
// Laws
// ---------------------------------------------------------------------

proof fn lemma_filter_count(s: Seq<Seq<char>>, p: spec_fn(Seq<char>) -> bool, x: Seq<char>)
    ensures
        s.filter(p).to_multiset().count(x) == (if p(x) {
            s.to_multiset().count(x)
        } else {
            0
        }),
    decreases s.len(),
{
    broadcast use vstd::multiset::group_multiset_axioms;

    reveal_with_fuel(Seq::<_>::filter, 1);
    if s.len() == 0 {
        assert(s.to_multiset() =~= vstd::multiset::Multiset::empty()) by {
            broadcast use vstd::seq_lib::group_to_multiset_ensures;
        }
        assert(s.filter(p) =~= s);
    } else {
        let t = s.drop_last();
        lemma_filter_count(t, p, x);
        assert(s =~= t.push(s.last()));
        vstd::seq_lib::to_multiset_build(t, s.last());
        if p(s.last()) {
            vstd::seq_lib::to_multiset_build(t.filter(p), s.last());
        }
    }
}

/// List output is stable: two inputs holding the same paths, in any
/// order but with the same repetitions, list alike.
pub proof fn law_listing_ignores_input_order(
    a: Seq<Seq<char>>,
    b: Seq<Seq<char>>,
    rules: RulesView,
)
    requires
        a.to_multiset() == b.to_multiset(),
    ensures
        listed_files(a, rules) == listed_files(b, rules),
{
    let keep = |f: Seq<char>| valid_path(f, rules);
    let fa = valid_files(a, rules);
    let fb = valid_files(b, rules);
    assert(fa.to_multiset() =~= fb.to_multiset()) by {
        assert forall|x: Seq<char>| fa.to_multiset().count(x) == fb.to_multiset().count(x) by {
            lemma_filter_count(a, keep, x);
            lemma_filter_count(b, keep, x);
        }
    }
    lemma_path_order_total();
    fa.lemma_sort_by_ensures(path_order());
    fb.lemma_sort_by_ensures(path_order());
    vstd::seq_lib::lemma_sorted_unique(
        fa.sort_by(path_order()),
        fb.sort_by(path_order()),
        path_order(),
    );
}

/// Every listed path passes the filter, the listing is sorted, and each
/// accepted input path is listed.
pub proof fn law_listing_is_sorted_and_filtered(files: Seq<Seq<char>>, rules: RulesView)
    ensures
        sorted_by(listed_files(files, rules), path_order()),
        forall|j: int|
            0 <= j < listed_files(files, rules).len() ==> valid_path(
                #[trigger] listed_files(files, rules)[j],
                rules,
            ),
        forall|j: int|
            0 <= j < files.len() && valid_path(files[j], rules) ==> listed_files(
                files,
                rules,
            ).contains(#[trigger] files[j]),
{
    let keep = |f: Seq<char>| valid_path(f, rules);
    let v = valid_files(files, rules);
    lemma_path_order_total();
    v.lemma_sort_by_ensures(path_order());
    let l = listed_files(files, rules);
    assert forall|j: int| 0 <= j < l.len() implies valid_path(#[trigger] l[j], rules) by {
        broadcast use vstd::seq_lib::group_to_multiset_ensures;

        assert(l.contains(l[j]));
        assert(l.to_multiset().count(l[j]) > 0);
        assert(v.contains(l[j]));
        let k = choose|k: int| 0 <= k < v.len() && v[k] == l[j];
        files.lemma_filter_pred(keep, k);
    }
    assert forall|j: int| 0 <= j < files.len() && valid_path(files[j], rules) implies l.contains(
        #[trigger] files[j],
    ) by {
        broadcast use vstd::seq_lib::group_to_multiset_ensures;

        files.lemma_filter_contains(keep, j);
        assert(v.to_multiset().count(files[j]) > 0);
    }
}

} // verus!
