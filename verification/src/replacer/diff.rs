//! The lines that a change of a text removes and adds.

use crate::text::{trim_end, trimmed_end};
use vstd::prelude::*;

verus! {

/// The role of a line in a line diff.
#[derive(Clone, Copy, Debug, PartialEq, Eq, Structural)]
pub enum ChangeKind {
    /// The line is in both texts.
    Equal,
    /// The line is only in the original text.
    Delete,
    /// The line is only in the updated text.
    Insert,
}

/// The changes, line by line, that `similar::TextDiff::from_lines` finds
/// between `original` and `updated`: each with its role and its text, line
/// terminator included.
pub uninterp spec fn line_changes(original: Seq<char>, updated: Seq<char>) -> Seq<
    (ChangeKind, Seq<char>),
>;

/// The views of a list of changes.
pub open spec fn change_views(changes: Seq<(ChangeKind, String)>) -> Seq<(ChangeKind, Seq<char>)> {
    changes.map_values(|c: (ChangeKind, String)| (c.0, c.1@))
}

/// The text that the lines of `changes` in the original make up: the kept
/// and the removed lines, in order.
pub open spec fn old_side(changes: Seq<(ChangeKind, Seq<char>)>) -> Seq<char>
    decreases changes.len(),
{
    if changes.len() == 0 {
        seq![]
    } else if changes.last().0 == ChangeKind::Insert {
        old_side(changes.drop_last())
    } else {
        old_side(changes.drop_last()) + changes.last().1
    }
}

/// The text that the lines of `changes` in the updated text make up: the
/// kept and the added lines, in order.
pub open spec fn new_side(changes: Seq<(ChangeKind, Seq<char>)>) -> Seq<char>
    decreases changes.len(),
{
    if changes.len() == 0 {
        seq![]
    } else if changes.last().0 == ChangeKind::Delete {
        new_side(changes.drop_last())
    } else {
        new_side(changes.drop_last()) + changes.last().1
    }
}

/// Diffs `original` and `updated` line by line with `similar`
/// (`TextDiff::from_lines`, then `iter_all_changes`), each change given as its
/// tag and its text. Trusted: the result is what `line_changes` names for the
/// two texts (the default configuration sets no deadline, so the diff
/// depends on the two texts alone), and it accounts for every line of both:
/// `from_lines` splits each text into lines that keep their terminators, the
/// diff's operations cover both line ranges in order, and `iter_all_changes`
/// gives each kept line once (with the original's text, equal to the
/// updated one's), each removed line of the original and each added line of
/// the updated text, so the kept and removed lines make up the original and
/// the kept and added lines make up the updated text. Which lines count as
/// kept, removed or added is left to the name.
#[verifier::external_body]
fn changes_by_line(original: &str, updated: &str) -> (res: Vec<(ChangeKind, String)>)
    ensures
        change_views(res@) == line_changes(original@, updated@),
        old_side(change_views(res@)) == original@,
        new_side(change_views(res@)) == updated@,
{
    let diff = similar::TextDiff::from_lines(original, updated);
    let mut out = Vec::new();
    for change in diff.iter_all_changes() {
        let kind = match change.tag() {
            similar::ChangeTag::Equal => ChangeKind::Equal,
            similar::ChangeTag::Delete => ChangeKind::Delete,
            similar::ChangeTag::Insert => ChangeKind::Insert,
        };
        out.push((kind, change.value().to_string()));
    }
    out
}

/// A removed or added line, without the white space at its end.
#[derive(Debug)]
pub struct DiffLine {
    pub kind: ChangeKind,
    pub text: String,
}

/// The lines among `changes` that are removed or added, in order, each
/// without its trailing white space.
pub open spec fn shown_changes(changes: Seq<(ChangeKind, Seq<char>)>) -> Seq<(ChangeKind, Seq<char>)>
    decreases changes.len(),
{
    if changes.len() == 0 {
        seq![]
    } else {
        let rest = shown_changes(changes.drop_last());
        let last = changes.last();
        if last.0 == ChangeKind::Equal {
            rest
        } else {
            rest.push((last.0, trim_end(last.1)))
        }
    }
}

/// Whether a change removes or adds a line.
pub open spec fn is_shown_change(c: (ChangeKind, Seq<char>)) -> bool {
    c.0 != ChangeKind::Equal
}

/// A change as shown: its role and its text without trailing white space.
pub open spec fn as_shown(c: (ChangeKind, Seq<char>)) -> (ChangeKind, Seq<char>) {
    (c.0, trim_end(c.1))
}

/// Every removed or added line is shown, and nothing else: the shown lines
/// are exactly the changes that are not `Equal`, in their order, each with
/// its trailing white space trimmed; one more change adds one shown line
/// exactly when it removes or adds a line.
pub proof fn lemma_every_removed_or_added_line_is_shown(
    changes: Seq<(ChangeKind, Seq<char>)>,
    c: (ChangeKind, Seq<char>),
)
    ensures
        shown_changes(changes) == changes.filter(|x: (ChangeKind, Seq<char>)| is_shown_change(x)).map_values(
            |x: (ChangeKind, Seq<char>)| as_shown(x),
        ),
        shown_changes(changes.push(c)) == if c.0 == ChangeKind::Equal {
            shown_changes(changes)
        } else {
            shown_changes(changes).push((c.0, trim_end(c.1)))
        },
    decreases changes.len(),
{
    reveal(Seq::filter);
    assert(changes.push(c).drop_last() =~= changes);
    let pred = |x: (ChangeKind, Seq<char>)| is_shown_change(x);
    let show = |x: (ChangeKind, Seq<char>)| as_shown(x);
    if changes.len() > 0 {
        let front = changes.drop_last();
        lemma_every_removed_or_added_line_is_shown(front, changes.last());
        let sub = front.filter(pred);
        if pred(changes.last()) {
            assert(changes.filter(pred) == sub.push(changes.last()));
            assert(sub.push(changes.last()).map_values(show) =~= sub.map_values(show).push(
                show(changes.last()),
            ));
        } else {
            assert(changes.filter(pred) == sub);
        }
    } else {
        assert(changes.filter(pred) =~= changes);
        assert(changes.map_values(show) =~= Seq::<(ChangeKind, Seq<char>)>::empty());
    }
}

/// The lines to show for a change of a file from `original` to `updated`:
/// none when the texts are equal, else the removed and added lines.
pub open spec fn diff_view(original: Seq<char>, updated: Seq<char>) -> Seq<(ChangeKind, Seq<char>)> {
    if original == updated {
        seq![]
    } else {
        shown_changes(line_changes(original, updated))
    }
}

/// The views of a list of shown lines.
pub open spec fn line_views(lines: Seq<DiffLine>) -> Seq<(ChangeKind, Seq<char>)> {
    lines.map_values(|l: DiffLine| (l.kind, l.text@))
}

/// A list of changes that shows no line keeps every line: both texts that
/// it accounts for are the same.
proof fn lemma_nothing_shown_means_same_sides(changes: Seq<(ChangeKind, Seq<char>)>)
    requires
        shown_changes(changes).len() == 0,
    ensures
        old_side(changes) == new_side(changes),
    decreases changes.len(),
{
    if changes.len() > 0 {
        lemma_nothing_shown_means_same_sides(changes.drop_last());
    }
}

/// The removed and added lines between `original` and `updated`, as
/// `diff_view` describes; a dry run shows them under the file's name, and
/// shows nothing for a file whose list is empty. Two different texts always
/// show at least one line.
pub fn changed_lines(original: &str, updated: &str) -> (res: Vec<DiffLine>)
    ensures
        line_views(res@) == diff_view(original@, updated@),
        original@ != updated@ ==> res@.len() > 0,
        original@ == updated@ ==> res@.len() == 0,
        original@ != updated@ ==> line_views(res@) == line_changes(original@, updated@).filter(
            |x: (ChangeKind, Seq<char>)| is_shown_change(x),
        ).map_values(|x: (ChangeKind, Seq<char>)| as_shown(x)),
{
    let mut out: Vec<DiffLine> = Vec::new();
    if crate::text::str_equal(original, updated) {
        assert(line_views(out@) =~= Seq::<(ChangeKind, Seq<char>)>::empty());
        return out;
    }
    let changes = changes_by_line(original, updated);
    let ghost all = change_views(changes@);
    for i in 0..changes.len()
        invariant
            all == change_views(changes@),
            line_views(out@) == shown_changes(all.take(i as int)),
    {
        assert(all.take(i + 1).drop_last() =~= all.take(i as int));
        assert(all.take(i + 1).last() == all[i as int]);
        let kind = changes[i].0;
        if kind != ChangeKind::Equal {
            let ghost before = out@;
            let text = trimmed_end(changes[i].1.as_str());
            out.push(DiffLine { kind, text });
            assert(line_views(out@) =~= line_views(before).push((kind, text@)));
        }
    }
    assert(all.take(all.len() as int) =~= all);
    proof {
        lemma_every_removed_or_added_line_is_shown(all, (ChangeKind::Equal, seq![]));
        if out@.len() == 0 {
            assert(line_views(out@).len() == 0);
            lemma_nothing_shown_means_same_sides(all);
        }
    }
    out
}

/// A text compared with itself shows no line.
pub proof fn lemma_equal_texts_show_nothing(text: Seq<char>)
    ensures
        diff_view(text, text) == Seq::<(ChangeKind, Seq<char>)>::empty(),
{
}

} // verus!
