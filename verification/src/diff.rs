//! The diff engine: picks two changesets, gathers their retained content and turns the
//! difference between the two texts into segments to show.

use vstd::prelude::*;
use crate::base::{missing_changeset, missing_changeset_view};
use crate::history::changeset_views;
use crate::structs::{entry_views, Changeset, ChangesetView, DomainEntryView};
use crate::text::{chars_of, ends_with, has_suffix};
use crate::utils::{text_read, utf8_lossy};

verus! {

/// One segment of the difference between an old and a new text.
#[derive(Clone, Debug, PartialEq, Eq)]
pub enum Difference {
    /// Text that both hold.
    Same(String),
    /// Text that only the new one holds.
    Add(String),
    /// Text that only the old one holds.
    Rem(String),
}

/// Mathematical model of a [`Difference`].
pub enum DifferenceView {
    Same(Seq<char>),
    Add(Seq<char>),
    Rem(Seq<char>),
}

impl View for Difference {
    type V = DifferenceView;

    open spec fn view(&self) -> DifferenceView {
        match self {
            Difference::Same(text) => DifferenceView::Same(text@),
            Difference::Add(text) => DifferenceView::Add(text@),
            Difference::Rem(text) => DifferenceView::Rem(text@),
        }
    }
}

/// The models of a sequence of differences, in order.
pub open spec fn difference_views(changes: Seq<Difference>) -> Seq<DifferenceView> {
    Seq::new(changes.len(), |i: int| changes[i]@)
}

/// The segments that the `difference` crate finds between `orig` and `edit` when both are
/// split at `split`.
pub uninterp spec fn text_difference(
    orig: Seq<char>,
    edit: Seq<char>,
    split: Seq<char>,
) -> Seq<DifferenceView>;

/// The two texts are small enough for the table that the `difference` crate builds: one
/// cell of a machine word for every pair of a piece of the one and a piece of the other.
pub open spec fn diffable(orig: Seq<char>, edit: Seq<char>) -> bool {
    (orig.len() + 1) * (edit.len() + 1) * 8 <= isize::MAX
}

/// `Changeset::new` of the `difference` crate: the segments of the difference between two
/// texts, in the order of the old text. The crate allocates a table of one machine word
/// for every pair of pieces, so the texts must be small enough for it.
#[verifier::external_body]
fn difference_of(orig: &str, edit: &str, split: &str) -> (changes: Vec<Difference>)
    requires
        diffable(orig@, edit@),
    ensures
        difference_views(changes@) == text_difference(orig@, edit@, split@),
{
    let mut changes = Vec::new();
    for change in difference::Changeset::new(orig, edit, split).diffs {
        changes.push(
            match change {
                difference::Difference::Same(text) => Difference::Same(text),
                difference::Difference::Add(text) => Difference::Add(text),
                difference::Difference::Rem(text) => Difference::Rem(text),
            },
        );
    }
    changes
}

/// Whether two texts of these lengths are small enough to be compared.
fn fits_table(orig_len: usize, edit_len: usize) -> (fits: bool)
    ensures
        fits == ((orig_len + 1) * (edit_len + 1) * 8 <= isize::MAX),
{
    let rows = match orig_len.checked_add(1) {
        Some(rows) => rows,
        None => {
            assert((orig_len + 1) * (edit_len + 1) * 8 > isize::MAX) by (nonlinear_arith)
                requires
                    orig_len + 1 > usize::MAX,
                    edit_len >= 0,
                    usize::MAX >= isize::MAX,
            ;
            return false;
        },
    };
    let columns = match edit_len.checked_add(1) {
        Some(columns) => columns,
        None => {
            assert((orig_len + 1) * (edit_len + 1) * 8 > isize::MAX) by (nonlinear_arith)
                requires
                    edit_len + 1 > usize::MAX,
                    orig_len >= 0,
                    usize::MAX >= isize::MAX,
            ;
            return false;
        },
    };
    let cells = match rows.checked_mul(columns) {
        Some(cells) => cells,
        None => {
            assert(rows * columns * 8 > isize::MAX) by (nonlinear_arith)
                requires
                    rows * columns > usize::MAX,
                    usize::MAX >= isize::MAX,
            ;
            return false;
        },
    };
    match cells.checked_mul(8) {
        Some(bytes) => bytes <= isize::MAX as usize,
        None => false,
    }
}

/// The text that the segments of a difference spell on one side: the texts of the
/// segments that show on that side, one after the other.
pub open spec fn side_text(changes: Seq<DifferenceView>, side: Side) -> Seq<char>
    decreases changes.len(),
{
    if changes.len() == 0 {
        Seq::empty()
    } else {
        match shown(changes.last(), side) {
            Some(segment) => side_text(changes.drop_last(), side) + segment.text,
            None => side_text(changes.drop_last(), side),
        }
    }
}

/// The segments spell the two texts: what both hold and what was removed make up the old
/// text, what both hold and what was added make up the new text.
pub open spec fn spells(changes: Seq<DifferenceView>, orig: Seq<char>, edit: Seq<char>) -> bool {
    side_text(changes, Side::Old) == orig && side_text(changes, Side::New) == edit
}

/// The difference between two texts. There is none where the texts are too large to be
/// compared, nor, for a comparison character by character, where the segments that the
/// `difference` crate finds do not spell the two texts.
pub open spec fn difference_between(
    orig: Seq<char>,
    edit: Seq<char>,
    split: Seq<char>,
) -> Option<Seq<DifferenceView>> {
    if !diffable(orig, edit) {
        None
    } else if split.len() == 0 && !spells(text_difference(orig, edit, split), orig, edit) {
        None
    } else {
        Some(text_difference(orig, edit, split))
    }
}

/// A difference character by character spells the two texts that it is the difference
/// between.
pub proof fn lemma_difference_spells(orig: Seq<char>, edit: Seq<char>)
    ensures
        match difference_between(orig, edit, Seq::empty()) {
            Some(changes) => side_text(changes, Side::Old) == orig && side_text(
                changes,
                Side::New,
            ) == edit,
            None => true,
        },
{
}

/// The text that the segments of a difference spell on one side.
pub fn text_of_side(changes: &Vec<Difference>, side: Side) -> (text: String)
    ensures
        text@ == side_text(difference_views(changes@), side),
{
    let mut text = String::new();
    let ghost views = difference_views(changes@);
    let mut i: usize = 0;
    while i < changes.len()
        invariant
            i <= changes@.len(),
            views == difference_views(changes@),
            text@ == side_text(views.take(i as int), side),
        decreases changes.len() - i,
    {
        proof {
            assert(views.take(i + 1).drop_last() =~= views.take(i as int));
            assert(views.take(i + 1).last() == changes@[i as int]@);
        }
        match (&changes[i], side) {
            (Difference::Same(part), _) => {
                text.append(part.as_str());
            },
            (Difference::Rem(part), Side::Old) => {
                text.append(part.as_str());
            },
            (Difference::Add(part), Side::New) => {
                text.append(part.as_str());
            },
            _ => {},
        }
        i += 1;
    }
    proof {
        assert(views.take(views.len() as int) =~= views);
    }
    text
}

/// Hands a difference on if its segments spell the two texts, and nothing if they do not.
pub fn checked_difference(changes: Vec<Difference>, orig: &String, edit: &String) -> (checked:
    Option<Vec<Difference>>)
    ensures
        match checked {
            Some(list) => list == changes && spells(difference_views(changes@), orig@, edit@),
            None => !spells(difference_views(changes@), orig@, edit@),
        },
{
    if text_of_side(&changes, Side::Old) == *orig && text_of_side(&changes, Side::New) == *edit {
        Some(changes)
    } else {
        None
    }
}

/// Computes the same/added/removed segments between an old and a new text, both split at
/// `split` (the empty split compares character by character). Gives nothing where the
/// texts are too large to be compared. A comparison character by character is handed on
/// only if its segments spell the two texts.
pub fn calculate_difference(a: String, b: String, split: &str) -> (changes: Option<Vec<Difference>>)
    ensures
        match changes {
            Some(list) => difference_between(a@, b@, split@) == Some(difference_views(list@)),
            None => difference_between(a@, b@, split@).is_none(),
        },
{
    let orig_len = a.as_str().unicode_len();
    let edit_len = b.as_str().unicode_len();
    if !fits_table(orig_len, edit_len) {
        return None;
    }
    let changes = difference_of(a.as_str(), b.as_str(), split);
    if split.is_empty() {
        checked_difference(changes, &a, &b)
    } else {
        Some(changes)
    }
}

/// The retained content of the entries whose file path ends with `suffix`, one after the
/// other in the order of the entries.
pub open spec fn content_of(entries: Seq<DomainEntryView>, suffix: Seq<char>) -> Seq<u8>
    decreases entries.len(),
{
    if entries.len() == 0 {
        Seq::empty()
    } else if ends_with(entries.last().file.path, suffix) {
        content_of(entries.drop_last(), suffix) + entries.last().file.local_content
    } else {
        content_of(entries.drop_last(), suffix)
    }
}

/// Gathers the retained content of the entries of a changeset whose file path ends with
/// `suffix`. With the empty suffix every entry is taken.
pub fn collect_content(changeset: &Changeset, suffix: &str) -> (content: Vec<u8>)
    ensures
        content@ == content_of(changeset@.entries, suffix@),
{
    let pattern = chars_of(suffix);
    let mut content: Vec<u8> = Vec::new();
    let ghost views = entry_views(changeset.entries@);
    let mut i: usize = 0;
    while i < changeset.entries.len()
        invariant
            i <= changeset.entries@.len(),
            pattern@ == suffix@,
            views == entry_views(changeset.entries@),
            content@ == content_of(views.take(i as int), suffix@),
        decreases changeset.entries.len() - i,
    {
        let entry = &changeset.entries[i];
        proof {
            assert(views.take(i + 1).drop_last() =~= views.take(i as int));
            assert(views.take(i + 1).last() == entry@);
        }
        if has_suffix(&chars_of(entry.file.path.as_str()), &pattern) {
            content.extend_from_slice(entry.file.local_content.as_slice());
        }
        i += 1;
    }
    proof {
        assert(views.take(views.len() as int) =~= views);
    }
    content
}

/// The text that is compared for a changeset: its gathered content read as text.
pub open spec fn compared_text(entries: Seq<DomainEntryView>, suffix: Seq<char>) -> Seq<char> {
    text_read(content_of(entries, suffix))
}

/// The difference between the retained content of two changesets, character by
/// character: only the content of the entries whose file path ends with `suffix` is
/// compared, none of their other fields. Gives nothing where the two are too large to be
/// compared.
pub fn diff_changesets(older: &Changeset, newer: &Changeset, suffix: &str) -> (changes: Option<
    Vec<Difference>,
>)
    ensures
        match changes {
            Some(list) => difference_between(
                compared_text(older@.entries, suffix@),
                compared_text(newer@.entries, suffix@),
                Seq::empty(),
            ) == Some(difference_views(list@)),
            None => difference_between(
                compared_text(older@.entries, suffix@),
                compared_text(newer@.entries, suffix@),
                Seq::empty(),
            ).is_none(),
        },
{
    let old_text = utf8_lossy(collect_content(older, suffix).as_slice());
    let new_text = utf8_lossy(collect_content(newer, suffix).as_slice());
    proof {
        reveal_strlit("");
        assert(""@ =~= Seq::<char>::empty());
    }
    calculate_difference(old_text, new_text, "")
}

/// A changeset is one of the two that were asked for.
pub open spec fn is_asked_for(changeset: ChangesetView, first: u128, second: u128) -> bool {
    changeset.uuid == first || changeset.uuid == second
}

/// `at` is the position of the first changeset at or behind `from` that was asked for.
pub open spec fn is_first_asked_for(
    history: Seq<ChangesetView>,
    first: u128,
    second: u128,
    from: int,
    at: int,
) -> bool {
    &&& from <= at < history.len()
    &&& is_asked_for(history[at], first, second)
    &&& forall|j: int| from <= j < at ==> !is_asked_for(history[j], first, second)
}

/// No changeset at or behind `from` was asked for.
pub open spec fn none_asked_for(
    history: Seq<ChangesetView>,
    first: u128,
    second: u128,
    from: int,
) -> bool {
    forall|j: int| from <= j < history.len() ==> !is_asked_for(history[j], first, second)
}

/// The position of the first changeset at or behind `from` whose uuid is one of the two.
pub fn find_asked_for(history: &Vec<Changeset>, first: u128, second: u128, from: usize) -> (at:
    Option<usize>)
    ensures
        match at {
            Some(at) => is_first_asked_for(
                changeset_views(history@),
                first,
                second,
                from as int,
                at as int,
            ),
            None => none_asked_for(changeset_views(history@), first, second, from as int),
        },
{
    let mut i: usize = from;
    while i < history.len()
        invariant
            from <= i,
            forall|j: int|
                from <= j < i && j < history@.len() ==> !is_asked_for(
                    changeset_views(history@)[j],
                    first,
                    second,
                ),
        decreases history.len() - i,
    {
        if history[i].uuid == first || history[i].uuid == second {
            return Some(i);
        }
        i += 1;
    }
    None
}

/// Picks the two changesets to compare out of a history: the first two, in the order of
/// the history, whose uuid is one of the two that are asked for. The changeset for a
/// missing one stands in for each that is not there.
pub fn select_changesets(history: Vec<Changeset>, first: u128, second: u128) -> (pair: (
    Changeset,
    Changeset,
))
    ensures
        ({
            let all = changeset_views(history@);
            if none_asked_for(all, first, second, 0) {
                pair.0@ == missing_changeset_view() && pair.1@ == missing_changeset_view()
            } else {
                exists|a: int|
                    is_first_asked_for(all, first, second, 0, a) && pair.0@ == all[a] && if none_asked_for(
                        all,
                        first,
                        second,
                        a + 1,
                    ) {
                        pair.1@ == missing_changeset_view()
                    } else {
                        exists|b: int|
                            is_first_asked_for(all, first, second, a + 1, b) && pair.1@ == all[b]
                    }
            }
        }),
{
    let ghost all = changeset_views(history@);
    let mut history = history;
    let total = history.len();
    let a = match find_asked_for(&history, first, second, 0) {
        Some(a) => a,
        None => {
            return (missing_changeset(), missing_changeset());
        },
    };
    proof {
        assert(is_asked_for(all[a as int], first, second));
    }
    match find_asked_for(&history, first, second, a + 1) {
        Some(b) => {
            let newer = history.remove(b);
            let older = history.remove(a);
            proof {
                assert(is_asked_for(all[b as int], first, second));
                assert(is_first_asked_for(all, first, second, 0, a as int));
                assert(is_first_asked_for(all, first, second, a + 1, b as int));
            }
            (older, newer)
        },
        None => {
            let older = history.remove(a);
            proof {
                assert(is_first_asked_for(all, first, second, 0, a as int));
            }
            (older, missing_changeset())
        },
    }
}

/// The two youngest changesets of a history in timestamp order, the older of the two
/// first. The changeset for a missing one stands in for each that the history lacks: for
/// both in an empty history, for the older in a history of one changeset.
pub open spec fn two_youngest(history: Seq<ChangesetView>) -> (ChangesetView, ChangesetView) {
    if history.len() >= 2 {
        (history[history.len() - 2], history[history.len() - 1])
    } else if history.len() == 1 {
        (missing_changeset_view(), history[0])
    } else {
        (missing_changeset_view(), missing_changeset_view())
    }
}

/// Picks the two most recent changesets out of a history in timestamp order.
pub fn two_most_recent(history: Vec<Changeset>) -> (pair: (Changeset, Changeset))
    ensures
        (pair.0@, pair.1@) == two_youngest(changeset_views(history@)),
{
    let ghost all = changeset_views(history@);
    let mut history = history;
    let newer = match history.pop() {
        Some(changeset) => changeset,
        None => {
            return (missing_changeset(), missing_changeset());
        },
    };
    proof {
        assert(newer@ == all[all.len() - 1]);
    }
    match history.pop() {
        Some(older) => {
            proof {
                assert(older@ == all[all.len() - 2]);
            }
            (older, newer)
        },
        None => (missing_changeset(), newer),
    }
}

/// The side of a comparison that is shown.
#[derive(Clone, Copy, Debug, PartialEq, Eq, Structural)]
pub enum Side {
    /// The old text: what both hold, with what was removed standing out.
    Old,
    /// The new text: what both hold, with what was added standing out.
    New,
}

/// A piece of text to show, standing out or not.
#[derive(Clone, Debug, PartialEq, Eq)]
pub struct Segment {
    pub highlighted: bool,
    pub text: String,
}

/// Mathematical model of a [`Segment`].
pub struct SegmentView {
    pub highlighted: bool,
    pub text: Seq<char>,
}

impl View for Segment {
    type V = SegmentView;

    open spec fn view(&self) -> SegmentView {
        SegmentView { highlighted: self.highlighted, text: self.text@ }
    }
}

/// The models of a sequence of segments, in order.
pub open spec fn segment_views(segments: Seq<Segment>) -> Seq<SegmentView> {
    Seq::new(segments.len(), |i: int| segments[i]@)
}

/// How one difference shows on a side: what both texts hold shows plain on either side,
/// what was removed stands out on the old side, what was added stands out on the new
/// side, and neither shows on the other side.
pub open spec fn shown(change: DifferenceView, side: Side) -> Option<SegmentView> {
    match (change, side) {
        (DifferenceView::Same(text), _) => Some(SegmentView { highlighted: false, text: text }),
        (DifferenceView::Rem(text), Side::Old) => Some(
            SegmentView { highlighted: true, text: text },
        ),
        (DifferenceView::Add(text), Side::New) => Some(
            SegmentView { highlighted: true, text: text },
        ),
        _ => None,
    }
}

/// The segments that show on a side, in the order of the differences.
pub open spec fn rendered(changes: Seq<DifferenceView>, side: Side) -> Seq<SegmentView>
    decreases changes.len(),
{
    if changes.len() == 0 {
        Seq::empty()
    } else {
        match shown(changes.last(), side) {
            Some(segment) => rendered(changes.drop_last(), side).push(segment),
            None => rendered(changes.drop_last(), side),
        }
    }
}

/// Renders one side of a comparison as a stream of segments.
pub fn render_difference(changes: &Vec<Difference>, side: Side) -> (segments: Vec<Segment>)
    ensures
        segment_views(segments@) == rendered(difference_views(changes@), side),
{
    let mut segments: Vec<Segment> = Vec::new();
    let ghost views = difference_views(changes@);
    let mut i: usize = 0;
    proof {
        assert(segment_views(segments@) =~= Seq::<SegmentView>::empty());
    }
    while i < changes.len()
        invariant
            i <= changes@.len(),
            views == difference_views(changes@),
            segment_views(segments@) == rendered(views.take(i as int), side),
        decreases changes.len() - i,
    {
        proof {
            assert(views.take(i + 1).drop_last() =~= views.take(i as int));
            assert(views.take(i + 1).last() == changes@[i as int]@);
        }
        let segment = match (&changes[i], side) {
            (Difference::Same(text), _) => Some(Segment { highlighted: false, text: text.clone() }),
            (Difference::Rem(text), Side::Old) => Some(
                Segment { highlighted: true, text: text.clone() },
            ),
            (Difference::Add(text), Side::New) => Some(
                Segment { highlighted: true, text: text.clone() },
            ),
            _ => None,
        };
        match segment {
            Some(segment) => {
                proof {
                    assert(segment_views(segments@.push(segment)) =~= segment_views(
                        segments@,
                    ).push(segment@));
                }
                segments.push(segment);
            },
            None => {},
        }
        i += 1;
    }
    proof {
        assert(views.take(views.len() as int) =~= views);
    }
    segments
}

} // verus!
