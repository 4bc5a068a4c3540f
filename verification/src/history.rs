//! The history of a user: stored changesets read back, corrupt ones replaced, ordered by
//! timestamp.

use vstd::prelude::*;
use crate::base::{invalid_changeset, invalid_changeset_view};
use crate::store::{
    restore_changeset, restore_changeset_json, restored, restored_json, stored_changeset,
};
use crate::structs::{Changeset, ChangesetView};

verus! {

/// The models of a sequence of changesets, in order.
pub open spec fn changeset_views(changesets: Seq<Changeset>) -> Seq<ChangesetView> {
    Seq::new(changesets.len(), |i: int| changesets[i]@)
}

/// The changesets stand in ascending order of their timestamps.
pub open spec fn ascending(changesets: Seq<ChangesetView>) -> bool {
    forall|i: int, j: int|
        0 <= i <= j < changesets.len() ==> changesets[i].timestamp <= changesets[j].timestamp
}

/// `sorted` with `changeset` put behind the last changeset that is not younger than it.
pub open spec fn placed(sorted: Seq<ChangesetView>, changeset: ChangesetView) -> Seq<ChangesetView>
    decreases sorted.len(),
{
    if sorted.len() == 0 || sorted.last().timestamp <= changeset.timestamp {
        sorted.push(changeset)
    } else {
        placed(sorted.drop_last(), changeset).push(sorted.last())
    }
}

/// The changesets in ascending order of their timestamps; changesets of one timestamp
/// keep the order in which they came.
pub open spec fn by_timestamp(changesets: Seq<ChangesetView>) -> Seq<ChangesetView>
    decreases changesets.len(),
{
    if changesets.len() == 0 {
        Seq::empty()
    } else {
        placed(by_timestamp(changesets.drop_last()), changesets.last())
    }
}

/// What the stored files of a user hold, in the order of the files: for each file its
/// changeset, or the invalid changeset where the file is corrupt.
pub open spec fn restored_all(files: Seq<Vec<u8>>) -> Seq<ChangesetView> {
    Seq::new(files.len(), |i: int| restored(files[i]@))
}

/// The youngest of the changesets in a timestamp-ordered history, or the invalid
/// changeset where the history is empty.
pub open spec fn youngest(history: Seq<ChangesetView>) -> ChangesetView {
    if history.len() > 0 {
        history.last()
    } else {
        invalid_changeset_view()
    }
}

/// Placing a changeset at the position behind which every changeset is younger, and in
/// front of which the nearest is not, is what `placed` does.
pub proof fn lemma_placed_at(sorted: Seq<ChangesetView>, changeset: ChangesetView, k: int)
    requires
        0 <= k <= sorted.len(),
        forall|i: int| k <= i < sorted.len() ==> sorted[i].timestamp > changeset.timestamp,
        k > 0 ==> sorted[k - 1].timestamp <= changeset.timestamp,
    ensures
        placed(sorted, changeset) == sorted.insert(k, changeset),
    decreases sorted.len() - k,
{
    if k == sorted.len() {
        assert(sorted.insert(k, changeset) =~= sorted.push(changeset));
    } else {
        lemma_placed_at(sorted.drop_last(), changeset, k);
        assert(sorted.drop_last().insert(k, changeset).push(sorted.last()) =~= sorted.insert(
            k,
            changeset,
        ));
    }
}

/// Placing a changeset keeps an ascending history ascending, makes it one longer, and
/// adds just that changeset to what it holds.
pub proof fn lemma_placed(sorted: Seq<ChangesetView>, changeset: ChangesetView)
    ensures
        ascending(sorted) ==> ascending(placed(sorted, changeset)),
        placed(sorted, changeset).len() == sorted.len() + 1,
        placed(sorted, changeset).to_multiset() == sorted.to_multiset().insert(changeset),
    decreases sorted.len(),
{
    broadcast use vstd::seq_lib::to_multiset_build;

    if sorted.len() == 0 || sorted.last().timestamp <= changeset.timestamp {
    } else {
        let front = sorted.drop_last();
        lemma_placed(front, changeset);
        assert(front.push(sorted.last()) =~= sorted);
        let inner = placed(front, changeset);
        if ascending(sorted) {
            assert(ascending(front)) by {
                assert forall|i: int, j: int| 0 <= i <= j < front.len() implies front[i].timestamp
                    <= front[j].timestamp by {
                    assert(front[i] == sorted[i] && front[j] == sorted[j]);
                }
            }
            assert forall|i: int| 0 <= i < inner.len() implies inner[i].timestamp
                <= sorted.last().timestamp by {
                assert(inner.to_multiset().count(inner[i]) > 0) by {
                    vstd::seq_lib::to_multiset_contains(inner, inner[i]);
                }
                if inner[i] != changeset {
                    assert(front.to_multiset().count(inner[i]) > 0);
                    vstd::seq_lib::to_multiset_contains(front, inner[i]);
                    let w = choose|w: int| 0 <= w < front.len() && front[w] == inner[i];
                    assert(sorted[w] == front[w]);
                }
            }
            let out = inner.push(sorted.last());
            assert forall|i: int, j: int| 0 <= i <= j < out.len() implies out[i].timestamp
                <= out[j].timestamp by {
                if j < inner.len() {
                    assert(out[i] == inner[i] && out[j] == inner[j]);
                } else if i < inner.len() {
                    assert(out[i] == inner[i]);
                }
            }
        }
        assert(placed(sorted, changeset).to_multiset() =~= sorted.to_multiset().insert(changeset));
    }
}

/// A history in timestamp order is ascending, as long as what it was made of, and holds
/// the same changesets.
pub proof fn lemma_by_timestamp(changesets: Seq<ChangesetView>)
    ensures
        ascending(by_timestamp(changesets)),
        by_timestamp(changesets).len() == changesets.len(),
        by_timestamp(changesets).to_multiset() == changesets.to_multiset(),
    decreases changesets.len(),
{
    broadcast use vstd::seq_lib::to_multiset_build;

    if changesets.len() == 0 {
        assert(changesets =~= Seq::empty());
    } else {
        lemma_by_timestamp(changesets.drop_last());
        lemma_placed(by_timestamp(changesets.drop_last()), changesets.last());
        assert(changesets.drop_last().push(changesets.last()) =~= changesets);
    }
}

/// Puts a changeset into a history behind the last changeset that is not younger.
pub fn place_changeset(history: &mut Vec<Changeset>, changeset: Changeset)
    ensures
        changeset_views(final(history)@) == placed(changeset_views(old(history)@), changeset@),
{
    let ghost before = changeset_views(history@);
    let mut k: usize = history.len();
    while k > 0 && history[k - 1].timestamp > changeset.timestamp
        invariant
            k <= history.len(),
            history@ == old(history)@,
            before == changeset_views(history@),
            forall|i: int| k <= i < before.len() ==> before[i].timestamp > changeset@.timestamp,
        decreases k,
    {
        k -= 1;
    }
    proof {
        if k > 0 {
            assert(before[k - 1].timestamp <= changeset@.timestamp);
        }
        lemma_placed_at(before, changeset@, k as int);
    }
    history.insert(k, changeset);
    proof {
        assert(changeset_views(history@) =~= before.insert(k as int, changeset@));
    }
}

/// Orders changesets by their timestamps, oldest first.
pub fn sort_changesets(changesets: Vec<Changeset>) -> (history: Vec<Changeset>)
    ensures
        changeset_views(history@) == by_timestamp(changeset_views(changesets@)),
        ascending(changeset_views(history@)),
        history@.len() == changesets@.len(),
        changeset_views(history@).to_multiset() == changeset_views(changesets@).to_multiset(),
{
    let ghost all = changeset_views(changesets@);
    let mut left = changesets;
    let mut history: Vec<Changeset> = Vec::new();
    proof {
        assert(all.take(0) =~= Seq::<ChangesetView>::empty());
        assert(changeset_views(history@) =~= Seq::<ChangesetView>::empty());
        assert(all.skip(0) =~= all);
    }
    while left.len() > 0
        invariant
            history@.len() + left@.len() == all.len(),
            changeset_views(left@) == all.skip(history@.len() as int),
            changeset_views(history@) == by_timestamp(all.take(history@.len() as int)),
        decreases left.len(),
    {
        let ghost done = history@.len() as int;
        let ghost rest = changeset_views(left@);
        let ghost old_left = left@;
        let next = left.remove(0);
        proof {
            assert(next@ == rest[0]);
            assert(rest[0] == all[done]);
            assert forall|j: int| 0 <= j < left@.len() implies changeset_views(left@)[j]
                == all.skip(done + 1)[j] by {
                assert(left@[j] == old_left[j + 1]);
                assert(rest[j + 1] == old_left[j + 1]@);
                assert(rest[j + 1] == all.skip(done)[j + 1]);
            }
            assert(changeset_views(left@) =~= all.skip(done + 1));
            assert(all.take(done + 1).drop_last() =~= all.take(done));
            assert(all.take(done + 1).last() == all[done]);
        }
        place_changeset(&mut history, next);
        proof {
            lemma_placed(by_timestamp(all.take(done)), all[done]);
        }
    }
    proof {
        assert(all.take(all.len() as int) =~= all);
        lemma_by_timestamp(all);
    }
    history
}

/// The history of a user: what the user's stored files hold, oldest first. A file that
/// cannot be read stands in the history as the invalid changeset; the others stand there
/// as they were stored.
pub fn all_changesets(files: &Vec<Vec<u8>>) -> (history: Vec<Changeset>)
    ensures
        changeset_views(history@) == by_timestamp(restored_all(files@)),
        ascending(changeset_views(history@)),
        history@.len() == files@.len(),
        changeset_views(history@).to_multiset() == restored_all(files@).to_multiset(),
{
    let mut changesets: Vec<Changeset> = Vec::new();
    let mut i: usize = 0;
    while i < files.len()
        invariant
            i <= files.len(),
            changesets@.len() == i,
            changeset_views(changesets@) == restored_all(files@).take(i as int),
        decreases files.len() - i,
    {
        let changeset = restore_changeset(files[i].as_slice());
        proof {
            let grown = changesets@.push(changeset);
            let target = restored_all(files@).take(i + 1);
            assert forall|j: int| 0 <= j < grown.len() implies changeset_views(grown)[j]
                == target[j] by {
                if j < i {
                    assert(grown[j] == changesets@[j]);
                    assert(changeset_views(changesets@)[j] == restored_all(files@).take(
                        i as int,
                    )[j]);
                }
            }
            assert(changeset_views(grown) =~= target);
        }
        changesets.push(changeset);
        i += 1;
    }
    proof {
        assert(restored_all(files@).take(files@.len() as int) =~= restored_all(files@));
    }
    sort_changesets(changesets)
}

/// The youngest changeset of a history in timestamp order, or the invalid changeset where
/// the history is empty.
pub fn most_recent(history: Vec<Changeset>) -> (changeset: Changeset)
    ensures
        changeset@ == youngest(changeset_views(history@)),
{
    let mut history = history;
    match history.pop() {
        Some(changeset) => changeset,
        None => invalid_changeset(),
    }
}

/// The youngest changeset among what a user's stored files hold, or the invalid changeset
/// where there are no files.
pub fn mostrecent_changeset(files: &Vec<Vec<u8>>) -> (changeset: Changeset)
    ensures
        changeset@ == youngest(by_timestamp(restored_all(files@))),
{
    most_recent(all_changesets(files))
}

/// What the files of a user in the inspection form hold, in the order of the files: for
/// each file its changeset, or the invalid changeset where the text is none.
pub open spec fn restored_all_json(files: Seq<String>) -> Seq<ChangesetView> {
    Seq::new(files.len(), |i: int| restored_json(files[i]@))
}

/// The history of a user as the files in the inspection form hold it, oldest first. A
/// file that cannot be read stands in the history as the invalid changeset.
pub fn all_changesets_json(files: &Vec<String>) -> (history: Vec<Changeset>)
    ensures
        changeset_views(history@) == by_timestamp(restored_all_json(files@)),
        ascending(changeset_views(history@)),
        history@.len() == files@.len(),
        changeset_views(history@).to_multiset() == restored_all_json(files@).to_multiset(),
{
    let mut changesets: Vec<Changeset> = Vec::new();
    let mut i: usize = 0;
    while i < files.len()
        invariant
            i <= files.len(),
            changesets@.len() == i,
            changeset_views(changesets@) == restored_all_json(files@).take(i as int),
        decreases files.len() - i,
    {
        let changeset = restore_changeset_json(files[i].as_str());
        proof {
            let grown = changesets@.push(changeset);
            let target = restored_all_json(files@).take(i + 1);
            assert forall|j: int| 0 <= j < grown.len() implies changeset_views(grown)[j]
                == target[j] by {
                if j < i {
                    assert(grown[j] == changesets@[j]);
                    assert(changeset_views(changesets@)[j] == restored_all_json(files@).take(
                        i as int,
                    )[j]);
                }
            }
            assert(changeset_views(grown) =~= target);
        }
        changesets.push(changeset);
        i += 1;
    }
    proof {
        assert(restored_all_json(files@).take(files@.len() as int) =~= restored_all_json(files@));
    }
    sort_changesets(changesets)
}

/// The youngest changeset among what a user's files in the inspection form hold, or the
/// invalid changeset where there are no files.
pub fn mostrecent_changeset_json(files: &Vec<String>) -> (changeset: Changeset)
    ensures
        changeset@ == youngest(by_timestamp(restored_all_json(files@))),
{
    most_recent(all_changesets_json(files))
}

/// A corrupt file keeps no other file out of the history: every changeset that some file
/// holds stands in the history of the files.
pub proof fn lemma_history_keeps_valid(files: Seq<Vec<u8>>, i: int)
    requires
        0 <= i < files.len(),
        stored_changeset(files[i]@).is_some(),
    ensures
        by_timestamp(restored_all(files)).contains(stored_changeset(files[i]@).unwrap()),
        by_timestamp(restored_all(files)).len() == files.len(),
{
    let all = restored_all(files);
    let changeset = stored_changeset(files[i]@).unwrap();
    lemma_by_timestamp(all);
    assert(all[i] == changeset);
    vstd::seq_lib::to_multiset_contains(all, changeset);
    vstd::seq_lib::to_multiset_contains(by_timestamp(all), changeset);
}

/// The history is in ascending order of timestamps whatever the order of the files, and
/// its youngest changeset is its last, or the invalid changeset where it is empty.
pub proof fn lemma_history_order(files: Seq<Vec<u8>>)
    ensures
        ascending(by_timestamp(restored_all(files))),
        files.len() > 0 ==> youngest(by_timestamp(restored_all(files))) == by_timestamp(
            restored_all(files),
        ).last(),
        files.len() == 0 ==> youngest(by_timestamp(restored_all(files)))
            == invalid_changeset_view(),
        forall|j: int|
            0 <= j < files.len() ==> (#[trigger] by_timestamp(restored_all(files))[j]).timestamp
                <= youngest(by_timestamp(restored_all(files))).timestamp,
{
    lemma_by_timestamp(restored_all(files));
}

} // verus!
