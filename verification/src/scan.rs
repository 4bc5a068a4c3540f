//! What a scan decides: which paths to look at, how outcomes become a changeset, and how
//! the counts of scans that ran side by side add up.

use vstd::prelude::*;
use crate::base::{root_uuid, ROOT_UUID};
use crate::ident::{is_random_uuid, lemma_random_uuid_not_nil, random_uuid};
use crate::structs::{entry_views, Changeset, ChangesetView, DomainEntry, DomainEntryView};
use crate::text::{chars_of, has_at, matches_at};

verus! {

/// The directory under which a user's content is looked for.
pub open spec fn home_of(user_name: Seq<char>) -> Seq<char> {
    "/home/"@ + user_name + "/"@
}

/// The directory under which a user's content is looked for.
pub fn user_root(user_name: &str) -> (path: String)
    ensures
        path@ == home_of(user_name@),
{
    String::from_str("/home/").concat(user_name).concat("/")
}

/// The segment `domains` of a path starts at position `at`: the name stands there between
/// two slashes, or between the start of the path and a slash.
pub open spec fn domains_segment_at(path: Seq<char>, at: int) -> bool {
    &&& has_at(path, "domains"@, at)
    &&& at == 0 || path[at - 1] == '/'
    &&& at + "domains"@.len() < path.len() && path[at + "domains"@.len()] == '/'
}

/// The path leads through a directory that is named `domains`.
pub open spec fn under_domains(path: Seq<char>) -> bool {
    exists|at: int| domains_segment_at(path, at)
}

/// Whether an item that the walk of a user's directory comes by is looked at: it is a
/// file, and it lies under a directory that is named `domains`.
pub fn is_scan_candidate(is_file: bool, path: &str) -> (candidate: bool)
    ensures
        candidate == (is_file && under_domains(path@)),
{
    if !is_file {
        return false;
    }
    let chars = chars_of(path);
    let name = chars_of("domains");
    let total = chars.len();
    let mut at: usize = 0;
    while at < total
        invariant
            is_file,
            at <= total,
            total == chars@.len(),
            chars@ == path@,
            name@ == "domains"@,
            forall|j: int| 0 <= j < at ==> !domains_segment_at(chars@, j),
        decreases total - at,
    {
        if matches_at(&chars, &name, at) && (at == 0 || chars[at - 1] == '/') && total - at
            > name.len() && chars[at + name.len()] == '/' {
            assert(domains_segment_at(chars@, at as int));
            return true;
        }
        at += 1;
    }
    proof {
        assert forall|j: int| !domains_segment_at(chars@, j) by {
            if j >= total {
                assert(!has_at(chars@, "domains"@, j) || j + "domains"@.len() >= chars@.len());
            }
        }
    }
    false
}

/// The timestamp of a changeset, in milliseconds, from a clock that counts nanoseconds.
pub fn timestamp_millis(now_ns: u64) -> (millis: u64)
    ensures
        millis == now_ns / 1_000_000,
{
    now_ns / 1000 / 1000
}

/// An empty changeset at the top of a lineage, with the given uuid and timestamp.
pub open spec fn empty_changeset(uuid: u128, timestamp: u64) -> ChangesetView {
    ChangesetView { uuid: uuid, parent: ROOT_UUID, timestamp: timestamp, entries: Seq::empty() }
}

/// Starts the changeset of one scan of one user: no entries yet, the root for a parent,
/// and a new random uuid, which is marked as one and so is not the nil uuid.
pub fn new_changeset(timestamp: u64) -> (changeset: Changeset)
    ensures
        changeset@ == empty_changeset(changeset.uuid, timestamp),
        is_random_uuid(changeset.uuid),
        changeset.uuid != 0,
{
    let changeset = Changeset {
        uuid: random_uuid(),
        parent: root_uuid(),
        timestamp: timestamp,
        entries: Vec::new(),
    };
    proof {
        assert(changeset@.entries =~= Seq::empty());
        lemma_random_uuid_not_nil(changeset.uuid);
    }
    changeset
}

/// How many files a scan made an entry of, and how many it passed over.
#[derive(Clone, Copy, Debug, PartialEq, Eq)]
pub struct ScanCounts {
    pub processed: u64,
    pub skipped: u64,
}

/// The counts of all scans of a run together.
#[derive(Clone, Copy, Debug, PartialEq, Eq)]
pub struct ScanTotals {
    pub processed: u128,
    pub skipped: u128,
}

/// The entries among the outcomes of a walk, in the order of the walk.
pub open spec fn entries_of(outcomes: Seq<Option<DomainEntry>>) -> Seq<DomainEntryView>
    decreases outcomes.len(),
{
    if outcomes.len() == 0 {
        Seq::empty()
    } else {
        match outcomes.last() {
            Some(entry) => entries_of(outcomes.drop_last()).push(entry@),
            None => entries_of(outcomes.drop_last()),
        }
    }
}

/// The number of files among the outcomes of a walk that gave no entry.
pub open spec fn skipped_in(outcomes: Seq<Option<DomainEntry>>) -> nat
    decreases outcomes.len(),
{
    if outcomes.len() == 0 {
        0
    } else {
        match outcomes.last() {
            Some(_) => skipped_in(outcomes.drop_last()),
            None => skipped_in(outcomes.drop_last()) + 1,
        }
    }
}

/// Every file of a walk is counted once: as an entry or as skipped.
pub proof fn lemma_every_file_counted(outcomes: Seq<Option<DomainEntry>>)
    ensures
        entries_of(outcomes).len() + skipped_in(outcomes) == outcomes.len(),
    decreases outcomes.len(),
{
    if outcomes.len() > 0 {
        lemma_every_file_counted(outcomes.drop_last());
    }
}

/// Gathers the outcomes of one user's walk into the user's changeset: every entry is
/// appended in the order of the walk and counted as processed, every file that gave none
/// is counted as skipped.
pub fn scan_user(changeset: Changeset, outcomes: Vec<Option<DomainEntry>>) -> (scanned: (
    Changeset,
    ScanCounts,
))
    ensures
        scanned.0@ == (ChangesetView {
            entries: changeset@.entries + entries_of(outcomes@),
            ..changeset@
        }),
        scanned.1.processed == entries_of(outcomes@).len(),
        scanned.1.skipped == skipped_in(outcomes@),
        scanned.1.processed + scanned.1.skipped == outcomes@.len(),
{
    let ghost given = changeset@;
    let mut changeset = changeset;
    let mut left = outcomes;
    let total = left.len();
    let mut counts = ScanCounts { processed: 0, skipped: 0 };
    let ghost start = given.entries;
    let ghost done: Seq<Option<DomainEntry>> = Seq::empty();
    proof {
        assert(start + entries_of(done) =~= start);
    }
    while left.len() > 0
        invariant
            total == outcomes@.len(),
            done + left@ == outcomes@,
            changeset.uuid == given.uuid,
            changeset.parent == given.parent,
            changeset.timestamp == given.timestamp,
            entry_views(changeset.entries@) == start + entries_of(done),
            counts.processed == entries_of(done).len(),
            counts.skipped == skipped_in(done),
            counts.processed + counts.skipped == done.len(),
        decreases left.len(),
    {
        let ghost before = left@;
        let outcome = left.remove(0);
        proof {
            let grown = done.push(outcome);
            assert(grown.drop_last() =~= done);
            assert(grown + left@ =~= done + before);
            done = grown;
        }
        match outcome {
            Some(entry) => {
                proof {
                    assert(entry_views(changeset.entries@.push(entry)) =~= entry_views(
                        changeset.entries@,
                    ).push(entry@));
                    assert(start + entries_of(done) =~= (start + entries_of(
                        done.drop_last(),
                    )).push(entry@));
                }
                changeset.entries.push(entry);
                counts.processed += 1;
            },
            None => {
                counts.skipped += 1;
            },
        }
    }
    proof {
        assert(done =~= outcomes@);
    }
    (changeset, counts)
}

/// The sum of the processed counts of a run's scans.
pub open spec fn processed_sum(counts: Seq<ScanCounts>) -> nat
    decreases counts.len(),
{
    if counts.len() == 0 {
        0
    } else {
        processed_sum(counts.drop_last()) + counts.last().processed as nat
    }
}

/// The sum of the skipped counts of a run's scans.
pub open spec fn skipped_sum(counts: Seq<ScanCounts>) -> nat
    decreases counts.len(),
{
    if counts.len() == 0 {
        0
    } else {
        skipped_sum(counts.drop_last()) + counts.last().skipped as nat
    }
}

/// The sum, over a run's scans, of the files that each scan came by.
pub open spec fn files_sum(counts: Seq<ScanCounts>) -> nat
    decreases counts.len(),
{
    if counts.len() == 0 {
        0
    } else {
        files_sum(counts.drop_last()) + counts.last().processed as nat
            + counts.last().skipped as nat
    }
}

/// The sums of counts are bounded by the number of scans.
pub proof fn lemma_sums_bounded(counts: Seq<ScanCounts>)
    ensures
        processed_sum(counts) <= counts.len() * u64::MAX,
        skipped_sum(counts) <= counts.len() * u64::MAX,
        processed_sum(counts) + skipped_sum(counts) == files_sum(counts),
    decreases counts.len(),
{
    if counts.len() > 0 {
        lemma_sums_bounded(counts.drop_last());
        assert((counts.len() - 1) * u64::MAX + u64::MAX == counts.len() * u64::MAX)
            by (nonlinear_arith);
    }
}

/// Adds up the counts that the scans of a run report, each scan its own: the totals are
/// the exact sums, whatever the order in which the scans ran or reported.
pub fn total_counts(counts: &Vec<ScanCounts>) -> (totals: ScanTotals)
    ensures
        totals.processed == processed_sum(counts@),
        totals.skipped == skipped_sum(counts@),
        totals.processed + totals.skipped == files_sum(counts@),
{
    let mut totals = ScanTotals { processed: 0, skipped: 0 };
    let mut i: usize = 0;
    while i < counts.len()
        invariant
            i <= counts@.len(),
            totals.processed == processed_sum(counts@.take(i as int)),
            totals.skipped == skipped_sum(counts@.take(i as int)),
        decreases counts.len() - i,
    {
        proof {
            assert(counts@.take(i + 1).drop_last() =~= counts@.take(i as int));
            lemma_sums_bounded(counts@.take(i as int));
            assert(i * u64::MAX + u64::MAX <= u128::MAX) by (nonlinear_arith)
                requires
                    i <= usize::MAX,
                    usize::MAX <= u64::MAX,
            ;
        }
        totals.processed += counts[i].processed as u128;
        totals.skipped += counts[i].skipped as u128;
        i += 1;
    }
    proof {
        assert(counts@.take(counts@.len() as int) =~= counts@);
        lemma_sums_bounded(counts@);
    }
    totals
}

} // verus!
