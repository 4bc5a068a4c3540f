use hosting_audit::base::root_uuid;
use hosting_audit::scan::{
    is_scan_candidate, new_changeset, scan_user, timestamp_millis, total_counts, user_root,
    ScanCounts, ScanTotals,
};
use hosting_audit::structs::DomainEntry;
use rayon::iter::{IntoParallelIterator, ParallelIterator};

fn named(name: &str) -> Option<DomainEntry> {
    Some(DomainEntry { name: String::from(name), ..Default::default() })
}

#[test]
fn user_root_is_under_home() {
    assert_eq!(user_root("admin6"), "/home/admin6/");
    assert_eq!(user_root(""), "/home//");
}

#[test]
fn scan_candidates_are_files_under_domains() {
    assert!(is_scan_candidate(true, "/home/u/domains/a.pl/public_html/index.php"));
    assert!(is_scan_candidate(true, "/home/u/domains/readme"));
    assert!(is_scan_candidate(true, "domains/a.pl/index.php"));
    assert!(is_scan_candidate(true, "/home/u/olddomains/domains/x"));
    assert!(!is_scan_candidate(false, "/home/u/domains/a.pl/public_html"));
    assert!(!is_scan_candidate(true, "/home/u/mydomains.txt"));
    assert!(!is_scan_candidate(true, "/home/u/mydomains/index.php"));
    assert!(!is_scan_candidate(true, "/home/u/domainsx/index.php"));
    assert!(!is_scan_candidate(true, "/home/u/domains"));
    assert!(!is_scan_candidate(true, "/home/u/public_html/index.php"));
    assert!(!is_scan_candidate(true, ""));
    assert!(!is_scan_candidate(true, "/home/u/domain/index.php"));
}

#[test]
fn timestamp_is_in_milliseconds() {
    assert_eq!(timestamp_millis(0), 0);
    assert_eq!(timestamp_millis(999_999), 0);
    assert_eq!(timestamp_millis(1_000_000), 1);
    assert_eq!(timestamp_millis(1_458_831_602_123_456_789), 1_458_831_602_123);
    assert_eq!(timestamp_millis(u64::MAX), 18_446_744_073_709);
}

#[test]
fn new_changesets_hang_under_the_root_and_differ() {
    let first = new_changeset(42);
    let second = new_changeset(42);
    assert_eq!(first.parent, root_uuid());
    assert_eq!(first.timestamp, 42);
    assert!(first.entries.is_empty());
    assert_ne!(first.uuid, second.uuid);
    assert_ne!(first.uuid, 0);
    assert_eq!(uuid::Uuid::from_u128(first.uuid).get_version_num(), 4);
    assert_eq!(uuid::Uuid::from_u128(first.uuid).get_variant(), uuid::Variant::RFC4122);
    let bits = 0x0000_0000_0000_f000_c000_0000_0000_0000u128;
    for _ in 0..100 {
        assert_eq!(new_changeset(0).uuid & bits, 0x0000_0000_0000_4000_8000_0000_0000_0000);
    }
}

#[test]
fn scan_user_counts_every_file_once() {
    let outcomes = vec![named("a"), None, named("b"), None, None, named("c")];
    let total = outcomes.len() as u64;
    let (changeset, counts) = scan_user(new_changeset(7), outcomes);
    assert_eq!(counts, ScanCounts { processed: 3, skipped: 3 });
    assert_eq!(counts.processed + counts.skipped, total);
    let names: Vec<&str> = changeset.entries.iter().map(|e| e.name.as_str()).collect();
    assert_eq!(names, vec!["a", "b", "c"]);
    assert_eq!(changeset.timestamp, 7);
    assert_eq!(changeset.parent, root_uuid());
}

#[test]
fn scan_user_of_nothing() {
    let (changeset, counts) = scan_user(new_changeset(1), Vec::new());
    assert_eq!(counts, ScanCounts { processed: 0, skipped: 0 });
    assert!(changeset.entries.is_empty());
}

#[test]
fn scan_user_appends_to_what_is_there() {
    let mut start = new_changeset(1);
    start.entries.push(DomainEntry { name: String::from("kept"), ..Default::default() });
    let uuid = start.uuid;
    let (changeset, counts) = scan_user(start, vec![None, named("new")]);
    assert_eq!(counts, ScanCounts { processed: 1, skipped: 1 });
    assert_eq!(changeset.uuid, uuid);
    let names: Vec<&str> = changeset.entries.iter().map(|e| e.name.as_str()).collect();
    assert_eq!(names, vec!["kept", "new"]);
}

#[test]
fn total_counts_loses_nothing() {
    let tasks = vec![
        ScanCounts { processed: 3, skipped: 1 },
        ScanCounts { processed: 0, skipped: 0 },
        ScanCounts { processed: 10, skipped: 20 },
    ];
    let totals = total_counts(&tasks);
    assert_eq!(totals, ScanTotals { processed: 13, skipped: 21 });
    let local: u128 = tasks.iter().map(|c| (c.processed + c.skipped) as u128).sum();
    assert_eq!(totals.processed + totals.skipped, local);
    assert_eq!(total_counts(&Vec::new()), ScanTotals { processed: 0, skipped: 0 });
}

#[test]
fn total_counts_does_not_overflow() {
    let tasks = vec![ScanCounts { processed: u64::MAX, skipped: u64::MAX }; 3];
    let totals = total_counts(&tasks);
    assert_eq!(totals.processed, 3 * (u64::MAX as u128));
    assert_eq!(totals.skipped, 3 * (u64::MAX as u128));
}

#[test]
fn parallel_tasks_sum_to_the_local_counts() {
    let counts: Vec<ScanCounts> = (0..8u64)
        .into_par_iter()
        .map(|n| {
            let outcomes: Vec<Option<DomainEntry>> =
                (0..100 + n).map(|i| if i % 3 == 0 { named("x") } else { None }).collect();
            scan_user(new_changeset(n), outcomes).1
        })
        .collect();
    let totals = total_counts(&counts);
    let files: u128 = (0..8u128).map(|n| 100 + n).sum();
    assert_eq!(totals.processed + totals.skipped, files);
}
