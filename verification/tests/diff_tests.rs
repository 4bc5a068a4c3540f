use hosting_audit::base::{missing_changeset, root_invalid_uuid, root_uuid};
use hosting_audit::diff::{
    calculate_difference, checked_difference, collect_content, diff_changesets, find_asked_for,
    render_difference, select_changesets, text_of_side, two_most_recent, Difference, Segment,
    Side,
};
use hosting_audit::structs::{Changeset, DomainEntry, FileEntry};

fn entry(path: &str, content: &str) -> DomainEntry {
    DomainEntry {
        file: FileEntry {
            path: String::from(path),
            local_content: content.as_bytes().to_vec(),
            ..Default::default()
        },
        ..Default::default()
    }
}

fn changeset(entries: Vec<DomainEntry>) -> Changeset {
    Changeset { uuid: 1, parent: root_uuid(), timestamp: 1, entries }
}

fn same(text: &str) -> Difference {
    Difference::Same(String::from(text))
}

fn add(text: &str) -> Difference {
    Difference::Add(String::from(text))
}

fn rem(text: &str) -> Difference {
    Difference::Rem(String::from(text))
}

fn plain(text: &str) -> Segment {
    Segment { highlighted: false, text: String::from(text) }
}

fn marked(text: &str) -> Segment {
    Segment { highlighted: true, text: String::from(text) }
}

#[test]
fn calculate_difference_by_character() {
    let changes = calculate_difference(String::from("test"), String::from("tent"), "").unwrap();
    assert_eq!(changes, vec![same("te"), rem("s"), add("n"), same("t")]);
}

#[test]
fn calculate_difference_by_line_and_word() {
    let by_line = calculate_difference(String::from("a\nb\nc"), String::from("a\nx\nc"), "\n").unwrap();
    assert_eq!(by_line, vec![same("a"), rem("b"), add("x"), same("c")]);
    let by_word = calculate_difference(String::from("one two"), String::from("one three"), " ").unwrap();
    assert_eq!(by_word, vec![same("one"), rem("two"), add("three")]);
}

#[test]
fn calculate_difference_of_equal_and_empty_texts() {
    assert_eq!(calculate_difference(String::from("abc"), String::from("abc"), ""), Some(vec![same("abc")]));
    assert_eq!(calculate_difference(String::new(), String::new(), ""), Some(vec![]));
    assert_eq!(calculate_difference(String::new(), String::from("a"), ""), Some(vec![add("a")]));
    assert_eq!(calculate_difference(String::from("a"), String::new(), ""), Some(vec![rem("a")]));
}

#[test]
fn collect_content_keeps_entry_order_and_filters_by_suffix() {
    let set = changeset(vec![
        entry("/a/index.php", "one"),
        entry("/a/style.css", "two"),
        entry("/a/main.php", "three"),
    ]);
    assert_eq!(collect_content(&set, ".php"), b"onethree".to_vec());
    assert_eq!(collect_content(&set, ".css"), b"two".to_vec());
    assert_eq!(collect_content(&set, ""), b"onetwothree".to_vec());
    assert_eq!(collect_content(&set, ".html"), Vec::<u8>::new());
    assert_eq!(collect_content(&changeset(Vec::new()), ""), Vec::<u8>::new());
}

#[test]
fn diff_changesets_compares_retained_content_only() {
    let old = changeset(vec![entry("/tmp/index.php", "<?php echo INDEX phpinfo();")]);
    let mut new = changeset(vec![entry("/tmp/index.php", "<?php echo MAIN phpinfo();")]);
    new.entries[0].file.lang = String::from("pl");
    new.entries[0].http_status_code = 500;
    let changes = diff_changesets(&old, &new, ".php").unwrap();
    let old_side: String = changes
        .iter()
        .filter_map(|c| match c {
            Difference::Same(t) | Difference::Rem(t) => Some(t.as_str()),
            Difference::Add(_) => None,
        })
        .collect();
    let new_side: String = changes
        .iter()
        .filter_map(|c| match c {
            Difference::Same(t) | Difference::Add(t) => Some(t.as_str()),
            Difference::Rem(_) => None,
        })
        .collect();
    assert_eq!(old_side, "<?php echo INDEX phpinfo();");
    assert_eq!(new_side, "<?php echo MAIN phpinfo();");
    let mut relabelled = old.clone();
    relabelled.entries[0].file.encoding = String::from("utf-8");
    assert_eq!(
        diff_changesets(&old, &relabelled, ""),
        Some(vec![same("<?php echo INDEX phpinfo();")])
    );
}

#[test]
fn diff_changesets_reads_broken_utf8_with_replacements() {
    let mut old = changeset(vec![entry("/a", "")]);
    old.entries[0].file.local_content = vec![b'a', 0xff];
    let new = changeset(vec![entry("/a", "a")]);
    assert_eq!(diff_changesets(&old, &new, ""), Some(vec![same("a"), rem("\u{fffd}")]));
}

#[test]
fn render_difference_shows_each_side() {
    let changes = vec![same("te"), rem("s"), add("n"), same("t")];
    assert_eq!(render_difference(&changes, Side::Old), vec![plain("te"), marked("s"), plain("t")]);
    assert_eq!(render_difference(&changes, Side::New), vec![plain("te"), marked("n"), plain("t")]);
    assert_eq!(render_difference(&Vec::new(), Side::Old), Vec::<Segment>::new());
    assert_eq!(render_difference(&vec![add("x")], Side::Old), Vec::<Segment>::new());
    assert_eq!(render_difference(&vec![rem("x")], Side::New), Vec::<Segment>::new());
}

fn stamped(uuid: u128, timestamp: u64) -> Changeset {
    Changeset { uuid, parent: root_uuid(), timestamp, entries: Vec::new() }
}

#[test]
fn select_changesets_takes_the_first_two_that_match() {
    let history = vec![stamped(1, 10), stamped(2, 20), stamped(3, 30), stamped(2, 40)];
    assert_eq!(select_changesets(history.clone(), 3, 2), (stamped(2, 20), stamped(3, 30)));
    assert_eq!(select_changesets(history.clone(), 2, 2), (stamped(2, 20), stamped(2, 40)));
    assert_eq!(select_changesets(history.clone(), 1, 9), (stamped(1, 10), missing_changeset()));
    assert_eq!(select_changesets(history.clone(), 8, 9), (missing_changeset(), missing_changeset()));
    assert_eq!(select_changesets(Vec::new(), 1, 2), (missing_changeset(), missing_changeset()));
    assert_eq!(missing_changeset().uuid, root_invalid_uuid());
    assert_eq!(missing_changeset().parent, root_invalid_uuid());
}

#[test]
fn find_asked_for_searches_from_a_position() {
    let history = vec![stamped(1, 10), stamped(2, 20), stamped(1, 30)];
    assert_eq!(find_asked_for(&history, 1, 7, 0), Some(0));
    assert_eq!(find_asked_for(&history, 1, 7, 1), Some(2));
    assert_eq!(find_asked_for(&history, 1, 7, 3), None);
    assert_eq!(find_asked_for(&history, 7, 2, 0), Some(1));
    assert_eq!(find_asked_for(&history, 7, 8, 0), None);
}

#[test]
fn two_most_recent_are_the_last_two() {
    let history = vec![stamped(1, 10), stamped(2, 20), stamped(3, 30)];
    assert_eq!(two_most_recent(history), (stamped(2, 20), stamped(3, 30)));
    assert_eq!(two_most_recent(vec![stamped(1, 10)]), (missing_changeset(), stamped(1, 10)));
    assert_eq!(two_most_recent(Vec::new()), (missing_changeset(), missing_changeset()));
}

#[test]
fn text_of_side_joins_what_shows_on_the_side() {
    let changes = vec![same("te"), rem("s"), add("n"), same("t")];
    assert_eq!(text_of_side(&changes, Side::Old), "test");
    assert_eq!(text_of_side(&changes, Side::New), "tent");
    assert_eq!(text_of_side(&Vec::new(), Side::Old), "");
    assert_eq!(text_of_side(&vec![add("x"), rem("y")], Side::Old), "y");
    assert_eq!(text_of_side(&vec![add("x"), rem("y")], Side::New), "x");
}

#[test]
fn checked_difference_hands_on_only_what_spells_both_texts() {
    let changes = vec![same("te"), rem("s"), add("n"), same("t")];
    let test = String::from("test");
    let tent = String::from("tent");
    assert_eq!(checked_difference(changes.clone(), &test, &tent), Some(changes.clone()));
    assert_eq!(checked_difference(changes.clone(), &tent, &test), None);
    assert_eq!(checked_difference(changes.clone(), &test, &test), None);
    assert_eq!(checked_difference(Vec::new(), &String::new(), &String::new()), Some(Vec::new()));
    assert_eq!(checked_difference(Vec::new(), &test, &String::new()), None);
}

#[test]
fn differences_by_character_spell_both_texts() {
    let texts = [
        "", "a", "ab", "ba", "aaa", "abcabc", "test", "tent", "\n", "a\nb", " ", "  x ",
        "za\u{17c}\u{f3}\u{142}\u{107}", "g\u{119}\u{15b}l\u{105} ja\u{17a}\u{144}",
        "\u{1f600}", "a\u{1f600}b", "<?php echo INDEX phpinfo();", "<?php echo MAIN phpinfo();",
        "\u{fffd}", "\u{0}", "e\u{301}", "\u{e9}",
    ];
    for orig in texts {
        for edit in texts {
            let changes = calculate_difference(String::from(orig), String::from(edit), "")
                .unwrap_or_else(|| panic!("no difference between {:?} and {:?}", orig, edit));
            assert_eq!(text_of_side(&changes, Side::Old), orig);
            assert_eq!(text_of_side(&changes, Side::New), edit);
            if orig == edit {
                let expected = if orig.is_empty() { vec![] } else { vec![same(orig)] };
                assert_eq!(changes, expected);
            }
        }
    }
}
