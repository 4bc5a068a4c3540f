use hosting_audit::base::{
    invalid_changeset, root_default_connection_timeout, root_default_http_port,
    root_default_timeout, root_failed_no_next_item_uuid, root_failed_no_uuud_given_uuid,
    root_failed_parse_from_string_to_uuid_uuid, root_invalid_uuid, root_uuid,
};
use hosting_audit::codec::{decode_changeset, encode_changeset};
use hosting_audit::history::{all_changesets, most_recent, mostrecent_changeset, sort_changesets};
use hosting_audit::ident::{
    bytes_of_uuid, read_hyphenated, uuid_from_bytes, uuid_param, uuid_text,
};
use hosting_audit::store::{
    changeset_dir, changeset_file_name, changeset_json_file_name, is_changeset_file,
    is_changeset_json_file, pack_changeset, read_changeset, restore_changeset, store_changeset,
    store_report, unpack_changeset,
};
use hosting_audit::structs::{AccountType, Changeset, DomainEntry, FileEntry, Owner};

fn origin_changeset() -> Changeset {
    Changeset {
        uuid: uuid::Uuid::new_v4().as_u128(),
        parent: root_uuid(),
        timestamp: time::precise_time_ns() / 1000 / 1000,
        entries: vec![
            DomainEntry {
                file: FileEntry {
                    path: String::from("/tmp/index.php"),
                    local_content: "<?php echo INDEX phpinfo();".to_string().into_bytes(),
                    ..Default::default()
                },
                request_path: String::from("/index.php"),
                name: String::from("index.php"),
                ..Default::default()
            },
            DomainEntry {
                file: FileEntry {
                    path: String::from("/tmp/main.php"),
                    local_content: "<?php echo MAIN phpinfo();".to_string().into_bytes(),
                    owner: Owner { name: String::from("admin6"), ..Default::default() },
                    ..Default::default()
                },
                http_content: String::from("<?php echo MAIN phpinfo();"),
                request_path: String::from("/main.php"),
                name: String::from("main.php"),
                ..Default::default()
            },
        ],
    }
}

fn with_timestamp(timestamp: u64, uuid: u128) -> Changeset {
    Changeset { uuid, parent: root_uuid(), timestamp, entries: Vec::new() }
}

#[test]
fn store_restore_changesets_test() {
    let origin_changeset = origin_changeset();
    let mut changeset = origin_changeset.clone();
    changeset.uuid = uuid::Uuid::new_v4().as_u128();
    changeset.timestamp += 1111;

    let (first_name, first) = store_changeset("admin6", &origin_changeset.clone());
    let (second_name, second) = store_changeset("admin6", &changeset);
    assert!(first_name != second_name);
    let files = vec![first, second];
    let all = all_changesets(&files);
    assert!(all.len() == 2);
    let tsmp = mostrecent_changeset(&files).timestamp;
    assert!(tsmp == origin_changeset.timestamp + 1111, "Most recent timestamp isn't most recent?");
    /* records as a scan leaves them, stamped by the clock of the day */
    let mut stamped = origin_changeset.clone();
    stamped.timestamp = time::get_time().sec as u64 * 1000;
    let mut later = stamped.clone();
    later.uuid = uuid::Uuid::new_v4().as_u128();
    later.timestamp += 1111;
    for user in ["admin6", "admin7"] {
        let files = vec![store_changeset(user, &later).1, store_changeset(user, &stamped).1];
        let all = all_changesets(&files);
        assert!(all.len() > 0, "Changeset dir empty for user: {}?", user);
        let most_recent = mostrecent_changeset(&files);
        assert!(most_recent.timestamp > 10000000, "Timestamp is too small?");
        assert!(most_recent.parent == root_uuid() || most_recent.parent == root_invalid_uuid());
    }
}

#[test]
fn stored_changeset_reads_back_equal() {
    let changeset = origin_changeset();
    let (_, content) = store_changeset("admin6", &changeset);
    assert!(!content.is_empty());
    let back = unpack_changeset(&content).unwrap();
    assert_eq!(back.uuid, changeset.uuid);
    assert_eq!(back.timestamp, changeset.timestamp);
    assert_eq!(back.entries, changeset.entries);
    assert_eq!(back, changeset);
    assert_eq!(restore_changeset(&content), changeset);
}

#[test]
fn record_round_trip_keeps_every_field() {
    let changeset = Changeset {
        uuid: u128::MAX,
        parent: 1,
        timestamp: u64::MAX,
        entries: vec![DomainEntry {
            name: String::from("d\u{142}uga.pl"),
            request_path: String::from("/\u{1f600}"),
            file: FileEntry {
                path: String::from("/p"),
                sha1: String::from("da39a3ee5e6b4b0d3255bfef95601890afd80709"),
                lang: String::from("pl"),
                encoding: String::from("windows-1250"),
                owner: Owner {
                    name: String::from("o"),
                    account_type: AccountType::Managed,
                    origin: String::from("S1"),
                    uid: u32::MAX,
                    gid: 7,
                },
                size: i64::MIN,
                mode: 0o644,
                modified: -5,
                local_content: vec![0, 255, 14, 13],
            },
            http_content: String::from("h"),
            http_content_encoding: String::from("e1"),
            http_content_size: usize::MAX,
            http_status_code: 200,
            http_response_time: 3,
            https_content: String::from("s"),
            https_content_encoding: String::from("e2"),
            https_content_size: 1,
            https_status_code: 410,
            https_response_time: u64::MAX,
        }],
    };
    let record = encode_changeset(&changeset);
    assert_eq!(&record[..5], b"CHGS\x01");
    assert_eq!(decode_changeset(&record), Some(changeset.clone()));
    for account_type in
        [AccountType::Regular, AccountType::Reseller, AccountType::Managed, AccountType::Admin]
    {
        let mut other = changeset.clone();
        other.entries[0].file.owner.account_type = account_type;
        assert_eq!(decode_changeset(&encode_changeset(&other)), Some(other));
    }
}

#[test]
fn record_of_an_empty_changeset() {
    let changeset = with_timestamp(0x0102, 0x0a0b);
    let record = encode_changeset(&changeset);
    let mut expected = b"CHGS\x01".to_vec();
    expected.extend_from_slice(&0x0a0bu128.to_le_bytes());
    expected.extend_from_slice(&root_uuid().to_le_bytes());
    expected.extend_from_slice(&0x0102u64.to_le_bytes());
    expected.extend_from_slice(&0u64.to_le_bytes());
    assert_eq!(record, expected);
    assert_eq!(decode_changeset(&record), Some(changeset));
}

#[test]
fn decode_rejects_damaged_records() {
    let record = encode_changeset(&origin_changeset());
    assert_eq!(decode_changeset(&[]), None);
    assert_eq!(decode_changeset(b"CHGS"), None);
    assert_eq!(decode_changeset(&record[..record.len() - 1]), None);
    let mut longer = record.clone();
    longer.push(0);
    assert_eq!(decode_changeset(&longer), None);
    let mut wrong_magic = record.clone();
    wrong_magic[0] = b'X';
    assert_eq!(decode_changeset(&wrong_magic), None);
    let mut wrong_version = record.clone();
    wrong_version[4] = 2;
    assert_eq!(decode_changeset(&wrong_version), None);
    let mut too_many = record.clone();
    too_many[45] = 3;
    assert_eq!(decode_changeset(&too_many), None);
    for cut in 0..record.len() {
        assert_eq!(decode_changeset(&record[..cut]), None, "cut at {}", cut);
    }
}

#[test]
fn decode_rejects_text_that_is_not_utf8() {
    let mut changeset = with_timestamp(1, 2);
    changeset.entries.push(DomainEntry { name: String::from("ab"), ..Default::default() });
    let mut record = encode_changeset(&changeset);
    let at = 5 + 16 + 16 + 8 + 8 + 8;
    assert_eq!(&record[at..at + 2], b"ab");
    record[at] = 0xff;
    assert_eq!(decode_changeset(&record), None);
}

#[test]
fn corrupt_file_stands_as_the_invalid_changeset() {
    let good = origin_changeset();
    let (_, content) = store_changeset("admin6", &good);
    let mut damaged = content.clone();
    let middle = damaged.len() / 2;
    damaged.truncate(middle);
    assert_eq!(unpack_changeset(&damaged), None);
    assert_eq!(unpack_changeset(b"not a zlib stream"), None);
    assert_eq!(restore_changeset(b"not a zlib stream"), invalid_changeset());
    let files = vec![b"garbage".to_vec(), content, damaged];
    let all = all_changesets(&files);
    assert_eq!(all.len(), 3);
    assert_eq!(all[0], invalid_changeset());
    assert_eq!(all[1], invalid_changeset());
    assert_eq!(all[2], good);
    assert_eq!(mostrecent_changeset(&files), good);
}

#[test]
fn invalid_changeset_is_the_sentinel() {
    let invalid = invalid_changeset();
    assert_eq!(invalid.parent, root_invalid_uuid());
    assert_eq!(invalid.uuid, 0);
    assert_eq!(invalid.timestamp, 0);
    assert!(invalid.entries.is_empty());
    assert_eq!(mostrecent_changeset(&Vec::new()), invalid);
    assert_eq!(most_recent(Vec::new()), invalid);
    assert!(all_changesets(&Vec::new()).is_empty());
}

#[test]
fn history_is_sorted_whatever_the_order_of_the_files() {
    let stamps = [5u64, 1, 4, 1, 3, 9, 0, 4];
    let files: Vec<Vec<u8>> = stamps
        .iter()
        .enumerate()
        .map(|(i, t)| pack_changeset(&with_timestamp(*t, i as u128)).unwrap())
        .collect();
    let all = all_changesets(&files);
    let got: Vec<(u64, u128)> = all.iter().map(|c| (c.timestamp, c.uuid)).collect();
    assert_eq!(got, vec![(0, 6), (1, 1), (1, 3), (3, 4), (4, 2), (4, 7), (5, 0), (9, 5)]);
    assert_eq!(mostrecent_changeset(&files).uuid, 5);
    let mut reversed = files.clone();
    reversed.reverse();
    let stamps_back: Vec<u64> = all_changesets(&reversed).iter().map(|c| c.timestamp).collect();
    assert_eq!(stamps_back, vec![0, 1, 1, 3, 4, 4, 5, 9]);
}

#[test]
fn sort_changesets_is_stable() {
    let list = vec![with_timestamp(2, 10), with_timestamp(1, 11), with_timestamp(2, 12), with_timestamp(1, 13)];
    let sorted: Vec<u128> = sort_changesets(list).iter().map(|c| c.uuid).collect();
    assert_eq!(sorted, vec![11, 13, 10, 12]);
    assert_eq!(most_recent(vec![with_timestamp(1, 1), with_timestamp(2, 2)]).uuid, 2);
}

#[test]
fn store_paths() {
    let uuid = uuid::Uuid::parse_str("4b84d962-ff55-4913-94fa-b20db7e1d2da").unwrap().as_u128();
    assert_eq!(changeset_dir("admin6"), ".changesets/admin6");
    assert_eq!(
        changeset_file_name("admin6", uuid, 1_458_831_602_123),
        ".changesets/admin6/4b84d962-ff55-4913-94fa-b20db7e1d2da-1458831602123.chgset"
    );
    assert_eq!(
        changeset_json_file_name("u", 0, 0),
        ".changesets/u/00000000-0000-0000-0000-000000000000-0.chgset.json"
    );
    assert_eq!(
        changeset_file_name("u", u128::MAX, u64::MAX),
        ".changesets/u/ffffffff-ffff-ffff-ffff-ffffffffffff-18446744073709551615.chgset"
    );
    assert_eq!(changeset_file_name("u", 1, 10), ".changesets/u/00000000-0000-0000-0000-000000000001-10.chgset");
    let changeset = with_timestamp(77, uuid);
    assert_eq!(store_changeset("bob", &changeset).0, changeset_file_name("bob", uuid, 77));
}

#[test]
fn store_file_suffixes() {
    assert!(is_changeset_file(".changesets/u/x-1.chgset"));
    assert!(!is_changeset_file(".changesets/u/x-1.chgset.json"));
    assert!(!is_changeset_file("chgset"));
    assert!(!is_changeset_file(""));
    assert!(is_changeset_file(".chgset"));
    assert!(is_changeset_json_file(".changesets/u/x-1.chgset.json"));
    assert!(!is_changeset_json_file(".changesets/u/x-1.chgset"));
}

#[test]
fn store_report_is_zero_on_failure() {
    assert_eq!(store_report(String::from("f"), Some(12)), (String::from("f"), 12));
    assert_eq!(store_report(String::from("f"), None), (String::from("f"), 0));
}

#[test]
fn sentinel_uuids_are_the_documented_ones() {
    let parse = |text: &str| uuid::Uuid::parse_str(text).unwrap().as_u128();
    assert_eq!(root_uuid(), parse("4b84d962-ff55-4913-94fa-b20db7e1d2da"));
    assert_eq!(root_invalid_uuid(), parse("deadbeef-ff55-4913-94fa-000000000000"));
    assert_eq!(
        root_failed_parse_from_string_to_uuid_uuid(),
        parse("FA170001-ff55-4913-94fa-000000000000")
    );
    assert_eq!(root_failed_no_uuud_given_uuid(), parse("FA170002-ff55-4913-94fa-000000000000"));
    assert_eq!(root_failed_no_next_item_uuid(), parse("FA170003-ff55-4913-94fa-000000000000"));
}

#[test]
fn process_defaults() {
    assert_eq!(root_default_http_port(), 3000);
    assert_eq!(root_default_connection_timeout(), 2500);
    assert_eq!(root_default_timeout(), 5000);
}

#[test]
fn uuid_param_reads_or_substitutes() {
    assert_eq!(uuid_param(Some("4b84d962-ff55-4913-94fa-b20db7e1d2da")), root_uuid());
    assert_eq!(uuid_param(Some("4B84D962FF55491394FAB20DB7E1D2DA")), root_uuid());
    assert_eq!(uuid_param(Some("not-a-uuid")), root_failed_parse_from_string_to_uuid_uuid());
    assert_eq!(uuid_param(Some("")), root_failed_parse_from_string_to_uuid_uuid());
    assert_eq!(uuid_param(None), root_failed_no_uuud_given_uuid());
}

#[test]
fn uuid_text_is_the_hyphenated_form() {
    assert_eq!(uuid_text(0), "00000000-0000-0000-0000-000000000000");
    assert_eq!(uuid_text(u128::MAX), "ffffffff-ffff-ffff-ffff-ffffffffffff");
    assert_eq!(uuid_text(root_uuid()), "4b84d962-ff55-4913-94fa-b20db7e1d2da");
    assert_eq!(
        uuid_text(0x0123_4567_89ab_cdef_fedc_ba98_7654_3210),
        "01234567-89ab-cdef-fedc-ba9876543210"
    );
    for _ in 0..50 {
        let id = uuid::Uuid::new_v4();
        assert_eq!(uuid_text(id.as_u128()), id.hyphenated().to_string());
        assert_eq!(read_hyphenated(&id.hyphenated().to_string()), Some(id.as_u128()));
        assert_eq!(uuid_param(Some(&uuid_text(id.as_u128()))), id.as_u128());
    }
}

#[test]
fn read_hyphenated_is_strict() {
    assert_eq!(read_hyphenated("4b84d962-ff55-4913-94fa-b20db7e1d2da"), Some(root_uuid()));
    assert_eq!(read_hyphenated("00000000-0000-0000-0000-000000000001"), Some(1));
    assert_eq!(read_hyphenated("10000000-0000-0000-0000-000000000000"), Some(1u128 << 124));
    assert_eq!(read_hyphenated("4B84D962-FF55-4913-94FA-B20DB7E1D2DA"), None);
    assert_eq!(read_hyphenated("4b84d962ff55491394fab20db7e1d2da"), None);
    assert_eq!(read_hyphenated("4b84d962-ff55-4913-94fa-b20db7e1d2d"), None);
    assert_eq!(read_hyphenated("4b84d962-ff55-4913-94fa-b20db7e1d2da0"), None);
    assert_eq!(read_hyphenated("4b84d962-ff55-4913-94fa_b20db7e1d2da"), None);
    assert_eq!(read_hyphenated("4b84d962-ff55-4913-94fa-b20db7e1d2dg"), None);
    assert_eq!(read_hyphenated("gb84d962-ff55-4913-94fa-b20db7e1d2da"), None);
    assert_eq!(read_hyphenated("4b84d962-ff55-4913-94fa-b20db7e1d2d\u{142}"), None);
    assert_eq!(read_hyphenated(""), None);
}

#[test]
fn store_changeset_names_the_file_and_fills_it() {
    let changeset =
        Changeset { uuid: root_uuid(), parent: root_uuid(), timestamp: 1000, entries: vec![] };
    let (file_name, content) = store_changeset("admin6", &changeset);
    assert_eq!(file_name, ".changesets/admin6/4b84d962-ff55-4913-94fa-b20db7e1d2da-1000.chgset");
    assert!(content.len() > 0);
    assert_eq!(store_report(file_name.clone(), Some(content.len())).1, content.len());
    assert_eq!(Some(content.clone()), pack_changeset(&changeset));
    assert_eq!(unpack_changeset(&content), Some(changeset));
}

#[test]
fn packing_gives_the_same_stream_for_the_same_changeset() {
    let changeset = origin_changeset();
    let first = pack_changeset(&changeset).unwrap();
    let second = pack_changeset(&changeset.clone()).unwrap();
    assert_eq!(first, second);
    assert_eq!(store_changeset("u", &changeset).1, first);
    assert!(first.len() < encode_changeset(&changeset).len());
}

#[test]
fn read_changeset_says_whether_the_file_was_intact() {
    let changeset = origin_changeset();
    let content = pack_changeset(&changeset).unwrap();
    assert_eq!(read_changeset(&content), (changeset, true));
    assert_eq!(read_changeset(b"garbage"), (invalid_changeset(), false));
    assert_eq!(read_changeset(&[]), (invalid_changeset(), false));
}

#[test]
fn uuid_bytes_stand_highest_first() {
    let id = 0x0123_4567_89ab_cdef_fedc_ba98_7654_3210u128;
    assert_eq!(bytes_of_uuid(id), id.to_be_bytes().to_vec());
    assert_eq!(uuid_from_bytes(&id.to_be_bytes().to_vec()), id);
    assert_eq!(bytes_of_uuid(root_uuid())[..4], [0x4b, 0x84, 0xd9, 0x62]);
    for _ in 0..50 {
        let id = uuid::Uuid::new_v4();
        assert_eq!(bytes_of_uuid(id.as_u128()), id.as_bytes().to_vec());
        assert_eq!(uuid_from_bytes(&id.as_bytes().to_vec()), id.as_u128());
    }
    assert_eq!(uuid_from_bytes(&bytes_of_uuid(u128::MAX)), u128::MAX);
    assert_eq!(uuid_from_bytes(&bytes_of_uuid(0)), 0);
}
