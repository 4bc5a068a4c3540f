use hosting_audit::base::{invalid_changeset, root_invalid_uuid, root_uuid};
use hosting_audit::history::{all_changesets_json, mostrecent_changeset_json};
use hosting_audit::store::{read_changeset_json, restore_changeset_json, store_changeset_json};
use hosting_audit::structs::{AccountType, Changeset, DomainEntry, FileEntry, Owner};
use rustc_serialize::json::Json;

#[test]
fn owner_to_json() {
    let owner = Owner {
        name: String::from("admin6"),
        account_type: AccountType::Reseller,
        origin: String::from("S0"),
        uid: 1000,
        gid: 4_294_967_295,
    };
    assert_eq!(
        owner.to_json(),
        "{\"name\":\"admin6\",\"account_type\":\"Reseller\",\"origin\":\"S0\",\"uid\":1000,\"gid\":4294967295}"
    );
    assert_eq!(
        Owner::default().to_json(),
        "{\"name\":\"\",\"account_type\":\"Regular\",\"origin\":\"\",\"uid\":0,\"gid\":0}"
    );
}

#[test]
fn file_entry_to_json() {
    let file = FileEntry {
        path: String::from("/tmp/a \"b\"\\c"),
        size: -12,
        modified: i64::MIN,
        mode: 0o644,
        local_content: vec![60, 63, 255],
        ..Default::default()
    };
    assert_eq!(
        file.to_json(),
        "{\"path\":\"/tmp/a \\\"b\\\"\\\\c\",\"sha1\":\"\",\"lang\":\"\",\"encoding\":\"\",\
         \"owner\":{\"name\":\"root\",\"account_type\":\"Admin\",\"origin\":\"S0\",\"uid\":0,\"gid\":0},\
         \"size\":-12,\"mode\":420,\"modified\":-9223372036854775808,\"local_content\":[60,63,255]}"
    );
    assert!(FileEntry::default().to_json().ends_with(",\"local_content\":[]}"));
}

#[test]
fn json_strings_escape_control_characters() {
    let owner = Owner { name: String::from("a\u{8}\t\n\u{c}\r\u{0}\u{1f}\u{7f}\u{142}z"), ..Default::default() };
    let text = owner.to_json();
    assert!(text.starts_with("{\"name\":\"a\\b\\t\\n\\f\\r\\u0000\\u001f\\u007f\u{142}z\","), "{}", text);
    let parsed = Json::from_str(&text).unwrap();
    assert_eq!(parsed.find("name").unwrap().as_string().unwrap(), owner.name);
}

#[test]
fn domain_entry_to_json_names_every_field_in_order() {
    let text = DomainEntry::default().to_json();
    let keys = [
        "\"name\":\"localhost\"", "\"request_path\":\"/\"", "\"file\":{", "\"http_content\":\"\"",
        "\"http_content_encoding\":\"\"", "\"http_content_size\":0", "\"http_status_code\":0",
        "\"http_response_time\":0", "\"https_content\":\"\"", "\"https_content_encoding\":\"\"",
        "\"https_content_size\":0", "\"https_status_code\":0", "\"https_response_time\":0}",
    ];
    let mut from = 0;
    for key in keys {
        let at = text[from..].find(key).unwrap_or_else(|| panic!("{} is missing in {}", key, text));
        from += at + key.len();
    }
    assert_eq!(from, text.len());
}

#[test]
fn changeset_to_json_is_json() {
    let changeset = Changeset {
        uuid: 0x4b84d962_ff55_4913_94fa_b20db7e1d2da,
        parent: root_uuid(),
        timestamp: 1_458_831_602_123,
        entries: vec![
            DomainEntry { name: String::from("a.pl"), http_status_code: 200, ..Default::default() },
            DomainEntry { name: String::from("b.pl"), https_status_code: 410, ..Default::default() },
        ],
    };
    let text = changeset.to_json();
    let parsed = Json::from_str(&text).unwrap();
    assert_eq!(
        parsed.find("uuid").unwrap().as_string(),
        Some("4b84d962-ff55-4913-94fa-b20db7e1d2da")
    );
    assert_eq!(parsed.find("timestamp").unwrap().as_u64(), Some(1_458_831_602_123));
    let entries = parsed.find("entries").unwrap().as_array().unwrap();
    assert_eq!(entries.len(), 2);
    assert_eq!(entries[0].find("name").unwrap().as_string(), Some("a.pl"));
    assert_eq!(entries[1].find("https_status_code").unwrap().as_u64(), Some(410));
    assert_eq!(
        entries[1].find_path(&["file", "owner", "account_type"]).unwrap().as_string(),
        Some("Admin")
    );
    let empty = Changeset { uuid: 0, parent: 0, timestamp: 0, entries: Vec::new() };
    assert_eq!(
        empty.to_json(),
        "{\"uuid\":\"00000000-0000-0000-0000-000000000000\",\
         \"parent\":\"00000000-0000-0000-0000-000000000000\",\"timestamp\":0,\"entries\":[]}"
    );
}

#[test]
fn store_changeset_json_names_the_file_and_holds_the_text() {
    let changeset = Changeset { uuid: 5, parent: root_uuid(), timestamp: 9, entries: Vec::new() };
    let (name, text) = store_changeset_json("admin6", &changeset);
    assert_eq!(name, ".changesets/admin6/00000000-0000-0000-0000-000000000005-9.chgset.json");
    assert_eq!(text, changeset.to_json());
}

fn sample_changeset(uuid: u128, timestamp: u64) -> Changeset {
    Changeset {
        uuid,
        parent: root_uuid(),
        timestamp,
        entries: vec![
            DomainEntry {
                name: String::from("domena.pl"),
                request_path: String::from("/index.php"),
                file: FileEntry {
                    path: String::from("/home/u/domains/domena.pl/public_html/index.php"),
                    sha1: String::from("da39a3ee5e6b4b0d3255bfef95601890afd80709"),
                    lang: String::from("pl"),
                    encoding: String::from("windows-1250"),
                    owner: Owner {
                        name: String::from("u\"\\\u{1}"),
                        account_type: AccountType::Managed,
                        origin: String::from("S1"),
                        uid: 1001,
                        gid: u32::MAX,
                    },
                    size: i64::MIN,
                    mode: 0o100644,
                    modified: i64::MAX,
                    local_content: vec![0, 9, 10, 13, 14, 127, 255],
                },
                http_content: String::from("line\n\ttab \u{142}\u{1f600} \u{7f}"),
                http_content_encoding: String::new(),
                http_content_size: usize::MAX,
                http_status_code: 200,
                http_response_time: u64::MAX,
                https_content: String::new(),
                https_content_encoding: String::new(),
                https_content_size: 0,
                https_status_code: 410,
                https_response_time: 0,
            },
            DomainEntry::default(),
            DomainEntry { name: String::from("third"), ..Default::default() },
        ],
    }
}

#[test]
fn store_restore_changesets_json_test() {
    let user = "admin6";
    let older = sample_changeset(uuid::Uuid::new_v4().as_u128(), 1_458_831_602_123);
    let newer = sample_changeset(uuid::Uuid::new_v4().as_u128(), 1_458_831_603_234);
    let files = vec![store_changeset_json(user, &newer).1, store_changeset_json(user, &older).1];
    let all = all_changesets_json(&files);
    assert!(all.len() > 0, "Changeset dir empty for user: {}?", user);
    let most_recent = mostrecent_changeset_json(&files);
    assert!(most_recent.timestamp > 10000000, "Timestamp is too small?");
    assert!(most_recent.parent == root_uuid() || most_recent.parent == root_invalid_uuid());
    assert_eq!(all, vec![older, newer.clone()]);
    assert_eq!(most_recent, newer);
}

#[test]
fn json_round_trip_keeps_every_field() {
    let changeset = sample_changeset(u128::MAX, u64::MAX);
    let text = changeset.to_json();
    assert_eq!(Changeset::from_json(&text), Some(changeset.clone()));
    assert_eq!(restore_changeset_json(&text), changeset);
    let empty = Changeset { uuid: 0, parent: 0, timestamp: 0, entries: Vec::new() };
    assert_eq!(Changeset::from_json(&empty.to_json()), Some(empty));
    let one = Changeset { entries: vec![DomainEntry::default()], ..sample_changeset(1, 2) };
    assert_eq!(Changeset::from_json(&one.to_json()), Some(one));
}

#[test]
fn from_json_rejects_what_is_no_inspection_form() {
    let text = sample_changeset(7, 8).to_json();
    assert_eq!(Changeset::from_json(""), None);
    assert_eq!(Changeset::from_json("{}"), None);
    assert_eq!(Changeset::from_json(&format!("{} ", text)), None);
    assert_eq!(Changeset::from_json(&format!(" {}", text)), None);
    assert_eq!(Changeset::from_json(&text.replace("\"timestamp\":8", "\"timestamp\":08")), None);
    assert_eq!(Changeset::from_json(&text.replace("\"timestamp\":8", "\"timestamp\":-8")), None);
    assert_eq!(
        Changeset::from_json(&text.replace("\"timestamp\":8", "\"timestamp\":18446744073709551616")),
        None
    );
    assert_eq!(Changeset::from_json(&text.replace("Managed", "Unknown")), None);
    assert_eq!(Changeset::from_json(&text.replace("[0,9,", "[0,256,")), None);
    assert_eq!(Changeset::from_json(&text.replace("\"uid\":1001", "\"uid\":4294967296")), None);
    assert_eq!(Changeset::from_json(&text.replace("\"uuid\":\"0000", "\"uuid\":\"000g")), None);
    assert_eq!(Changeset::from_json(&text.replace("\\u0001", "\\u0041")), None);
    assert_eq!(Changeset::from_json(&text.replace("\\u0001", "\\x01")), None);
    for cut in 0..text.len() {
        if text.is_char_boundary(cut) {
            assert_eq!(Changeset::from_json(&text[..cut]), None, "cut at {}", cut);
        }
    }
    assert!(Changeset::from_json(&text).is_some());
}

#[test]
fn from_json_reads_the_limits_of_numbers() {
    let text = sample_changeset(7, 8).to_json();
    let low = text.replace("\"size\":-9223372036854775808", "\"size\":-9223372036854775809");
    assert_eq!(Changeset::from_json(&low), None);
    let high = text.replace("\"modified\":9223372036854775807", "\"modified\":9223372036854775808");
    assert_eq!(Changeset::from_json(&high), None);
    let zero = text.replace("\"modified\":9223372036854775807", "\"modified\":-0");
    assert_eq!(Changeset::from_json(&zero), None);
    let small = text.replace("\"modified\":9223372036854775807", "\"modified\":-1");
    assert_eq!(Changeset::from_json(&small).unwrap().entries[0].file.modified, -1);
}

#[test]
fn corrupt_json_file_stands_as_the_invalid_changeset() {
    let good = sample_changeset(3, 1_458_831_602_123);
    let files = vec![String::from("{\"uuid\":"), good.to_json(), String::new()];
    let all = all_changesets_json(&files);
    assert_eq!(all, vec![invalid_changeset(), invalid_changeset(), good.clone()]);
    assert_eq!(mostrecent_changeset_json(&files), good);
    assert_eq!(mostrecent_changeset_json(&Vec::new()), invalid_changeset());
}

#[test]
fn read_changeset_json_says_whether_the_text_was_intact() {
    let changeset = sample_changeset(3, 4);
    assert_eq!(read_changeset_json(&changeset.to_json()), (changeset, true));
    assert_eq!(read_changeset_json("{}"), (invalid_changeset(), false));
}
