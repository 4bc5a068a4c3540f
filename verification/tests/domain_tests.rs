use hosting_audit::domain::{
    begin_domain, finish_domain, probe_url, record_probe, resolve_domain, ProbeResult, Protocol,
};
use hosting_audit::process::{
    process_domain, process_file, retain_content, FileMetadata, FileSample, ProcessError,
};
use hosting_audit::structs::{AccountType, DomainEntry, FileEntry, Owner};
use hosting_audit::utils::sha1_of;

fn sample(content: &[u8]) -> FileSample {
    FileSample {
        metadata: Some(FileMetadata { uid: 1001, gid: 1002, size: 123, mode: 0o711, mtime: 1_000 }),
        content: Some(content.to_vec()),
        owner_name: Some(String::from("alice")),
        superuser_name: String::from("root"),
        now: 1_500,
    }
}

#[test]
fn regex_group_domain_extractor_test() {
    let domain_correct = vec![
        "/home/user/domains/domain.tld.my.pl/public_html/file.php",
        "/home/user2/domains/domena.pl/public_html/index.html",
    ];
    let correct_results = vec!["domain.tld.my.pl", "domena.pl"];
    for (file, res) in domain_correct.iter().zip(correct_results.iter()) {
        let entry = FileEntry {
            owner: Owner {
                origin: String::new(),
                name: String::from("root"),
                account_type: AccountType::Admin,
                ..Default::default()
            },
            path: file.to_string(),
            size: 123,
            mode: 0o711 as u32,
            modified: 1,
            encoding: "UTF-8".to_string(),
            ..Default::default()
        };
        let domain_from_path = regex::Regex::new(r".*/domains/(.*)/public_html/.*").unwrap();
        for captures in domain_from_path.captures_iter(entry.path.as_str()) {
            assert!(captures.get(1).unwrap().as_str() == res.to_string());
        }
        let (domain, _) = resolve_domain(entry.path.as_str()).unwrap();
        assert!(domain == res.to_string());
    }
}

#[test]
fn resolve_domain_gives_domain_and_request_path() {
    assert_eq!(
        resolve_domain("/home/user/domains/domain.tld.my.pl/public_html/file.php"),
        Some((String::from("domain.tld.my.pl"), String::from("/file.php")))
    );
    assert_eq!(
        resolve_domain("/home/user2/domains/domena.pl/public_html/index.html"),
        Some((String::from("domena.pl"), String::from("/index.html")))
    );
    assert_eq!(
        resolve_domain("/home/u/domains/a.b/public_html/"),
        Some((String::from("a.b"), String::from("/")))
    );
    assert_eq!(
        resolve_domain("/home/u/domains/a.b/public_html/x/y/z.txt"),
        Some((String::from("a.b"), String::from("/x/y/z.txt")))
    );
}

#[test]
fn resolve_domain_suppresses_reserved_names() {
    for reserved in ["", "sharedip", "default", "suspended"] {
        let path = format!("/home/user/domains/{}/public_html/index.php", reserved);
        assert_eq!(resolve_domain(&path), None, "{}", path);
    }
    assert!(resolve_domain("/home/user/domains/defaults/public_html/index.php").is_some());
}

#[test]
fn resolve_domain_needs_both_markers_in_order() {
    assert_eq!(resolve_domain(""), None);
    assert_eq!(resolve_domain("/home/user/file.php"), None);
    assert_eq!(resolve_domain("/home/user/domains/a.pl/file.php"), None);
    assert_eq!(resolve_domain("/home/user/public_html/domains/a.pl"), None);
    assert_eq!(resolve_domain("/home/user/domains/a.pl/public_html"), None);
}

#[test]
fn resolve_domain_takes_the_first_public_html_of_two() {
    let path = "/home/u/domains/a.pl/public_html/b/public_html/c.php";
    assert_eq!(
        resolve_domain(path),
        Some((String::from("a.pl"), String::from("/b/public_html/c.php")))
    );
    // a greedy pattern over the same path takes the last of the two
    let greedy = regex::Regex::new(r".*/domains/(.*)/public_html/.*").unwrap();
    assert_eq!(greedy.captures(path).unwrap().get(1).unwrap().as_str(), "a.pl/public_html/b");
}

#[test]
fn resolve_domain_takes_the_nearest_domains_of_two() {
    let path = "/home/domains/u/domains/x.pl/public_html/f.php";
    assert_eq!(resolve_domain(path), Some((String::from("x.pl"), String::from("/f.php"))));
    let reserved = "/home/user/domains/domains/sharedip/public_html/index.html";
    assert_eq!(resolve_domain(reserved), None);
    let doubled = "/home/user/domains/domains/public_html/index.html";
    assert_eq!(
        resolve_domain(doubled),
        Some((String::from("domains"), String::from("/index.html")))
    );
    assert_eq!(resolve_domain("/home/user/domains/domains//public_html/index.html"), None);
    assert_eq!(
        resolve_domain("/home/user/domains/domains/a.pl/public_html/index.html"),
        Some((String::from("a.pl"), String::from("/index.html")))
    );
    // the pattern `.*/domains/(.*)/public_html/.*` captures the same names
    let pattern = regex::Regex::new(r".*/domains/(.*)/public_html/.*").unwrap();
    assert_eq!(pattern.captures(path).unwrap().get(1).unwrap().as_str(), "x.pl");
    assert_eq!(pattern.captures(reserved).unwrap().get(1).unwrap().as_str(), "sharedip");
    assert_eq!(pattern.captures(doubled).unwrap().get(1).unwrap().as_str(), "domains");
}

#[test]
fn resolve_domain_takes_the_first_shape_of_two() {
    assert_eq!(
        resolve_domain("/a/domains/x.pl/public_html/b/domains/y.pl/public_html/c"),
        Some((String::from("x.pl"), String::from("/b/domains/y.pl/public_html/c")))
    );
    assert_eq!(
        resolve_domain("/a/public_html/b/domains/y.pl/public_html/c"),
        Some((String::from("y.pl"), String::from("/c")))
    );
}

#[test]
fn reserved_names_give_nothing_behind_any_prefix() {
    let failure = ProbeResult::TransportError;
    for prefix in ["", "/home/user", "/home/user/domains", "/home/public_html", "/domains"] {
        for name in ["", "sharedip", "default", "suspended"] {
            for rest in ["", "index.html", "a/public_html/b", "x/domains/y.pl/public_html/z"] {
                let path = format!("{}/domains/{}/public_html/{}", prefix, name, rest);
                assert_eq!(resolve_domain(&path), None, "{}", path);
                let file = process_file(&path, sample(b"x"));
                assert!(process_domain(file, &failure, &failure).is_none(), "{}", path);
            }
        }
        let path = format!("{}/domains/a.pl/public_html/index.html", prefix);
        assert_eq!(
            resolve_domain(&path),
            Some((String::from("a.pl"), String::from("/index.html"))),
            "{}",
            path
        );
    }
}

#[test]
fn probe_url_joins_scheme_domain_and_path() {
    assert_eq!(probe_url(Protocol::Http, "domena.pl", "/index.html"), "http://domena.pl/index.html");
    assert_eq!(probe_url(Protocol::Https, "a.b", "/"), "https://a.b/");
}

#[test]
fn probe_fallback_statuses() {
    let mut entry = DomainEntry::default();
    entry.http_content_size = 7;
    entry.https_content_size = 9;
    record_probe(&mut entry, Protocol::Http, &ProbeResult::UnresolvedHost);
    assert_eq!(entry.http_status_code, 410);
    assert_eq!(entry.http_content_size, 0);
    assert_eq!(entry.https_status_code, 0);
    assert_eq!(entry.https_content_size, 9);
    record_probe(&mut entry, Protocol::Https, &ProbeResult::TransportError);
    assert_eq!(entry.https_status_code, 404);
    assert_eq!(entry.https_content_size, 0);
    assert_eq!(entry.http_status_code, 410);
    record_probe(&mut entry, Protocol::Http, &ProbeResult::TransportError);
    assert_eq!(entry.http_status_code, 404);
    record_probe(&mut entry, Protocol::Https, &ProbeResult::UnresolvedHost);
    assert_eq!(entry.https_status_code, 410);
}

#[test]
fn probe_response_fills_the_protocol_fields() {
    let mut entry = DomainEntry::default();
    let response = ProbeResult::Response {
        status_code: 200,
        body: b"<html><body><h1>Hi</h1>\n there</body></html>".to_vec(),
        elapsed_ns: 12_999_999,
    };
    record_probe(&mut entry, Protocol::Https, &response);
    assert_eq!(entry.https_content, "Hi there");
    assert_eq!(entry.https_content_size, 8);
    assert_eq!(entry.https_status_code, 200);
    assert_eq!(entry.https_response_time, 12);
    assert_eq!(entry.https_content_encoding, "");
    assert_eq!(entry.http_content, "");
    assert_eq!(entry.http_status_code, 0);
    assert_eq!(entry.http_response_time, 0);
}

#[test]
fn process_file_rejects_by_extension_first() {
    let mut bad = sample(b"x");
    bad.metadata = None;
    bad.content = None;
    assert_eq!(process_file("/tmp/f.pyc", bad), Err(ProcessError::InvalidFileType));
    for name in ["file.plo", ".phpa", "file.pshtml", "f.pyc", "f.pod"] {
        assert_eq!(process_file(name, sample(b"x")), Err(ProcessError::InvalidFileType));
    }
    for name in ["a.txt", "file.html", "exym.pl", "a.latex", "file.pm", "SOMENOEXTFILE"] {
        assert!(process_file(name, sample(b"x")).is_ok(), "{}", name);
    }
}

#[test]
fn process_file_gates_by_the_name_of_the_file() {
    let dotted = "/home/u/domains/domena.pl/public_html/";
    for name in ["a.txt", "file.html", "exym.pl", "a.latex", "file.pm", "SOMENOEXTFILE"] {
        assert!(process_file(&format!("{}{}", dotted, name), sample(b"x")).is_ok(), "{}", name);
    }
    for name in ["file.plo", ".phpa", "file.pshtml", "f.pyc"] {
        assert_eq!(
            process_file(&format!("{}{}", dotted, name), sample(b"x")),
            Err(ProcessError::InvalidFileType)
        );
    }
    assert!(process_file("/home/u/a.txt/README", sample(b"x")).is_ok());
    assert_eq!(process_file("/home/u/readme/f.pyc", sample(b"x")), Err(ProcessError::InvalidFileType));
}

#[test]
fn process_file_reports_missing_metadata_and_content() {
    let mut no_metadata = sample(b"x");
    no_metadata.metadata = None;
    no_metadata.content = None;
    assert_eq!(process_file("a.txt", no_metadata), Err(ProcessError::MetadataReadError));
    let mut no_content = sample(b"x");
    no_content.content = None;
    assert_eq!(process_file("a.txt", no_content), Err(ProcessError::ReadError));
}

#[test]
fn process_file_fingerprints_the_sample() {
    let content = b"<p>Young Amadeus went a dry road.</p>\r\nYoung Amadeus went a dry road.";
    let entry = process_file("/home/u/domains/a.pl/public_html/a.txt", sample(content)).unwrap();
    assert_eq!(entry.path, "/home/u/domains/a.pl/public_html/a.txt");
    assert_eq!(entry.encoding, "ascii");
    assert_eq!(entry.lang, "en");
    let sanitized = "Young Amadeus went a dry road.Young Amadeus went a dry road.";
    assert_eq!(entry.sha1, sha1_of(String::from(sanitized)));
    assert_eq!(entry.owner.name, "alice");
    assert_eq!(entry.owner.account_type, AccountType::Regular);
    assert_eq!(entry.owner.origin, "");
    assert_eq!((entry.owner.uid, entry.owner.gid), (1001, 1002));
    assert_eq!(entry.size, 123);
    assert_eq!(entry.mode, 0o711);
    assert_eq!(entry.modified, 500);
    let kept: Vec<u8> = content.iter().copied().filter(|b| *b != b'\r' && *b != b'\n').collect();
    assert_eq!(entry.local_content, kept);
}

#[test]
fn process_file_falls_back_to_the_superuser() {
    let mut orphan = sample(b"text");
    orphan.owner_name = None;
    let entry = process_file("notes", orphan).unwrap();
    assert_eq!(entry.owner.name, "root");
    assert_eq!(entry.owner.uid, 1001);
}

#[test]
fn process_file_reads_no_more_than_the_budget() {
    let content = vec![b'a'; 70_000];
    let entry = process_file("big.txt", sample(&content)).unwrap();
    assert_eq!(entry.local_content.len(), 65_535);
}

#[test]
fn process_file_age_wraps() {
    let mut odd = sample(b"text");
    odd.now = i64::MIN;
    odd.metadata = Some(FileMetadata { uid: 0, gid: 0, size: 0, mode: 0, mtime: 1 });
    assert_eq!(process_file("a.txt", odd).unwrap().modified, i64::MAX);
}

#[test]
fn retain_content_drops_low_control_bytes() {
    let bytes: Vec<u8> = (0u8..=20).collect();
    assert_eq!(retain_content(&bytes), vec![14, 15, 16, 17, 18, 19, 20]);
    assert_eq!(retain_content(&b"a\tb\nc\rd".to_vec()), b"abcd".to_vec());
}

#[test]
fn process_domain_merges_both_probes() {
    let file = process_file("/home/u/domains/domena.pl/public_html/index.php", sample(b"<?php"));
    let http = ProbeResult::Response { status_code: 301, body: b"moved".to_vec(), elapsed_ns: 2_000_000 };
    let entry = process_domain(file, &http, &ProbeResult::UnresolvedHost).unwrap();
    assert_eq!(entry.name, "domena.pl");
    assert_eq!(entry.request_path, "/index.php");
    assert_eq!(entry.file.path, "/home/u/domains/domena.pl/public_html/index.php");
    assert_eq!(entry.http_content, "moved");
    assert_eq!(entry.http_content_size, 5);
    assert_eq!(entry.http_status_code, 301);
    assert_eq!(entry.http_response_time, 2);
    assert_eq!(entry.https_content, "");
    assert_eq!(entry.https_content_size, 0);
    assert_eq!(entry.https_status_code, 410);
}

#[test]
fn process_domain_gives_nothing_without_a_domain_or_a_file() {
    let failure = ProbeResult::TransportError;
    let off_convention = process_file("/tmp/index.php", sample(b"x"));
    assert!(process_domain(off_convention, &failure, &failure).is_none());
    let reserved = process_file("/home/u/domains/default/public_html/index.php", sample(b"x"));
    assert!(process_domain(reserved, &failure, &failure).is_none());
    assert!(process_domain(Err(ProcessError::ReadError), &failure, &failure).is_none());
    assert!(process_domain(Err(ProcessError::InvalidFileType), &failure, &failure).is_none());
}

#[test]
fn begin_domain_names_both_addresses() {
    let file = process_file("/home/u/domains/domena.pl/public_html/a/b.html", sample(b"x")).unwrap();
    let pending = begin_domain(file.clone()).unwrap();
    assert_eq!(pending.http_url, "http://domena.pl/a/b.html");
    assert_eq!(pending.https_url, "https://domena.pl/a/b.html");
    assert_eq!(pending.entry.file, file);
    let entry = finish_domain(pending, &ProbeResult::TransportError, &ProbeResult::TransportError);
    assert_eq!((entry.http_status_code, entry.https_status_code), (404, 404));
    assert_eq!(entry.name, "domena.pl");
}
