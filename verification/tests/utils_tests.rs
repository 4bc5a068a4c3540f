use hosting_audit::extension::{file_name_of, valid_file_extensions, valid_file_path};
use hosting_audit::utils::{
    candidate_names, detect_encoding, language_code, read_fragment, recognize_language,
    sha1_of, strip_html_tags, strip_html_tags_slice,
};

#[test]
fn valid_file_extensions_test() {
    for valid in vec![
        "somestrange123.file.php", ".htm", "a.txt", "file.html", "file.htm4",
        "exym.pl", "404.shtml", "album.rss", "a.ps", "a.latex", "mr.tex",
        "somefile", "SOMENOEXTFILE", "A", "a.php.txt.svg.xml.html.pl", "file.pm",
    ] {
        assert!(valid_file_extensions(valid), "{}", valid);
    }
    for invalid in vec!["file.plo", ".phpa", "file.pshtml", "f.pyc", "f.pod"] {
        assert!(!valid_file_extensions(invalid), "{}", invalid);
    }
}

#[test]
fn strip_html_tags_slice_test() {
    let a = "some skdnfdsfk<html><meta></meta><body></body></html> js\n\n\n\n\n\n\nn\\t\t\t\t\t\t\t\t\t\t\t aaaa bbbb cccc";
    let b = a.as_bytes();
    assert!(
        strip_html_tags_slice(b) == String::from("some skdnfdsfk jsn\\t aaaa bbbb cccc"),
        "Found {}",
        strip_html_tags_slice(b)
    );
}

#[test]
fn strip_html_tags_agrees_with_the_slice_form() {
    let raw = b"<p>one</p>\r\n<b>two</b>\tthree".to_vec();
    assert_eq!(strip_html_tags(&raw), "onetwothree");
    assert_eq!(strip_html_tags(&raw), strip_html_tags_slice(&raw));
}

#[test]
fn sha1_of_known_digests() {
    assert_eq!(sha1_of(String::new()), "da39a3ee5e6b4b0d3255bfef95601890afd80709");
    assert_eq!(sha1_of(String::from("hello world")), "2aae6c35c94fcfb415dbe95f408b9ce91ee846ed");
    assert_eq!(sha1_of(String::from("abc")), "a9993e364706816aba3e25717850c26c9cd0d89d");
}

#[test]
fn detect_encoding_prefers_ascii() {
    assert_eq!(detect_encoding(&b"plain text".to_vec()), Some(String::from("ascii")));
    assert_eq!(detect_encoding(&Vec::new()), Some(String::from("ascii")));
}

#[test]
fn detect_encoding_takes_the_next_candidate_for_high_bytes() {
    let polish = "M\u{142}ody".as_bytes().to_vec();
    assert_eq!(detect_encoding(&polish), Some(String::from("windows-1250")));
    assert_eq!(detect_encoding(&vec![0xff, 0xfe, 0x81]), Some(String::from("windows-1250")));
}

#[test]
fn read_fragment_stops_at_the_budget() {
    let content: Vec<u8> = (0u8..10).collect();
    assert_eq!(read_fragment(&content, 4), vec![0, 1, 2, 3]);
    assert_eq!(read_fragment(&content, 10), content);
    assert_eq!(read_fragment(&content, 65535), content);
    assert_eq!(read_fragment(&content, 0), Vec::<u8>::new());
}

#[test]
fn language_detection_test() {
    let texts = vec![
        "M\u{142}ody Amadeusz szed\u{142} such\u{105} szos\u{105}.",
        "Mlad\u{fd} Amadeusz i\u{161}iel suchej ceste.",
        "Young Amadeus went a dry road.",
    ];
    let expected = vec!["pl", "sk", "en"];
    for (text, res) in texts.iter().zip(expected.iter()) {
        match recognize_language(text) {
            Some(lang) => assert!(lang.to_string() == res.to_string()),
            _ => assert!(1 == 0, "Language not recognized properly!"),
        }
        assert!(language_code(text) == res.to_string());
    }
}

#[test]
fn language_detection_defaults_to_english() {
    assert_eq!(recognize_language(""), None);
    assert_eq!(language_code(""), "en");
    assert_eq!(recognize_language("1234567890"), None);
    assert_eq!(language_code("1234567890"), "en");
}

#[test]
fn valid_file_extensions_agrees_with_the_pattern() {
    let pattern = regex::Regex::new(
        r"\.(php[0-9]*|[s]?htm[l0-9]*|txt|inc|py|pl|pm|rb|sh|[xyua]ml|htaccess|rss|[s]?css|js|mo|po|ini|ps|l?a?tex|svg)$",
    )
    .unwrap();
    let stems = ["", "a", "a.b", ".", "x.php", "dir/file", "a.tar"];
    let tails = [
        "", ".", ".php", ".php5", ".php55", ".phpx", ".php5x", ".htm", ".html", ".shtml", ".htm4",
        ".htmll9", ".shtm", ".sshtml", ".htmx", ".txt", ".txtx", ".inc", ".py", ".pyc", ".pl",
        ".plo", ".pm", ".rb", ".sh", ".xml", ".yml", ".uml", ".aml", ".bml", ".ml", ".htaccess",
        ".rss", ".css", ".scss", ".sscss", ".js", ".jsx", ".mo", ".po", ".ini", ".ps", ".tex",
        ".latex", ".ltex", ".atex", ".alatex", ".svg", ".svgz", ".PHP", ".php\n", ".ph",
    ];
    for stem in stems {
        for tail in tails {
            let name = format!("{}{}", stem, tail);
            let expected = pattern.is_match(&name) || !name.contains(".");
            assert_eq!(valid_file_extensions(&name), expected, "{:?}", name);
        }
    }
}

#[test]
fn candidate_encodings_are_tried_in_the_documented_order() {
    let expected = [
        "ascii", "windows-1250", "utf-8", "utf-16le", "utf-16be", "iso-8859-1", "iso-8859-2",
        "iso-8859-3", "iso-8859-4", "iso-8859-5", "iso-8859-6", "iso-8859-7", "iso-8859-8",
        "iso-8859-10", "iso-8859-13", "iso-8859-14", "iso-8859-15", "iso-8859-16", "koi8-r",
        "koi8-u", "mac-roman", "windows-874", "windows-949", "windows-1251", "windows-1252",
        "windows-1253", "windows-1254", "windows-1255", "windows-1256", "windows-1257",
        "windows-1258",
    ];
    let names: Vec<String> = candidate_names().into_iter().map(|name| name.unwrap()).collect();
    assert_eq!(names, expected);
}

#[test]
fn detect_encoding_agrees_with_the_crate() {
    let samples: Vec<Vec<u8>> = vec![
        b"abc".to_vec(),
        vec![0x80],
        vec![0xc5, 0x82],
        vec![0xff, 0xfe, 0x00, 0x41],
        (0u8..=255).collect(),
    ];
    let candidates: Vec<encoding::EncodingRef> = vec![
        encoding::all::ASCII,
        encoding::all::WINDOWS_1250,
        encoding::all::UTF_8,
    ];
    for sample in samples {
        let expected = candidates
            .iter()
            .find(|e| e.decode(&sample, encoding::DecoderTrap::Strict).is_ok())
            .map(|e| e.name().to_string());
        assert_eq!(detect_encoding(&sample), expected, "{:?}", sample);
    }
}

#[test]
fn file_name_is_what_follows_the_last_slash() {
    assert_eq!(file_name_of("/home/u/domains/a.pl/public_html/index.php"), "index.php");
    assert_eq!(file_name_of("index.php"), "index.php");
    assert_eq!(file_name_of("/home/u/"), "");
    assert_eq!(file_name_of(""), "");
    assert_eq!(file_name_of("/"), "");
    assert_eq!(file_name_of("a/b"), "b");
    assert!(valid_file_path("/home/u/domains/a.pl/public_html/README"));
    assert!(valid_file_path("/home/u/domains/a.pl/public_html/index.php5"));
    assert!(!valid_file_path("/home/u/domains/a.pl/public_html/index.pyc"));
    assert!(!valid_file_path("/home/u/index.php/archive.zip"));
}

#[test]
fn sanitizer_reads_valid_utf8_as_it_is_and_replaces_the_rest() {
    assert_eq!(strip_html_tags_slice("za\u{17c}\u{f3}\u{142}\u{107}".as_bytes()), "za\u{17c}\u{f3}\u{142}\u{107}");
    assert_eq!(strip_html_tags_slice(&[b'a', 0xff, b'b']), "a\u{fffd}b");
}
