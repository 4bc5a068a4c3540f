//! Sanitizing, hashing, encoding detection and language detection of content samples.

use vstd::prelude::*;
use vstd::string::StringSliceAdditionalSpecFns;
use vstd::utf8::{decode_utf8, valid_utf8};
use crate::text::{chars_of, hex_text, push_char, to_hex};

verus! {

/// The 20 bytes of the SHA-1 digest of `data`, as the `sha1` crate computes it.
pub uninterp spec fn sha1_digest(data: Seq<u8>) -> Seq<u8>;

/// The text that `String::from_utf8_lossy` of std makes of `bytes`.
pub uninterp spec fn lossy_text(bytes: Seq<u8>) -> Seq<char>;

/// What `ammonia` leaves of `text` when no markup tag at all is allowed to stay.
pub uninterp spec fn markup_stripped(text: Seq<char>) -> Seq<char>;

/// The name of the encoding at `position` of the `encoding` crate's catalogue, if there is
/// one there and it decodes `bytes` without a single error.
pub uninterp spec fn strict_decoding(position: int, bytes: Seq<u8>) -> Option<Seq<char>>;

/// What `cld2` makes of `text` read as plain text: the code of the language it detects, if
/// it detects one, and whether it calls its guess reliable.
pub uninterp spec fn language_guess(text: Seq<char>) -> (Option<Seq<char>>, bool);

/// `Sha1::digest` of the `sha1` crate: the result is the SHA-1 digest of `data`, which has
/// 20 bytes.
#[verifier::external_body]
fn sha1_bytes(data: &[u8]) -> (digest: Vec<u8>)
    ensures
        digest@ == sha1_digest(data@),
        digest@.len() == 20,
{
    <sha1::Sha1 as sha1::Digest>::digest(data).to_vec()
}

/// `String::from_utf8_lossy` of std: the bytes read as UTF-8, with a replacement character
/// in place of every part that is none. Bytes that are valid UTF-8 give the text that
/// they encode.
#[verifier::external_body]
pub(crate) fn utf8_lossy(bytes: &[u8]) -> (text: String)
    ensures
        text@ == lossy_text(bytes@),
        valid_utf8(bytes@) ==> text@ == decode_utf8(bytes@),
{
    String::from_utf8_lossy(bytes).into_owned()
}

/// `Builder::empty().clean(..)` of `ammonia`: the markup is parsed as an HTML fragment and
/// written back with every tag removed.
#[verifier::external_body]
fn strip_markup(text: &str) -> (cleaned: String)
    ensures
        cleaned@ == markup_stripped(text@),
{
    ammonia::Builder::empty().clean(text).to_string()
}

/// `Encoding::decode` of the `encoding` crate with `DecoderTrap::Strict`, on the encoding
/// at `position` of `encoding::all::encodings()`: the encoding's name if the whole input
/// decodes, nothing if it does not or if the catalogue has no such position.
#[verifier::external_body]
fn decode_strictly(position: usize, bytes: &[u8]) -> (name: Option<String>)
    ensures
        match name {
            Some(n) => strict_decoding(position as int, bytes@) == Some(n@),
            None => strict_decoding(position as int, bytes@).is_none(),
        },
{
    match encoding::all::encodings().get(position) {
        Some(enc) => match enc.decode(bytes, encoding::DecoderTrap::Strict) {
            Ok(_) => Some(String::from(enc.name())),
            Err(_) => None,
        },
        None => None,
    }
}

/// `detect_language` of `cld2` with `Format::Text`: the detected language's code and the
/// reliability of the guess. The library hands the text's length on as a C `int`, so the
/// text may be no longer than that.
#[verifier::external_body]
fn guess_language(text: &str) -> (guess: (Option<String>, bool))
    requires
        text.spec_bytes().len() <= i32::MAX,
    ensures
        guess.1 == language_guess(text@).1,
        match guess.0 {
            Some(code) => language_guess(text@).0 == Some(code@),
            None => language_guess(text@).0.is_none(),
        },
{
    let (language, reliability) = cld2::detect_language(text, cld2::Format::Text);
    let code = match language {
        Some(cld2::Lang(code)) => Some(String::from(code)),
        None => None,
    };
    match reliability {
        cld2::Reliability::Reliable => (code, true),
        cld2::Reliability::Unreliable => (code, false),
    }
}

/// The hex form of the SHA-1 digest of a text's UTF-8 bytes.
pub open spec fn sha1_hex(text: Seq<char>) -> Seq<char> {
    hex_text(sha1_digest(vstd::utf8::encode_utf8(text)))
}

/// The SHA-1 digest of `input`, as 40 lower-case hexadecimal digits.
pub fn sha1_of(input: String) -> (digest: String)
    ensures
        digest@ == sha1_hex(input@),
        digest@.len() == 40,
{
    let bytes = sha1_bytes(input.as_str().as_bytes());
    to_hex(bytes.as_slice())
}

/// A line break, tab or carriage return.
pub open spec fn is_break(c: char) -> bool {
    c == '\n' || c == '\t' || c == '\r'
}

/// `text` without its line breaks, tabs and carriage returns.
pub open spec fn without_breaks(text: Seq<char>) -> Seq<char> {
    text.filter(|c: char| !is_break(c))
}

/// Bytes read as text: the text that they encode where they are valid UTF-8, and the text
/// with replacement characters that std makes of them where they are not.
pub open spec fn text_read(bytes: Seq<u8>) -> Seq<char> {
    if valid_utf8(bytes) {
        decode_utf8(bytes)
    } else {
        lossy_text(bytes)
    }
}

/// What the sanitizer makes of raw bytes: read as text, all markup tags stripped, line
/// breaks, tabs and carriage returns removed.
pub open spec fn sanitized(bytes: Seq<u8>) -> Seq<char> {
    without_breaks(markup_stripped(text_read(bytes)))
}

/// `text` without its line breaks, tabs and carriage returns.
pub fn remove_breaks(text: &str) -> (kept: String)
    ensures
        kept@ == without_breaks(text@),
{
    let chars = chars_of(text);
    let mut kept = String::new();
    let ghost pred = |c: char| !is_break(c);
    let mut i: usize = 0;
    while i < chars.len()
        invariant
            i <= chars.len(),
            chars@ == text@,
            pred == |c: char| !is_break(c),
            kept@ == chars@.take(i as int).filter(pred),
        decreases chars.len() - i,
    {
        let c = chars[i];
        proof {
            reveal(Seq::filter);
            assert(chars@.take(i + 1).drop_last() =~= chars@.take(i as int));
        }
        if !(c == '\n' || c == '\t' || c == '\r') {
            push_char(&mut kept, c);
        }
        i += 1;
    }
    proof {
        assert(chars@.take(chars@.len() as int) =~= chars@);
    }
    kept
}

/// Strips markup and whitespace noise from a slice of raw bytes.
pub fn strip_html_tags_slice(binary_content: &[u8]) -> (text: String)
    ensures
        text@ == sanitized(binary_content@),
{
    let decoded = utf8_lossy(binary_content);
    let cleaned = strip_markup(decoded.as_str());
    remove_breaks(cleaned.as_str())
}

/// Strips markup and whitespace noise from raw bytes.
pub fn strip_html_tags(binary_content: &Vec<u8>) -> (text: String)
    ensures
        text@ == sanitized(binary_content@),
{
    strip_html_tags_slice(binary_content.as_slice())
}

/// At most the first `bytes_to_read` bytes of `content`.
pub open spec fn fragment(content: Seq<u8>, bytes_to_read: u64) -> Seq<u8> {
    if content.len() <= bytes_to_read {
        content
    } else {
        content.take(bytes_to_read as int)
    }
}

/// The bounded read: the start of `content`, `bytes_to_read` bytes at most.
pub fn read_fragment(content: &[u8], bytes_to_read: u64) -> (bytes: Vec<u8>)
    ensures
        bytes@ == fragment(content@, bytes_to_read),
{
    let mut bytes: Vec<u8> = Vec::new();
    let mut i: usize = 0;
    while i < content.len() && (i as u64) < bytes_to_read
        invariant
            i <= content.len(),
            i <= bytes_to_read,
            bytes@ == content@.take(i as int),
        decreases content.len() - i,
    {
        bytes.push(content[i]);
        proof {
            assert(content@.take(i + 1) =~= content@.take(i as int).push(content@[i as int]));
        }
        i += 1;
    }
    proof {
        if content@.len() <= bytes_to_read {
            assert(content@.take(i as int) =~= content@);
        }
    }
    bytes
}

// The positions of encodings in the catalogue that `encoding::all::encodings()` returns.

pub const ASCII: usize = 1;
pub const ISO_8859_1: usize = 3;
pub const ISO_8859_2: usize = 4;
pub const ISO_8859_3: usize = 5;
pub const ISO_8859_4: usize = 6;
pub const ISO_8859_5: usize = 7;
pub const ISO_8859_6: usize = 8;
pub const ISO_8859_7: usize = 9;
pub const ISO_8859_8: usize = 10;
pub const ISO_8859_10: usize = 11;
pub const ISO_8859_13: usize = 12;
pub const ISO_8859_14: usize = 13;
pub const ISO_8859_15: usize = 14;
pub const ISO_8859_16: usize = 15;
pub const KOI8_R: usize = 16;
pub const KOI8_U: usize = 17;
pub const MAC_ROMAN: usize = 18;
pub const WINDOWS_874: usize = 19;
pub const WINDOWS_1250: usize = 20;
pub const WINDOWS_1251: usize = 21;
pub const WINDOWS_1252: usize = 22;
pub const WINDOWS_1253: usize = 23;
pub const WINDOWS_1254: usize = 24;
pub const WINDOWS_1255: usize = 25;
pub const WINDOWS_1256: usize = 26;
pub const WINDOWS_1257: usize = 27;
pub const WINDOWS_1258: usize = 28;
pub const UTF_8: usize = 30;
pub const UTF_16LE: usize = 31;
pub const UTF_16BE: usize = 32;
pub const WINDOWS_949: usize = 33;

/// The encodings that are tried, as positions in the `encoding` crate's catalogue, in the
/// order in which they are tried.
pub open spec fn candidate_positions() -> Seq<usize> {
    seq![
        ASCII, WINDOWS_1250, UTF_8, UTF_16LE, UTF_16BE, ISO_8859_1, ISO_8859_2, ISO_8859_3,
        ISO_8859_4, ISO_8859_5, ISO_8859_6, ISO_8859_7, ISO_8859_8, ISO_8859_10, ISO_8859_13,
        ISO_8859_14, ISO_8859_15, ISO_8859_16, KOI8_R, KOI8_U, MAC_ROMAN, WINDOWS_874,
        WINDOWS_949, WINDOWS_1251, WINDOWS_1252, WINDOWS_1253, WINDOWS_1254, WINDOWS_1255,
        WINDOWS_1256, WINDOWS_1257, WINDOWS_1258,
    ]
}

/// The candidate at place `k` of the list is the first that decodes `bytes` strictly.
pub open spec fn is_first_decoding(bytes: Seq<u8>, k: int) -> bool {
    &&& 0 <= k < candidate_positions().len()
    &&& strict_decoding(candidate_positions()[k] as int, bytes).is_some()
    &&& forall|j: int|
        0 <= j < k ==> strict_decoding(#[trigger] candidate_positions()[j] as int, bytes).is_none()
}

/// No candidate of the list decodes `bytes` strictly.
pub open spec fn no_decoding(bytes: Seq<u8>) -> bool {
    forall|j: int|
        0 <= j < candidate_positions().len() ==> strict_decoding(
            #[trigger] candidate_positions()[j] as int,
            bytes,
        ).is_none()
}

/// The name of the first candidate encoding, in list order, that decodes `bytes` strictly,
/// if there is one.
pub open spec fn detected_encoding(bytes: Seq<u8>) -> Option<Seq<char>> {
    if exists|k: int| is_first_decoding(bytes, k) {
        strict_decoding(
            candidate_positions()[choose|k: int| is_first_decoding(bytes, k)] as int,
            bytes,
        )
    } else {
        None
    }
}

/// There is one first decoding at most.
pub proof fn lemma_first_decoding_unique(bytes: Seq<u8>, k: int, l: int)
    requires
        is_first_decoding(bytes, k),
        is_first_decoding(bytes, l),
    ensures
        k == l,
{
    if k < l {
        assert(strict_decoding(candidate_positions()[k] as int, bytes).is_none());
    } else if l < k {
        assert(strict_decoding(candidate_positions()[l] as int, bytes).is_none());
    }
}

/// The language that is recorded when none is detected.
pub open spec fn default_language() -> Seq<char> {
    "en"@
}

/// The language that detection finds in a text, be the guess reliable or not; nothing
/// where it finds none or the text is too long to be handed to it.
pub open spec fn recognized_language(text: Seq<char>) -> Option<Seq<char>> {
    if vstd::utf8::encode_utf8(text).len() <= i32::MAX {
        language_guess(text).0
    } else {
        None
    }
}

/// The language code that is recorded for a text: the code that detection gives, and the
/// default where it gives none.
pub open spec fn language_of(text: Seq<char>) -> Seq<char> {
    match recognized_language(text) {
        Some(code) => code,
        None => default_language(),
    }
}

/// Language detection: the code of the language that is found in `text`, if one is.
pub fn recognize_language(text: &str) -> (code: Option<String>)
    ensures
        match code {
            Some(code) => recognized_language(text@) == Some(code@),
            None => recognized_language(text@).is_none(),
        },
{
    if text.as_bytes().len() > 0x7fff_ffff {
        return None;
    }
    match guess_language(text) {
        // a guess that the detector calls reliable
        (Some(code), true) => Some(code),
        // a guess that it does not call reliable is taken all the same
        (Some(code), false) => Some(code),
        (None, _) => None,
    }
}

/// Language detection with the default: the code of the language of `text`, `en` where
/// none is found.
pub fn language_code(text: &str) -> (code: String)
    ensures
        code@ == language_of(text@),
{
    match recognize_language(text) {
        Some(code) => code,
        None => String::from_str("en"),
    }
}

/// The list of candidate encodings, as positions in the catalogue.
pub fn encoding_candidates() -> (list: Vec<usize>)
    ensures
        list@ == candidate_positions(),
{
    let list: Vec<usize> = vec![
        ASCII, WINDOWS_1250, UTF_8, UTF_16LE, UTF_16BE, ISO_8859_1, ISO_8859_2, ISO_8859_3,
        ISO_8859_4, ISO_8859_5, ISO_8859_6, ISO_8859_7, ISO_8859_8, ISO_8859_10, ISO_8859_13,
        ISO_8859_14, ISO_8859_15, ISO_8859_16, KOI8_R, KOI8_U, MAC_ROMAN, WINDOWS_874,
        WINDOWS_949, WINDOWS_1251, WINDOWS_1252, WINDOWS_1253, WINDOWS_1254, WINDOWS_1255,
        WINDOWS_1256, WINDOWS_1257, WINDOWS_1258,
    ];
    list
}

/// The names of the candidate encodings, in the order in which they are tried: for each
/// the name under which it decodes the empty sample, nothing for a candidate that does not.
pub fn candidate_names() -> (names: Vec<Option<String>>)
    ensures
        names@.len() == candidate_positions().len(),
        forall|k: int|
            0 <= k < names@.len() ==> match #[trigger] names@[k] {
                Some(name) => strict_decoding(candidate_positions()[k] as int, Seq::empty())
                    == Some(name@),
                None => strict_decoding(candidate_positions()[k] as int, Seq::empty()).is_none(),
            },
{
    let candidates = encoding_candidates();
    let nothing: Vec<u8> = Vec::new();
    let mut names: Vec<Option<String>> = Vec::new();
    let mut k: usize = 0;
    while k < candidates.len()
        invariant
            k <= candidates.len(),
            candidates@ == candidate_positions(),
            nothing@ == Seq::<u8>::empty(),
            names@.len() == k,
            forall|j: int|
                0 <= j < k ==> match #[trigger] names@[j] {
                    Some(name) => strict_decoding(candidate_positions()[j] as int, Seq::empty())
                        == Some(name@),
                    None => strict_decoding(
                        candidate_positions()[j] as int,
                        Seq::empty(),
                    ).is_none(),
                },
        decreases candidates.len() - k,
    {
        let name = decode_strictly(candidates[k], nothing.as_slice());
        names.push(name);
        k += 1;
    }
    names
}

/// Encoding detection: the name of the first candidate encoding, in list order, that
/// decodes the whole sample without error.
pub fn detect_encoding(vec: &Vec<u8>) -> (found: Option<String>)
    ensures
        match found {
            Some(name) => detected_encoding(vec@) == Some(name@),
            None => detected_encoding(vec@).is_none(),
        },
        found.is_none() <==> no_decoding(vec@),
{
    let candidates = encoding_candidates();
    let mut k: usize = 0;
    while k < candidates.len()
        invariant
            k <= candidates.len(),
            candidates@ == candidate_positions(),
            forall|j: int|
                0 <= j < k ==> strict_decoding(
                    #[trigger] candidate_positions()[j] as int,
                    vec@,
                ).is_none(),
        decreases candidates.len() - k,
    {
        match decode_strictly(candidates[k], vec.as_slice()) {
            Some(name) => {
                proof {
                    assert(is_first_decoding(vec@, k as int));
                    let l = choose|l: int| is_first_decoding(vec@, l);
                    lemma_first_decoding_unique(vec@, k as int, l);
                }
                return Some(name);
            },
            None => {},
        }
        k += 1;
    }
    proof {
        assert forall|l: int| !is_first_decoding(vec@, l) by {
            if 0 <= l < candidate_positions().len() {
                assert(strict_decoding(candidate_positions()[l] as int, vec@).is_none());
            }
        }
    }
    None
}

} // verus!
