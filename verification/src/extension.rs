//! The extension gate: which file names are worth fingerprinting.

use vstd::prelude::*;
use crate::text::{chars_of, has_at, matches_at, string_of};

verus! {

/// An ASCII decimal digit.
pub open spec fn is_digit(c: char) -> bool {
    0x30 <= c as u32 <= 0x39
}

/// Every character of `e` from position `from` on is a decimal digit.
pub open spec fn digits_from(e: Seq<char>, from: int) -> bool {
    forall|k: int| from <= k < e.len() ==> is_digit(#[trigger] e[k])
}

/// Every character of `e` from position `from` on is the letter `l` or a decimal digit.
pub open spec fn l_or_digits_from(e: Seq<char>, from: int) -> bool {
    forall|k: int| from <= k < e.len() ==> (#[trigger] e[k]) == 'l' || is_digit(e[k])
}

/// `php` followed by any number of digits: `php`, `php5`, `php73`.
pub open spec fn is_php_extension(e: Seq<char>) -> bool {
    has_at(e, "php"@, 0) && digits_from(e, "php"@.len() as int)
}

/// `htm` or `shtm` followed by any number of letters `l` and digits: `htm`, `html`,
/// `shtml`, `htm4`.
pub open spec fn is_htm_extension(e: Seq<char>) -> bool {
    ||| has_at(e, "htm"@, 0) && l_or_digits_from(e, "htm"@.len() as int)
    ||| has_at(e, "shtm"@, 0) && l_or_digits_from(e, "shtm"@.len() as int)
}

/// One of the extensions that are accepted as they are written.
pub open spec fn is_fixed_extension(e: Seq<char>) -> bool {
    ||| e == "txt"@
    ||| e == "inc"@
    ||| e == "py"@
    ||| e == "pl"@
    ||| e == "pm"@
    ||| e == "rb"@
    ||| e == "sh"@
    ||| e == "xml"@
    ||| e == "yml"@
    ||| e == "uml"@
    ||| e == "aml"@
    ||| e == "htaccess"@
    ||| e == "rss"@
    ||| e == "css"@
    ||| e == "scss"@
    ||| e == "js"@
    ||| e == "mo"@
    ||| e == "po"@
    ||| e == "ini"@
    ||| e == "ps"@
    ||| e == "tex"@
    ||| e == "atex"@
    ||| e == "ltex"@
    ||| e == "latex"@
    ||| e == "svg"@
}

/// `e`, the text after a dot up to the end of a file name, names a content type that is
/// worth fingerprinting.
pub open spec fn is_content_extension(e: Seq<char>) -> bool {
    is_php_extension(e) || is_htm_extension(e) || is_fixed_extension(e)
}

/// The dot at position `i` of `name` starts a content extension that runs to the end of
/// the name.
pub open spec fn content_extension_at(name: Seq<char>, i: int) -> bool {
    0 <= i < name.len() && name[i] == '.' && is_content_extension(
        name.subrange(i + 1, name.len() as int),
    )
}

/// `name` holds no dot at all.
pub open spec fn has_no_dot(name: Seq<char>) -> bool {
    forall|i: int| 0 <= i < name.len() ==> name[i] != '.'
}

/// The extension gate: a file name passes if some dot in it is followed, up to the end of
/// the name, by a content extension, or if it holds no dot at all.
pub open spec fn accepts_file_name(name: Seq<char>) -> bool {
    (exists|i: int| content_extension_at(name, i)) || has_no_dot(name)
}

/// Whether the tail of `chars` from `start` on is exactly `word`.
fn tail_is(chars: &Vec<char>, start: usize, word: &str) -> (same: bool)
    requires
        start <= chars.len(),
    ensures
        same == (chars@.subrange(start as int, chars@.len() as int) == word@),
{
    let pat = chars_of(word);
    let found = pat.len() == chars.len() - start && matches_at(chars, &pat, start);
    proof {
        let tail = chars@.subrange(start as int, chars@.len() as int);
        if found {
            assert(tail =~= pat@);
        } else if tail == pat@ {
            assert(chars@.subrange(start as int, start + pat@.len()) =~= tail);
        }
    }
    found
}

/// Whether the tail of `chars` from `start` on is `stem` followed only by characters that
/// `with_l` admits: digits, and the letter `l` where `with_l` holds.
fn tail_is_stem(chars: &Vec<char>, start: usize, stem: &str, with_l: bool) -> (found: bool)
    requires
        start <= chars.len(),
    ensures
        ({
            let tail = chars@.subrange(start as int, chars@.len() as int);
            found == (has_at(tail, stem@, 0) && if with_l {
                l_or_digits_from(tail, stem@.len() as int)
            } else {
                digits_from(tail, stem@.len() as int)
            })
        }),
{
    let pat = chars_of(stem);
    let ghost tail = chars@.subrange(start as int, chars@.len() as int);
    if !matches_at(chars, &pat, start) {
        proof {
            if has_at(tail, pat@, 0) {
                assert(chars@.subrange(start as int, start + pat@.len()) =~= tail.subrange(
                    0,
                    pat@.len() as int,
                ));
            }
        }
        return false;
    }
    proof {
        assert(tail.subrange(0, pat@.len() as int) =~= chars@.subrange(
            start as int,
            start + pat@.len(),
        ));
    }
    let mut k: usize = start + pat.len();
    while k < chars.len()
        invariant
            start + pat.len() <= k <= chars.len(),
            tail == chars@.subrange(start as int, chars@.len() as int),
            pat@ == stem@,
            has_at(tail, pat@, 0),
            forall|j: int|
                pat@.len() <= j < k - start ==> (with_l && (#[trigger] tail[j]) == 'l') || is_digit(
                    tail[j],
                ),
        decreases chars.len() - k,
    {
        let c = chars[k];
        let code = c as u32;
        let admitted = (with_l && c == 'l') || (0x30 <= code && code <= 0x39);
        if !admitted {
            proof {
                assert(tail[k - start] == c);
            }
            return false;
        }
        k += 1;
    }
    true
}

/// Whether the tail of `chars` from `start` on is a content extension.
fn is_content_extension_tail(chars: &Vec<char>, start: usize) -> (found: bool)
    requires
        start <= chars.len(),
    ensures
        found == is_content_extension(chars@.subrange(start as int, chars@.len() as int)),
{
    tail_is_stem(chars, start, "php", false) || tail_is_stem(chars, start, "htm", true)
        || tail_is_stem(chars, start, "shtm", true) || tail_is(chars, start, "txt") || tail_is(
        chars,
        start,
        "inc",
    ) || tail_is(chars, start, "py") || tail_is(chars, start, "pl") || tail_is(chars, start, "pm")
        || tail_is(chars, start, "rb") || tail_is(chars, start, "sh") || tail_is(
        chars,
        start,
        "xml",
    ) || tail_is(chars, start, "yml") || tail_is(chars, start, "uml") || tail_is(
        chars,
        start,
        "aml",
    ) || tail_is(chars, start, "htaccess") || tail_is(chars, start, "rss") || tail_is(
        chars,
        start,
        "css",
    ) || tail_is(chars, start, "scss") || tail_is(chars, start, "js") || tail_is(
        chars,
        start,
        "mo",
    ) || tail_is(chars, start, "po") || tail_is(chars, start, "ini") || tail_is(chars, start, "ps")
        || tail_is(chars, start, "tex") || tail_is(chars, start, "atex") || tail_is(
        chars,
        start,
        "ltex",
    ) || tail_is(chars, start, "latex") || tail_is(chars, start, "svg")
}

/// The extension gate of the fingerprinter: whether a file of this name is worth
/// classifying.
pub fn valid_file_extensions(name: &str) -> (accepted: bool)
    ensures
        accepted == accepts_file_name(name@),
{
    let chars = chars_of(name);
    let mut dotted = false;
    let mut i: usize = 0;
    while i < chars.len()
        invariant
            i <= chars.len(),
            chars@ == name@,
            dotted == exists|j: int| 0 <= j < i && chars@[j] == '.',
            forall|j: int| 0 <= j < i ==> !content_extension_at(chars@, j),
        decreases chars.len() - i,
    {
        if chars[i] == '.' {
            if is_content_extension_tail(&chars, i + 1) {
                assert(content_extension_at(chars@, i as int));
                return true;
            }
            dotted = true;
        }
        i += 1;
    }
    !dotted
}

/// The name of the file that a path leads to starts at position `at`: a slash stands in
/// front of it, or the path starts there, and no slash follows.
pub open spec fn is_name_start(path: Seq<char>, at: int) -> bool {
    &&& 0 <= at <= path.len()
    &&& at == 0 || path[at - 1] == '/'
    &&& forall|j: int| at <= j < path.len() ==> path[j] != '/'
}

/// The name of the file that a path leads to: what follows the last slash, or the whole
/// path where it holds no slash.
pub open spec fn file_name(path: Seq<char>) -> Seq<char> {
    path.subrange(choose|at: int| is_name_start(path, at), path.len() as int)
}

/// A path has one place at which the name of its file starts.
pub proof fn lemma_name_start(path: Seq<char>, at: int)
    requires
        is_name_start(path, at),
    ensures
        file_name(path) == path.subrange(at, path.len() as int),
{
    let other = choose|k: int| is_name_start(path, k);
    if other < at {
        assert(path[at - 1] == '/');
    } else if at < other {
        assert(path[other - 1] == '/');
    }
}

/// The name of the file that a path leads to.
pub fn file_name_of(path: &str) -> (name: String)
    ensures
        name@ == file_name(path@),
{
    let chars = chars_of(path);
    let total = chars.len();
    let mut at: usize = total;
    while at > 0 && chars[at - 1] != '/'
        invariant
            at <= total,
            total == chars@.len(),
            forall|j: int| at <= j < total ==> chars@[j] != '/',
        decreases at,
    {
        at -= 1;
    }
    proof {
        lemma_name_start(chars@, at as int);
    }
    string_of(&chars, at, total)
}

/// The extension gate for a path: whether the name of the file that it leads to passes.
pub fn valid_file_path(path: &str) -> (accepted: bool)
    ensures
        accepted == accepts_file_name(file_name(path@)),
{
    valid_file_extensions(file_name_of(path).as_str())
}

} // verus!
