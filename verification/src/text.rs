//! Texts as sequences of characters: searching, and writing numbers and bytes as text.

use vstd::prelude::*;
use vstd::std_specs::iter::IteratorSpec;

verus! {

/// `pat` occurs in `s` at position `i`.
pub open spec fn has_at(s: Seq<char>, pat: Seq<char>, i: int) -> bool {
    0 <= i && i + pat.len() <= s.len() && s.subrange(i, i + pat.len()) == pat
}

/// `i` is the first position at or after `from` at which `pat` occurs in `s`.
pub open spec fn is_first_at(s: Seq<char>, pat: Seq<char>, from: int, i: int) -> bool {
    &&& from <= i
    &&& has_at(s, pat, i)
    &&& forall|j: int| from <= j < i ==> !has_at(s, pat, j)
}

/// `pat` occurs in `s` at some position at or after `from`.
pub open spec fn occurs_from(s: Seq<char>, pat: Seq<char>, from: int) -> bool {
    exists|i: int| from <= i && has_at(s, pat, i)
}

/// The first position at or after `from` at which `pat` occurs in `s`, if there is one.
pub open spec fn first_index(s: Seq<char>, pat: Seq<char>, from: int) -> Option<int> {
    if occurs_from(s, pat, from) {
        Some(choose|i: int| is_first_at(s, pat, from, i))
    } else {
        None
    }
}

/// `pat` occurs somewhere in `s`.
pub open spec fn contains(s: Seq<char>, pat: Seq<char>) -> bool {
    occurs_from(s, pat, 0)
}

/// `s` ends with `suffix`.
pub open spec fn ends_with(s: Seq<char>, suffix: Seq<char>) -> bool {
    suffix.len() <= s.len() && s.subrange(s.len() - suffix.len(), s.len() as int) == suffix
}

/// A first occurrence is the one that `first_index` names.
pub proof fn lemma_first_index(s: Seq<char>, pat: Seq<char>, from: int, i: int)
    requires
        is_first_at(s, pat, from, i),
    ensures
        first_index(s, pat, from) == Some(i),
{
    assert(occurs_from(s, pat, from));
    let k = choose|k: int| is_first_at(s, pat, from, k);
    assert(is_first_at(s, pat, from, k));
    if k < i {
        assert(!has_at(s, pat, k));
    } else if i < k {
        assert(!has_at(s, pat, i));
    }
}

/// Where a pattern occurs at or after `from`, it has a first occurrence there.
pub proof fn lemma_first_occurrence(s: Seq<char>, pat: Seq<char>, from: int, i: int) -> (first: int)
    requires
        from <= i,
        has_at(s, pat, i),
    ensures
        is_first_at(s, pat, from, first),
        first <= i,
    decreases i - from,
{
    if exists|j: int| from <= j < i && has_at(s, pat, j) {
        let j = choose|j: int| from <= j < i && has_at(s, pat, j);
        lemma_first_occurrence(s, pat, from, j)
    } else {
        i
    }
}

/// `String::push` of std: the character is appended to the string.
#[verifier::external_body]
pub(crate) fn push_char(s: &mut String, c: char)
    ensures
        final(s)@ == old(s)@.push(c),
{
    s.push(c)
}

/// The characters of a string slice, as a vector.
pub fn chars_of(s: &str) -> (v: Vec<char>)
    ensures
        v@ == s@,
{
    let mut v: Vec<char> = Vec::new();
    for c in it: s.chars()
        invariant
            v@ == it.seq().take(it.index() as int),
            it.seq() == s@,
    {
        v.push(c);
    }
    v
}

/// The string that holds the characters of `chars` from `from` up to `to`.
pub fn string_of(chars: &Vec<char>, from: usize, to: usize) -> (s: String)
    requires
        from <= to <= chars.len(),
    ensures
        s@ == chars@.subrange(from as int, to as int),
{
    let mut s = String::new();
    let mut i: usize = from;
    while i < to
        invariant
            from <= i <= to <= chars.len(),
            s@ == chars@.subrange(from as int, i as int),
        decreases to - i,
    {
        push_char(&mut s, chars[i]);
        i += 1;
    }
    s
}

/// Whether `pat` occurs in `chars` at position `i`.
pub fn matches_at(chars: &Vec<char>, pat: &Vec<char>, i: usize) -> (found: bool)
    ensures
        found == has_at(chars@, pat@, i as int),
{
    if pat.len() > chars.len() || i > chars.len() - pat.len() {
        return false;
    }
    let mut k: usize = 0;
    while k < pat.len()
        invariant
            k <= pat.len(),
            i + pat.len() <= chars.len(),
            forall|j: int| 0 <= j < k ==> chars@[i + j] == pat@[j],
        decreases pat.len() - k,
    {
        if chars[i + k] != pat[k] {
            proof {
                let sub = chars@.subrange(i as int, i + pat.len());
                assert(sub[k as int] == chars@[i + k]);
            }
            return false;
        }
        k += 1;
    }
    proof {
        assert(chars@.subrange(i as int, i + pat.len()) =~= pat@);
    }
    true
}

/// The first position at or after `from` at which `pat` occurs in `chars`.
pub fn find_from(chars: &Vec<char>, pat: &Vec<char>, from: usize) -> (found: Option<usize>)
    ensures
        match found {
            Some(i) => first_index(chars@, pat@, from as int) == Some(i as int),
            None => first_index(chars@, pat@, from as int).is_none(),
        },
        match found {
            Some(i) => is_first_at(chars@, pat@, from as int, i as int) && i + pat@.len()
                <= chars@.len(),
            None => true,
        },
{
    let mut i: usize = from;
    while i < chars.len()
        invariant
            from <= i,
            forall|j: int| from <= j < i ==> !has_at(chars@, pat@, j),
        decreases chars.len() - i,
    {
        if matches_at(chars, pat, i) {
            proof {
                lemma_first_index(chars@, pat@, from as int, i as int);
            }
            return Some(i);
        }
        i += 1;
    }
    if i == chars.len() && matches_at(chars, pat, i) {
        proof {
            lemma_first_index(chars@, pat@, from as int, i as int);
        }
        return Some(i);
    }
    assert(!occurs_from(chars@, pat@, from as int));
    None
}

/// Whether `chars` ends with `suffix`.
pub fn has_suffix(chars: &Vec<char>, suffix: &Vec<char>) -> (found: bool)
    ensures
        found == ends_with(chars@, suffix@),
{
    if suffix.len() > chars.len() {
        return false;
    }
    matches_at(chars, suffix, chars.len() - suffix.len())
}

/// The lower-case hexadecimal digit for a value below sixteen.
pub open spec fn hex_char(n: u8) -> char {
    if n < 10 {
        (0x30 + n) as u8 as char
    } else {
        (0x57 + n) as u8 as char
    }
}

/// The bytes of `bytes` written as lower-case hexadecimal, two digits each, high digit first.
pub open spec fn hex_text(bytes: Seq<u8>) -> Seq<char> {
    Seq::new(
        2 * bytes.len(),
        |i: int|
            if i % 2 == 0 {
                hex_char(bytes[i / 2] / 16)
            } else {
                hex_char(bytes[i / 2] % 16)
            },
    )
}

/// The lower-case hexadecimal digit for `n`.
pub fn hex_digit(n: u8) -> (c: char)
    requires
        n < 16,
    ensures
        c == hex_char(n),
{
    if n < 10 {
        (0x30 + n) as char
    } else {
        (0x57 + n) as char
    }
}

/// The value of a lower-case hexadecimal digit.
pub open spec fn hex_value(c: char) -> Option<u8> {
    if 0x30 <= c as u32 <= 0x39 {
        Some((c as u32 - 0x30) as u8)
    } else if 0x61 <= c as u32 <= 0x66 {
        Some((c as u32 - 0x57) as u8)
    } else {
        None
    }
}

/// The value of the hexadecimal digit for `n` is `n`.
pub proof fn lemma_hex_value(n: u8)
    requires
        n < 16,
    ensures
        hex_value(hex_char(n)) == Some(n),
{
}

/// Reads the value of a lower-case hexadecimal digit.
pub fn hex_digit_value(c: char) -> (value: Option<u8>)
    ensures
        value == hex_value(c),
{
    let code = c as u32;
    if 0x30 <= code && code <= 0x39 {
        Some((code - 0x30) as u8)
    } else if 0x61 <= code && code <= 0x66 {
        Some((code - 0x57) as u8)
    } else {
        None
    }
}

/// `bytes` written as lower-case hexadecimal.
pub fn to_hex(bytes: &[u8]) -> (s: String)
    ensures
        s@ == hex_text(bytes@),
{
    let mut s = String::new();
    let mut i: usize = 0;
    while i < bytes.len()
        invariant
            i <= bytes.len(),
            s@ == hex_text(bytes@.take(i as int)),
        decreases bytes.len() - i,
    {
        let b = bytes[i];
        let ghost before = s@;
        push_char(&mut s, hex_digit(b / 16));
        push_char(&mut s, hex_digit(b % 16));
        proof {
            let now = bytes@.take(i + 1);
            assert(s@ == before.push(hex_char(b / 16)).push(hex_char(b % 16)));
            assert forall|k: int| 0 <= k < 2 * now.len() implies s@[k] == hex_text(now)[k] by {
                if k < 2 * i {
                    assert(before[k] == hex_text(bytes@.take(i as int))[k]);
                    assert(bytes@.take(i as int)[k / 2] == now[k / 2]);
                }
            }
            assert(s@ =~= hex_text(now));
        }
        i += 1;
    }
    proof {
        assert(bytes@.take(bytes@.len() as int) =~= bytes@);
    }
    s
}

/// The decimal digit for a value below ten.
pub open spec fn digit_char(n: nat) -> char {
    (0x30 + n) as u8 as char
}

/// A number written in decimal, without leading zeros.
pub open spec fn decimal_text(n: nat) -> Seq<char>
    decreases n,
{
    if n < 10 {
        seq![digit_char(n)]
    } else {
        decimal_text(n / 10).push(digit_char(n % 10))
    }
}

/// Appends `n`, written in decimal, to `s`.
pub fn push_decimal(s: &mut String, n: u64)
    ensures
        final(s)@ == old(s)@ + decimal_text(n as nat),
    decreases n,
{
    if n >= 10 {
        push_decimal(s, n / 10);
    }
    let digit = (n % 10) as u8;
    push_char(s, (0x30 + digit) as char);
    proof {
        assert(s@ =~= old(s)@ + decimal_text(n as nat));
    }
}

} // verus!
