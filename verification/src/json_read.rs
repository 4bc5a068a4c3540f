//! Reading the inspection form of a changeset back, with the proof that the text of a
//! changeset reads back as that changeset.

use vstd::prelude::*;
use crate::codec::{http_probe, https_probe, ProbeFields, ProbeView};
use crate::extension::is_digit;
use crate::ident::{hyphenated, lemma_read_hyphenated, parse_hyphenated, read_hyphenated};
use crate::json::{
    account_type_name, changeset_json, entry_items_json, entry_json, escaped, escaped_char,
    file_json, file_names_json, file_stats_json, http_json, https_json, json_byte_items,
    json_bytes, json_signed, json_string, owner_json,
};
use crate::structs::{
    entry_views, AccountType, Changeset, ChangesetView, DomainEntry, DomainEntryView, FileEntry,
    FileEntryView, Owner, OwnerView,
};
use crate::text::{
    chars_of, decimal_text, digit_char, has_at, hex_char, hex_digit_value, hex_value,
    lemma_hex_value, matches_at, push_char,
};

verus! {

/// What follows `label` where `s` starts with it.
pub open spec fn parse_label(s: Seq<char>, label: Seq<char>) -> Option<Seq<char>> {
    if has_at(s, label, 0) {
        Some(s.skip(label.len() as int))
    } else {
        None
    }
}

/// A character that stands for itself inside a JSON string.
pub open spec fn is_plain_char(c: char) -> bool {
    !(c == '"' || c == '\\' || (c as u32) < 0x20 || c as u32 == 0x7f)
}

/// A control character that has no short escape of its own and is written as `\u00` and
/// two hexadecimal digits.
pub open spec fn is_long_escaped(code: u32) -> bool {
    (code < 0x20 || code == 0x7f) && code != 0x08 && code != 0x09 && code != 0x0a && code != 0x0c
        && code != 0x0d
}

/// The character that the escape at the start of `s` stands for, and what follows the
/// escape. `s` starts behind the backslash.
pub open spec fn parse_escape(s: Seq<char>) -> Option<(char, Seq<char>)> {
    if s.len() == 0 {
        None
    } else if s[0] == '"' {
        Some(('"', s.skip(1)))
    } else if s[0] == '\\' {
        Some(('\\', s.skip(1)))
    } else if s[0] == 'b' {
        Some(('\u{8}', s.skip(1)))
    } else if s[0] == 't' {
        Some(('\t', s.skip(1)))
    } else if s[0] == 'n' {
        Some(('\n', s.skip(1)))
    } else if s[0] == 'f' {
        Some(('\u{c}', s.skip(1)))
    } else if s[0] == 'r' {
        Some(('\r', s.skip(1)))
    } else if s[0] == 'u' && s.len() >= 5 && s[1] == '0' && s[2] == '0' && hex_value(s[3]).is_some()
        && hex_value(s[4]).is_some() {
        let code = (hex_value(s[3]).unwrap() * 16 + hex_value(s[4]).unwrap()) as u32;
        if is_long_escaped(code) {
            Some((code as u8 as char, s.skip(5)))
        } else {
            None
        }
    } else {
        None
    }
}

/// The characters of a JSON string from the start of `s` up to the closing quote, added
/// to `read`, and what follows the quote.
pub open spec fn parse_chars(s: Seq<char>, read: Seq<char>) -> Option<(Seq<char>, Seq<char>)>
    decreases s.len(),
{
    if s.len() == 0 {
        None
    } else if s[0] == '"' {
        Some((read, s.skip(1)))
    } else if s[0] == '\\' {
        match parse_escape(s.skip(1)) {
            Some((c, rest)) => if rest.len() < s.len() {
                parse_chars(rest, read.push(c))
            } else {
                None
            },
            None => None,
        }
    } else if is_plain_char(s[0]) {
        parse_chars(s.skip(1), read.push(s[0]))
    } else {
        None
    }
}

/// A JSON string at the start of `s`, and what follows it.
pub open spec fn parse_json_string(s: Seq<char>) -> Option<(Seq<char>, Seq<char>)> {
    if s.len() > 0 && s[0] == '"' {
        parse_chars(s.skip(1), Seq::empty())
    } else {
        None
    }
}

/// The escaped form of a text starts with the escaped form of its first character.
pub proof fn lemma_escaped_front(text: Seq<char>)
    requires
        text.len() > 0,
    ensures
        escaped(text) == escaped_char(text[0]) + escaped(text.skip(1)),
    decreases text.len(),
{
    if text.len() == 1 {
        assert(text.drop_last() =~= Seq::<char>::empty());
        assert(text.skip(1) =~= Seq::<char>::empty());
        assert(escaped(text.drop_last()) =~= Seq::<char>::empty());
        assert(escaped(text) =~= escaped_char(text[0]) + escaped(text.skip(1)));
    } else {
        let front = text.drop_last();
        lemma_escaped_front(front);
        assert(front.skip(1) =~= text.skip(1).drop_last());
        assert(text.skip(1).last() == text.last());
        assert(escaped(text) =~= escaped_char(text[0]) + escaped(text.skip(1)));
    }
}

/// Reading the escaped form of one character gives the character.
pub proof fn lemma_parse_escaped_char(c: char, tail: Seq<char>, read: Seq<char>)
    ensures
        parse_chars(escaped_char(c) + tail, read) == parse_chars(tail, read.push(c)),
{
    let s = escaped_char(c) + tail;
    let code = c as u32;
    if c == '"' || c == '\\' || c == '\u{8}' || c == '\t' || c == '\n' || c == '\u{c}' || c
        == '\r' {
        assert(s[0] == '\\');
        assert(s.skip(1).skip(1) =~= tail);
    } else if code < 0x20 || code == 0x7f {
        let high = (code / 16) as u8;
        let low = (code % 16) as u8;
        lemma_hex_value(high);
        lemma_hex_value(low);
        let e = s.skip(1);
        assert(s[0] == '\\');
        assert(e[0] == 'u' && e[1] == '0' && e[2] == '0');
        assert(e[3] == hex_char(high) && e[4] == hex_char(low));
        assert(e.skip(5) =~= tail);
        assert((high * 16 + low) as u32 == code);
        assert(code as u8 as char == c);
    } else {
        assert(s[0] == c);
        assert(s.skip(1) =~= tail);
    }
}

/// Reading the escaped form of a text up to the quote that closes it gives the text.
pub proof fn lemma_parse_chars(text: Seq<char>, rest: Seq<char>, read: Seq<char>)
    ensures
        parse_chars(escaped(text) + seq!['"'] + rest, read) == Some((read + text, rest)),
    decreases text.len(),
{
    if text.len() == 0 {
        let s = escaped(text) + seq!['"'] + rest;
        assert(s[0] == '"');
        assert(s.skip(1) =~= rest);
        assert(read + text =~= read);
    } else {
        lemma_escaped_front(text);
        let tail = escaped(text.skip(1)) + seq!['"'] + rest;
        assert(escaped(text) + seq!['"'] + rest =~= escaped_char(text[0]) + tail);
        lemma_parse_escaped_char(text[0], tail, read);
        lemma_parse_chars(text.skip(1), rest, read.push(text[0]));
        assert(read.push(text[0]) + text.skip(1) =~= read + text);
    }
}

/// Reading a text written as a JSON string gives the text.
pub proof fn lemma_parse_json_string(text: Seq<char>, rest: Seq<char>)
    ensures
        parse_json_string(json_string(text) + rest) == Some((text, rest)),
{
    let s = json_string(text) + rest;
    assert(s[0] == '"');
    assert(s.skip(1) =~= escaped(text) + seq!['"'] + rest);
    lemma_parse_chars(text, rest, Seq::empty());
    assert(Seq::<char>::empty() + text =~= text);
}

/// Reads `label` at `pos`.
pub fn take_label(buf: &Vec<char>, pos: usize, label: &str) -> (next: Option<usize>)
    requires
        pos <= buf@.len(),
    ensures
        match next {
            Some(next) => pos <= next <= buf@.len() && parse_label(buf@.skip(pos as int), label@)
                == Some(buf@.skip(next as int)),
            None => parse_label(buf@.skip(pos as int), label@).is_none(),
        },
{
    let pattern = chars_of(label);
    let total = buf.len();
    let found = matches_at(buf, &pattern, pos);
    proof {
        let s = buf@.skip(pos as int);
        if found {
            assert(s.subrange(0, pattern@.len() as int) =~= buf@.subrange(
                pos as int,
                pos + pattern@.len(),
            ));
            assert(s.skip(pattern@.len() as int) =~= buf@.skip(pos + pattern@.len()));
        } else if has_at(s, pattern@, 0) {
            assert(s.subrange(0, pattern@.len() as int) =~= buf@.subrange(
                pos as int,
                pos + pattern@.len(),
            ));
        }
    }
    if found {
        Some(pos + pattern.len())
    } else {
        None
    }
}

/// Reads the escape at `pos`, which is the position behind a backslash.
fn take_escape(buf: &Vec<char>, pos: usize) -> (read: Option<(char, usize)>)
    requires
        pos <= buf@.len(),
    ensures
        match read {
            Some((c, next)) => pos < next <= buf@.len() && parse_escape(buf@.skip(pos as int))
                == Some((c, buf@.skip(next as int))),
            None => parse_escape(buf@.skip(pos as int)).is_none(),
        },
{
    let total = buf.len();
    if pos >= total {
        return None;
    }
    let ghost s = buf@.skip(pos as int);
    proof {
        assert(s[0] == buf@[pos as int]);
        assert(s.skip(1) =~= buf@.skip(pos + 1));
    }
    let c = buf[pos];
    if c == '"' {
        Some(('"', pos + 1))
    } else if c == '\\' {
        Some(('\\', pos + 1))
    } else if c == 'b' {
        Some(('\u{8}', pos + 1))
    } else if c == 't' {
        Some(('\t', pos + 1))
    } else if c == 'n' {
        Some(('\n', pos + 1))
    } else if c == 'f' {
        Some(('\u{c}', pos + 1))
    } else if c == 'r' {
        Some(('\r', pos + 1))
    } else if c == 'u' && total - pos >= 5 {
        proof {
            assert(s[1] == buf@[pos + 1] && s[2] == buf@[pos + 2] && s[3] == buf@[pos + 3] && s[4]
                == buf@[pos + 4]);
            assert(s.skip(5) =~= buf@.skip(pos + 5));
        }
        if buf[pos + 1] != '0' || buf[pos + 2] != '0' {
            return None;
        }
        let high = hex_digit_value(buf[pos + 3])?;
        let low = hex_digit_value(buf[pos + 4])?;
        let code = high * 16 + low;
        if (code < 0x20 || code == 0x7f) && code != 0x08 && code != 0x09 && code != 0x0a && code
            != 0x0c && code != 0x0d {
            Some((code as char, pos + 5))
        } else {
            None
        }
    } else {
        None
    }
}

/// Reads a JSON string at `pos`.
pub fn take_json_string(buf: &Vec<char>, pos: usize) -> (read: Option<(String, usize)>)
    requires
        pos <= buf@.len(),
    ensures
        match read {
            Some((text, next)) => pos <= next <= buf@.len() && parse_json_string(
                buf@.skip(pos as int),
            ) == Some((text@, buf@.skip(next as int))),
            None => parse_json_string(buf@.skip(pos as int)).is_none(),
        },
{
    let total = buf.len();
    if pos >= total || buf[pos] != '"' {
        proof {
            if pos < total {
                assert(buf@.skip(pos as int)[0] == buf@[pos as int]);
            }
        }
        return None;
    }
    proof {
        assert(buf@.skip(pos as int)[0] == buf@[pos as int]);
        assert(buf@.skip(pos as int).skip(1) =~= buf@.skip(pos + 1));
    }
    let mut text = String::new();
    let mut at = pos + 1;
    while at < total
        invariant
            pos < at <= total,
            total == buf@.len(),
            parse_json_string(buf@.skip(pos as int)) == parse_chars(
                buf@.skip(at as int),
                text@,
            ),
        decreases total - at,
    {
        let ghost s = buf@.skip(at as int);
        proof {
            assert(s[0] == buf@[at as int]);
            assert(s.skip(1) =~= buf@.skip(at + 1));
        }
        let c = buf[at];
        let code = c as u32;
        if c == '"' {
            return Some((text, at + 1));
        } else if c == '\\' {
            match take_escape(buf, at + 1) {
                Some((escaped, next)) => {
                    push_char(&mut text, escaped);
                    at = next;
                },
                None => {
                    return None;
                },
            }
        } else if code < 0x20 || code == 0x7f {
            return None;
        } else {
            push_char(&mut text, c);
            at += 1;
        }
    }
    None
}

/// The value of a decimal digit.
pub open spec fn digit_value(c: char) -> nat {
    (c as u32 - 0x30) as nat
}

/// The number that the digits at the start of `s` continue from `value`, and what follows
/// the digits.
pub open spec fn parse_digits(s: Seq<char>, value: nat) -> (nat, Seq<char>)
    decreases s.len(),
{
    if s.len() > 0 && is_digit(s[0]) {
        parse_digits(s.skip(1), value * 10 + digit_value(s[0]))
    } else {
        (value, s)
    }
}

/// A number in decimal at the start of `s`, and what follows it. A zero in front of
/// another digit gives nothing.
pub open spec fn parse_decimal(s: Seq<char>) -> Option<(nat, Seq<char>)> {
    if s.len() > 0 && is_digit(s[0]) {
        if s[0] == '0' && s.len() > 1 && is_digit(s[1]) {
            None
        } else {
            Some(parse_digits(s, 0))
        }
    } else {
        None
    }
}

/// A number of `limit` at most at the start of `s`, and what follows it.
pub open spec fn parse_number(s: Seq<char>, limit: nat) -> Option<(nat, Seq<char>)> {
    match parse_decimal(s) {
        Some((value, rest)) => if value <= limit {
            Some((value, rest))
        } else {
            None
        },
        None => None,
    }
}

/// A signed number that an `i64` holds at the start of `s`, and what follows it. A minus
/// in front of a zero gives nothing.
pub open spec fn parse_signed(s: Seq<char>) -> Option<(i64, Seq<char>)> {
    if s.len() > 0 && s[0] == '-' {
        match parse_decimal(s.skip(1)) {
            Some((value, rest)) => if 0 < value <= 0x8000_0000_0000_0000 {
                Some(((-(value as int)) as i64, rest))
            } else {
                None
            },
            None => None,
        }
    } else {
        match parse_decimal(s) {
            Some((value, rest)) => if value <= i64::MAX {
                Some((value as i64, rest))
            } else {
                None
            },
            None => None,
        }
    }
}

/// Digits never make a number smaller, and never make what follows longer.
pub proof fn lemma_parse_digits_grows(s: Seq<char>, value: nat)
    ensures
        parse_digits(s, value).0 >= value,
        parse_digits(s, value).1.len() <= s.len(),
    decreases s.len(),
{
    if s.len() > 0 && is_digit(s[0]) {
        lemma_parse_digits_grows(s.skip(1), value * 10 + digit_value(s[0]));
    }
}

/// The digits of a number, read from nothing, leave the number to go on from.
pub proof fn lemma_parse_digits_text(n: nat, tail: Seq<char>)
    ensures
        parse_digits(decimal_text(n) + tail, 0) == parse_digits(tail, n),
    decreases n,
{
    if n < 10 {
        let s = decimal_text(n) + tail;
        assert(s[0] == digit_char(n));
        assert(s.skip(1) =~= tail);
        assert(digit_value(digit_char(n)) == n);
    } else {
        let last = seq![digit_char(n % 10)] + tail;
        assert(decimal_text(n) + tail =~= decimal_text(n / 10) + last);
        lemma_parse_digits_text(n / 10, last);
        assert(last[0] == digit_char(n % 10));
        assert(last.skip(1) =~= tail);
        assert(digit_value(digit_char(n % 10)) == n % 10);
        assert((n / 10) * 10 + n % 10 == n);
    }
}

/// A number in decimal starts with a digit, which is a zero only for zero itself.
pub proof fn lemma_decimal_text_first(n: nat)
    ensures
        decimal_text(n).len() >= 1,
        is_digit(decimal_text(n)[0]),
        decimal_text(n)[0] == '0' <==> n == 0,
        n < 10 ==> decimal_text(n).len() == 1,
    decreases n,
{
    if n >= 10 {
        lemma_decimal_text_first(n / 10);
        assert(decimal_text(n)[0] == decimal_text(n / 10)[0]);
    }
}

/// Reading a number written in decimal gives the number, where no digit follows it.
pub proof fn lemma_parse_decimal(n: nat, rest: Seq<char>)
    requires
        rest.len() == 0 || !is_digit(rest[0]),
    ensures
        parse_decimal(decimal_text(n) + rest) == Some((n, rest)),
{
    lemma_decimal_text_first(n);
    lemma_parse_digits_text(n, rest);
    let s = decimal_text(n) + rest;
    assert(s[0] == decimal_text(n)[0]);
    if n == 0 && s.len() > 1 {
        assert(s[1] == rest[0]);
    }
}

/// Reads a number of `limit` at most at `pos`.
pub fn take_number(buf: &Vec<char>, pos: usize, limit: u64) -> (read: Option<(u64, usize)>)
    requires
        pos <= buf@.len(),
    ensures
        match read {
            Some((value, next)) => pos < next <= buf@.len() && value <= limit && parse_number(
                buf@.skip(pos as int),
                limit as nat,
            ) == Some((value as nat, buf@.skip(next as int))),
            None => parse_number(buf@.skip(pos as int), limit as nat).is_none(),
        },
{
    let total = buf.len();
    let ghost s = buf@.skip(pos as int);
    if pos >= total {
        return None;
    }
    proof {
        assert(s[0] == buf@[pos as int]);
    }
    let first = buf[pos] as u32;
    if !(0x30 <= first && first <= 0x39) {
        return None;
    }
    if buf[pos] == '0' && total - pos > 1 {
        proof {
            assert(s[1] == buf@[pos + 1]);
        }
        let second = buf[pos + 1] as u32;
        if 0x30 <= second && second <= 0x39 {
            return None;
        }
    }
    let mut value: u64 = 0;
    let mut at = pos;
    proof {
        assert(parse_decimal(s) == Some(parse_digits(s, 0)));
    }
    while at < total
        invariant
            pos <= at <= total,
            total == buf@.len(),
            value <= limit,
            parse_decimal(s) == Some(parse_digits(buf@.skip(at as int), value as nat)),
            s == buf@.skip(pos as int),
            at == pos ==> is_digit(buf@[pos as int]),
        decreases total - at,
    {
        let ghost here = buf@.skip(at as int);
        proof {
            assert(here[0] == buf@[at as int]);
            assert(here.skip(1) =~= buf@.skip(at + 1));
        }
        let code = buf[at] as u32;
        if !(0x30 <= code && code <= 0x39) {
            return Some((value, at));
        }
        let next = value as u128 * 10 + (code - 0x30) as u128;
        if next > limit as u128 {
            proof {
                lemma_parse_digits_grows(here.skip(1), next as nat);
            }
            return None;
        }
        value = next as u64;
        at += 1;
    }
    proof {
        assert(buf@.skip(total as int).len() == 0);
    }
    Some((value, at))
}

/// Reads a signed number at `pos`.
pub fn take_signed(buf: &Vec<char>, pos: usize) -> (read: Option<(i64, usize)>)
    requires
        pos <= buf@.len(),
    ensures
        match read {
            Some((value, next)) => pos < next <= buf@.len() && parse_signed(buf@.skip(pos as int))
                == Some((value, buf@.skip(next as int))),
            None => parse_signed(buf@.skip(pos as int)).is_none(),
        },
{
    let total = buf.len();
    if pos < total && buf[pos] == '-' {
        proof {
            assert(buf@.skip(pos as int)[0] == buf@[pos as int]);
            assert(buf@.skip(pos as int).skip(1) =~= buf@.skip(pos + 1));
        }
        match take_number(buf, pos + 1, 0x8000_0000_0000_0000) {
            Some((value, next)) => {
                if value == 0 {
                    None
                } else if value == 0x8000_0000_0000_0000 {
                    Some((i64::MIN, next))
                } else {
                    Some((-(value as i64), next))
                }
            },
            None => {
                proof {
                    let after = buf@.skip(pos + 1);
                    match parse_decimal(after) {
                        Some((value, rest)) => {
                            assert(value > 0x8000_0000_0000_0000);
                        },
                        None => {},
                    }
                }
                None
            },
        }
    } else {
        proof {
            if pos < total {
                assert(buf@.skip(pos as int)[0] == buf@[pos as int]);
            }
        }
        match take_number(buf, pos, 0x7fff_ffff_ffff_ffff) {
            Some((value, next)) => Some((value as i64, next)),
            None => None,
        }
    }
}

/// Reading a signed number written in JSON gives the number, where no digit follows it.
pub proof fn lemma_parse_signed(value: i64, rest: Seq<char>)
    requires
        rest.len() == 0 || !is_digit(rest[0]),
    ensures
        parse_signed(json_signed(value) + rest) == Some((value, rest)),
{
    if value < 0 {
        let magnitude = (-value) as nat;
        let s = seq!['-'] + decimal_text(magnitude) + rest;
        assert(s[0] == '-');
        assert(s.skip(1) =~= decimal_text(magnitude) + rest);
        lemma_parse_decimal(magnitude, rest);
    } else {
        lemma_parse_decimal(value as nat, rest);
        lemma_decimal_text_first(value as nat);
        assert((decimal_text(value as nat) + rest)[0] == decimal_text(value as nat)[0]);
    }
}

/// What is left to read after a parsed item; nothing where the item did not parse.
pub open spec fn left_of<T>(parsed: Option<(T, Seq<char>)>) -> Seq<char> {
    match parsed {
        Some((_, rest)) => rest,
        None => Seq::empty(),
    }
}

/// `text` does not start with a digit.
pub open spec fn no_digit_first(text: Seq<char>) -> bool {
    text.len() == 0 || !is_digit(text[0])
}

/// A member of a JSON object whose value is a string: the label that names it, then the
/// string.
pub open spec fn parse_text_member(s: Seq<char>, label: Seq<char>) -> Option<
    (Seq<char>, Seq<char>),
> {
    match parse_label(s, label) {
        Some(rest) => parse_json_string(rest),
        None => None,
    }
}

/// A member of a JSON object whose value is a number of `limit` at most.
pub open spec fn parse_number_member(s: Seq<char>, label: Seq<char>, limit: nat) -> Option<
    (nat, Seq<char>),
> {
    match parse_label(s, label) {
        Some(rest) => parse_number(rest, limit),
        None => None,
    }
}

/// A member of a JSON object whose value is a signed number.
pub open spec fn parse_signed_member(s: Seq<char>, label: Seq<char>) -> Option<
    (i64, Seq<char>),
> {
    match parse_label(s, label) {
        Some(rest) => parse_signed(rest),
        None => None,
    }
}

/// Reading a label where it stands leaves what follows it.
pub proof fn lemma_parse_label(label: Seq<char>, rest: Seq<char>)
    ensures
        parse_label(label + rest, label) == Some(rest),
{
    let s = label + rest;
    assert(s.subrange(0, label.len() as int) =~= label);
    assert(s.skip(label.len() as int) =~= rest);
}

/// Reading a member that holds a text gives the text.
pub proof fn lemma_text_member(label: Seq<char>, text: Seq<char>, rest: Seq<char>)
    ensures
        parse_text_member(label + json_string(text) + rest, label) == Some((text, rest)),
{
    assert(label + json_string(text) + rest =~= label + (json_string(text) + rest));
    lemma_parse_label(label, json_string(text) + rest);
    lemma_parse_json_string(text, rest);
}

/// Reading a member that holds a number gives the number, where no digit follows it.
pub proof fn lemma_number_member(label: Seq<char>, value: nat, limit: nat, rest: Seq<char>)
    requires
        value <= limit,
        no_digit_first(rest),
    ensures
        parse_number_member(label + decimal_text(value) + rest, label, limit) == Some(
            (value, rest),
        ),
{
    assert(label + decimal_text(value) + rest =~= label + (decimal_text(value) + rest));
    lemma_parse_label(label, decimal_text(value) + rest);
    lemma_parse_decimal(value, rest);
}

/// Reading a member that holds a signed number gives the number, where no digit follows
/// it.
pub proof fn lemma_signed_member(label: Seq<char>, value: i64, rest: Seq<char>)
    requires
        no_digit_first(rest),
    ensures
        parse_signed_member(label + json_signed(value) + rest, label) == Some((value, rest)),
{
    assert(label + json_signed(value) + rest =~= label + (json_signed(value) + rest));
    lemma_parse_label(label, json_signed(value) + rest);
    lemma_parse_signed(value, rest);
}

/// Reads a member whose value is a string at `pos`.
pub fn take_text_member(buf: &Vec<char>, pos: usize, label: &str) -> (read: Option<
    (String, usize),
>)
    requires
        pos <= buf@.len(),
    ensures
        match read {
            Some((text, next)) => pos <= next <= buf@.len() && parse_text_member(
                buf@.skip(pos as int),
                label@,
            ) == Some((text@, buf@.skip(next as int))),
            None => parse_text_member(buf@.skip(pos as int), label@).is_none(),
        },
{
    match take_label(buf, pos, label) {
        Some(at) => take_json_string(buf, at),
        None => None,
    }
}

/// Reads a member whose value is a number of `limit` at most at `pos`.
pub fn take_number_member(buf: &Vec<char>, pos: usize, label: &str, limit: u64) -> (read: Option<
    (u64, usize),
>)
    requires
        pos <= buf@.len(),
    ensures
        match read {
            Some((value, next)) => pos <= next <= buf@.len() && value <= limit
                && parse_number_member(buf@.skip(pos as int), label@, limit as nat) == Some(
                (value as nat, buf@.skip(next as int)),
            ),
            None => parse_number_member(buf@.skip(pos as int), label@, limit as nat).is_none(),
        },
{
    match take_label(buf, pos, label) {
        Some(at) => take_number(buf, at, limit),
        None => None,
    }
}

/// Reads a member whose value is a signed number at `pos`.
pub fn take_signed_member(buf: &Vec<char>, pos: usize, label: &str) -> (read: Option<
    (i64, usize),
>)
    requires
        pos <= buf@.len(),
    ensures
        match read {
            Some((value, next)) => pos <= next <= buf@.len() && parse_signed_member(
                buf@.skip(pos as int),
                label@,
            ) == Some((value, buf@.skip(next as int))),
            None => parse_signed_member(buf@.skip(pos as int), label@).is_none(),
        },
{
    match take_label(buf, pos, label) {
        Some(at) => take_signed(buf, at),
        None => None,
    }
}

/// The bytes that follow the first in a JSON array, each behind a comma, added to `read`,
/// up to the closing bracket, and what follows the bracket.
pub open spec fn parse_more_bytes(s: Seq<char>, read: Seq<u8>) -> Option<(Seq<u8>, Seq<char>)>
    decreases s.len(),
{
    if s.len() == 0 {
        None
    } else if s[0] == ']' {
        Some((read, s.skip(1)))
    } else if s[0] == ',' {
        match parse_number(s.skip(1), 255) {
            Some((value, rest)) => if rest.len() < s.len() {
                parse_more_bytes(rest, read.push(value as u8))
            } else {
                None
            },
            None => None,
        }
    } else {
        None
    }
}

/// A JSON array of bytes at the start of `s`, and what follows it.
pub open spec fn parse_json_bytes(s: Seq<char>) -> Option<(Seq<u8>, Seq<char>)> {
    if s.len() >= 2 && s[0] == '[' {
        if s[1] == ']' {
            Some((Seq::empty(), s.skip(2)))
        } else {
            match parse_number(s.skip(1), 255) {
                Some((value, rest)) => parse_more_bytes(rest, seq![value as u8]),
                None => None,
            }
        }
    } else {
        None
    }
}

/// Bytes as numbers that each stand behind a comma.
pub open spec fn more_byte_items(bytes: Seq<u8>) -> Seq<char>
    decreases bytes.len(),
{
    if bytes.len() == 0 {
        Seq::empty()
    } else {
        seq![','] + decimal_text(bytes[0] as nat) + more_byte_items(bytes.skip(1))
    }
}

/// The numbers behind commas of a run of bytes with one more byte are those of the run,
/// a comma and the number of the byte.
pub proof fn lemma_more_byte_items_push(bytes: Seq<u8>, byte: u8)
    ensures
        more_byte_items(bytes.push(byte)) == more_byte_items(bytes) + seq![','] + decimal_text(
            byte as nat,
        ),
    decreases bytes.len(),
{
    if bytes.len() == 0 {
        assert(bytes.push(byte).skip(1) =~= Seq::<u8>::empty());
        assert(bytes.push(byte)[0] == byte);
        assert(more_byte_items(Seq::<u8>::empty()) =~= Seq::<char>::empty());
        assert(more_byte_items(bytes) =~= Seq::<char>::empty());
        assert(more_byte_items(bytes.push(byte)) =~= seq![','] + decimal_text(byte as nat)
            + more_byte_items(bytes.push(byte).skip(1)));
        assert(more_byte_items(bytes.push(byte)) =~= more_byte_items(bytes) + seq![',']
            + decimal_text(byte as nat));
    } else {
        lemma_more_byte_items_push(bytes.skip(1), byte);
        assert(bytes.push(byte).skip(1) =~= bytes.skip(1).push(byte));
        assert(more_byte_items(bytes.push(byte)) =~= more_byte_items(bytes) + seq![',']
            + decimal_text(byte as nat));
    }
}

/// The numbers of an array of bytes are the first number and then the others, each behind
/// a comma.
pub proof fn lemma_byte_items_front(bytes: Seq<u8>)
    requires
        bytes.len() > 0,
    ensures
        json_byte_items(bytes) == decimal_text(bytes[0] as nat) + more_byte_items(bytes.skip(1)),
    decreases bytes.len(),
{
    if bytes.len() == 1 {
        assert(bytes.skip(1) =~= Seq::<u8>::empty());
        assert(json_byte_items(bytes) =~= decimal_text(bytes[0] as nat) + more_byte_items(
            bytes.skip(1),
        ));
    } else {
        let front = bytes.drop_last();
        lemma_byte_items_front(front);
        lemma_more_byte_items_push(front.skip(1), bytes.last());
        assert(front.skip(1).push(bytes.last()) =~= bytes.skip(1));
        assert(json_byte_items(bytes) =~= decimal_text(bytes[0] as nat) + more_byte_items(
            bytes.skip(1),
        ));
    }
}

/// Reading bytes that each stand behind a comma, up to the closing bracket, gives the
/// bytes.
pub proof fn lemma_parse_more_bytes(bytes: Seq<u8>, rest: Seq<char>, read: Seq<u8>)
    ensures
        parse_more_bytes(more_byte_items(bytes) + seq![']'] + rest, read) == Some(
            (read + bytes, rest),
        ),
    decreases bytes.len(),
{
    let s = more_byte_items(bytes) + seq![']'] + rest;
    if bytes.len() == 0 {
        assert(s[0] == ']');
        assert(s.skip(1) =~= rest);
        assert(read + bytes =~= read);
    } else {
        let tail = more_byte_items(bytes.skip(1)) + seq![']'] + rest;
        assert(s =~= seq![','] + (decimal_text(bytes[0] as nat) + tail));
        assert(s[0] == ',');
        assert(s.skip(1) =~= decimal_text(bytes[0] as nat) + tail);
        assert(no_digit_first(tail)) by {
            if bytes.skip(1).len() == 0 {
                assert(tail[0] == ']');
            } else {
                assert(tail[0] == ',');
            }
        }
        lemma_parse_decimal(bytes[0] as nat, tail);
        lemma_decimal_text_first(bytes[0] as nat);
        lemma_parse_more_bytes(bytes.skip(1), rest, read.push(bytes[0]));
        assert(read.push(bytes[0]) + bytes.skip(1) =~= read + bytes);
    }
}

/// Reading bytes written as a JSON array gives the bytes.
pub proof fn lemma_parse_json_bytes(bytes: Seq<u8>, rest: Seq<char>)
    ensures
        parse_json_bytes(json_bytes(bytes) + rest) == Some((bytes, rest)),
{
    let s = json_bytes(bytes) + rest;
    assert(s[0] == '[');
    if bytes.len() == 0 {
        assert(s[1] == ']');
        assert(s.skip(2) =~= rest);
    } else {
        lemma_byte_items_front(bytes);
        let tail = more_byte_items(bytes.skip(1)) + seq![']'] + rest;
        assert(s.skip(1) =~= decimal_text(bytes[0] as nat) + tail);
        lemma_decimal_text_first(bytes[0] as nat);
        assert(s[1] == decimal_text(bytes[0] as nat)[0]);
        assert(no_digit_first(tail)) by {
            if bytes.skip(1).len() == 0 {
                assert(tail[0] == ']');
            } else {
                assert(tail[0] == ',');
            }
        }
        lemma_parse_decimal(bytes[0] as nat, tail);
        lemma_parse_more_bytes(bytes.skip(1), rest, seq![bytes[0]]);
        assert(seq![bytes[0]] + bytes.skip(1) =~= bytes);
    }
}

/// Reads a JSON array of bytes at `pos`.
pub fn take_json_bytes(buf: &Vec<char>, pos: usize) -> (read: Option<(Vec<u8>, usize)>)
    requires
        pos <= buf@.len(),
    ensures
        match read {
            Some((bytes, next)) => pos <= next <= buf@.len() && parse_json_bytes(
                buf@.skip(pos as int),
            ) == Some((bytes@, buf@.skip(next as int))),
            None => parse_json_bytes(buf@.skip(pos as int)).is_none(),
        },
{
    let total = buf.len();
    let ghost s = buf@.skip(pos as int);
    if total - pos < 2 {
        return None;
    }
    proof {
        assert(s[0] == buf@[pos as int] && s[1] == buf@[pos + 1]);
        assert(s.skip(2) =~= buf@.skip(pos + 2));
        assert(s.skip(1) =~= buf@.skip(pos + 1));
    }
    if buf[pos] != '[' {
        return None;
    }
    let mut bytes: Vec<u8> = Vec::new();
    if buf[pos + 1] == ']' {
        return Some((bytes, pos + 2));
    }
    let mut at = match take_number(buf, pos + 1, 255) {
        Some((value, next)) => {
            bytes.push(value as u8);
            next
        },
        None => {
            return None;
        },
    };
    proof {
        assert(bytes@ =~= seq![bytes@[0]]);
    }
    while at < total
        invariant
            pos < at <= total,
            total == buf@.len(),
            parse_json_bytes(buf@.skip(pos as int)) == parse_more_bytes(
                buf@.skip(at as int),
                bytes@,
            ),
        decreases total - at,
    {
        let ghost here = buf@.skip(at as int);
        proof {
            assert(here[0] == buf@[at as int]);
            assert(here.skip(1) =~= buf@.skip(at + 1));
        }
        if buf[at] == ']' {
            return Some((bytes, at + 1));
        }
        if buf[at] != ',' {
            return None;
        }
        match take_number(buf, at + 1, 255) {
            Some((value, next)) => {
                bytes.push(value as u8);
                at = next;
            },
            None => {
                return None;
            },
        }
    }
    None
}

/// The labels that stand behind a number start with a comma or close the object.
pub proof fn lemma_labels_behind_numbers()
    ensures
        ",\"gid\":"@.len() > 0 && ",\"gid\":"@[0] == ',',
        "}"@.len() > 0 && "}"@[0] == '}',
        ",\"mode\":"@.len() > 0 && ",\"mode\":"@[0] == ',',
        ",\"modified\":"@.len() > 0 && ",\"modified\":"@[0] == ',',
        ",\"local_content\":"@.len() > 0 && ",\"local_content\":"@[0] == ',',
        ",\"http_status_code\":"@.len() > 0 && ",\"http_status_code\":"@[0] == ',',
        ",\"http_response_time\":"@.len() > 0 && ",\"http_response_time\":"@[0] == ',',
        ",\"https_content\":"@.len() > 0 && ",\"https_content\":"@[0] == ',',
        ",\"https_status_code\":"@.len() > 0 && ",\"https_status_code\":"@[0] == ',',
        ",\"https_response_time\":"@.len() > 0 && ",\"https_response_time\":"@[0] == ',',
        ",\"entries\":["@.len() > 0 && ",\"entries\":["@[0] == ',',
{
    reveal_strlit(",\"gid\":");
    reveal_strlit("}");
    reveal_strlit(",\"mode\":");
    reveal_strlit(",\"modified\":");
    reveal_strlit(",\"local_content\":");
    reveal_strlit(",\"http_status_code\":");
    reveal_strlit(",\"http_response_time\":");
    reveal_strlit(",\"https_content\":");
    reveal_strlit(",\"https_status_code\":");
    reveal_strlit(",\"https_response_time\":");
    reveal_strlit(",\"entries\":[");
}

/// The account type of a name.
pub open spec fn account_type_of(name: Seq<char>) -> Option<AccountType> {
    if name == "Regular"@ {
        Some(AccountType::Regular)
    } else if name == "Reseller"@ {
        Some(AccountType::Reseller)
    } else if name == "Managed"@ {
        Some(AccountType::Managed)
    } else if name == "Admin"@ {
        Some(AccountType::Admin)
    } else {
        None
    }
}

/// The name of an account type stands for that account type.
pub proof fn lemma_account_type_of(account_type: AccountType)
    ensures
        account_type_of(account_type_name(account_type)) == Some(account_type),
{
    reveal_strlit("Regular");
    reveal_strlit("Reseller");
    reveal_strlit("Managed");
    reveal_strlit("Admin");
    assert("Regular"@[2] != "Reseller"@[2]);
    assert("Regular"@[0] != "Managed"@[0]);
    assert("Regular"@[0] != "Admin"@[0]);
    assert("Reseller"@[0] != "Managed"@[0]);
    assert("Reseller"@[0] != "Admin"@[0]);
    assert("Managed"@[0] != "Admin"@[0]);
}

/// An owner written as a JSON object at the start of `s`, and what follows it.
#[verifier::opaque]
pub open spec fn parse_owner_json(s: Seq<char>) -> Option<(OwnerView, Seq<char>)> {
    let name = parse_text_member(s, "{\"name\":"@);
    let account = parse_text_member(left_of(name), ",\"account_type\":"@);
    let origin = parse_text_member(left_of(account), ",\"origin\":"@);
    let uid = parse_number_member(left_of(origin), ",\"uid\":"@, u32::MAX as nat);
    let gid = parse_number_member(left_of(uid), ",\"gid\":"@, u32::MAX as nat);
    let close = parse_label(left_of(gid), "}"@);
    if name.is_some() && account.is_some() && account_type_of(account.unwrap().0).is_some()
        && origin.is_some() && uid.is_some() && gid.is_some() && close.is_some() {
        Some(
            (
                OwnerView {
                    name: name.unwrap().0,
                    account_type: account_type_of(account.unwrap().0).unwrap(),
                    origin: origin.unwrap().0,
                    uid: uid.unwrap().0 as u32,
                    gid: gid.unwrap().0 as u32,
                },
                close.unwrap(),
            ),
        )
    } else {
        None
    }
}

/// Reading an owner written as a JSON object gives the owner.
pub proof fn lemma_parse_owner_json(owner: OwnerView, rest: Seq<char>)
    ensures
        parse_owner_json(owner_json(owner) + rest) == Some((owner, rest)),
{
    reveal(parse_owner_json);
    reveal(owner_json);
    lemma_labels_behind_numbers();
    let r5 = "}"@ + rest;
    let r4 = ",\"gid\":"@ + decimal_text(owner.gid as nat) + r5;
    let r3 = ",\"uid\":"@ + decimal_text(owner.uid as nat) + r4;
    let r2 = ",\"origin\":"@ + json_string(owner.origin) + r3;
    let r1 = ",\"account_type\":"@ + json_string(account_type_name(owner.account_type)) + r2;
    assert(owner_json(owner) + rest =~= "{\"name\":"@ + json_string(owner.name) + r1);
    lemma_text_member("{\"name\":"@, owner.name, r1);
    lemma_text_member(",\"account_type\":"@, account_type_name(owner.account_type), r2);
    lemma_account_type_of(owner.account_type);
    lemma_text_member(",\"origin\":"@, owner.origin, r3);
    assert(r4[0] == ',');
    lemma_number_member(",\"uid\":"@, owner.uid as nat, u32::MAX as nat, r4);
    assert(r5[0] == '}');
    lemma_number_member(",\"gid\":"@, owner.gid as nat, u32::MAX as nat, r5);
    lemma_parse_label("}"@, rest);
}

/// Reads the account type that a name stands for.
fn account_type_named(name: &String) -> (account_type: Option<AccountType>)
    ensures
        account_type == account_type_of(name@),
{
    if *name == String::from_str("Regular") {
        Some(AccountType::Regular)
    } else if *name == String::from_str("Reseller") {
        Some(AccountType::Reseller)
    } else if *name == String::from_str("Managed") {
        Some(AccountType::Managed)
    } else if *name == String::from_str("Admin") {
        Some(AccountType::Admin)
    } else {
        None
    }
}

/// Reads an owner written as a JSON object at `pos`.
pub fn take_owner_json(buf: &Vec<char>, pos: usize) -> (read: Option<(Owner, usize)>)
    requires
        pos <= buf@.len(),
    ensures
        match read {
            Some((owner, next)) => pos <= next <= buf@.len() && parse_owner_json(
                buf@.skip(pos as int),
            ) == Some((owner@, buf@.skip(next as int))),
            None => parse_owner_json(buf@.skip(pos as int)).is_none(),
        },
{
    proof {
        reveal(parse_owner_json);
    }
    let (name, pos) = match take_text_member(buf, pos, "{\"name\":") {
        Some(read) => read,
        None => {
            return None;
        },
    };
    let (account, pos) = take_text_member(buf, pos, ",\"account_type\":")?;
    let account_type = account_type_named(&account)?;
    let (origin, pos) = take_text_member(buf, pos, ",\"origin\":")?;
    let (uid, pos) = take_number_member(buf, pos, ",\"uid\":", 0xffff_ffff)?;
    let (gid, pos) = take_number_member(buf, pos, ",\"gid\":", 0xffff_ffff)?;
    let pos = match take_label(buf, pos, "}") {
        Some(next) => next,
        None => {
            return None;
        },
    };
    Some((Owner { name, account_type, origin, uid: uid as u32, gid: gid as u32 }, pos))
}

/// The first members of a file entry at the start of `s`: path, hash, language and
/// encoding; and what follows them.
#[verifier::opaque]
pub open spec fn parse_file_names(s: Seq<char>) -> Option<
    ((Seq<char>, Seq<char>, Seq<char>, Seq<char>), Seq<char>),
> {
    let path = parse_text_member(s, "{\"path\":"@);
    let sha1 = parse_text_member(left_of(path), ",\"sha1\":"@);
    let lang = parse_text_member(left_of(sha1), ",\"lang\":"@);
    let encoding = parse_text_member(left_of(lang), ",\"encoding\":"@);
    if path.is_some() && sha1.is_some() && lang.is_some() && encoding.is_some() {
        Some(
            (
                (path.unwrap().0, sha1.unwrap().0, lang.unwrap().0, encoding.unwrap().0),
                left_of(encoding),
            ),
        )
    } else {
        None
    }
}

/// Reading the first members of a file entry gives them.
pub proof fn lemma_parse_file_names(file: FileEntryView, rest: Seq<char>)
    ensures
        parse_file_names(file_names_json(file) + rest) == Some(
            ((file.path, file.sha1, file.lang, file.encoding), rest),
        ),
{
    reveal(parse_file_names);
    reveal(file_names_json);
    let r3 = ",\"encoding\":"@ + json_string(file.encoding) + rest;
    let r2 = ",\"lang\":"@ + json_string(file.lang) + r3;
    let r1 = ",\"sha1\":"@ + json_string(file.sha1) + r2;
    assert(file_names_json(file) + rest =~= "{\"path\":"@ + json_string(file.path) + r1);
    lemma_text_member("{\"path\":"@, file.path, r1);
    lemma_text_member(",\"sha1\":"@, file.sha1, r2);
    lemma_text_member(",\"lang\":"@, file.lang, r3);
    lemma_text_member(",\"encoding\":"@, file.encoding, rest);
}

/// The last members of a file entry at the start of `s`: size, mode, age and retained
/// content; and what follows the brace that closes the object.
#[verifier::opaque]
pub open spec fn parse_file_stats(s: Seq<char>) -> Option<((i64, u32, i64, Seq<u8>), Seq<char>)> {
    let size = parse_signed_member(s, ",\"size\":"@);
    let mode = parse_number_member(left_of(size), ",\"mode\":"@, u32::MAX as nat);
    let modified = parse_signed_member(left_of(mode), ",\"modified\":"@);
    let content_label = parse_label(left_of(modified), ",\"local_content\":"@);
    let local_content = match content_label {
        Some(rest) => parse_json_bytes(rest),
        None => None,
    };
    let close = parse_label(left_of(local_content), "}"@);
    if size.is_some() && mode.is_some() && modified.is_some() && local_content.is_some()
        && close.is_some() {
        Some(
            (
                (
                    size.unwrap().0,
                    mode.unwrap().0 as u32,
                    modified.unwrap().0,
                    local_content.unwrap().0,
                ),
                close.unwrap(),
            ),
        )
    } else {
        None
    }
}

/// Reading the last members of a file entry gives them.
pub proof fn lemma_parse_file_stats(file: FileEntryView, rest: Seq<char>)
    ensures
        parse_file_stats(file_stats_json(file) + rest) == Some(
            ((file.size, file.mode, file.modified, file.local_content), rest),
        ),
{
    reveal(parse_file_stats);
    reveal(file_stats_json);
    lemma_labels_behind_numbers();
    let r4 = "}"@ + rest;
    let r3 = ",\"local_content\":"@ + json_bytes(file.local_content) + r4;
    let r2 = ",\"modified\":"@ + json_signed(file.modified) + r3;
    let r1 = ",\"mode\":"@ + decimal_text(file.mode as nat) + r2;
    assert(file_stats_json(file) + rest =~= ",\"size\":"@ + json_signed(file.size) + r1);
    assert(r1[0] == ',');
    lemma_signed_member(",\"size\":"@, file.size, r1);
    assert(r2[0] == ',');
    lemma_number_member(",\"mode\":"@, file.mode as nat, u32::MAX as nat, r2);
    assert(r3[0] == ',');
    lemma_signed_member(",\"modified\":"@, file.modified, r3);
    assert(r3 =~= ",\"local_content\":"@ + (json_bytes(file.local_content) + r4));
    lemma_parse_label(",\"local_content\":"@, json_bytes(file.local_content) + r4);
    lemma_parse_json_bytes(file.local_content, r4);
    lemma_parse_label("}"@, rest);
}

/// A file entry written as a JSON object at the start of `s`, and what follows it.
#[verifier::opaque]
pub open spec fn parse_file_json(s: Seq<char>) -> Option<(FileEntryView, Seq<char>)> {
    let names = parse_file_names(s);
    let owner_label = parse_label(left_of(names), ",\"owner\":"@);
    let owner = match owner_label {
        Some(rest) => parse_owner_json(rest),
        None => None,
    };
    let stats = parse_file_stats(left_of(owner));
    if names.is_some() && owner.is_some() && stats.is_some() {
        Some(
            (
                FileEntryView {
                    path: names.unwrap().0.0,
                    sha1: names.unwrap().0.1,
                    lang: names.unwrap().0.2,
                    encoding: names.unwrap().0.3,
                    owner: owner.unwrap().0,
                    size: stats.unwrap().0.0,
                    mode: stats.unwrap().0.1,
                    modified: stats.unwrap().0.2,
                    local_content: stats.unwrap().0.3,
                },
                left_of(stats),
            ),
        )
    } else {
        None
    }
}

/// Reading a file entry written as a JSON object gives the file entry.
pub proof fn lemma_parse_file_json(file: FileEntryView, rest: Seq<char>)
    ensures
        parse_file_json(file_json(file) + rest) == Some((file, rest)),
{
    reveal(parse_file_json);
    let r2 = file_stats_json(file) + rest;
    let r1 = ",\"owner\":"@ + (owner_json(file.owner) + r2);
    assert(file_json(file) + rest =~= file_names_json(file) + r1);
    lemma_parse_file_names(file, r1);
    lemma_parse_label(",\"owner\":"@, owner_json(file.owner) + r2);
    lemma_parse_owner_json(file.owner, r2);
    lemma_parse_file_stats(file, rest);
}

/// Reads a file entry written as a JSON object at `pos`.
pub fn take_file_json(buf: &Vec<char>, pos: usize) -> (read: Option<(FileEntry, usize)>)
    requires
        pos <= buf@.len(),
    ensures
        match read {
            Some((file, next)) => pos <= next <= buf@.len() && parse_file_json(
                buf@.skip(pos as int),
            ) == Some((file@, buf@.skip(next as int))),
            None => parse_file_json(buf@.skip(pos as int)).is_none(),
        },
{
    proof {
        reveal(parse_file_json);
        reveal(parse_file_stats);
        reveal(parse_file_names);
    }
    let (path, pos) = match take_text_member(buf, pos, "{\"path\":") {
        Some(read) => read,
        None => {
            return None;
        },
    };
    let (sha1, pos) = take_text_member(buf, pos, ",\"sha1\":")?;
    let (lang, pos) = take_text_member(buf, pos, ",\"lang\":")?;
    let (encoding, pos) = take_text_member(buf, pos, ",\"encoding\":")?;
    let pos = take_label(buf, pos, ",\"owner\":")?;
    let (owner, pos) = take_owner_json(buf, pos)?;
    let (size, pos) = take_signed_member(buf, pos, ",\"size\":")?;
    let (mode, pos) = take_number_member(buf, pos, ",\"mode\":", 0xffff_ffff)?;
    let (modified, pos) = take_signed_member(buf, pos, ",\"modified\":")?;
    let pos = take_label(buf, pos, ",\"local_content\":")?;
    let (local_content, pos) = take_json_bytes(buf, pos)?;
    let pos = match take_label(buf, pos, "}") {
        Some(next) => next,
        None => {
            return None;
        },
    };
    Some(
        (
            FileEntry {
                path,
                sha1,
                lang,
                encoding,
                owner,
                size,
                mode: mode as u32,
                modified,
                local_content,
            },
            pos,
        ),
    )
}

/// The results of the probe over HTTP at the start of `s`, as members of a JSON object,
/// and what follows them.
#[verifier::opaque]
pub open spec fn parse_http_json(s: Seq<char>) -> Option<(ProbeView, Seq<char>)> {
    let content = parse_text_member(s, ",\"http_content\":"@);
    let content_encoding = parse_text_member(left_of(content), ",\"http_content_encoding\":"@);
    let content_size = parse_number_member(
        left_of(content_encoding),
        ",\"http_content_size\":"@,
        usize::MAX as nat,
    );
    let status_code = parse_number_member(
        left_of(content_size),
        ",\"http_status_code\":"@,
        u32::MAX as nat,
    );
    let response_time = parse_number_member(
        left_of(status_code),
        ",\"http_response_time\":"@,
        u64::MAX as nat,
    );
    if content.is_some() && content_encoding.is_some() && content_size.is_some()
        && status_code.is_some() && response_time.is_some() {
        Some(
            (
                ProbeView {
                    content: content.unwrap().0,
                    content_encoding: content_encoding.unwrap().0,
                    content_size: content_size.unwrap().0 as usize,
                    status_code: status_code.unwrap().0 as u32,
                    response_time: response_time.unwrap().0 as u64,
                },
                left_of(response_time),
            ),
        )
    } else {
        None
    }
}

/// The results of the probe over HTTPS at the start of `s`, as members of a JSON object,
/// and what follows them.
#[verifier::opaque]
pub open spec fn parse_https_json(s: Seq<char>) -> Option<(ProbeView, Seq<char>)> {
    let content = parse_text_member(s, ",\"https_content\":"@);
    let content_encoding = parse_text_member(left_of(content), ",\"https_content_encoding\":"@);
    let content_size = parse_number_member(
        left_of(content_encoding),
        ",\"https_content_size\":"@,
        usize::MAX as nat,
    );
    let status_code = parse_number_member(
        left_of(content_size),
        ",\"https_status_code\":"@,
        u32::MAX as nat,
    );
    let response_time = parse_number_member(
        left_of(status_code),
        ",\"https_response_time\":"@,
        u64::MAX as nat,
    );
    if content.is_some() && content_encoding.is_some() && content_size.is_some()
        && status_code.is_some() && response_time.is_some() {
        Some(
            (
                ProbeView {
                    content: content.unwrap().0,
                    content_encoding: content_encoding.unwrap().0,
                    content_size: content_size.unwrap().0 as usize,
                    status_code: status_code.unwrap().0 as u32,
                    response_time: response_time.unwrap().0 as u64,
                },
                left_of(response_time),
            ),
        )
    } else {
        None
    }
}

/// Reading the results of the probe over HTTP gives them, where no digit follows them.
pub proof fn lemma_parse_http_json(entry: DomainEntryView, rest: Seq<char>)
    requires
        no_digit_first(rest),
    ensures
        parse_http_json(http_json(entry) + rest) == Some((http_probe(entry), rest)),
{
    reveal(parse_http_json);
    reveal(http_json);
    lemma_labels_behind_numbers();
    let r4 = ",\"http_response_time\":"@ + decimal_text(entry.http_response_time as nat) + rest;
    let r3 = ",\"http_status_code\":"@ + decimal_text(entry.http_status_code as nat) + r4;
    let r2 = ",\"http_content_size\":"@ + decimal_text(entry.http_content_size as nat) + r3;
    let r1 = ",\"http_content_encoding\":"@ + json_string(entry.http_content_encoding) + r2;
    assert(http_json(entry) + rest =~= ",\"http_content\":"@ + json_string(entry.http_content)
        + r1);
    lemma_text_member(",\"http_content\":"@, entry.http_content, r1);
    lemma_text_member(",\"http_content_encoding\":"@, entry.http_content_encoding, r2);
    assert(r3[0] == ',');
    lemma_number_member(
        ",\"http_content_size\":"@,
        entry.http_content_size as nat,
        usize::MAX as nat,
        r3,
    );
    assert(r4[0] == ',');
    lemma_number_member(
        ",\"http_status_code\":"@,
        entry.http_status_code as nat,
        u32::MAX as nat,
        r4,
    );
    lemma_number_member(
        ",\"http_response_time\":"@,
        entry.http_response_time as nat,
        u64::MAX as nat,
        rest,
    );
}

/// Reading the results of the probe over HTTPS gives them, where no digit follows them.
pub proof fn lemma_parse_https_json(entry: DomainEntryView, rest: Seq<char>)
    requires
        no_digit_first(rest),
    ensures
        parse_https_json(https_json(entry) + rest) == Some((https_probe(entry), rest)),
{
    reveal(parse_https_json);
    reveal(https_json);
    lemma_labels_behind_numbers();
    let r4 = ",\"https_response_time\":"@ + decimal_text(entry.https_response_time as nat) + rest;
    let r3 = ",\"https_status_code\":"@ + decimal_text(entry.https_status_code as nat) + r4;
    let r2 = ",\"https_content_size\":"@ + decimal_text(entry.https_content_size as nat) + r3;
    let r1 = ",\"https_content_encoding\":"@ + json_string(entry.https_content_encoding) + r2;
    assert(https_json(entry) + rest =~= ",\"https_content\":"@ + json_string(
        entry.https_content,
    ) + r1);
    lemma_text_member(",\"https_content\":"@, entry.https_content, r1);
    lemma_text_member(",\"https_content_encoding\":"@, entry.https_content_encoding, r2);
    assert(r3[0] == ',');
    lemma_number_member(
        ",\"https_content_size\":"@,
        entry.https_content_size as nat,
        usize::MAX as nat,
        r3,
    );
    assert(r4[0] == ',');
    lemma_number_member(
        ",\"https_status_code\":"@,
        entry.https_status_code as nat,
        u32::MAX as nat,
        r4,
    );
    lemma_number_member(
        ",\"https_response_time\":"@,
        entry.https_response_time as nat,
        u64::MAX as nat,
        rest,
    );
}

/// Reads the results of the probe over HTTP at `pos`.
fn take_http_json(buf: &Vec<char>, pos: usize) -> (read: Option<(ProbeFields, usize)>)
    requires
        pos <= buf@.len(),
    ensures
        match read {
            Some((probe, next)) => pos <= next <= buf@.len() && parse_http_json(
                buf@.skip(pos as int),
            ) == Some((probe@, buf@.skip(next as int))),
            None => parse_http_json(buf@.skip(pos as int)).is_none(),
        },
{
    proof {
        reveal(parse_http_json);
    }
    let (content, pos) = take_text_member(buf, pos, ",\"http_content\":")?;
    let (content_encoding, pos) = take_text_member(buf, pos, ",\"http_content_encoding\":")?;
    let (content_size, pos) = take_number_member(buf, pos, ",\"http_content_size\":", usize::MAX as u64)?;
    let (status_code, pos) = take_number_member(buf, pos, ",\"http_status_code\":", 0xffff_ffff)?;
    let (response_time, pos) = take_number_member(buf, pos, ",\"http_response_time\":", u64::MAX)?;
    Some(
        (
            ProbeFields {
                content,
                content_encoding,
                content_size: content_size as usize,
                status_code: status_code as u32,
                response_time,
            },
            pos,
        ),
    )
}

/// Reads the results of the probe over HTTPS at `pos`.
fn take_https_json(buf: &Vec<char>, pos: usize) -> (read: Option<(ProbeFields, usize)>)
    requires
        pos <= buf@.len(),
    ensures
        match read {
            Some((probe, next)) => pos <= next <= buf@.len() && parse_https_json(
                buf@.skip(pos as int),
            ) == Some((probe@, buf@.skip(next as int))),
            None => parse_https_json(buf@.skip(pos as int)).is_none(),
        },
{
    proof {
        reveal(parse_https_json);
    }
    let (content, pos) = take_text_member(buf, pos, ",\"https_content\":")?;
    let (content_encoding, pos) = take_text_member(buf, pos, ",\"https_content_encoding\":")?;
    let (content_size, pos) = take_number_member(buf, pos, ",\"https_content_size\":", usize::MAX as u64)?;
    let (status_code, pos) = take_number_member(buf, pos, ",\"https_status_code\":", 0xffff_ffff)?;
    let (response_time, pos) = take_number_member(buf, pos, ",\"https_response_time\":", u64::MAX)?;
    Some(
        (
            ProbeFields {
                content,
                content_encoding,
                content_size: content_size as usize,
                status_code: status_code as u32,
                response_time,
            },
            pos,
        ),
    )
}

/// A domain entry written as a JSON object at the start of `s`, and what follows it.
#[verifier::opaque]
pub open spec fn parse_entry_json(s: Seq<char>) -> Option<(DomainEntryView, Seq<char>)> {
    let name = parse_text_member(s, "{\"name\":"@);
    let request_path = parse_text_member(left_of(name), ",\"request_path\":"@);
    let file_label = parse_label(left_of(request_path), ",\"file\":"@);
    let file = match file_label {
        Some(rest) => parse_file_json(rest),
        None => None,
    };
    let http = parse_http_json(left_of(file));
    let https = parse_https_json(left_of(http));
    let close = parse_label(left_of(https), "}"@);
    if name.is_some() && request_path.is_some() && file.is_some() && http.is_some()
        && https.is_some() && close.is_some() {
        Some(
            (
                DomainEntryView {
                    name: name.unwrap().0,
                    request_path: request_path.unwrap().0,
                    file: file.unwrap().0,
                    http_content: http.unwrap().0.content,
                    http_content_encoding: http.unwrap().0.content_encoding,
                    http_content_size: http.unwrap().0.content_size,
                    http_status_code: http.unwrap().0.status_code,
                    http_response_time: http.unwrap().0.response_time,
                    https_content: https.unwrap().0.content,
                    https_content_encoding: https.unwrap().0.content_encoding,
                    https_content_size: https.unwrap().0.content_size,
                    https_status_code: https.unwrap().0.status_code,
                    https_response_time: https.unwrap().0.response_time,
                },
                close.unwrap(),
            ),
        )
    } else {
        None
    }
}

/// Reading a domain entry written as a JSON object gives the domain entry.
pub proof fn lemma_parse_entry_json(entry: DomainEntryView, rest: Seq<char>)
    ensures
        parse_entry_json(entry_json(entry) + rest) == Some((entry, rest)),
{
    reveal(parse_entry_json);
    reveal(entry_json);
    lemma_labels_behind_numbers();
    let r5 = "}"@ + rest;
    let r4 = https_json(entry) + r5;
    let r3 = http_json(entry) + r4;
    let r2 = ",\"file\":"@ + (file_json(entry.file) + r3);
    let r1 = ",\"request_path\":"@ + json_string(entry.request_path) + r2;
    assert(entry_json(entry) + rest =~= "{\"name\":"@ + json_string(entry.name) + r1);
    lemma_text_member("{\"name\":"@, entry.name, r1);
    lemma_text_member(",\"request_path\":"@, entry.request_path, r2);
    lemma_parse_label(",\"file\":"@, file_json(entry.file) + r3);
    lemma_parse_file_json(entry.file, r3);
    assert(no_digit_first(r4)) by {
        reveal(https_json);
        reveal_strlit(",\"https_content\":");
        assert(r4[0] == ',');
    }
    lemma_parse_http_json(entry, r4);
    assert(r5[0] == '}');
    lemma_parse_https_json(entry, r5);
    lemma_parse_label("}"@, rest);
}

/// Reads a domain entry written as a JSON object at `pos`.
pub fn take_entry_json(buf: &Vec<char>, pos: usize) -> (read: Option<(DomainEntry, usize)>)
    requires
        pos <= buf@.len(),
    ensures
        match read {
            Some((entry, next)) => pos <= next <= buf@.len() && parse_entry_json(
                buf@.skip(pos as int),
            ) == Some((entry@, buf@.skip(next as int))),
            None => parse_entry_json(buf@.skip(pos as int)).is_none(),
        },
{
    proof {
        reveal(parse_entry_json);
    }
    let (name, pos) = match take_text_member(buf, pos, "{\"name\":") {
        Some(read) => read,
        None => {
            return None;
        },
    };
    let (request_path, pos) = take_text_member(buf, pos, ",\"request_path\":")?;
    let pos = take_label(buf, pos, ",\"file\":")?;
    let (file, pos) = take_file_json(buf, pos)?;
    let (http, pos) = take_http_json(buf, pos)?;
    let (https, pos) = take_https_json(buf, pos)?;
    let pos = match take_label(buf, pos, "}") {
        Some(next) => next,
        None => {
            return None;
        },
    };
    Some(
        (
            DomainEntry {
                name,
                request_path,
                file,
                http_content: http.content,
                http_content_encoding: http.content_encoding,
                http_content_size: http.content_size,
                http_status_code: http.status_code,
                http_response_time: http.response_time,
                https_content: https.content,
                https_content_encoding: https.content_encoding,
                https_content_size: https.content_size,
                https_status_code: https.status_code,
                https_response_time: https.response_time,
            },
            pos,
        ),
    )
}

/// The domain entries that follow the first in a JSON array, each behind a comma, added
/// to `read`, up to the closing bracket, and what follows the bracket.
pub open spec fn parse_more_entries(s: Seq<char>, read: Seq<DomainEntryView>) -> Option<
    (Seq<DomainEntryView>, Seq<char>),
>
    decreases s.len(),
{
    if s.len() == 0 {
        None
    } else if s[0] == ']' {
        Some((read, s.skip(1)))
    } else if s[0] == ',' {
        match parse_entry_json(s.skip(1)) {
            Some((entry, rest)) => if rest.len() < s.len() {
                parse_more_entries(rest, read.push(entry))
            } else {
                None
            },
            None => None,
        }
    } else {
        None
    }
}

/// The domain entries of a JSON array at the start of `s`, which is the position behind
/// the opening bracket, up to the closing bracket, and what follows the bracket.
pub open spec fn parse_entries_json(s: Seq<char>) -> Option<(Seq<DomainEntryView>, Seq<char>)> {
    if s.len() > 0 && s[0] == ']' {
        Some((Seq::empty(), s.skip(1)))
    } else {
        match parse_entry_json(s) {
            Some((entry, rest)) => parse_more_entries(rest, seq![entry]),
            None => None,
        }
    }
}

/// Domain entries as JSON objects that each stand behind a comma.
pub open spec fn more_entry_items(entries: Seq<DomainEntryView>) -> Seq<char>
    decreases entries.len(),
{
    if entries.len() == 0 {
        Seq::empty()
    } else {
        seq![','] + entry_json(entries[0]) + more_entry_items(entries.skip(1))
    }
}

/// The objects behind commas of a run of entries with one more entry are those of the
/// run, a comma and the object of the entry.
pub proof fn lemma_more_entry_items_push(entries: Seq<DomainEntryView>, entry: DomainEntryView)
    ensures
        more_entry_items(entries.push(entry)) == more_entry_items(entries) + seq![',']
            + entry_json(entry),
    decreases entries.len(),
{
    if entries.len() == 0 {
        assert(entries.push(entry).skip(1) =~= Seq::<DomainEntryView>::empty());
        assert(entries.push(entry)[0] == entry);
        assert(more_entry_items(Seq::<DomainEntryView>::empty()) =~= Seq::<char>::empty());
        assert(more_entry_items(entries) =~= Seq::<char>::empty());
        assert(more_entry_items(entries.push(entry)) =~= seq![','] + entry_json(entry)
            + more_entry_items(entries.push(entry).skip(1)));
        assert(more_entry_items(entries.push(entry)) =~= more_entry_items(entries) + seq![',']
            + entry_json(entry));
    } else {
        lemma_more_entry_items_push(entries.skip(1), entry);
        assert(entries.push(entry).skip(1) =~= entries.skip(1).push(entry));
        assert(more_entry_items(entries.push(entry)) =~= more_entry_items(entries) + seq![',']
            + entry_json(entry));
    }
}

/// The objects of an array of domain entries are the first object and then the others,
/// each behind a comma.
pub proof fn lemma_entry_items_front(entries: Seq<DomainEntryView>)
    requires
        entries.len() > 0,
    ensures
        entry_items_json(entries) == entry_json(entries[0]) + more_entry_items(entries.skip(1)),
    decreases entries.len(),
{
    if entries.len() == 1 {
        assert(entries.skip(1) =~= Seq::<DomainEntryView>::empty());
        assert(entry_items_json(entries) =~= entry_json(entries[0]) + more_entry_items(
            entries.skip(1),
        ));
    } else {
        let front = entries.drop_last();
        lemma_entry_items_front(front);
        lemma_more_entry_items_push(front.skip(1), entries.last());
        assert(front.skip(1).push(entries.last()) =~= entries.skip(1));
        assert(entry_items_json(entries) =~= entry_json(entries[0]) + more_entry_items(
            entries.skip(1),
        ));
    }
}

/// A domain entry in JSON starts with a brace and is shorter than itself with anything
/// in front of it.
pub proof fn lemma_entry_json_first(entry: DomainEntryView)
    ensures
        entry_json(entry).len() > 0,
        entry_json(entry)[0] == '{',
{
    reveal(entry_json);
    reveal_strlit("{\"name\":");
    assert(entry_json(entry)[0] == "{\"name\":"@[0]);
}

/// Reading domain entries that each stand behind a comma, up to the closing bracket,
/// gives the entries.
pub proof fn lemma_parse_more_entries(
    entries: Seq<DomainEntryView>,
    rest: Seq<char>,
    read: Seq<DomainEntryView>,
)
    ensures
        parse_more_entries(more_entry_items(entries) + seq![']'] + rest, read) == Some(
            (read + entries, rest),
        ),
    decreases entries.len(),
{
    let s = more_entry_items(entries) + seq![']'] + rest;
    if entries.len() == 0 {
        assert(s[0] == ']');
        assert(s.skip(1) =~= rest);
        assert(read + entries =~= read);
    } else {
        let tail = more_entry_items(entries.skip(1)) + seq![']'] + rest;
        assert(s =~= seq![','] + (entry_json(entries[0]) + tail));
        assert(s[0] == ',');
        assert(s.skip(1) =~= entry_json(entries[0]) + tail);
        lemma_parse_entry_json(entries[0], tail);
        lemma_parse_more_entries(entries.skip(1), rest, read.push(entries[0]));
        assert(read.push(entries[0]) + entries.skip(1) =~= read + entries);
    }
}

/// Reading domain entries written as the objects of a JSON array gives the entries.
pub proof fn lemma_parse_entries_json(entries: Seq<DomainEntryView>, rest: Seq<char>)
    ensures
        parse_entries_json(entry_items_json(entries) + seq![']'] + rest) == Some((entries, rest)),
{
    let s = entry_items_json(entries) + seq![']'] + rest;
    if entries.len() == 0 {
        assert(s[0] == ']');
        assert(s.skip(1) =~= rest);
    } else {
        lemma_entry_items_front(entries);
        lemma_entry_json_first(entries[0]);
        let tail = more_entry_items(entries.skip(1)) + seq![']'] + rest;
        assert(s =~= entry_json(entries[0]) + tail);
        assert(s[0] == '{');
        lemma_parse_entry_json(entries[0], tail);
        lemma_parse_more_entries(entries.skip(1), rest, seq![entries[0]]);
        assert(seq![entries[0]] + entries.skip(1) =~= entries);
    }
}

/// Reads the domain entries of a JSON array at `pos`, the position behind the opening
/// bracket.
pub fn take_entries_json(buf: &Vec<char>, pos: usize) -> (read: Option<(Vec<DomainEntry>, usize)>)
    requires
        pos <= buf@.len(),
    ensures
        match read {
            Some((entries, next)) => pos <= next <= buf@.len() && parse_entries_json(
                buf@.skip(pos as int),
            ) == Some((entry_views(entries@), buf@.skip(next as int))),
            None => parse_entries_json(buf@.skip(pos as int)).is_none(),
        },
{
    let total = buf.len();
    let mut entries: Vec<DomainEntry> = Vec::new();
    proof {
        if pos < total {
            assert(buf@.skip(pos as int)[0] == buf@[pos as int]);
            assert(buf@.skip(pos as int).skip(1) =~= buf@.skip(pos + 1));
        }
        assert(entry_views(entries@) =~= Seq::<DomainEntryView>::empty());
    }
    if pos < total && buf[pos] == ']' {
        return Some((entries, pos + 1));
    }
    let mut at = match take_entry_json(buf, pos) {
        Some((entry, next)) => {
            proof {
                assert(entry_views(entries@.push(entry)) =~= seq![entry@]);
            }
            entries.push(entry);
            next
        },
        None => {
            return None;
        },
    };
    while at < total
        invariant
            pos <= at <= total,
            total == buf@.len(),
            parse_entries_json(buf@.skip(pos as int)) == parse_more_entries(
                buf@.skip(at as int),
                entry_views(entries@),
            ),
        decreases total - at,
    {
        proof {
            assert(buf@.skip(at as int)[0] == buf@[at as int]);
            assert(buf@.skip(at as int).skip(1) =~= buf@.skip(at + 1));
        }
        if buf[at] == ']' {
            return Some((entries, at + 1));
        }
        if buf[at] != ',' {
            return None;
        }
        match take_entry_json(buf, at + 1) {
            Some((entry, next)) => {
                if next <= at {
                    return None;
                }
                proof {
                    assert(entry_views(entries@.push(entry)) =~= entry_views(entries@).push(
                        entry@,
                    ));
                }
                entries.push(entry);
                at = next;
            },
            None => {
                return None;
            },
        }
    }
    None
}

/// The member of a JSON object that holds a uuid: the label that names it, then the uuid
/// in its hyphenated form as a string.
pub open spec fn parse_uuid_member(s: Seq<char>, label: Seq<char>) -> Option<(u128, Seq<char>)> {
    match parse_text_member(s, label) {
        Some((text, rest)) => match parse_hyphenated(text) {
            Some(id) => Some((id, rest)),
            None => None,
        },
        None => None,
    }
}

/// The changeset that a JSON text holds, if it is the inspection form of one: the object
/// with the members uuid, parent, timestamp and entries in that order, written without
/// any space, and nothing behind it.
pub open spec fn parse_changeset_json(s: Seq<char>) -> Option<ChangesetView> {
    let uuid = parse_uuid_member(s, "{\"uuid\":"@);
    let parent = parse_uuid_member(left_of(uuid), ",\"parent\":"@);
    let timestamp = parse_number_member(left_of(parent), ",\"timestamp\":"@, u64::MAX as nat);
    let entries_label = parse_label(left_of(timestamp), ",\"entries\":["@);
    let entries = match entries_label {
        Some(rest) => parse_entries_json(rest),
        None => None,
    };
    let close = parse_label(left_of(entries), "}"@);
    if uuid.is_some() && parent.is_some() && timestamp.is_some() && entries.is_some()
        && close.is_some() && close.unwrap().len() == 0 {
        Some(
            ChangesetView {
                uuid: uuid.unwrap().0,
                parent: parent.unwrap().0,
                timestamp: timestamp.unwrap().0 as u64,
                entries: entries.unwrap().0,
            },
        )
    } else {
        None
    }
}

/// Reading the members of a changeset gives the changeset, where the two texts in the
/// place of the uuids spell its uuids.
proof fn lemma_parse_changeset_members(
    changeset: ChangesetView,
    uuid_text: Seq<char>,
    parent_text: Seq<char>,
)
    requires
        parse_hyphenated(uuid_text) == Some(changeset.uuid),
        parse_hyphenated(parent_text) == Some(changeset.parent),
    ensures
        parse_changeset_json(
            ("{\"uuid\":"@ + json_string(uuid_text) + ",\"parent\":"@ + json_string(parent_text)
                + ",\"timestamp\":"@ + decimal_text(changeset.timestamp as nat))
                + ",\"entries\":["@ + entry_items_json(changeset.entries) + "]}"@,
        ) == Some(changeset),
{
    lemma_labels_behind_numbers();
    reveal_strlit("]}");
    reveal_strlit("}");
    let text = ("{\"uuid\":"@ + json_string(uuid_text) + ",\"parent\":"@ + json_string(
        parent_text,
    ) + ",\"timestamp\":"@ + decimal_text(changeset.timestamp as nat)) + ",\"entries\":["@
        + entry_items_json(changeset.entries) + "]}"@;
    let r4 = "}"@;
    let r3 = entry_items_json(changeset.entries) + seq![']'] + r4;
    let r2 = ",\"entries\":["@ + r3;
    let r1 = ",\"timestamp\":"@ + decimal_text(changeset.timestamp as nat) + r2;
    let r0 = ",\"parent\":"@ + json_string(parent_text) + r1;
    assert("]}"@ =~= seq![']'] + "}"@);
    assert(text =~= "{\"uuid\":"@ + json_string(uuid_text) + r0);
    lemma_text_member("{\"uuid\":"@, uuid_text, r0);
    lemma_text_member(",\"parent\":"@, parent_text, r1);
    assert(r2[0] == ',');
    lemma_number_member(
        ",\"timestamp\":"@,
        changeset.timestamp as nat,
        u64::MAX as nat,
        r2,
    );
    lemma_parse_label(",\"entries\":["@, r3);
    lemma_parse_entries_json(changeset.entries, r4);
    assert(r4 =~= "}"@ + Seq::<char>::empty());
    lemma_parse_label("}"@, Seq::empty());
}

/// Round trip: the inspection form of a changeset holds that changeset.
pub proof fn lemma_json_round_trip(changeset: ChangesetView)
    ensures
        parse_changeset_json(changeset_json(changeset)) == Some(changeset),
{
    lemma_read_hyphenated(changeset.uuid);
    lemma_read_hyphenated(changeset.parent);
    lemma_parse_changeset_members(
        changeset,
        hyphenated(changeset.uuid),
        hyphenated(changeset.parent),
    );
}

/// Reads a member that holds a uuid at `pos`.
fn take_uuid_member(buf: &Vec<char>, pos: usize, label: &str) -> (read: Option<(u128, usize)>)
    requires
        pos <= buf@.len(),
    ensures
        match read {
            Some((id, next)) => pos <= next <= buf@.len() && parse_uuid_member(
                buf@.skip(pos as int),
                label@,
            ) == Some((id, buf@.skip(next as int))),
            None => parse_uuid_member(buf@.skip(pos as int), label@).is_none(),
        },
{
    match take_text_member(buf, pos, label) {
        Some((text, next)) => match read_hyphenated(text.as_str()) {
            Some(id) => Some((id, next)),
            None => None,
        },
        None => None,
    }
}

impl Changeset {
    /// Reads a changeset from its inspection form. Gives nothing for any other text.
    pub fn from_json(text: &str) -> (changeset: Option<Changeset>)
        ensures
            match changeset {
                Some(c) => parse_changeset_json(text@) == Some(c@),
                None => parse_changeset_json(text@).is_none(),
            },
    {
        let buf = chars_of(text);
        proof {
            assert(buf@.skip(0) =~= text@);
        }
        let (uuid, pos) = match take_uuid_member(&buf, 0, "{\"uuid\":") {
            Some(read) => read,
            None => {
                return None;
            },
        };
        let (parent, pos) = take_uuid_member(&buf, pos, ",\"parent\":")?;
        let (timestamp, pos) = take_number_member(&buf, pos, ",\"timestamp\":", u64::MAX)?;
        let pos = take_label(&buf, pos, ",\"entries\":[")?;
        let (entries, pos) = take_entries_json(&buf, pos)?;
        let pos = match take_label(&buf, pos, "}") {
            Some(next) => next,
            None => {
                return None;
            },
        };
        if pos != buf.len() {
            return None;
        }
        Some(Changeset { uuid, parent, timestamp, entries })
    }
}

} // verus!
