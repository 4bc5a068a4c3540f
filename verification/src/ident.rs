//! Uuids as 128-bit numbers: their hyphenated text, written and read, and what the `uuid`
//! crate makes and reads.

use vstd::prelude::*;
use crate::base::{root_failed_no_uuud_given_uuid, root_failed_parse_from_string_to_uuid_uuid};
use crate::base::{ROOT_FAILED_NO_UUID_GIVEN, ROOT_FAILED_PARSE_UUID, ROOT_UUID};
use crate::text::{
    chars_of, hex_char, hex_digit_value, hex_text, hex_value, lemma_hex_value, push_char,
    string_of, to_hex,
};

verus! {

/// The uuid that the `uuid` crate reads from `text`, as a 128-bit number, if it reads one.
pub uninterp spec fn uuid_of_text(text: Seq<char>) -> Option<u128>;

/// The bits of a uuid that hold its version and its variant.
pub const VERSION_AND_VARIANT_BITS: u128 = 0x0000_0000_0000_f000_c000_0000_0000_0000;

/// What the version and variant bits of a random uuid hold: version four, and the variant
/// of RFC 4122.
pub const RANDOM_UUID_BITS: u128 = 0x0000_0000_0000_4000_8000_0000_0000_0000;

/// A uuid that is marked as a random one: of version four and of the variant of RFC 4122.
pub open spec fn is_random_uuid(id: u128) -> bool {
    id & VERSION_AND_VARIANT_BITS == RANDOM_UUID_BITS
}

/// `Uuid::new_v4` of the `uuid` crate: a random uuid. Of its value only the version and
/// variant bits are known, which the crate sets whatever the random bits are.
#[verifier::external_body]
pub(crate) fn random_uuid() -> (id: u128)
    ensures
        is_random_uuid(id),
{
    uuid::Uuid::new_v4().as_u128()
}

/// A uuid that is marked as a random one is not the nil uuid.
pub proof fn lemma_random_uuid_not_nil(id: u128)
    requires
        is_random_uuid(id),
    ensures
        id != 0,
{
    assert(id & 0x0000_0000_0000_f000_c000_0000_0000_0000u128
        == 0x0000_0000_0000_4000_8000_0000_0000_0000u128 ==> id != 0) by (bit_vector);
}

/// `Uuid::parse_str` of the `uuid` crate: the uuid that `text` spells in one of the forms
/// the crate writes, nothing for any other text.
#[verifier::external_body]
fn parse_uuid_text(text: &str) -> (id: Option<u128>)
    ensures
        id == uuid_of_text(text@),
{
    match uuid::Uuid::parse_str(text) {
        Ok(id) => Some(id.as_u128()),
        Err(_) => None,
    }
}

/// The sixteen bytes of a uuid, highest first.
pub open spec fn uuid_bytes(id: u128) -> Seq<u8> {
    seq![
        ((id >> 120) & 0xff) as u8,
        ((id >> 112) & 0xff) as u8,
        ((id >> 104) & 0xff) as u8,
        ((id >> 96) & 0xff) as u8,
        ((id >> 88) & 0xff) as u8,
        ((id >> 80) & 0xff) as u8,
        ((id >> 72) & 0xff) as u8,
        ((id >> 64) & 0xff) as u8,
        ((id >> 56) & 0xff) as u8,
        ((id >> 48) & 0xff) as u8,
        ((id >> 40) & 0xff) as u8,
        ((id >> 32) & 0xff) as u8,
        ((id >> 24) & 0xff) as u8,
        ((id >> 16) & 0xff) as u8,
        ((id >> 8) & 0xff) as u8,
        (id & 0xff) as u8,
    ]
}

/// The uuid that sixteen bytes make, highest first.
pub open spec fn uuid_of_bytes(bytes: Seq<u8>) -> u128 {
    (bytes[0] as u128) << 120
        | (bytes[1] as u128) << 112
        | (bytes[2] as u128) << 104
        | (bytes[3] as u128) << 96
        | (bytes[4] as u128) << 88
        | (bytes[5] as u128) << 80
        | (bytes[6] as u128) << 72
        | (bytes[7] as u128) << 64
        | (bytes[8] as u128) << 56
        | (bytes[9] as u128) << 48
        | (bytes[10] as u128) << 40
        | (bytes[11] as u128) << 32
        | (bytes[12] as u128) << 24
        | (bytes[13] as u128) << 16
        | (bytes[14] as u128) << 8
        | (bytes[15] as u128)
}

/// The sixteen bytes of a uuid make that uuid.
pub proof fn lemma_uuid_bytes(id: u128)
    ensures
        uuid_bytes(id).len() == 16,
        uuid_of_bytes(uuid_bytes(id)) == id,
{
    assert({
        &&& (id >> 120) & 0xff < 256
        &&& (id >> 112) & 0xff < 256
        &&& (id >> 104) & 0xff < 256
        &&& (id >> 96) & 0xff < 256
        &&& (id >> 88) & 0xff < 256
        &&& (id >> 80) & 0xff < 256
        &&& (id >> 72) & 0xff < 256
        &&& (id >> 64) & 0xff < 256
        &&& (id >> 56) & 0xff < 256
        &&& (id >> 48) & 0xff < 256
        &&& (id >> 40) & 0xff < 256
        &&& (id >> 32) & 0xff < 256
        &&& (id >> 24) & 0xff < 256
        &&& (id >> 16) & 0xff < 256
        &&& (id >> 8) & 0xff < 256
        &&& (id >> 0) & 0xff < 256
    }) by (bit_vector);
    assert(id == (
        ((id >> 120) & 0xff) << 120
        |         ((id >> 112) & 0xff) << 112
        |         ((id >> 104) & 0xff) << 104
        |         ((id >> 96) & 0xff) << 96
        |         ((id >> 88) & 0xff) << 88
        |         ((id >> 80) & 0xff) << 80
        |         ((id >> 72) & 0xff) << 72
        |         ((id >> 64) & 0xff) << 64
        |         ((id >> 56) & 0xff) << 56
        |         ((id >> 48) & 0xff) << 48
        |         ((id >> 40) & 0xff) << 40
        |         ((id >> 32) & 0xff) << 32
        |         ((id >> 24) & 0xff) << 24
        |         ((id >> 16) & 0xff) << 16
        |         ((id >> 8) & 0xff) << 8
        | (id & 0xff))) by (bit_vector);
    assert(id & 0xff == (id >> 0) & 0xff) by (bit_vector);
}

/// Thirty-two digits in groups of eight, four, four, four and twelve with a hyphen
/// between them.
pub open spec fn hyphenate(digits: Seq<char>) -> Seq<char> {
    digits.subrange(0, 8) + seq!['-'] + digits.subrange(8, 12) + seq!['-'] + digits.subrange(
        12,
        16,
    ) + seq!['-'] + digits.subrange(16, 20) + seq!['-'] + digits.subrange(20, 32)
}

/// The hyphenated form of a uuid: its bytes, highest first, in lower-case hexadecimal,
/// with hyphens behind the fourth, sixth, eighth and tenth byte.
pub open spec fn hyphenated(id: u128) -> Seq<char> {
    hyphenate(hex_text(uuid_bytes(id)))
}

/// The digits of a text in hyphenated form, if it has the length and the hyphens of one.
pub open spec fn unhyphenated(text: Seq<char>) -> Option<Seq<char>> {
    if text.len() == 36 && text[8] == '-' && text[13] == '-' && text[18] == '-' && text[23]
        == '-' {
        Some(
            text.subrange(0, 8) + text.subrange(9, 13) + text.subrange(14, 18) + text.subrange(
                19,
                23,
            ) + text.subrange(24, 36),
        )
    } else {
        None
    }
}

/// The bytes that pairs of lower-case hexadecimal digits spell, if all are such digits.
pub open spec fn hex_bytes(digits: Seq<char>) -> Option<Seq<u8>> {
    if digits.len() % 2 == 0 && forall|i: int|
        0 <= i < digits.len() ==> hex_value(#[trigger] digits[i]).is_some() {
        Some(
            Seq::new(
                digits.len() / 2,
                |i: int|
                    (hex_value(digits[2 * i]).unwrap() * 16 + hex_value(
                        digits[2 * i + 1],
                    ).unwrap()) as u8,
            ),
        )
    } else {
        None
    }
}

/// The uuid that a text in hyphenated lower-case form spells; nothing for any other text.
pub open spec fn parse_hyphenated(text: Seq<char>) -> Option<u128> {
    match unhyphenated(text) {
        Some(digits) => match hex_bytes(digits) {
            Some(bytes) => Some(uuid_of_bytes(bytes)),
            None => None,
        },
        None => None,
    }
}

/// The digits of bytes written in hexadecimal spell the bytes.
pub proof fn lemma_hex_bytes(bytes: Seq<u8>)
    ensures
        hex_bytes(hex_text(bytes)) == Some(bytes),
{
    let digits = hex_text(bytes);
    assert forall|i: int| 0 <= i < digits.len() implies hex_value(#[trigger] digits[i]).is_some() by {
        lemma_hex_value(bytes[i / 2] / 16);
        lemma_hex_value(bytes[i / 2] % 16);
    }
    let read = hex_bytes(digits).unwrap();
    assert forall|i: int| 0 <= i < bytes.len() implies read[i] == bytes[i] by {
        lemma_hex_value(bytes[i] / 16);
        lemma_hex_value(bytes[i] % 16);
        assert(digits[2 * i] == hex_char(bytes[i] / 16));
        assert(digits[2 * i + 1] == hex_char(bytes[i] % 16));
    }
    assert(read =~= bytes);
}

/// Round trip: the hyphenated form of a uuid spells that uuid.
pub proof fn lemma_read_hyphenated(id: u128)
    ensures
        parse_hyphenated(hyphenated(id)) == Some(id),
{
    lemma_uuid_bytes(id);
    let bytes = uuid_bytes(id);
    let digits = hex_text(bytes);
    let text = hyphenate(digits);
    assert(unhyphenated(text).unwrap() =~= digits);
    lemma_hex_bytes(bytes);
}

/// The text of the root uuid, as it stands in the names of stored changesets.
pub proof fn lemma_root_uuid_text()
    ensures
        hyphenated(ROOT_UUID) == "4b84d962-ff55-4913-94fa-b20db7e1d2da"@,
{
    assert({
        &&& (0x4b84d962_ff55_4913_94fa_b20db7e1d2dau128 >> 120) & 0xff == 0x4b
        &&& (0x4b84d962_ff55_4913_94fa_b20db7e1d2dau128 >> 112) & 0xff == 0x84
        &&& (0x4b84d962_ff55_4913_94fa_b20db7e1d2dau128 >> 104) & 0xff == 0xd9
        &&& (0x4b84d962_ff55_4913_94fa_b20db7e1d2dau128 >> 96) & 0xff == 0x62
        &&& (0x4b84d962_ff55_4913_94fa_b20db7e1d2dau128 >> 88) & 0xff == 0xff
        &&& (0x4b84d962_ff55_4913_94fa_b20db7e1d2dau128 >> 80) & 0xff == 0x55
        &&& (0x4b84d962_ff55_4913_94fa_b20db7e1d2dau128 >> 72) & 0xff == 0x49
        &&& (0x4b84d962_ff55_4913_94fa_b20db7e1d2dau128 >> 64) & 0xff == 0x13
        &&& (0x4b84d962_ff55_4913_94fa_b20db7e1d2dau128 >> 56) & 0xff == 0x94
        &&& (0x4b84d962_ff55_4913_94fa_b20db7e1d2dau128 >> 48) & 0xff == 0xfa
        &&& (0x4b84d962_ff55_4913_94fa_b20db7e1d2dau128 >> 40) & 0xff == 0xb2
        &&& (0x4b84d962_ff55_4913_94fa_b20db7e1d2dau128 >> 32) & 0xff == 0x0d
        &&& (0x4b84d962_ff55_4913_94fa_b20db7e1d2dau128 >> 24) & 0xff == 0xb7
        &&& (0x4b84d962_ff55_4913_94fa_b20db7e1d2dau128 >> 16) & 0xff == 0xe1
        &&& (0x4b84d962_ff55_4913_94fa_b20db7e1d2dau128 >> 8) & 0xff == 0xd2
        &&& 0x4b84d962_ff55_4913_94fa_b20db7e1d2dau128 & 0xff == 0xda
    }) by (bit_vector);
    assert(uuid_bytes(ROOT_UUID) =~= seq![
        0x4bu8, 0x84u8, 0xd9u8, 0x62u8, 0xffu8, 0x55u8, 0x49u8, 0x13u8, 0x94u8, 0xfau8, 0xb2u8,
        0x0du8, 0xb7u8, 0xe1u8, 0xd2u8, 0xdau8,
    ]);
    reveal_strlit("4b84d962-ff55-4913-94fa-b20db7e1d2da");
    assert(hyphenated(ROOT_UUID) =~= "4b84d962-ff55-4913-94fa-b20db7e1d2da"@);
}

/// The sixteen bytes of a uuid, highest first.
pub fn bytes_of_uuid(id: u128) -> (bytes: Vec<u8>)
    ensures
        bytes@ == uuid_bytes(id),
{
    let mut bytes: Vec<u8> = Vec::new();
    bytes.push(#[verifier::truncate] (((id >> 120) & 0xff) as u8));
    bytes.push(#[verifier::truncate] (((id >> 112) & 0xff) as u8));
    bytes.push(#[verifier::truncate] (((id >> 104) & 0xff) as u8));
    bytes.push(#[verifier::truncate] (((id >> 96) & 0xff) as u8));
    bytes.push(#[verifier::truncate] (((id >> 88) & 0xff) as u8));
    bytes.push(#[verifier::truncate] (((id >> 80) & 0xff) as u8));
    bytes.push(#[verifier::truncate] (((id >> 72) & 0xff) as u8));
    bytes.push(#[verifier::truncate] (((id >> 64) & 0xff) as u8));
    bytes.push(#[verifier::truncate] (((id >> 56) & 0xff) as u8));
    bytes.push(#[verifier::truncate] (((id >> 48) & 0xff) as u8));
    bytes.push(#[verifier::truncate] (((id >> 40) & 0xff) as u8));
    bytes.push(#[verifier::truncate] (((id >> 32) & 0xff) as u8));
    bytes.push(#[verifier::truncate] (((id >> 24) & 0xff) as u8));
    bytes.push(#[verifier::truncate] (((id >> 16) & 0xff) as u8));
    bytes.push(#[verifier::truncate] (((id >> 8) & 0xff) as u8));
    bytes.push(#[verifier::truncate] ((id & 0xff) as u8));
    proof {
        assert(bytes@ =~= uuid_bytes(id));
    }
    bytes
}

/// The uuid that sixteen bytes make, highest first.
pub fn uuid_from_bytes(bytes: &Vec<u8>) -> (id: u128)
    requires
        bytes@.len() == 16,
    ensures
        id == uuid_of_bytes(bytes@),
{
    (bytes[0] as u128) << 120
        | (bytes[1] as u128) << 112
        | (bytes[2] as u128) << 104
        | (bytes[3] as u128) << 96
        | (bytes[4] as u128) << 88
        | (bytes[5] as u128) << 80
        | (bytes[6] as u128) << 72
        | (bytes[7] as u128) << 64
        | (bytes[8] as u128) << 56
        | (bytes[9] as u128) << 48
        | (bytes[10] as u128) << 40
        | (bytes[11] as u128) << 32
        | (bytes[12] as u128) << 24
        | (bytes[13] as u128) << 16
        | (bytes[14] as u128) << 8
        | (bytes[15] as u128)
}

/// The hyphenated text of a uuid, as it stands in the names and in the inspection form
/// of stored changesets.
pub fn uuid_text(id: u128) -> (text: String)
    ensures
        text@ == hyphenated(id),
{
    let bytes = bytes_of_uuid(id);
    let digits = chars_of(to_hex(bytes.as_slice()).as_str());
    let mut text = string_of(&digits, 0, 8);
    push_char(&mut text, '-');
    text = text.concat(string_of(&digits, 8, 12).as_str());
    push_char(&mut text, '-');
    text = text.concat(string_of(&digits, 12, 16).as_str());
    push_char(&mut text, '-');
    text = text.concat(string_of(&digits, 16, 20).as_str());
    push_char(&mut text, '-');
    text = text.concat(string_of(&digits, 20, 32).as_str());
    proof {
        assert(text@ =~= hyphenate(digits@));
    }
    text
}

/// Appends the characters of `chars` from `from` up to `to` to `out`.
fn push_range(out: &mut Vec<char>, chars: &Vec<char>, from: usize, to: usize)
    requires
        from <= to <= chars@.len(),
    ensures
        final(out)@ == old(out)@ + chars@.subrange(from as int, to as int),
{
    let mut i: usize = from;
    while i < to
        invariant
            from <= i <= to <= chars@.len(),
            out@ == old(out)@ + chars@.subrange(from as int, i as int),
        decreases to - i,
    {
        out.push(chars[i]);
        proof {
            assert(out@ =~= old(out)@ + chars@.subrange(from as int, i + 1));
        }
        i += 1;
    }
}

/// Reads a uuid from its hyphenated lower-case text.
pub fn read_hyphenated(text: &str) -> (id: Option<u128>)
    ensures
        id == parse_hyphenated(text@),
{
    let chars = chars_of(text);
    if chars.len() != 36 || chars[8] != '-' || chars[13] != '-' || chars[18] != '-' || chars[23]
        != '-' {
        return None;
    }
    let mut digits: Vec<char> = Vec::new();
    push_range(&mut digits, &chars, 0, 8);
    push_range(&mut digits, &chars, 9, 13);
    push_range(&mut digits, &chars, 14, 18);
    push_range(&mut digits, &chars, 19, 23);
    push_range(&mut digits, &chars, 24, 36);
    proof {
        assert(digits@ =~= unhyphenated(text@).unwrap());
    }
    let mut bytes: Vec<u8> = Vec::new();
    let mut i: usize = 0;
    while i < 16
        invariant
            i <= 16,
            digits@.len() == 32,
            unhyphenated(text@) == Some(digits@),
            bytes@.len() == i,
            forall|j: int| 0 <= j < 2 * i ==> hex_value(#[trigger] digits@[j]).is_some(),
            forall|j: int|
                0 <= j < i ==> (#[trigger] bytes@[j]) == (hex_value(digits@[2 * j]).unwrap() * 16
                    + hex_value(digits@[2 * j + 1]).unwrap()) as u8,
        decreases 16 - i,
    {
        let high = hex_digit_value(digits[2 * i])?;
        let low = hex_digit_value(digits[2 * i + 1])?;
        bytes.push(high * 16 + low);
        i += 1;
    }
    proof {
        assert(bytes@ =~= hex_bytes(digits@).unwrap());
    }
    Some(uuid_from_bytes(&bytes))
}

/// The uuid that a request names: the one its text spells; the sentinel for an unreadable
/// uuid where the text spells none; the sentinel for a missing uuid where there is no text.
pub open spec fn requested_uuid(param: Option<Seq<char>>) -> u128 {
    match param {
        Some(text) => match uuid_of_text(text) {
            Some(id) => id,
            None => ROOT_FAILED_PARSE_UUID,
        },
        None => ROOT_FAILED_NO_UUID_GIVEN,
    }
}

/// The uuid that a request parameter names. The text may be in any form that the `uuid`
/// crate reads.
pub fn uuid_param(param: Option<&str>) -> (id: u128)
    ensures
        id == requested_uuid(
            match param {
                Some(text) => Some(text@),
                None => None,
            },
        ),
{
    match param {
        Some(text) => match parse_uuid_text(text) {
            Some(id) => id,
            None => root_failed_parse_from_string_to_uuid_uuid(),
        },
        None => root_failed_no_uuud_given_uuid(),
    }
}

} // verus!
