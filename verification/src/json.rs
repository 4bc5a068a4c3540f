//! The inspection form of a changeset: JSON text, written member by member.

use vstd::prelude::*;
use crate::ident::{hyphenated, uuid_text};
use crate::json_read::{lemma_json_round_trip, parse_changeset_json};
use crate::structs::{
    entry_views, AccountType, Changeset, ChangesetView, DomainEntry, DomainEntryView, FileEntry,
    FileEntryView, Owner, OwnerView,
};
use crate::text::{chars_of, decimal_text, hex_char, hex_digit, push_char, push_decimal};

verus! {

/// How one character stands inside a JSON string: the quote and the backslash behind a
/// backslash, the control characters that have a short form in that form, the other
/// control characters and DEL as `\u00` and two hexadecimal digits, every other character
/// as it is.
pub open spec fn escaped_char(c: char) -> Seq<char> {
    if c == '"' {
        seq!['\\', '"']
    } else if c == '\\' {
        seq!['\\', '\\']
    } else if c == '\u{8}' {
        seq!['\\', 'b']
    } else if c == '\t' {
        seq!['\\', 't']
    } else if c == '\n' {
        seq!['\\', 'n']
    } else if c == '\u{c}' {
        seq!['\\', 'f']
    } else if c == '\r' {
        seq!['\\', 'r']
    } else if (c as u32) < 0x20 || c as u32 == 0x7f {
        seq!['\\', 'u', '0', '0', hex_char((c as u32 / 16) as u8), hex_char((c as u32 % 16) as u8)]
    } else {
        seq![c]
    }
}

/// The characters of a text as they stand inside a JSON string.
pub open spec fn escaped(text: Seq<char>) -> Seq<char>
    decreases text.len(),
{
    if text.len() == 0 {
        Seq::empty()
    } else {
        escaped(text.drop_last()) + escaped_char(text.last())
    }
}

/// A text as a JSON string.
pub open spec fn json_string(text: Seq<char>) -> Seq<char> {
    seq!['"'] + escaped(text) + seq!['"']
}

/// A signed number in JSON.
pub open spec fn json_signed(value: i64) -> Seq<char> {
    if value < 0 {
        seq!['-'] + decimal_text((-value) as nat)
    } else {
        decimal_text(value as nat)
    }
}

/// Bytes as the numbers of a JSON array, without the brackets.
pub open spec fn json_byte_items(bytes: Seq<u8>) -> Seq<char>
    decreases bytes.len(),
{
    if bytes.len() == 0 {
        Seq::empty()
    } else if bytes.len() == 1 {
        decimal_text(bytes[0] as nat)
    } else {
        json_byte_items(bytes.drop_last()) + seq![','] + decimal_text(bytes.last() as nat)
    }
}

/// Bytes as a JSON array of numbers.
pub open spec fn json_bytes(bytes: Seq<u8>) -> Seq<char> {
    seq!['['] + json_byte_items(bytes) + seq![']']
}

/// The name of an account type.
pub open spec fn account_type_name(account_type: AccountType) -> Seq<char> {
    match account_type {
        AccountType::Regular => "Regular"@,
        AccountType::Reseller => "Reseller"@,
        AccountType::Managed => "Managed"@,
        AccountType::Admin => "Admin"@,
    }
}

/// An owner as a JSON object.
#[verifier::opaque]
pub open spec fn owner_json(owner: OwnerView) -> Seq<char> {
    "{\"name\":"@ + json_string(owner.name) + ",\"account_type\":"@ + json_string(
        account_type_name(owner.account_type),
    ) + ",\"origin\":"@ + json_string(owner.origin) + ",\"uid\":"@ + decimal_text(owner.uid as nat)
        + ",\"gid\":"@ + decimal_text(owner.gid as nat) + "}"@
}

/// The first members of a file entry in JSON: path, hash, language and encoding.
#[verifier::opaque]
pub open spec fn file_names_json(file: FileEntryView) -> Seq<char> {
    "{\"path\":"@ + json_string(file.path) + ",\"sha1\":"@ + json_string(file.sha1)
        + ",\"lang\":"@ + json_string(file.lang) + ",\"encoding\":"@ + json_string(file.encoding)
}

/// The last members of a file entry in JSON: size, mode, age, retained content and the
/// brace that closes the object.
#[verifier::opaque]
pub open spec fn file_stats_json(file: FileEntryView) -> Seq<char> {
    ",\"size\":"@ + json_signed(file.size) + ",\"mode\":"@ + decimal_text(file.mode as nat)
        + ",\"modified\":"@ + json_signed(file.modified) + ",\"local_content\":"@ + json_bytes(
        file.local_content,
    ) + "}"@
}

/// A file entry as a JSON object.
pub open spec fn file_json(file: FileEntryView) -> Seq<char> {
    file_names_json(file) + ",\"owner\":"@ + owner_json(file.owner) + file_stats_json(file)
}

/// The results of the probe over HTTP as the members of a JSON object.
#[verifier::opaque]
pub open spec fn http_json(entry: DomainEntryView) -> Seq<char> {
    ",\"http_content\":"@ + json_string(entry.http_content) + ",\"http_content_encoding\":"@
        + json_string(entry.http_content_encoding) + ",\"http_content_size\":"@ + decimal_text(
        entry.http_content_size as nat,
    ) + ",\"http_status_code\":"@ + decimal_text(entry.http_status_code as nat)
        + ",\"http_response_time\":"@ + decimal_text(entry.http_response_time as nat)
}

/// The results of the probe over HTTPS as the members of a JSON object.
#[verifier::opaque]
pub open spec fn https_json(entry: DomainEntryView) -> Seq<char> {
    ",\"https_content\":"@ + json_string(entry.https_content) + ",\"https_content_encoding\":"@
        + json_string(entry.https_content_encoding) + ",\"https_content_size\":"@ + decimal_text(
        entry.https_content_size as nat,
    ) + ",\"https_status_code\":"@ + decimal_text(entry.https_status_code as nat)
        + ",\"https_response_time\":"@ + decimal_text(entry.https_response_time as nat)
}

/// The first members of a domain entry in JSON: name and request path.
pub open spec fn entry_names_json(entry: DomainEntryView) -> Seq<char> {
    "{\"name\":"@ + json_string(entry.name) + ",\"request_path\":"@ + json_string(
        entry.request_path,
    )
}

/// A domain entry as a JSON object.
#[verifier::opaque]
pub open spec fn entry_json(entry: DomainEntryView) -> Seq<char> {
    entry_names_json(entry) + ",\"file\":"@ + file_json(entry.file) + http_json(entry)
        + https_json(entry) + "}"@
}

/// Domain entries as the objects of a JSON array, without the brackets.
pub open spec fn entry_items_json(entries: Seq<DomainEntryView>) -> Seq<char>
    decreases entries.len(),
{
    if entries.len() == 0 {
        Seq::empty()
    } else if entries.len() == 1 {
        entry_json(entries[0])
    } else {
        entry_items_json(entries.drop_last()) + seq![','] + entry_json(entries.last())
    }
}

/// The first members of a changeset in JSON: uuid, parent and timestamp.
pub open spec fn changeset_head_json(changeset: ChangesetView) -> Seq<char> {
    "{\"uuid\":"@ + json_string(hyphenated(changeset.uuid)) + ",\"parent\":"@ + json_string(
        hyphenated(changeset.parent),
    ) + ",\"timestamp\":"@ + decimal_text(changeset.timestamp as nat)
}

/// A changeset as a JSON object: the inspection form of a stored changeset.
pub open spec fn changeset_json(changeset: ChangesetView) -> Seq<char> {
    changeset_head_json(changeset) + ",\"entries\":["@ + entry_items_json(changeset.entries)
        + "]}"@
}

/// Appends a character to `out` as it stands inside a JSON string.
fn push_escaped_char(out: &mut String, c: char)
    ensures
        final(out)@ == old(out)@ + escaped_char(c),
{
    let code = c as u32;
    if c == '"' {
        push_char(out, '\\');
        push_char(out, '"');
    } else if c == '\\' {
        push_char(out, '\\');
        push_char(out, '\\');
    } else if c == '\u{8}' {
        push_char(out, '\\');
        push_char(out, 'b');
    } else if c == '\t' {
        push_char(out, '\\');
        push_char(out, 't');
    } else if c == '\n' {
        push_char(out, '\\');
        push_char(out, 'n');
    } else if c == '\u{c}' {
        push_char(out, '\\');
        push_char(out, 'f');
    } else if c == '\r' {
        push_char(out, '\\');
        push_char(out, 'r');
    } else if code < 0x20 || code == 0x7f {
        push_char(out, '\\');
        push_char(out, 'u');
        push_char(out, '0');
        push_char(out, '0');
        push_char(out, hex_digit((code / 16) as u8));
        push_char(out, hex_digit((code % 16) as u8));
    } else {
        push_char(out, c);
    }
    proof {
        assert(out@ =~= old(out)@ + escaped_char(c));
    }
}

/// Appends a text to `out` as a JSON string.
pub fn push_json_string(out: &mut String, text: &str)
    ensures
        final(out)@ == old(out)@ + json_string(text@),
{
    let chars = chars_of(text);
    push_char(out, '"');
    let mut i: usize = 0;
    while i < chars.len()
        invariant
            i <= chars.len(),
            out@ == old(out)@ + seq!['"'] + escaped(chars@.take(i as int)),
        decreases chars.len() - i,
    {
        proof {
            assert(chars@.take(i + 1).drop_last() =~= chars@.take(i as int));
        }
        push_escaped_char(out, chars[i]);
        proof {
            assert(out@ =~= old(out)@ + seq!['"'] + escaped(chars@.take(i + 1)));
        }
        i += 1;
    }
    push_char(out, '"');
    proof {
        assert(chars@.take(chars@.len() as int) =~= chars@);
        assert(out@ =~= old(out)@ + json_string(text@));
    }
}

/// Appends a signed number to `out`.
pub fn push_json_signed(out: &mut String, value: i64)
    ensures
        final(out)@ == old(out)@ + json_signed(value),
{
    if value < 0 {
        push_char(out, '-');
        let magnitude: u64 = if value == i64::MIN {
            0x8000_0000_0000_0000
        } else {
            (-value) as u64
        };
        push_decimal(out, magnitude);
        proof {
            assert(out@ =~= old(out)@ + json_signed(value));
        }
    } else {
        push_decimal(out, value as u64);
    }
}

/// Appends bytes to `out` as a JSON array of numbers.
pub fn push_json_bytes(out: &mut String, bytes: &[u8])
    ensures
        final(out)@ == old(out)@ + json_bytes(bytes@),
{
    push_char(out, '[');
    let mut i: usize = 0;
    while i < bytes.len()
        invariant
            i <= bytes.len(),
            out@ == old(out)@ + seq!['['] + json_byte_items(bytes@.take(i as int)),
        decreases bytes.len() - i,
    {
        proof {
            assert(bytes@.take(i + 1).drop_last() =~= bytes@.take(i as int));
            assert(bytes@.take(i + 1).last() == bytes@[i as int]);
        }
        if i > 0 {
            push_char(out, ',');
        }
        push_decimal(out, bytes[i] as u64);
        proof {
            assert(out@ =~= old(out)@ + seq!['['] + json_byte_items(bytes@.take(i + 1)));
        }
        i += 1;
    }
    push_char(out, ']');
    proof {
        assert(bytes@.take(bytes@.len() as int) =~= bytes@);
        assert(out@ =~= old(out)@ + json_bytes(bytes@));
    }
}

/// Appends the member `,"key":` or `{"key":` that `label` spells, and a JSON string.
fn push_text_member(out: &mut String, label: &str, text: &str)
    ensures
        final(out)@ == old(out)@ + label@ + json_string(text@),
{
    out.append(label);
    push_json_string(out, text);
}

/// Appends the member that `label` spells, and a number.
fn push_number_member(out: &mut String, label: &str, value: u64)
    ensures
        final(out)@ == old(out)@ + label@ + decimal_text(value as nat),
{
    out.append(label);
    push_decimal(out, value);
}

/// Appends the member that `label` spells, and a signed number.
fn push_signed_member(out: &mut String, label: &str, value: i64)
    ensures
        final(out)@ == old(out)@ + label@ + json_signed(value),
{
    out.append(label);
    push_json_signed(out, value);
}

/// Appends an owner to `out` as a JSON object.
pub fn push_owner_json(out: &mut String, owner: &Owner)
    ensures
        final(out)@ == old(out)@ + owner_json(owner@),
{
    proof {
        reveal(owner_json);
    }
    let account_type = match owner.account_type {
        AccountType::Regular => "Regular",
        AccountType::Reseller => "Reseller",
        AccountType::Managed => "Managed",
        AccountType::Admin => "Admin",
    };
    push_text_member(out, "{\"name\":", owner.name.as_str());
    push_text_member(out, ",\"account_type\":", account_type);
    push_text_member(out, ",\"origin\":", owner.origin.as_str());
    push_number_member(out, ",\"uid\":", owner.uid as u64);
    push_number_member(out, ",\"gid\":", owner.gid as u64);
    out.append("}");
    proof {
        assert(out@ =~= old(out)@ + owner_json(owner@));
    }
}

/// Appends the first members of a file entry to `out`.
fn push_file_names_json(out: &mut String, file: &FileEntry)
    ensures
        final(out)@ == old(out)@ + file_names_json(file@),
{
    proof {
        reveal(file_names_json);
    }
    push_text_member(out, "{\"path\":", file.path.as_str());
    push_text_member(out, ",\"sha1\":", file.sha1.as_str());
    push_text_member(out, ",\"lang\":", file.lang.as_str());
    push_text_member(out, ",\"encoding\":", file.encoding.as_str());
    proof {
        assert(out@ =~= old(out)@ + file_names_json(file@));
    }
}

/// Appends the last members of a file entry to `out`.
fn push_file_stats_json(out: &mut String, file: &FileEntry)
    ensures
        final(out)@ == old(out)@ + file_stats_json(file@),
{
    proof {
        reveal(file_stats_json);
    }
    push_signed_member(out, ",\"size\":", file.size);
    push_number_member(out, ",\"mode\":", file.mode as u64);
    push_signed_member(out, ",\"modified\":", file.modified);
    out.append(",\"local_content\":");
    push_json_bytes(out, file.local_content.as_slice());
    out.append("}");
    proof {
        assert(out@ =~= old(out)@ + file_stats_json(file@));
    }
}

/// Appends a file entry to `out` as a JSON object.
pub fn push_file_json(out: &mut String, file: &FileEntry)
    ensures
        final(out)@ == old(out)@ + file_json(file@),
{
    push_file_names_json(out, file);
    out.append(",\"owner\":");
    push_owner_json(out, &file.owner);
    push_file_stats_json(out, file);
    proof {
        assert(out@ =~= old(out)@ + file_json(file@));
    }
}

/// Appends the results of the probe over HTTP to `out`.
fn push_http_json(out: &mut String, entry: &DomainEntry)
    ensures
        final(out)@ == old(out)@ + http_json(entry@),
{
    proof {
        reveal(http_json);
    }
    push_text_member(out, ",\"http_content\":", entry.http_content.as_str());
    push_text_member(out, ",\"http_content_encoding\":", entry.http_content_encoding.as_str());
    push_number_member(out, ",\"http_content_size\":", entry.http_content_size as u64);
    push_number_member(out, ",\"http_status_code\":", entry.http_status_code as u64);
    push_number_member(out, ",\"http_response_time\":", entry.http_response_time);
    proof {
        assert(out@ =~= old(out)@ + http_json(entry@));
    }
}

/// Appends the results of the probe over HTTPS to `out`.
fn push_https_json(out: &mut String, entry: &DomainEntry)
    ensures
        final(out)@ == old(out)@ + https_json(entry@),
{
    proof {
        reveal(https_json);
    }
    push_text_member(out, ",\"https_content\":", entry.https_content.as_str());
    push_text_member(out, ",\"https_content_encoding\":", entry.https_content_encoding.as_str());
    push_number_member(out, ",\"https_content_size\":", entry.https_content_size as u64);
    push_number_member(out, ",\"https_status_code\":", entry.https_status_code as u64);
    push_number_member(out, ",\"https_response_time\":", entry.https_response_time);
    proof {
        assert(out@ =~= old(out)@ + https_json(entry@));
    }
}

/// Appends a domain entry to `out` as a JSON object.
pub fn push_entry_json(out: &mut String, entry: &DomainEntry)
    ensures
        final(out)@ == old(out)@ + entry_json(entry@),
{
    proof {
        reveal(entry_json);
    }
    push_text_member(out, "{\"name\":", entry.name.as_str());
    push_text_member(out, ",\"request_path\":", entry.request_path.as_str());
    out.append(",\"file\":");
    push_file_json(out, &entry.file);
    push_http_json(out, entry);
    push_https_json(out, entry);
    out.append("}");
    proof {
        assert(out@ =~= old(out)@ + entry_json(entry@));
    }
}

/// Appends domain entries to `out` as the objects of a JSON array, without the brackets.
fn push_entry_items_json(out: &mut String, entries: &Vec<DomainEntry>)
    ensures
        final(out)@ == old(out)@ + entry_items_json(entry_views(entries@)),
{
    let ghost views = entry_views(entries@);
    let mut i: usize = 0;
    proof {
        assert(out@ =~= old(out)@ + entry_items_json(views.take(0)));
    }
    while i < entries.len()
        invariant
            i <= entries@.len(),
            views == entry_views(entries@),
            out@ == old(out)@ + entry_items_json(views.take(i as int)),
        decreases entries.len() - i,
    {
        proof {
            assert(views.take(i + 1).drop_last() =~= views.take(i as int));
            assert(views.take(i + 1).last() == entries@[i as int]@);
        }
        if i > 0 {
            push_char(out, ',');
        }
        push_entry_json(out, &entries[i]);
        proof {
            assert(out@ =~= old(out)@ + entry_items_json(views.take(i + 1)));
        }
        i += 1;
    }
    proof {
        assert(views.take(views.len() as int) =~= views);
    }
}

/// Appends a changeset to `out` as a JSON object.
pub fn push_changeset_json(out: &mut String, changeset: &Changeset)
    ensures
        final(out)@ == old(out)@ + changeset_json(changeset@),
{
    let uuid = uuid_text(changeset.uuid);
    let parent = uuid_text(changeset.parent);
    push_text_member(out, "{\"uuid\":", uuid.as_str());
    push_text_member(out, ",\"parent\":", parent.as_str());
    push_number_member(out, ",\"timestamp\":", changeset.timestamp);
    out.append(",\"entries\":[");
    push_entry_items_json(out, &changeset.entries);
    out.append("]}");
    proof {
        assert(out@ =~= old(out)@ + changeset_json(changeset@));
    }
}

impl Owner {
    /// The owner as JSON text.
    pub fn to_json(&self) -> (text: String)
        ensures
            text@ == owner_json(self@),
    {
        let mut text = String::new();
        push_owner_json(&mut text, self);
        proof {
            assert(Seq::<char>::empty() + owner_json(self@) =~= owner_json(self@));
        }
        text
    }
}

impl FileEntry {
    /// The file entry as JSON text.
    pub fn to_json(&self) -> (text: String)
        ensures
            text@ == file_json(self@),
    {
        let mut text = String::new();
        push_file_json(&mut text, self);
        proof {
            assert(Seq::<char>::empty() + file_json(self@) =~= file_json(self@));
        }
        text
    }
}

impl DomainEntry {
    /// The domain entry as JSON text.
    pub fn to_json(&self) -> (text: String)
        ensures
            text@ == entry_json(self@),
    {
        let mut text = String::new();
        push_entry_json(&mut text, self);
        proof {
            assert(Seq::<char>::empty() + entry_json(self@) =~= entry_json(self@));
        }
        text
    }
}

impl Changeset {
    /// The changeset as JSON text: the inspection form in which it can be stored beside
    /// its record.
    pub fn to_json(&self) -> (text: String)
        ensures
            text@ == changeset_json(self@),
            parse_changeset_json(text@) == Some(self@),
    {
        let mut text = String::new();
        push_changeset_json(&mut text, self);
        proof {
            assert(Seq::<char>::empty() + changeset_json(self@) =~= changeset_json(self@));
            lemma_json_round_trip(self@);
        }
        text
    }
}

} // verus!
