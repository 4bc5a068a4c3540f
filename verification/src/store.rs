//! The store of changesets: the names of its files and what they hold.

use vstd::prelude::*;
use crate::base::{invalid_changeset, invalid_changeset_view};
use crate::codec::{
    changeset_bytes, changeset_fits, decode_changeset, encode_changeset, parse_changeset,
};
use crate::ident::{hyphenated, uuid_text};
use crate::json::changeset_json;
use crate::json_read::parse_changeset_json;
use crate::structs::{Changeset, ChangesetView};
use crate::text::{chars_of, decimal_text, ends_with, has_suffix, push_decimal};

verus! {

/// What inflating `bytes` as a zlib stream gives, if they are one.
pub uninterp spec fn zlib_inflated(bytes: Seq<u8>) -> Option<Seq<u8>>;

/// The zlib stream that `flate2` makes of `data` at its best compression, if it makes one.
pub uninterp spec fn zlib_deflated(data: Seq<u8>) -> Option<Seq<u8>>;

/// `ZlibEncoder` of `flate2` at `Compression::best()`, written to with `write_all` and
/// closed with `finish`: the zlib stream that the encoder makes of `data`, which inflates
/// to `data` again. Nothing where the encoder reports an error.
#[verifier::external_body]
fn zlib_compress(data: &[u8]) -> (packed: Option<Vec<u8>>)
    ensures
        match packed {
            Some(stream) => zlib_deflated(data@) == Some(stream@),
            None => zlib_deflated(data@).is_none(),
        },
        packed matches Some(stream) ==> zlib_inflated(stream@) == Some(data@),
{
    let mut encoder = flate2::write::ZlibEncoder::new(Vec::new(), flate2::Compression::best());
    match std::io::Write::write_all(&mut encoder, data) {
        Ok(()) => encoder.finish().ok(),
        Err(_) => None,
    }
}

/// `ZlibDecoder` of `flate2`, read to its end: the bytes that the stream inflates to,
/// nothing where the decoder reports an error.
#[verifier::external_body]
fn zlib_decompress(packed: &[u8]) -> (data: Option<Vec<u8>>)
    ensures
        match data {
            Some(bytes) => zlib_inflated(packed@) == Some(bytes@),
            None => zlib_inflated(packed@).is_none(),
        },
{
    let mut data = Vec::new();
    match std::io::Read::read_to_end(&mut flate2::read::ZlibDecoder::new(packed), &mut data) {
        Ok(_) => Some(data),
        Err(_) => None,
    }
}

/// The changeset that a stored file holds: the one whose record the file's content
/// inflates to.
pub open spec fn stored_changeset(content: Seq<u8>) -> Option<ChangesetView> {
    match zlib_inflated(content) {
        Some(record) => parse_changeset(record),
        None => None,
    }
}

/// What reading a stored file gives: the changeset it holds, or the invalid changeset
/// where it holds none.
pub open spec fn restored(content: Seq<u8>) -> ChangesetView {
    match stored_changeset(content) {
        Some(changeset) => changeset,
        None => invalid_changeset_view(),
    }
}

/// The content of the file that stores a changeset: its record as a zlib stream, if the
/// compressor makes one of it.
pub open spec fn packed_changeset(changeset: ChangesetView) -> Option<Seq<u8>> {
    zlib_deflated(changeset_bytes(changeset))
}

/// The content that is handed on for storing a changeset: the packed record, and nothing
/// at all where there is none.
pub open spec fn stored_content(changeset: ChangesetView) -> Seq<u8> {
    match packed_changeset(changeset) {
        Some(stream) => stream,
        None => Seq::empty(),
    }
}

/// The directory that holds a user's changesets.
pub open spec fn store_dir(user_name: Seq<char>) -> Seq<char> {
    ".changesets/"@ + user_name
}

/// The path of the file that holds a user's changeset:
/// `.changesets/{user}/{uuid}-{timestamp}.chgset`.
pub open spec fn store_path(user_name: Seq<char>, uuid: u128, timestamp: u64) -> Seq<char> {
    store_dir(user_name) + "/"@ + hyphenated(uuid) + "-"@ + decimal_text(timestamp as nat)
        + ".chgset"@
}

/// The path of the file that holds a user's changeset in its inspection form.
pub open spec fn store_json_path(user_name: Seq<char>, uuid: u128, timestamp: u64) -> Seq<char> {
    store_path(user_name, uuid, timestamp) + ".json"@
}

/// The directory that holds a user's changesets.
pub fn changeset_dir(user_name: &str) -> (dir: String)
    ensures
        dir@ == store_dir(user_name@),
{
    String::from_str(".changesets/").concat(user_name)
}

/// The path of the file in which a changeset of a user is stored.
pub fn changeset_file_name(user_name: &str, uuid: u128, timestamp: u64) -> (path: String)
    ensures
        path@ == store_path(user_name@, uuid, timestamp),
{
    let id = uuid_text(uuid);
    let mut path = changeset_dir(user_name).concat("/").concat(id.as_str()).concat("-");
    push_decimal(&mut path, timestamp);
    path.concat(".chgset")
}

/// The path of the file in which a changeset of a user is stored in its inspection form.
pub fn changeset_json_file_name(user_name: &str, uuid: u128, timestamp: u64) -> (path: String)
    ensures
        path@ == store_json_path(user_name@, uuid, timestamp),
{
    changeset_file_name(user_name, uuid, timestamp).concat(".json")
}

/// Whether a path names a stored changeset: it ends in `.chgset`.
pub fn is_changeset_file(path: &str) -> (named: bool)
    ensures
        named == ends_with(path@, ".chgset"@),
{
    has_suffix(&chars_of(path), &chars_of(".chgset"))
}

/// Whether a path names a stored changeset in its inspection form: it ends in
/// `.chgset.json`.
pub fn is_changeset_json_file(path: &str) -> (named: bool)
    ensures
        named == ends_with(path@, ".chgset.json"@),
{
    has_suffix(&chars_of(path), &chars_of(".chgset.json"))
}

/// The content of the file that stores a changeset: its record as the zlib stream that
/// the compressor makes of it, which reads back as the changeset. Nothing where the
/// compressor makes none.
pub fn pack_changeset(changeset: &Changeset) -> (content: Option<Vec<u8>>)
    ensures
        match content {
            Some(bytes) => packed_changeset(changeset@) == Some(bytes@),
            None => packed_changeset(changeset@).is_none(),
        },
        content matches Some(bytes) ==> stored_changeset(bytes@) == Some(changeset@),
        changeset_fits(changeset@),
{
    let record = encode_changeset(changeset);
    zlib_compress(record.as_slice())
}

/// Reads the changeset that a stored file holds, if it holds one.
pub fn unpack_changeset(content: &[u8]) -> (changeset: Option<Changeset>)
    ensures
        match changeset {
            Some(c) => stored_changeset(content@) == Some(c@),
            None => stored_changeset(content@).is_none(),
        },
{
    match zlib_decompress(content) {
        Some(record) => decode_changeset(record.as_slice()),
        None => None,
    }
}

/// Prepares a user's changeset for storing: names the file and makes its content, the
/// packed record of the changeset. Where the compressor made no stream of the record the
/// content is empty; a content that holds the stream reads back as the changeset.
pub fn store_changeset(user_name: &str, changeset: &Changeset) -> (stored: (String, Vec<u8>))
    ensures
        stored.0@ == store_path(user_name@, changeset.uuid, changeset.timestamp),
        stored.1@ == stored_content(changeset@),
        packed_changeset(changeset@).is_some() ==> stored_changeset(stored.1@) == Some(
            changeset@,
        ),
{
    let file_name = changeset_file_name(user_name, changeset.uuid, changeset.timestamp);
    match pack_changeset(changeset) {
        Some(content) => (file_name, content),
        None => (file_name, Vec::new()),
    }
}

/// Prepares a user's changeset for storing in its inspection form: names the file and
/// makes its content, the changeset as JSON text.
pub fn store_changeset_json(user_name: &str, changeset: &Changeset) -> (stored: (String, String))
    ensures
        stored.0@ == store_json_path(user_name@, changeset.uuid, changeset.timestamp),
        stored.1@ == changeset_json(changeset@),
        parse_changeset_json(stored.1@) == Some(changeset@),
{
    let file_name = changeset_json_file_name(user_name, changeset.uuid, changeset.timestamp);
    (file_name, changeset.to_json())
}

/// What is reported of a stored changeset: the file's name and the number of bytes that
/// were written, zero where writing failed.
pub fn store_report(file_name: String, written: Option<usize>) -> (report: (String, usize))
    ensures
        report.0 == file_name,
        report.1 == match written {
            Some(bytes) => bytes,
            None => 0usize,
        },
{
    match written {
        Some(bytes) => (file_name, bytes),
        None => (file_name, 0),
    }
}

/// What reading a file in the inspection form gives: the changeset it holds, or the
/// invalid changeset where it holds none.
pub open spec fn restored_json(text: Seq<char>) -> ChangesetView {
    match parse_changeset_json(text) {
        Some(changeset) => changeset,
        None => invalid_changeset_view(),
    }
}

/// Reads a file in the inspection form, and says whether it holds a changeset: the
/// changeset it holds and `true`, or the invalid changeset and `false`.
pub fn read_changeset_json(text: &str) -> (read: (Changeset, bool))
    ensures
        read.0@ == restored_json(text@),
        read.1 == parse_changeset_json(text@).is_some(),
{
    match Changeset::from_json(text) {
        Some(changeset) => (changeset, true),
        None => (invalid_changeset(), false),
    }
}

/// Reads a file in the inspection form: the changeset it holds, or the invalid changeset
/// where the text is none.
pub fn restore_changeset_json(text: &str) -> (changeset: Changeset)
    ensures
        changeset@ == restored_json(text@),
{
    read_changeset_json(text).0
}

/// Reads a stored file, and says whether it holds a changeset: the changeset it holds and
/// `true`, or the invalid changeset and `false` where the content is corrupt.
pub fn read_changeset(content: &[u8]) -> (read: (Changeset, bool))
    ensures
        read.0@ == restored(content@),
        read.1 == stored_changeset(content@).is_some(),
{
    match unpack_changeset(content) {
        Some(changeset) => (changeset, true),
        None => (invalid_changeset(), false),
    }
}

/// Reads a stored file: the changeset it holds, or the invalid changeset where the
/// content is corrupt.
pub fn restore_changeset(content: &[u8]) -> (changeset: Changeset)
    ensures
        changeset@ == restored(content@),
{
    read_changeset(content).0
}

} // verus!
