//! The record of a changeset: the binary form in which changesets are stored, with a
//! writer, a reader that rejects everything else, and the proof that reading a written
//! record gives the changeset back.

use vstd::prelude::*;
use vstd::bytes::{
    lemma_auto_spec_u128_to_from_le_bytes, lemma_auto_spec_u32_to_from_le_bytes,
    lemma_auto_spec_u64_to_from_le_bytes, spec_u128_from_le_bytes, spec_u128_to_le_bytes,
    spec_u32_from_le_bytes, spec_u32_to_le_bytes, spec_u64_from_le_bytes, spec_u64_to_le_bytes,
    u128_from_le_bytes, u128_to_le_bytes, u32_from_le_bytes, u32_to_le_bytes, u64_from_le_bytes,
    u64_to_le_bytes,
};
use vstd::slice::slice_subrange;
use vstd::utf8::{decode_utf8, encode_utf8, valid_utf8};
use crate::structs::{
    entry_views, AccountType, Changeset, ChangesetView, DomainEntry, DomainEntryView, FileEntry, FileEntryView,
    Owner, OwnerView,
};

verus! {

/// `String::from_utf8` of std: bytes that are valid UTF-8 give the string they encode, any
/// other bytes give nothing.
#[verifier::external_body]
fn string_from_utf8(bytes: Vec<u8>) -> (text: Option<String>)
    ensures
        match text {
            Some(s) => valid_utf8(bytes@) && s@ == decode_utf8(bytes@),
            None => !valid_utf8(bytes@),
        },
{
    String::from_utf8(bytes).ok()
}

/// The four bytes of a `u32`, lowest first.
pub open spec fn u32_bytes(value: u32) -> Seq<u8> {
    spec_u32_to_le_bytes(value)
}

/// The eight bytes of a `u64`, lowest first.
pub open spec fn u64_bytes(value: u64) -> Seq<u8> {
    spec_u64_to_le_bytes(value)
}

/// The sixteen bytes of a `u128`, lowest first.
pub open spec fn u128_bytes(value: u128) -> Seq<u8> {
    spec_u128_to_le_bytes(value)
}

/// The eight bytes of an `i64` in two's complement, lowest first.
pub open spec fn i64_bytes(value: i64) -> Seq<u8> {
    spec_u64_to_le_bytes(value as u64)
}

/// A run of bytes in a record: its length as a `u64`, then the bytes.
pub open spec fn blob_bytes(blob: Seq<u8>) -> Seq<u8> {
    u64_bytes(blob.len() as u64) + blob
}

/// A text in a record: its UTF-8 form as a run of bytes.
pub open spec fn text_bytes(text: Seq<char>) -> Seq<u8> {
    blob_bytes(encode_utf8(text))
}

/// A run of bytes whose length a `u64` can hold.
pub open spec fn blob_fits(blob: Seq<u8>) -> bool {
    blob.len() <= u64::MAX
}

/// A text whose UTF-8 form has a length that a `u64` can hold.
pub open spec fn text_fits(text: Seq<char>) -> bool {
    blob_fits(encode_utf8(text))
}

/// A `u32` at the start of `s`, and what follows it.
pub open spec fn parse_u32(s: Seq<u8>) -> Option<(u32, Seq<u8>)> {
    if s.len() >= 4 {
        Some((spec_u32_from_le_bytes(s.take(4)), s.skip(4)))
    } else {
        None
    }
}

/// A `u64` at the start of `s`, and what follows it.
pub open spec fn parse_u64(s: Seq<u8>) -> Option<(u64, Seq<u8>)> {
    if s.len() >= 8 {
        Some((spec_u64_from_le_bytes(s.take(8)), s.skip(8)))
    } else {
        None
    }
}

/// A `u128` at the start of `s`, and what follows it.
pub open spec fn parse_u128(s: Seq<u8>) -> Option<(u128, Seq<u8>)> {
    if s.len() >= 16 {
        Some((spec_u128_from_le_bytes(s.take(16)), s.skip(16)))
    } else {
        None
    }
}

/// An `i64` at the start of `s`, and what follows it.
pub open spec fn parse_i64(s: Seq<u8>) -> Option<(i64, Seq<u8>)> {
    match parse_u64(s) {
        Some((value, rest)) => Some((value as i64, rest)),
        None => None,
    }
}

/// A run of bytes at the start of `s`, and what follows it. A length that runs past the
/// end of `s` gives nothing.
pub open spec fn parse_blob(s: Seq<u8>) -> Option<(Seq<u8>, Seq<u8>)> {
    match parse_u64(s) {
        Some((length, rest)) => if length <= rest.len() {
            Some((rest.take(length as int), rest.skip(length as int)))
        } else {
            None
        },
        None => None,
    }
}

/// A text at the start of `s`, and what follows it. Bytes that are no valid UTF-8 give
/// nothing.
pub open spec fn parse_text(s: Seq<u8>) -> Option<(Seq<char>, Seq<u8>)> {
    match parse_blob(s) {
        Some((blob, rest)) => if valid_utf8(blob) {
            Some((decode_utf8(blob), rest))
        } else {
            None
        },
        None => None,
    }
}

/// Reading the bytes of a `u32` gives the number.
pub proof fn lemma_parse_u32(value: u32, rest: Seq<u8>)
    ensures
        parse_u32(u32_bytes(value) + rest) == Some((value, rest)),
{
    lemma_auto_spec_u32_to_from_le_bytes();
    let s = u32_bytes(value) + rest;
    assert(s.take(4) =~= u32_bytes(value));
    assert(s.skip(4) =~= rest);
}

/// Reading the bytes of a `u64` gives the number.
pub proof fn lemma_parse_u64(value: u64, rest: Seq<u8>)
    ensures
        parse_u64(u64_bytes(value) + rest) == Some((value, rest)),
{
    lemma_auto_spec_u64_to_from_le_bytes();
    let s = u64_bytes(value) + rest;
    assert(s.take(8) =~= u64_bytes(value));
    assert(s.skip(8) =~= rest);
}

/// Reading the bytes of a `u128` gives the number.
pub proof fn lemma_parse_u128(value: u128, rest: Seq<u8>)
    ensures
        parse_u128(u128_bytes(value) + rest) == Some((value, rest)),
{
    lemma_auto_spec_u128_to_from_le_bytes();
    let s = u128_bytes(value) + rest;
    assert(s.take(16) =~= u128_bytes(value));
    assert(s.skip(16) =~= rest);
}

/// Reading the bytes of an `i64` gives the number.
pub proof fn lemma_parse_i64(value: i64, rest: Seq<u8>)
    ensures
        parse_i64(i64_bytes(value) + rest) == Some((value, rest)),
{
    lemma_parse_u64(value as u64, rest);
    assert((value as u64) as i64 == value) by (bit_vector);
}

/// Reading a run of bytes as it stands in a record gives the bytes.
pub proof fn lemma_parse_blob(blob: Seq<u8>, rest: Seq<u8>)
    requires
        blob_fits(blob),
    ensures
        parse_blob(blob_bytes(blob) + rest) == Some((blob, rest)),
{
    let length = blob.len() as u64;
    assert(blob_bytes(blob) + rest =~= u64_bytes(length) + (blob + rest));
    lemma_parse_u64(length, blob + rest);
    assert((blob + rest).take(length as int) =~= blob);
    assert((blob + rest).skip(length as int) =~= rest);
}

/// Reading a text as it stands in a record gives the text.
pub proof fn lemma_parse_text(text: Seq<char>, rest: Seq<u8>)
    requires
        text_fits(text),
    ensures
        parse_text(text_bytes(text) + rest) == Some((text, rest)),
{
    lemma_parse_blob(encode_utf8(text), rest);
    vstd::utf8::encode_utf8_valid_utf8(text);
    vstd::utf8::encode_utf8_decode_utf8(text);
}

/// Appends the bytes of `value` to `out`.
pub fn put_u32(out: &mut Vec<u8>, value: u32)
    ensures
        final(out)@ == old(out)@ + u32_bytes(value),
{
    let bytes = u32_to_le_bytes(value);
    out.extend_from_slice(bytes.as_slice());
}

/// Appends the bytes of `value` to `out`.
pub fn put_u64(out: &mut Vec<u8>, value: u64)
    ensures
        final(out)@ == old(out)@ + u64_bytes(value),
{
    let bytes = u64_to_le_bytes(value);
    out.extend_from_slice(bytes.as_slice());
}

/// Appends the bytes of `value` to `out`.
pub fn put_u128(out: &mut Vec<u8>, value: u128)
    ensures
        final(out)@ == old(out)@ + u128_bytes(value),
{
    let bytes = u128_to_le_bytes(value);
    out.extend_from_slice(bytes.as_slice());
}

/// Appends the bytes of `value` to `out`.
pub fn put_i64(out: &mut Vec<u8>, value: i64)
    ensures
        final(out)@ == old(out)@ + i64_bytes(value),
{
    put_u64(out, value as u64);
}

/// Appends a run of bytes to `out`.
pub fn put_blob(out: &mut Vec<u8>, blob: &[u8])
    ensures
        final(out)@ == old(out)@ + blob_bytes(blob@),
        blob_fits(blob@),
{
    put_u64(out, blob.len() as u64);
    out.extend_from_slice(blob);
    proof {
        assert(out@ =~= old(out)@ + blob_bytes(blob@));
    }
}

/// Appends a text to `out`.
pub fn put_text(out: &mut Vec<u8>, text: &str)
    ensures
        final(out)@ == old(out)@ + text_bytes(text@),
        text_fits(text@),
{
    put_blob(out, text.as_bytes());
}

/// Reads a `u32` at `pos`.
pub fn take_u32(buf: &[u8], pos: usize) -> (read: Option<(u32, usize)>)
    requires
        pos <= buf@.len(),
    ensures
        match read {
            Some((value, next)) => pos <= next <= buf@.len() && parse_u32(buf@.skip(pos as int))
                == Some((value, buf@.skip(next as int))),
            None => parse_u32(buf@.skip(pos as int)).is_none(),
        },
{
    if buf.len() - pos < 4 {
        return None;
    }
    let value = u32_from_le_bytes(slice_subrange(buf, pos, pos + 4));
    proof {
        assert(buf@.skip(pos as int).take(4) =~= buf@.subrange(pos as int, pos + 4));
        assert(buf@.skip(pos as int).skip(4) =~= buf@.skip(pos + 4));
    }
    Some((value, pos + 4))
}

/// Reads a `u64` at `pos`.
pub fn take_u64(buf: &[u8], pos: usize) -> (read: Option<(u64, usize)>)
    requires
        pos <= buf@.len(),
    ensures
        match read {
            Some((value, next)) => pos <= next <= buf@.len() && parse_u64(buf@.skip(pos as int))
                == Some((value, buf@.skip(next as int))),
            None => parse_u64(buf@.skip(pos as int)).is_none(),
        },
{
    if buf.len() - pos < 8 {
        return None;
    }
    let value = u64_from_le_bytes(slice_subrange(buf, pos, pos + 8));
    proof {
        assert(buf@.skip(pos as int).take(8) =~= buf@.subrange(pos as int, pos + 8));
        assert(buf@.skip(pos as int).skip(8) =~= buf@.skip(pos + 8));
    }
    Some((value, pos + 8))
}

/// Reads a `u128` at `pos`.
pub fn take_u128(buf: &[u8], pos: usize) -> (read: Option<(u128, usize)>)
    requires
        pos <= buf@.len(),
    ensures
        match read {
            Some((value, next)) => pos <= next <= buf@.len() && parse_u128(buf@.skip(pos as int))
                == Some((value, buf@.skip(next as int))),
            None => parse_u128(buf@.skip(pos as int)).is_none(),
        },
{
    if buf.len() - pos < 16 {
        return None;
    }
    let value = u128_from_le_bytes(slice_subrange(buf, pos, pos + 16));
    proof {
        assert(buf@.skip(pos as int).take(16) =~= buf@.subrange(pos as int, pos + 16));
        assert(buf@.skip(pos as int).skip(16) =~= buf@.skip(pos + 16));
    }
    Some((value, pos + 16))
}

/// Reads an `i64` at `pos`.
pub fn take_i64(buf: &[u8], pos: usize) -> (read: Option<(i64, usize)>)
    requires
        pos <= buf@.len(),
    ensures
        match read {
            Some((value, next)) => pos <= next <= buf@.len() && parse_i64(buf@.skip(pos as int))
                == Some((value, buf@.skip(next as int))),
            None => parse_i64(buf@.skip(pos as int)).is_none(),
        },
{
    match take_u64(buf, pos) {
        Some((value, next)) => Some((value as i64, next)),
        None => None,
    }
}

/// Reads a run of bytes at `pos`.
pub fn take_blob(buf: &[u8], pos: usize) -> (read: Option<(Vec<u8>, usize)>)
    requires
        pos <= buf@.len(),
    ensures
        match read {
            Some((blob, next)) => pos <= next <= buf@.len() && parse_blob(buf@.skip(pos as int))
                == Some((blob@, buf@.skip(next as int))),
            None => parse_blob(buf@.skip(pos as int)).is_none(),
        },
{
    let (length, start) = take_u64(buf, pos)?;
    if length > (buf.len() - start) as u64 {
        return None;
    }
    let end = start + length as usize;
    let blob = vstd::slice::slice_to_vec(slice_subrange(buf, start, end));
    proof {
        assert(buf@.skip(start as int).take(length as int) =~= buf@.subrange(
            start as int,
            end as int,
        ));
        assert(buf@.skip(start as int).skip(length as int) =~= buf@.skip(end as int));
    }
    Some((blob, end))
}

/// Reads a text at `pos`.
pub fn take_text(buf: &[u8], pos: usize) -> (read: Option<(String, usize)>)
    requires
        pos <= buf@.len(),
    ensures
        match read {
            Some((text, next)) => pos <= next <= buf@.len() && parse_text(buf@.skip(pos as int))
                == Some((text@, buf@.skip(next as int))),
            None => parse_text(buf@.skip(pos as int)).is_none(),
        },
{
    match take_blob(buf, pos) {
        Some((blob, next)) => match string_from_utf8(blob) {
            Some(text) => Some((text, next)),
            None => None,
        },
        None => None,
    }
}

/// What is left to read after a parsed item; nothing where the item did not parse.
pub open spec fn rest_of<T>(parsed: Option<(T, Seq<u8>)>) -> Seq<u8> {
    match parsed {
        Some((_, rest)) => rest,
        None => Seq::empty(),
    }
}

/// The byte that stands for an account type in a record.
pub open spec fn account_tag(account_type: AccountType) -> u8 {
    match account_type {
        AccountType::Regular => 0,
        AccountType::Reseller => 1,
        AccountType::Managed => 2,
        AccountType::Admin => 3,
    }
}

/// An account type at the start of `s`, and what follows it. A byte that stands for no
/// account type gives nothing.
pub open spec fn parse_account(s: Seq<u8>) -> Option<(AccountType, Seq<u8>)> {
    if s.len() >= 1 && s[0] < 4 {
        Some(
            (
                if s[0] == 0 {
                    AccountType::Regular
                } else if s[0] == 1 {
                    AccountType::Reseller
                } else if s[0] == 2 {
                    AccountType::Managed
                } else {
                    AccountType::Admin
                },
                s.skip(1),
            ),
        )
    } else {
        None
    }
}

/// An owner in a record: name, account type, origin, uid, gid.
#[verifier::opaque]
pub open spec fn owner_bytes(owner: OwnerView) -> Seq<u8> {
    text_bytes(owner.name) + seq![account_tag(owner.account_type)] + text_bytes(owner.origin)
        + u32_bytes(owner.uid) + u32_bytes(owner.gid)
}

/// An owner whose texts fit a record.
pub open spec fn owner_fits(owner: OwnerView) -> bool {
    text_fits(owner.name) && text_fits(owner.origin)
}

/// An owner at the start of `s`, and what follows it.
#[verifier::opaque]
pub open spec fn parse_owner(s: Seq<u8>) -> Option<(OwnerView, Seq<u8>)> {
    let name = parse_text(s);
    let account_type = parse_account(rest_of(name));
    let origin = parse_text(rest_of(account_type));
    let uid = parse_u32(rest_of(origin));
    let gid = parse_u32(rest_of(uid));
    if name.is_some() && account_type.is_some() && origin.is_some() && uid.is_some()
        && gid.is_some() {
        Some(
            (
                OwnerView {
                    name: name.unwrap().0,
                    account_type: account_type.unwrap().0,
                    origin: origin.unwrap().0,
                    uid: uid.unwrap().0,
                    gid: gid.unwrap().0,
                },
                rest_of(gid),
            ),
        )
    } else {
        None
    }
}

/// Reading the byte of an account type gives the account type.
pub proof fn lemma_parse_account(account_type: AccountType, rest: Seq<u8>)
    ensures
        parse_account(seq![account_tag(account_type)] + rest) == Some((account_type, rest)),
{
    let s = seq![account_tag(account_type)] + rest;
    assert(s.skip(1) =~= rest);
}

/// Reading an owner as it stands in a record gives the owner.
pub proof fn lemma_parse_owner(owner: OwnerView, rest: Seq<u8>)
    requires
        owner_fits(owner),
    ensures
        parse_owner(owner_bytes(owner) + rest) == Some((owner, rest)),
{
    reveal(parse_owner);
    reveal(owner_bytes);
    let r4 = u32_bytes(owner.gid) + rest;
    let r3 = u32_bytes(owner.uid) + r4;
    let r2 = text_bytes(owner.origin) + r3;
    let r1 = seq![account_tag(owner.account_type)] + r2;
    assert(owner_bytes(owner) + rest =~= text_bytes(owner.name) + r1);
    lemma_parse_text(owner.name, r1);
    lemma_parse_account(owner.account_type, r2);
    lemma_parse_text(owner.origin, r3);
    lemma_parse_u32(owner.uid, r4);
    lemma_parse_u32(owner.gid, rest);
}

/// Appends an owner to `out`.
pub fn put_owner(out: &mut Vec<u8>, owner: &Owner)
    ensures
        final(out)@ == old(out)@ + owner_bytes(owner@),
        owner_fits(owner@),
{
    proof {
        reveal(owner_bytes);
    }
    put_text(out, owner.name.as_str());
    let tag: u8 = match owner.account_type {
        AccountType::Regular => 0,
        AccountType::Reseller => 1,
        AccountType::Managed => 2,
        AccountType::Admin => 3,
    };
    out.push(tag);
    put_text(out, owner.origin.as_str());
    put_u32(out, owner.uid);
    put_u32(out, owner.gid);
    proof {
        assert(out@ =~= old(out)@ + owner_bytes(owner@));
    }
}

/// Reads an account type at `pos`.
pub fn take_account(buf: &[u8], pos: usize) -> (read: Option<(AccountType, usize)>)
    requires
        pos <= buf@.len(),
    ensures
        match read {
            Some((value, next)) => pos <= next <= buf@.len() && parse_account(
                buf@.skip(pos as int),
            ) == Some((value, buf@.skip(next as int))),
            None => parse_account(buf@.skip(pos as int)).is_none(),
        },
{
    if pos >= buf.len() {
        return None;
    }
    let tag = buf[pos];
    proof {
        assert(buf@.skip(pos as int)[0] == tag);
        assert(buf@.skip(pos as int).skip(1) =~= buf@.skip(pos + 1));
    }
    if tag == 0 {
        Some((AccountType::Regular, pos + 1))
    } else if tag == 1 {
        Some((AccountType::Reseller, pos + 1))
    } else if tag == 2 {
        Some((AccountType::Managed, pos + 1))
    } else if tag == 3 {
        Some((AccountType::Admin, pos + 1))
    } else {
        None
    }
}

/// Reads an owner at `pos`.
pub fn take_owner(buf: &[u8], pos: usize) -> (read: Option<(Owner, usize)>)
    requires
        pos <= buf@.len(),
    ensures
        match read {
            Some((owner, next)) => pos <= next <= buf@.len() && parse_owner(buf@.skip(pos as int))
                == Some((owner@, buf@.skip(next as int))),
            None => parse_owner(buf@.skip(pos as int)).is_none(),
        },
{
    proof {
        reveal(parse_owner);
    }
    let (name, pos) = take_text(buf, pos)?;
    let (account_type, pos) = take_account(buf, pos)?;
    let (origin, pos) = take_text(buf, pos)?;
    let (uid, pos) = take_u32(buf, pos)?;
    let (gid, pos) = take_u32(buf, pos)?;
    Some((Owner { name, account_type, origin, uid, gid }, pos))
}

/// The eight bytes of a `usize`, lowest first.
pub open spec fn usize_bytes(value: usize) -> Seq<u8> {
    u64_bytes(value as u64)
}

/// A `usize` at the start of `s`, and what follows it. A number that no `usize` holds
/// gives nothing.
pub open spec fn parse_usize(s: Seq<u8>) -> Option<(usize, Seq<u8>)> {
    match parse_u64(s) {
        Some((value, rest)) => if value <= usize::MAX {
            Some((value as usize, rest))
        } else {
            None
        },
        None => None,
    }
}

/// Reading the bytes of a `usize` gives the number.
pub proof fn lemma_parse_usize(value: usize, rest: Seq<u8>)
    ensures
        parse_usize(usize_bytes(value) + rest) == Some((value, rest)),
{
    lemma_parse_u64(value as u64, rest);
}

/// Appends the bytes of `value` to `out`.
pub fn put_usize(out: &mut Vec<u8>, value: usize)
    ensures
        final(out)@ == old(out)@ + usize_bytes(value),
{
    put_u64(out, value as u64);
}

/// Reads a `usize` at `pos`.
pub fn take_usize(buf: &[u8], pos: usize) -> (read: Option<(usize, usize)>)
    requires
        pos <= buf@.len(),
    ensures
        match read {
            Some((value, next)) => pos <= next <= buf@.len() && parse_usize(buf@.skip(pos as int))
                == Some((value, buf@.skip(next as int))),
            None => parse_usize(buf@.skip(pos as int)).is_none(),
        },
{
    match take_u64(buf, pos) {
        Some((value, next)) => if value <= usize::MAX as u64 {
            Some((value as usize, next))
        } else {
            None
        },
        None => None,
    }
}

/// A file entry in a record: path, hash, language, encoding, owner, size, mode, age and
/// the retained content.
#[verifier::opaque]
pub open spec fn file_bytes(file: FileEntryView) -> Seq<u8> {
    text_bytes(file.path) + text_bytes(file.sha1) + text_bytes(file.lang) + text_bytes(
        file.encoding,
    ) + owner_bytes(file.owner) + i64_bytes(file.size) + u32_bytes(file.mode) + i64_bytes(
        file.modified,
    ) + blob_bytes(file.local_content)
}

/// A file entry whose texts and content fit a record.
pub open spec fn file_fits(file: FileEntryView) -> bool {
    &&& text_fits(file.path)
    &&& text_fits(file.sha1)
    &&& text_fits(file.lang)
    &&& text_fits(file.encoding)
    &&& owner_fits(file.owner)
    &&& blob_fits(file.local_content)
}

/// A file entry at the start of `s`, and what follows it.
#[verifier::opaque]
pub open spec fn parse_file(s: Seq<u8>) -> Option<(FileEntryView, Seq<u8>)> {
    let path = parse_text(s);
    let sha1 = parse_text(rest_of(path));
    let lang = parse_text(rest_of(sha1));
    let encoding = parse_text(rest_of(lang));
    let owner = parse_owner(rest_of(encoding));
    let size = parse_i64(rest_of(owner));
    let mode = parse_u32(rest_of(size));
    let modified = parse_i64(rest_of(mode));
    let local_content = parse_blob(rest_of(modified));
    if path.is_some() && sha1.is_some() && lang.is_some() && encoding.is_some() && owner.is_some()
        && size.is_some() && mode.is_some() && modified.is_some() && local_content.is_some() {
        Some(
            (
                FileEntryView {
                    path: path.unwrap().0,
                    sha1: sha1.unwrap().0,
                    lang: lang.unwrap().0,
                    encoding: encoding.unwrap().0,
                    owner: owner.unwrap().0,
                    size: size.unwrap().0,
                    mode: mode.unwrap().0,
                    modified: modified.unwrap().0,
                    local_content: local_content.unwrap().0,
                },
                rest_of(local_content),
            ),
        )
    } else {
        None
    }
}

/// Reading a file entry as it stands in a record gives the file entry.
pub proof fn lemma_parse_file(file: FileEntryView, rest: Seq<u8>)
    requires
        file_fits(file),
    ensures
        parse_file(file_bytes(file) + rest) == Some((file, rest)),
{
    reveal(parse_file);
    reveal(file_bytes);
    let r8 = blob_bytes(file.local_content) + rest;
    let r7 = i64_bytes(file.modified) + r8;
    let r6 = u32_bytes(file.mode) + r7;
    let r5 = i64_bytes(file.size) + r6;
    let r4 = owner_bytes(file.owner) + r5;
    let r3 = text_bytes(file.encoding) + r4;
    let r2 = text_bytes(file.lang) + r3;
    let r1 = text_bytes(file.sha1) + r2;
    assert(file_bytes(file) + rest =~= text_bytes(file.path) + r1);
    lemma_parse_text(file.path, r1);
    lemma_parse_text(file.sha1, r2);
    lemma_parse_text(file.lang, r3);
    lemma_parse_text(file.encoding, r4);
    lemma_parse_owner(file.owner, r5);
    lemma_parse_i64(file.size, r6);
    lemma_parse_u32(file.mode, r7);
    lemma_parse_i64(file.modified, r8);
    lemma_parse_blob(file.local_content, rest);
}

/// Appends a file entry to `out`.
pub fn put_file(out: &mut Vec<u8>, file: &FileEntry)
    ensures
        final(out)@ == old(out)@ + file_bytes(file@),
        file_fits(file@),
{
    proof {
        reveal(file_bytes);
    }
    put_text(out, file.path.as_str());
    put_text(out, file.sha1.as_str());
    put_text(out, file.lang.as_str());
    put_text(out, file.encoding.as_str());
    put_owner(out, &file.owner);
    put_i64(out, file.size);
    put_u32(out, file.mode);
    put_i64(out, file.modified);
    put_blob(out, file.local_content.as_slice());
    proof {
        assert(out@ =~= old(out)@ + file_bytes(file@));
    }
}

/// Reads a file entry at `pos`.
pub fn take_file(buf: &[u8], pos: usize) -> (read: Option<(FileEntry, usize)>)
    requires
        pos <= buf@.len(),
    ensures
        match read {
            Some((file, next)) => pos <= next <= buf@.len() && parse_file(buf@.skip(pos as int))
                == Some((file@, buf@.skip(next as int))),
            None => parse_file(buf@.skip(pos as int)).is_none(),
        },
{
    proof {
        reveal(parse_file);
    }
    let (path, pos) = take_text(buf, pos)?;
    let (sha1, pos) = take_text(buf, pos)?;
    let (lang, pos) = take_text(buf, pos)?;
    let (encoding, pos) = take_text(buf, pos)?;
    let (owner, pos) = take_owner(buf, pos)?;
    let (size, pos) = take_i64(buf, pos)?;
    let (mode, pos) = take_u32(buf, pos)?;
    let (modified, pos) = take_i64(buf, pos)?;
    let (local_content, pos) = take_blob(buf, pos)?;
    Some(
        (FileEntry { path, sha1, lang, encoding, owner, size, mode, modified, local_content }, pos),
    )
}

/// The results of the probe over one protocol.
pub struct ProbeView {
    pub content: Seq<char>,
    pub content_encoding: Seq<char>,
    pub content_size: usize,
    pub status_code: u32,
    pub response_time: u64,
}

/// The results of a domain entry's probe over HTTP.
pub open spec fn http_probe(entry: DomainEntryView) -> ProbeView {
    ProbeView {
        content: entry.http_content,
        content_encoding: entry.http_content_encoding,
        content_size: entry.http_content_size,
        status_code: entry.http_status_code,
        response_time: entry.http_response_time,
    }
}

/// The results of a domain entry's probe over HTTPS.
pub open spec fn https_probe(entry: DomainEntryView) -> ProbeView {
    ProbeView {
        content: entry.https_content,
        content_encoding: entry.https_content_encoding,
        content_size: entry.https_content_size,
        status_code: entry.https_status_code,
        response_time: entry.https_response_time,
    }
}

/// The results of a probe in a record: content, its encoding label, its size, the status
/// and the latency.
#[verifier::opaque]
pub open spec fn probe_bytes(probe: ProbeView) -> Seq<u8> {
    text_bytes(probe.content) + text_bytes(probe.content_encoding) + usize_bytes(
        probe.content_size,
    ) + u32_bytes(probe.status_code) + u64_bytes(probe.response_time)
}

/// The results of a probe whose texts fit a record.
pub open spec fn probe_fits(probe: ProbeView) -> bool {
    text_fits(probe.content) && text_fits(probe.content_encoding)
}

/// The results of a probe at the start of `s`, and what follows them.
#[verifier::opaque]
pub open spec fn parse_probe(s: Seq<u8>) -> Option<(ProbeView, Seq<u8>)> {
    let content = parse_text(s);
    let content_encoding = parse_text(rest_of(content));
    let content_size = parse_usize(rest_of(content_encoding));
    let status_code = parse_u32(rest_of(content_size));
    let response_time = parse_u64(rest_of(status_code));
    if content.is_some() && content_encoding.is_some() && content_size.is_some()
        && status_code.is_some() && response_time.is_some() {
        Some(
            (
                ProbeView {
                    content: content.unwrap().0,
                    content_encoding: content_encoding.unwrap().0,
                    content_size: content_size.unwrap().0,
                    status_code: status_code.unwrap().0,
                    response_time: response_time.unwrap().0,
                },
                rest_of(response_time),
            ),
        )
    } else {
        None
    }
}

/// Reading the results of a probe as they stand in a record gives the results.
pub proof fn lemma_parse_probe(probe: ProbeView, rest: Seq<u8>)
    requires
        probe_fits(probe),
    ensures
        parse_probe(probe_bytes(probe) + rest) == Some((probe, rest)),
{
    reveal(parse_probe);
    reveal(probe_bytes);
    let r4 = u64_bytes(probe.response_time) + rest;
    let r3 = u32_bytes(probe.status_code) + r4;
    let r2 = usize_bytes(probe.content_size) + r3;
    let r1 = text_bytes(probe.content_encoding) + r2;
    assert(probe_bytes(probe) + rest =~= text_bytes(probe.content) + r1);
    lemma_parse_text(probe.content, r1);
    lemma_parse_text(probe.content_encoding, r2);
    lemma_parse_usize(probe.content_size, r3);
    lemma_parse_u32(probe.status_code, r4);
    lemma_parse_u64(probe.response_time, rest);
}

/// A domain entry in a record: name, request path, file, and the results over HTTP and
/// over HTTPS.
#[verifier::opaque]
pub open spec fn entry_bytes(entry: DomainEntryView) -> Seq<u8> {
    text_bytes(entry.name) + text_bytes(entry.request_path) + file_bytes(entry.file) + probe_bytes(
        http_probe(entry),
    ) + probe_bytes(https_probe(entry))
}

/// A domain entry whose texts and file fit a record.
pub open spec fn entry_fits(entry: DomainEntryView) -> bool {
    &&& text_fits(entry.name)
    &&& text_fits(entry.request_path)
    &&& file_fits(entry.file)
    &&& probe_fits(http_probe(entry))
    &&& probe_fits(https_probe(entry))
}

/// A domain entry at the start of `s`, and what follows it.
#[verifier::opaque]
pub open spec fn parse_entry(s: Seq<u8>) -> Option<(DomainEntryView, Seq<u8>)> {
    let name = parse_text(s);
    let request_path = parse_text(rest_of(name));
    let file = parse_file(rest_of(request_path));
    let http = parse_probe(rest_of(file));
    let https = parse_probe(rest_of(http));
    if name.is_some() && request_path.is_some() && file.is_some() && http.is_some()
        && https.is_some() {
        Some(
            (
                DomainEntryView {
                    name: name.unwrap().0,
                    request_path: request_path.unwrap().0,
                    file: file.unwrap().0,
                    http_content: http.unwrap().0.content,
                    http_content_encoding: http.unwrap().0.content_encoding,
                    http_content_size: http.unwrap().0.content_size,
                    http_status_code: http.unwrap().0.status_code,
                    http_response_time: http.unwrap().0.response_time,
                    https_content: https.unwrap().0.content,
                    https_content_encoding: https.unwrap().0.content_encoding,
                    https_content_size: https.unwrap().0.content_size,
                    https_status_code: https.unwrap().0.status_code,
                    https_response_time: https.unwrap().0.response_time,
                },
                rest_of(https),
            ),
        )
    } else {
        None
    }
}

/// Reading a domain entry as it stands in a record gives the domain entry.
pub proof fn lemma_parse_entry(entry: DomainEntryView, rest: Seq<u8>)
    requires
        entry_fits(entry),
    ensures
        parse_entry(entry_bytes(entry) + rest) == Some((entry, rest)),
{
    reveal(parse_entry);
    reveal(entry_bytes);
    let r4 = probe_bytes(https_probe(entry)) + rest;
    let r3 = probe_bytes(http_probe(entry)) + r4;
    let r2 = file_bytes(entry.file) + r3;
    let r1 = text_bytes(entry.request_path) + r2;
    assert(entry_bytes(entry) + rest =~= text_bytes(entry.name) + r1);
    lemma_parse_text(entry.name, r1);
    lemma_parse_text(entry.request_path, r2);
    lemma_parse_file(entry.file, r3);
    lemma_parse_probe(http_probe(entry), r4);
    lemma_parse_probe(https_probe(entry), rest);
}

/// Appends the results of the probe over one protocol to `out`.
pub fn put_probe(
    out: &mut Vec<u8>,
    content: &str,
    content_encoding: &str,
    content_size: usize,
    status_code: u32,
    response_time: u64,
)
    ensures
        final(out)@ == old(out)@ + probe_bytes(
            ProbeView {
                content: content@,
                content_encoding: content_encoding@,
                content_size: content_size,
                status_code: status_code,
                response_time: response_time,
            },
        ),
        text_fits(content@),
        text_fits(content_encoding@),
{
    proof {
        reveal(probe_bytes);
    }
    put_text(out, content);
    put_text(out, content_encoding);
    put_usize(out, content_size);
    put_u32(out, status_code);
    put_u64(out, response_time);
    proof {
        assert(out@ =~= old(out)@ + probe_bytes(
            ProbeView {
                content: content@,
                content_encoding: content_encoding@,
                content_size: content_size,
                status_code: status_code,
                response_time: response_time,
            },
        ));
    }
}

/// Appends a domain entry to `out`.
pub fn put_entry(out: &mut Vec<u8>, entry: &DomainEntry)
    ensures
        final(out)@ == old(out)@ + entry_bytes(entry@),
        entry_fits(entry@),
{
    proof {
        reveal(entry_bytes);
    }
    put_text(out, entry.name.as_str());
    put_text(out, entry.request_path.as_str());
    put_file(out, &entry.file);
    put_probe(
        out,
        entry.http_content.as_str(),
        entry.http_content_encoding.as_str(),
        entry.http_content_size,
        entry.http_status_code,
        entry.http_response_time,
    );
    put_probe(
        out,
        entry.https_content.as_str(),
        entry.https_content_encoding.as_str(),
        entry.https_content_size,
        entry.https_status_code,
        entry.https_response_time,
    );
    proof {
        assert(out@ =~= old(out)@ + entry_bytes(entry@));
    }
}

/// The results of one probe, as they are read from a record.
pub struct ProbeFields {
    pub content: String,
    pub content_encoding: String,
    pub content_size: usize,
    pub status_code: u32,
    pub response_time: u64,
}

impl View for ProbeFields {
    type V = ProbeView;

    open spec fn view(&self) -> ProbeView {
        ProbeView {
            content: self.content@,
            content_encoding: self.content_encoding@,
            content_size: self.content_size,
            status_code: self.status_code,
            response_time: self.response_time,
        }
    }
}

/// Reads the results of a probe at `pos`.
pub fn take_probe(buf: &[u8], pos: usize) -> (read: Option<(ProbeFields, usize)>)
    requires
        pos <= buf@.len(),
    ensures
        match read {
            Some((probe, next)) => pos <= next <= buf@.len() && parse_probe(buf@.skip(pos as int))
                == Some((probe@, buf@.skip(next as int))),
            None => parse_probe(buf@.skip(pos as int)).is_none(),
        },
{
    proof {
        reveal(parse_probe);
    }
    let (content, pos) = take_text(buf, pos)?;
    let (content_encoding, pos) = take_text(buf, pos)?;
    let (content_size, pos) = take_usize(buf, pos)?;
    let (status_code, pos) = take_u32(buf, pos)?;
    let (response_time, pos) = take_u64(buf, pos)?;
    Some((ProbeFields { content, content_encoding, content_size, status_code, response_time }, pos))
}

/// Reads a domain entry at `pos`.
pub fn take_entry(buf: &[u8], pos: usize) -> (read: Option<(DomainEntry, usize)>)
    requires
        pos <= buf@.len(),
    ensures
        match read {
            Some((entry, next)) => pos <= next <= buf@.len() && parse_entry(buf@.skip(pos as int))
                == Some((entry@, buf@.skip(next as int))),
            None => parse_entry(buf@.skip(pos as int)).is_none(),
        },
{
    proof {
        reveal(parse_entry);
    }
    let (name, pos) = take_text(buf, pos)?;
    let (request_path, pos) = take_text(buf, pos)?;
    let (file, pos) = take_file(buf, pos)?;
    let (http, pos) = take_probe(buf, pos)?;
    let (https, pos) = take_probe(buf, pos)?;
    Some(
        (
            DomainEntry {
                name,
                request_path,
                file,
                http_content: http.content,
                http_content_encoding: http.content_encoding,
                http_content_size: http.content_size,
                http_status_code: http.status_code,
                http_response_time: http.response_time,
                https_content: https.content,
                https_content_encoding: https.content_encoding,
                https_content_size: https.content_size,
                https_status_code: https.status_code,
                https_response_time: https.response_time,
            },
            pos,
        ),
    )
}

/// The bytes that open every record: the letters `CHGS` and the number of the format.
pub open spec fn record_header() -> Seq<u8> {
    seq![0x43u8, 0x48u8, 0x47u8, 0x53u8, 0x01u8]
}

/// Domain entries in a record, one after the other.
pub open spec fn entries_bytes(entries: Seq<DomainEntryView>) -> Seq<u8>
    decreases entries.len(),
{
    if entries.len() == 0 {
        Seq::empty()
    } else {
        entries_bytes(entries.drop_last()) + entry_bytes(entries.last())
    }
}

/// Every one of the entries fits a record.
pub open spec fn entries_fit(entries: Seq<DomainEntryView>) -> bool {
    forall|i: int| 0 <= i < entries.len() ==> entry_fits(#[trigger] entries[i])
}

/// A changeset whose entries fit a record and are no more than a `u64` can count.
pub open spec fn changeset_fits(changeset: ChangesetView) -> bool {
    changeset.entries.len() <= u64::MAX && entries_fit(changeset.entries)
}

/// The record of a changeset: the header, the changeset's uuid, its parent's, the
/// timestamp, the number of entries and the entries.
pub open spec fn changeset_bytes(changeset: ChangesetView) -> Seq<u8> {
    record_header() + u128_bytes(changeset.uuid) + u128_bytes(changeset.parent) + u64_bytes(
        changeset.timestamp,
    ) + u64_bytes(changeset.entries.len() as u64) + entries_bytes(changeset.entries)
}

/// `count` domain entries at the start of `s`, added to the entries in `read`, and what
/// follows them.
pub open spec fn parse_entries(s: Seq<u8>, count: nat, read: Seq<DomainEntryView>) -> Option<
    (Seq<DomainEntryView>, Seq<u8>),
>
    decreases count,
{
    if count == 0 {
        Some((read, s))
    } else {
        match parse_entry(s) {
            Some((entry, rest)) => parse_entries(rest, (count - 1) as nat, read.push(entry)),
            None => None,
        }
    }
}

/// The changeset that a record holds. A record that is cut short, that holds anything
/// that cannot be read, or that goes on behind its last entry holds none.
pub open spec fn parse_changeset(s: Seq<u8>) -> Option<ChangesetView> {
    let header = record_header();
    if s.len() >= header.len() && s.take(header.len() as int) == header {
        let uuid = parse_u128(s.skip(header.len() as int));
        let parent = parse_u128(rest_of(uuid));
        let timestamp = parse_u64(rest_of(parent));
        let count = parse_u64(rest_of(timestamp));
        if uuid.is_some() && parent.is_some() && timestamp.is_some() && count.is_some() {
            match parse_entries(rest_of(count), count.unwrap().0 as nat, Seq::empty()) {
                Some((entries, rest)) => if rest.len() == 0 {
                    Some(
                        ChangesetView {
                            uuid: uuid.unwrap().0,
                            parent: parent.unwrap().0,
                            timestamp: timestamp.unwrap().0,
                            entries: entries,
                        },
                    )
                } else {
                    None
                },
                None => None,
            }
        } else {
            None
        }
    } else {
        None
    }
}

/// The bytes of a run of entries start with the bytes of its first entry.
pub proof fn lemma_entries_bytes_front(entries: Seq<DomainEntryView>)
    requires
        entries.len() > 0,
    ensures
        entries_bytes(entries) == entry_bytes(entries[0]) + entries_bytes(entries.skip(1)),
    decreases entries.len(),
{
    if entries.len() == 1 {
        assert(entries.drop_last() =~= Seq::<DomainEntryView>::empty());
        assert(entries.skip(1) =~= Seq::<DomainEntryView>::empty());
        assert(entries_bytes(entries.drop_last()) =~= Seq::<u8>::empty());
        assert(entries_bytes(entries) =~= entry_bytes(entries[0]) + entries_bytes(
            entries.skip(1),
        ));
    } else {
        let front = entries.drop_last();
        lemma_entries_bytes_front(front);
        assert(front.skip(1) =~= entries.skip(1).drop_last());
        assert(entries.skip(1).last() == entries.last());
        assert(entries_bytes(entries) =~= entry_bytes(entries[0]) + entries_bytes(
            entries.skip(1),
        ));
    }
}

/// Parsing the bytes of a run of entries gives the entries back.
pub proof fn lemma_parse_entries(
    entries: Seq<DomainEntryView>,
    rest: Seq<u8>,
    read: Seq<DomainEntryView>,
)
    requires
        entries_fit(entries),
    ensures
        parse_entries(entries_bytes(entries) + rest, entries.len(), read) == Some(
            (read + entries, rest),
        ),
    decreases entries.len(),
{
    if entries.len() == 0 {
        assert(entries_bytes(entries) + rest =~= rest);
        assert(read + entries =~= read);
    } else {
        let tail = entries.skip(1);
        lemma_entries_bytes_front(entries);
        assert(entries_bytes(entries) + rest =~= entry_bytes(entries[0]) + (entries_bytes(tail)
            + rest));
        lemma_parse_entry(entries[0], entries_bytes(tail) + rest);
        assert forall|i: int| 0 <= i < tail.len() implies entry_fits(#[trigger] tail[i]) by {
            assert(tail[i] == entries[i + 1]);
        }
        lemma_parse_entries(tail, rest, read.push(entries[0]));
        assert(read.push(entries[0]) + tail =~= read + entries);
    }
}

/// Round trip: the record of a changeset holds that changeset.
pub proof fn lemma_record_round_trip(changeset: ChangesetView)
    requires
        changeset_fits(changeset),
    ensures
        parse_changeset(changeset_bytes(changeset)) == Some(changeset),
{
    let header = record_header();
    let count = changeset.entries.len() as u64;
    let r4 = entries_bytes(changeset.entries);
    let r3 = u64_bytes(count) + r4;
    let r2 = u64_bytes(changeset.timestamp) + r3;
    let r1 = u128_bytes(changeset.parent) + r2;
    let r0 = u128_bytes(changeset.uuid) + r1;
    let s = changeset_bytes(changeset);
    assert(s =~= header + r0);
    assert(s.take(header.len() as int) =~= header);
    assert(s.skip(header.len() as int) =~= r0);
    lemma_parse_u128(changeset.uuid, r1);
    lemma_parse_u128(changeset.parent, r2);
    lemma_parse_u64(changeset.timestamp, r3);
    lemma_parse_u64(count, r4);
    assert(r4 =~= r4 + Seq::<u8>::empty());
    lemma_parse_entries(changeset.entries, Seq::empty(), Seq::empty());
    assert(Seq::<DomainEntryView>::empty() + changeset.entries =~= changeset.entries);
}

/// The record of a changeset.
pub fn encode_changeset(changeset: &Changeset) -> (record: Vec<u8>)
    ensures
        record@ == changeset_bytes(changeset@),
        changeset_fits(changeset@),
        parse_changeset(record@) == Some(changeset@),
{
    let mut record: Vec<u8> = Vec::new();
    record.push(0x43);
    record.push(0x48);
    record.push(0x47);
    record.push(0x53);
    record.push(0x01);
    put_u128(&mut record, changeset.uuid);
    put_u128(&mut record, changeset.parent);
    put_u64(&mut record, changeset.timestamp);
    let count = changeset.entries.len();
    put_u64(&mut record, count as u64);
    let ghost views = entry_views(changeset.entries@);
    let ghost start = record@;
    proof {
        assert(start =~= record_header() + u128_bytes(changeset.uuid) + u128_bytes(
            changeset.parent,
        ) + u64_bytes(changeset.timestamp) + u64_bytes(views.len() as u64));
    }
    let mut i: usize = 0;
    while i < count
        invariant
            i <= count,
            count == changeset.entries@.len(),
            views == entry_views(changeset.entries@),
            record@ == start + entries_bytes(views.take(i as int)),
            entries_fit(views.take(i as int)),
        decreases count - i,
    {
        let ghost before = record@;
        put_entry(&mut record, &changeset.entries[i]);
        proof {
            let now = views.take(i + 1);
            assert(now.drop_last() =~= views.take(i as int));
            assert(now.last() == changeset.entries@[i as int]@);
            assert(record@ =~= start + entries_bytes(now));
            assert forall|j: int| 0 <= j < now.len() implies entry_fits(#[trigger] now[j]) by {
                if j < i {
                    assert(now[j] == views.take(i as int)[j]);
                }
            }
        }
        i += 1;
    }
    proof {
        assert(views.take(count as int) =~= views);
        assert(record@ =~= changeset_bytes(changeset@));
        lemma_record_round_trip(changeset@);
    }
    record
}

/// Reads `count` domain entries at `pos`.
pub fn take_entries(buf: &[u8], pos: usize, count: u64) -> (read: Option<(Vec<DomainEntry>, usize)>)
    requires
        pos <= buf@.len(),
    ensures
        match read {
            Some((entries, next)) => pos <= next <= buf@.len() && parse_entries(
                buf@.skip(pos as int),
                count as nat,
                Seq::empty(),
            ) == Some((entry_views(entries@), buf@.skip(next as int))),
            None => parse_entries(buf@.skip(pos as int), count as nat, Seq::empty()).is_none(),
        },
{
    let mut entries: Vec<DomainEntry> = Vec::new();
    let mut at = pos;
    let mut left = count;
    proof {
        assert(entry_views(entries@) =~= Seq::<DomainEntryView>::empty());
    }
    while left > 0
        invariant
            pos <= at <= buf@.len(),
            parse_entries(buf@.skip(pos as int), count as nat, Seq::empty()) == parse_entries(
                buf@.skip(at as int),
                left as nat,
                entry_views(entries@),
            ),
        decreases left,
    {
        match take_entry(buf, at) {
            Some((entry, next)) => {
                proof {
                    assert(entry_views(entries@.push(entry)) =~= entry_views(entries@).push(
                        entry@,
                    ));
                }
                entries.push(entry);
                at = next;
                left -= 1;
            },
            None => {
                return None;
            },
        }
    }
    Some((entries, at))
}

/// Reads the changeset that a record holds, if it holds one.
pub fn decode_changeset(record: &[u8]) -> (changeset: Option<Changeset>)
    ensures
        match changeset {
            Some(c) => parse_changeset(record@) == Some(c@),
            None => parse_changeset(record@).is_none(),
        },
{
    if record.len() < 5 {
        return None;
    }
    if record[0] != 0x43 || record[1] != 0x48 || record[2] != 0x47 || record[3] != 0x53
        || record[4] != 0x01 {
        proof {
            let head = record@.take(5);
            assert(head[0] == record@[0] && head[1] == record@[1] && head[2] == record@[2]
                && head[3] == record@[3] && head[4] == record@[4]);
        }
        return None;
    }
    proof {
        assert(record@.take(5) =~= record_header());
    }
    let (uuid, pos) = take_u128(record, 5)?;
    let (parent, pos) = take_u128(record, pos)?;
    let (timestamp, pos) = take_u64(record, pos)?;
    let (count, pos) = take_u64(record, pos)?;
    let (entries, pos) = take_entries(record, pos, count)?;
    if pos != record.len() {
        return None;
    }
    Some(Changeset { uuid, parent, timestamp, entries })
}

} // verus!
