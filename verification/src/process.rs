//! The fingerprinter: classifies one file from what was read about it, and builds the
//! entry of its domain.

use vstd::prelude::*;
use crate::domain::{
    begin_domain, built_entry, domains_marker, finish_domain, lemma_reserved_capture,
    is_reserved_domain, public_html_marker, ProbeResult,
};
use crate::text::contains;
use crate::extension::{accepts_file_name, file_name, valid_file_path};
use crate::structs::{AccountType, DomainEntry, FileEntry, FileEntryView, Owner, OwnerView};
use crate::utils::{
    default_language, detect_encoding, detected_encoding, fragment, language_code, language_of,
    read_fragment, sanitized, sha1_hex, sha1_of, strip_html_tags,
};

verus! {

/// Why a file was left out of a scan.
#[derive(Clone, Copy, Debug, PartialEq, Eq, Structural)]
pub enum ProcessError {
    /// The file's name does not pass the extension gate. Such files are skipped silently.
    InvalidFileType,
    /// The file's metadata could not be read.
    MetadataReadError,
    /// The file's content could not be read.
    ReadError,
}

/// What the file system reports of a file.
#[derive(Clone, Copy, Debug, PartialEq, Eq)]
pub struct FileMetadata {
    pub uid: u32,
    pub gid: u32,
    pub size: i64,
    pub mode: u32,
    /// Time of the last modification, in seconds since the epoch.
    pub mtime: i64,
}

/// Everything that was read about one file before it is classified.
#[derive(Debug)]
pub struct FileSample {
    /// The file's metadata, if it could be read.
    pub metadata: Option<FileMetadata>,
    /// The bytes at the start of the file, if they could be read.
    pub content: Option<Vec<u8>>,
    /// The name of the account with the file's uid, if the system knows one.
    pub owner_name: Option<String>,
    /// The name of the superuser's account, which every system has.
    pub superuser_name: String,
    /// The time of the scan, in seconds since the epoch.
    pub now: i64,
}

/// The number of bytes, counted from the start of a file, that are looked at.
pub const SAMPLE_BUDGET: u64 = 65535;

/// The encoding that is recorded for a sample that no candidate encoding decodes.
pub open spec fn default_encoding() -> Seq<char> {
    "ASCII"@
}

/// A byte that is kept for diffing: every byte above 13, which drops the control
/// characters from NUL up to and including the carriage return.
pub open spec fn is_retained(byte: u8) -> bool {
    byte > 13
}

/// The bytes of a sample that are kept for diffing, in their order.
pub open spec fn retained(content: Seq<u8>) -> Seq<u8> {
    content.filter(|byte: u8| is_retained(byte))
}

/// The name of the account that owns a file: the one the system gave for its uid, or the
/// superuser's where it gave none.
pub open spec fn owner_name_of(sample: FileSample) -> Seq<char> {
    match sample.owner_name {
        Some(name) => name@,
        None => sample.superuser_name@,
    }
}

/// The entry of a file with the given metadata whose sample is `content`: the hash is
/// taken of the sanitized sample, the language is detected in the sanitized sample and
/// only where an encoding was found, and the sample's retained bytes are kept.
pub open spec fn fingerprint(
    path: Seq<char>,
    metadata: FileMetadata,
    content: Seq<u8>,
    owner_name: Seq<char>,
    now: i64,
) -> FileEntryView {
    FileEntryView {
        path: path,
        sha1: sha1_hex(sanitized(content)),
        lang: match detected_encoding(content) {
            Some(_) => language_of(sanitized(content)),
            None => default_language(),
        },
        encoding: match detected_encoding(content) {
            Some(name) => name,
            None => default_encoding(),
        },
        owner: OwnerView {
            name: owner_name,
            account_type: AccountType::Regular,
            origin: Seq::empty(),
            uid: metadata.uid,
            gid: metadata.gid,
        },
        size: metadata.size,
        mode: metadata.mode,
        modified: now.wrapping_sub(metadata.mtime),
        local_content: retained(content),
    }
}

/// What classifying a file comes to: a file whose name fails the extension gate is
/// rejected first, then missing metadata, then a missing sample; every other file gets the
/// fingerprint of the first `SAMPLE_BUDGET` bytes of its sample.
pub open spec fn classified(path: Seq<char>, sample: FileSample) -> Result<
    FileEntryView,
    ProcessError,
> {
    if !accepts_file_name(file_name(path)) {
        Err(ProcessError::InvalidFileType)
    } else {
        match (sample.metadata, sample.content) {
            (None, _) => Err(ProcessError::MetadataReadError),
            (Some(_), None) => Err(ProcessError::ReadError),
            (Some(metadata), Some(content)) => Ok(
                fingerprint(
                    path,
                    metadata,
                    fragment(content@, SAMPLE_BUDGET),
                    owner_name_of(sample),
                    sample.now,
                ),
            ),
        }
    }
}

/// The bytes of `content` that are kept for diffing.
pub fn retain_content(content: &Vec<u8>) -> (kept: Vec<u8>)
    ensures
        kept@ == retained(content@),
{
    let mut kept: Vec<u8> = Vec::new();
    let ghost pred = |byte: u8| is_retained(byte);
    let mut i: usize = 0;
    while i < content.len()
        invariant
            i <= content.len(),
            pred == |byte: u8| is_retained(byte),
            kept@ == content@.take(i as int).filter(pred),
        decreases content.len() - i,
    {
        let byte = content[i];
        proof {
            reveal(Seq::filter);
            assert(content@.take(i + 1).drop_last() =~= content@.take(i as int));
        }
        if byte > 13 {
            kept.push(byte);
        }
        i += 1;
    }
    proof {
        assert(content@.take(content@.len() as int) =~= content@);
    }
    kept
}

/// Classifies and fingerprints one file from what was read about it.
pub fn process_file(abs_path: &str, sample: FileSample) -> (result: Result<FileEntry, ProcessError>)
    ensures
        match result {
            Ok(entry) => classified(abs_path@, sample) == Ok::<FileEntryView, ProcessError>(
                entry@,
            ),
            Err(error) => classified(abs_path@, sample) == Err::<FileEntryView, ProcessError>(
                error,
            ),
        },
        result == Err::<FileEntry, ProcessError>(ProcessError::InvalidFileType)
            <==> !accepts_file_name(file_name(abs_path@)),
{
    if !valid_file_path(abs_path) {
        return Err(ProcessError::InvalidFileType);
    }
    let FileSample { metadata, content, owner_name, superuser_name, now } = sample;
    let metadata = match metadata {
        Some(metadata) => metadata,
        None => {
            return Err(ProcessError::MetadataReadError);
        },
    };
    let binary_content = match content {
        Some(content) => read_fragment(content.as_slice(), SAMPLE_BUDGET),
        None => {
            return Err(ProcessError::ReadError);
        },
    };
    let name = match owner_name {
        Some(name) => name,
        None => superuser_name,
    };
    let an_owner = Owner {
        origin: String::new(),
        name: name,
        account_type: AccountType::Regular,
        uid: metadata.uid,
        gid: metadata.gid,
    };
    let buf = strip_html_tags(&binary_content);
    let (encoding, lang) = match detect_encoding(&binary_content) {
        Some(name) => (name, language_code(buf.as_str())),
        None => (String::from_str("ASCII"), String::from_str("en")),
    };
    Ok(
        FileEntry {
            owner: an_owner,
            path: String::from_str(abs_path),
            sha1: sha1_of(buf),
            lang: lang,
            encoding: encoding,
            size: metadata.size,
            mode: metadata.mode,
            modified: now.wrapping_sub(metadata.mtime),
            local_content: retain_content(&binary_content),
        },
    )
}

/// Builds the entry of a domain from a file's classification and the outcomes of the two
/// probes of its address, HTTP and HTTPS. Gives nothing where the file failed
/// classification or its path resolves to no domain.
pub fn process_domain(
    file: Result<FileEntry, ProcessError>,
    http: &ProbeResult,
    https: &ProbeResult,
) -> (entry: Option<DomainEntry>)
    ensures
        match file {
            Ok(file_entry) => match entry {
                Some(e) => built_entry(file_entry@, *http, *https) == Some(e@),
                None => built_entry(file_entry@, *http, *https).is_none(),
            },
            Err(_) => entry.is_none(),
        },
{
    match file {
        Ok(file_entry) => match begin_domain(file_entry) {
            Some(pending) => Some(finish_domain(pending, http, https)),
            None => None,
        },
        Err(_) => None,
    }
}

/// A file under a reserved name gives no domain entry: where the path of a classified
/// file is `{prefix}/domains/{name}/public_html/{rest}`, the prefix holds no `/domains/`
/// and the name is reserved, nothing is built, whatever the file holds and whatever the
/// probes answer.
pub proof fn lemma_reserved_builds_nothing(
    file: FileEntryView,
    http: ProbeResult,
    https: ProbeResult,
    prefix: Seq<char>,
    name: Seq<char>,
    rest: Seq<char>,
)
    requires
        file.path == prefix + domains_marker() + name + public_html_marker() + rest,
        !contains(prefix, domains_marker()),
        is_reserved_domain(name),
    ensures
        built_entry(file, http, https).is_none(),
{
    lemma_reserved_capture(prefix, name, rest);
}

} // verus!
