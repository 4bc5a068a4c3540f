//! The data model: owner, file entry, domain entry and changeset, each with its
//! mathematical model.

use vstd::prelude::*;

verus! {

/// Kind of hosting account that owns a scanned file.
#[derive(Clone, Copy, Debug, PartialEq, Eq, Structural)]
pub enum AccountType {
    Regular,
    Reseller,
    Managed,
    Admin,
}

/// The operating-system account that owns a scanned file.
#[derive(Clone, Debug, PartialEq, Eq)]
pub struct Owner {
    /// Account name.
    pub name: String,
    pub account_type: AccountType,
    /// Name of the host the account lives on.
    pub origin: String,
    pub uid: u32,
    pub gid: u32,
}

/// Classification result of one file: a metadata snapshot taken at scan time.
#[derive(Clone, Debug, PartialEq, Eq)]
pub struct FileEntry {
    pub path: String,
    /// Hex SHA-1 digest of the sanitized content.
    pub sha1: String,
    pub lang: String,
    pub encoding: String,
    pub owner: Owner,
    pub size: i64,
    pub mode: u32,
    /// Seconds elapsed between the last modification and the scan.
    pub modified: i64,
    /// Bytes of the content sample that are kept for later diffing.
    pub local_content: Vec<u8>,
}

/// One domain's file fingerprint together with what the live site answered.
#[derive(Clone, Debug, PartialEq, Eq)]
pub struct DomainEntry {
    pub name: String,
    pub request_path: String,
    pub file: FileEntry,
    pub http_content: String,
    pub http_content_encoding: String,
    pub http_content_size: usize,
    pub http_status_code: u32,
    pub http_response_time: u64,
    pub https_content: String,
    pub https_content_encoding: String,
    pub https_content_size: usize,
    pub https_status_code: u32,
    pub https_response_time: u64,
}

/// A point-in-time snapshot of one user's scanned domain content.
#[derive(Clone, Debug, PartialEq, Eq)]
pub struct Changeset {
    /// Identifier of this snapshot, as the 128-bit value of its UUID.
    pub uuid: u128,
    /// Identifier of the snapshot this one descends from.
    pub parent: u128,
    /// Creation time in milliseconds.
    pub timestamp: u64,
    pub entries: Vec<DomainEntry>,
}

/// Mathematical model of an [`Owner`].
pub struct OwnerView {
    pub name: Seq<char>,
    pub account_type: AccountType,
    pub origin: Seq<char>,
    pub uid: u32,
    pub gid: u32,
}

/// Mathematical model of a [`FileEntry`].
pub struct FileEntryView {
    pub path: Seq<char>,
    pub sha1: Seq<char>,
    pub lang: Seq<char>,
    pub encoding: Seq<char>,
    pub owner: OwnerView,
    pub size: i64,
    pub mode: u32,
    pub modified: i64,
    pub local_content: Seq<u8>,
}

/// Mathematical model of a [`DomainEntry`].
pub struct DomainEntryView {
    pub name: Seq<char>,
    pub request_path: Seq<char>,
    pub file: FileEntryView,
    pub http_content: Seq<char>,
    pub http_content_encoding: Seq<char>,
    pub http_content_size: usize,
    pub http_status_code: u32,
    pub http_response_time: u64,
    pub https_content: Seq<char>,
    pub https_content_encoding: Seq<char>,
    pub https_content_size: usize,
    pub https_status_code: u32,
    pub https_response_time: u64,
}

/// Mathematical model of a [`Changeset`].
pub struct ChangesetView {
    pub uuid: u128,
    pub parent: u128,
    pub timestamp: u64,
    pub entries: Seq<DomainEntryView>,
}

impl View for Owner {
    type V = OwnerView;

    open spec fn view(&self) -> OwnerView {
        OwnerView {
            name: self.name@,
            account_type: self.account_type,
            origin: self.origin@,
            uid: self.uid,
            gid: self.gid,
        }
    }
}

impl View for FileEntry {
    type V = FileEntryView;

    open spec fn view(&self) -> FileEntryView {
        FileEntryView {
            path: self.path@,
            sha1: self.sha1@,
            lang: self.lang@,
            encoding: self.encoding@,
            owner: self.owner@,
            size: self.size,
            mode: self.mode,
            modified: self.modified,
            local_content: self.local_content@,
        }
    }
}

impl View for DomainEntry {
    type V = DomainEntryView;

    open spec fn view(&self) -> DomainEntryView {
        DomainEntryView {
            name: self.name@,
            request_path: self.request_path@,
            file: self.file@,
            http_content: self.http_content@,
            http_content_encoding: self.http_content_encoding@,
            http_content_size: self.http_content_size,
            http_status_code: self.http_status_code,
            http_response_time: self.http_response_time,
            https_content: self.https_content@,
            https_content_encoding: self.https_content_encoding@,
            https_content_size: self.https_content_size,
            https_status_code: self.https_status_code,
            https_response_time: self.https_response_time,
        }
    }
}

/// The models of a sequence of domain entries, in order.
pub open spec fn entry_views(entries: Seq<DomainEntry>) -> Seq<DomainEntryView> {
    Seq::new(entries.len(), |i: int| entries[i]@)
}

impl View for Changeset {
    type V = ChangesetView;

    open spec fn view(&self) -> ChangesetView {
        ChangesetView {
            uuid: self.uuid,
            parent: self.parent,
            timestamp: self.timestamp,
            entries: entry_views(self.entries@),
        }
    }
}

/// The model of the owner that [`Owner::default`] returns.
pub open spec fn default_owner() -> OwnerView {
    OwnerView {
        name: Seq::empty(),
        account_type: AccountType::Regular,
        origin: Seq::empty(),
        uid: 0,
        gid: 0,
    }
}

/// The model of the file entry that [`FileEntry::default`] returns: empty, owned by the
/// superuser of host "S0".
pub open spec fn default_file_entry() -> FileEntryView {
    FileEntryView {
        path: Seq::empty(),
        sha1: Seq::empty(),
        lang: Seq::empty(),
        encoding: Seq::empty(),
        owner: OwnerView {
            name: "root"@,
            account_type: AccountType::Admin,
            origin: "S0"@,
            uid: 0,
            gid: 0,
        },
        size: 0,
        mode: 0,
        modified: 0,
        local_content: Seq::empty(),
    }
}

/// The model of the domain entry that [`DomainEntry::default`] returns: "localhost", path
/// "/", a default file and no probe results.
pub open spec fn default_domain_entry() -> DomainEntryView {
    DomainEntryView {
        name: "localhost"@,
        request_path: "/"@,
        file: default_file_entry(),
        http_content: Seq::empty(),
        http_content_encoding: Seq::empty(),
        http_content_size: 0,
        http_status_code: 0,
        http_response_time: 0,
        https_content: Seq::empty(),
        https_content_encoding: Seq::empty(),
        https_content_size: 0,
        https_status_code: 0,
        https_response_time: 0,
    }
}

impl Default for Owner {
    fn default() -> (owner: Owner)
        ensures
            owner@ == default_owner(),
    {
        Owner {
            name: String::new(),
            account_type: AccountType::Regular,
            origin: String::new(),
            uid: 0,
            gid: 0,
        }
    }
}

impl Default for FileEntry {
    fn default() -> (entry: FileEntry)
        ensures
            entry@ == default_file_entry(),
    {
        FileEntry {
            path: String::new(),
            sha1: String::new(),
            lang: String::new(),
            encoding: String::new(),
            owner: Owner {
                name: String::from_str("root"),
                account_type: AccountType::Admin,
                origin: String::from_str("S0"),
                uid: 0,
                gid: 0,
            },
            size: 0,
            mode: 0,
            modified: 0,
            local_content: Vec::new(),
        }
    }
}

impl Default for DomainEntry {
    fn default() -> (entry: DomainEntry)
        ensures
            entry@ == default_domain_entry(),
    {
        DomainEntry {
            name: String::from_str("localhost"),
            request_path: String::from_str("/"),
            file: FileEntry::default(),
            http_content: String::new(),
            http_content_encoding: String::new(),
            http_content_size: 0,
            http_status_code: 0,
            http_response_time: 0,
            https_content: String::new(),
            https_content_encoding: String::new(),
            https_content_size: 0,
            https_status_code: 0,
            https_response_time: 0,
        }
    }
}

impl Default for Changeset {
    fn default() -> (changeset: Changeset)
        ensures
            changeset@ == (ChangesetView { uuid: 0, parent: 0, timestamp: 0, entries: Seq::empty() }),
    {
        let changeset = Changeset { uuid: 0, parent: 0, timestamp: 0, entries: Vec::new() };
        proof {
            assert(changeset@.entries =~= Seq::empty());
        }
        changeset
    }
}

} // verus!
