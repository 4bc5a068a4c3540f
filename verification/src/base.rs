//! Fixed values: the sentinel uuids, the process-level defaults, and the changesets that
//! stand in for unreadable or missing ones.

use vstd::prelude::*;
use crate::structs::{Changeset, ChangesetView};

verus! {

/// The uuid `4b84d962-ff55-4913-94fa-b20db7e1d2da`: parent of every changeset that stands
/// at the top of a lineage.
pub const ROOT_UUID: u128 = 0x4b84d962_ff55_4913_94fa_b20db7e1d2da;

/// The uuid `deadbeef-ff55-4913-94fa-000000000000`: parent of the changeset that stands in
/// for a record that could not be read.
pub const ROOT_INVALID_UUID: u128 = 0xdeadbeef_ff55_4913_94fa_000000000000;

/// The uuid `fa170001-ff55-4913-94fa-000000000000`: stands in for a uuid that was given
/// as text and could not be parsed.
pub const ROOT_FAILED_PARSE_UUID: u128 = 0xfa170001_ff55_4913_94fa_000000000000;

/// The uuid `fa170002-ff55-4913-94fa-000000000000`: stands in for a uuid that was asked
/// for and not given.
pub const ROOT_FAILED_NO_UUID_GIVEN: u128 = 0xfa170002_ff55_4913_94fa_000000000000;

/// The uuid `fa170003-ff55-4913-94fa-000000000000`: stands in for the uuid of an item that
/// was not there to be taken.
pub const ROOT_FAILED_NO_NEXT_ITEM: u128 = 0xfa170003_ff55_4913_94fa_000000000000;

/// The root of every lineage.
pub fn root_uuid() -> (id: u128)
    ensures
        id == ROOT_UUID,
{
    ROOT_UUID
}

/// The parent of a changeset that stands in for an unreadable record.
pub fn root_invalid_uuid() -> (id: u128)
    ensures
        id == ROOT_INVALID_UUID,
{
    ROOT_INVALID_UUID
}

/// The uuid that stands in for one that could not be parsed.
pub fn root_failed_parse_from_string_to_uuid_uuid() -> (id: u128)
    ensures
        id == ROOT_FAILED_PARSE_UUID,
{
    ROOT_FAILED_PARSE_UUID
}

/// The uuid that stands in for one that was not given.
pub fn root_failed_no_uuud_given_uuid() -> (id: u128)
    ensures
        id == ROOT_FAILED_NO_UUID_GIVEN,
{
    ROOT_FAILED_NO_UUID_GIVEN
}

/// The uuid that stands in for the one of a missing item.
pub fn root_failed_no_next_item_uuid() -> (id: u128)
    ensures
        id == ROOT_FAILED_NO_NEXT_ITEM,
{
    ROOT_FAILED_NO_NEXT_ITEM
}

/// Port on which the read-only HTTP surface listens unless configured otherwise.
pub fn root_default_http_port() -> (port: u16)
    ensures
        port == 3000,
{
    3000
}

/// Connection timeout, in milliseconds, used unless configured otherwise.
pub fn root_default_connection_timeout() -> (millis: usize)
    ensures
        millis == 2500,
{
    2500
}

/// Request timeout, in milliseconds, used unless configured otherwise.
pub fn root_default_timeout() -> (millis: usize)
    ensures
        millis == 5000,
{
    5000
}

/// The changeset that stands in for a record that could not be read: no entries, the nil
/// uuid, timestamp zero, and the invalid root for a parent.
pub open spec fn invalid_changeset_view() -> ChangesetView {
    ChangesetView { uuid: 0, parent: ROOT_INVALID_UUID, timestamp: 0, entries: Seq::empty() }
}

/// The changeset that stands in for a record that could not be read.
pub fn invalid_changeset() -> (changeset: Changeset)
    ensures
        changeset@ == invalid_changeset_view(),
{
    let changeset = Changeset {
        uuid: 0,
        parent: root_invalid_uuid(),
        timestamp: 0,
        entries: Vec::new(),
    };
    proof {
        assert(changeset@.entries =~= Seq::empty());
    }
    changeset
}

/// The changeset that stands in for one that was asked for by its uuid and not found: no
/// entries, timestamp zero, and the invalid root both for its uuid and for its parent.
pub open spec fn missing_changeset_view() -> ChangesetView {
    ChangesetView {
        uuid: ROOT_INVALID_UUID,
        parent: ROOT_INVALID_UUID,
        timestamp: 0,
        entries: Seq::empty(),
    }
}

/// The changeset that stands in for one that was asked for and not found.
pub fn missing_changeset() -> (changeset: Changeset)
    ensures
        changeset@ == missing_changeset_view(),
{
    let changeset = Changeset {
        uuid: root_invalid_uuid(),
        parent: root_invalid_uuid(),
        timestamp: 0,
        entries: Vec::new(),
    };
    proof {
        assert(changeset@.entries =~= Seq::empty());
    }
    changeset
}

} // verus!
