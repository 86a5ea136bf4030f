use vstd::prelude::*;

use crate::snapshot::{DirectorySnapshot, FileInfo, FilesMap};

verus! {

/// The character of a decimal digit `d` (below ten).
pub open spec fn digit_char(d: nat) -> char {
    seq!['0', '1', '2', '3', '4', '5', '6', '7', '8', '9'][d as int]
}

/// The decimal numeral of `n`, most significant digit first, without
/// leading zeros.
pub open spec fn decimal(n: nat) -> Seq<char>
    decreases n,
{
    if n < 10 {
        seq![digit_char(n)]
    } else {
        decimal(n / 10).push(digit_char(n % 10))
    }
}

/// Relies on `u64`'s `Display` (through `ToString::to_string`): the decimal
/// numeral of the value.
#[verifier::external_body]
fn decimal_string(n: u64) -> (r: String)
    ensures
        r@ == decimal(n as nat),
{
    n.to_string()
}

/// Relies on `chrono::Local::now`, rendered by `DateTime::to_rfc3339`: the
/// current local time. Nothing is promised of the value.
#[verifier::external_body]
fn local_time_rfc3339() -> (r: String) {
    chrono::Local::now().to_rfc3339()
}

/// One file as a directory walk reports it: relative path, size in bytes,
/// and modification time in whole seconds since the Unix epoch.
pub type ListingEntry = (String, u64, u64);

/// The state recorded for a file of `size` bytes modified at `secs`.
pub open spec fn info_of(size: u64, secs: u64) -> (u64, Seq<char>) {
    (size, decimal(secs as nat))
}

/// The file table that a listing describes; a later entry for a path
/// replaces an earlier one.
pub open spec fn listing_map(l: Seq<ListingEntry>) -> FilesMap
    decreases l.len(),
{
    if l.len() == 0 {
        Map::empty()
    } else {
        listing_map(l.drop_last()).insert(l.last().0@, info_of(l.last().1, l.last().2))
    }
}

impl FileInfo {
    /// The record of a file of `size` bytes last modified `modified_secs`
    /// seconds after the Unix epoch.
    pub fn from_metadata(size: u64, modified_secs: u64) -> (r: FileInfo)
        ensures
            r@ == info_of(size, modified_secs),
    {
        FileInfo { size, modified: decimal_string(modified_secs) }
    }
}

impl DirectorySnapshot {
    /// The snapshot stamped `timestamp` that records the files of `listing`.
    pub fn from_listing_at(timestamp: String, listing: &Vec<ListingEntry>) -> (r: DirectorySnapshot)
        ensures
            r.wf(),
            r.timestamp@ == timestamp@,
            r.files_map() == listing_map(listing@),
    {
        let mut snap = DirectorySnapshot::empty(timestamp);
        let mut i: usize = 0;
        while i < listing.len()
            invariant
                i <= listing@.len(),
                snap.wf(),
                snap.timestamp@ == timestamp@,
                snap.files_map() == listing_map(listing@.take(i as int)),
            decreases listing@.len() - i,
        {
            let entry = &listing[i];
            let info = FileInfo::from_metadata(entry.1, entry.2);
            snap.insert(entry.0.clone(), info);
            proof {
                assert(listing@.take(i + 1).drop_last() =~= listing@.take(i as int));
            }
            i = i + 1;
        }
        proof {
            assert(listing@.take(listing@.len() as int) =~= listing@);
        }
        snap
    }

    /// The snapshot of the files of `listing`, stamped with the current local
    /// time.
    pub fn from_listing(listing: &Vec<ListingEntry>) -> (r: DirectorySnapshot)
        ensures
            r.wf(),
            r.files_map() == listing_map(listing@),
    {
        DirectorySnapshot::from_listing_at(local_time_rfc3339(), listing)
    }
}

} // verus!
