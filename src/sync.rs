use vstd::prelude::*;

use crate::db::{count_format, count_packages, ingest, PackageStore};
use crate::elm::old_format_packages::{legacy_records, LegacyRelease};
use crate::elm::packages::{index_records, map_since, since_records, PackageReleases, SinceRelease};

verus! {

/// Which synchronization a run performs, chosen from what the store holds.
#[derive(Clone, Copy, Debug, PartialEq, Eq, Structural)]
pub enum SyncPlan {
    /// No record of the current format is stored: fetch the full index.
    All,
    /// Fetch the versions published since this many records of the current format.
    Since(i64),
}

/// What a run fetched from the registry, as its plan asked.
pub enum Update {
    /// The full index, with each package's releases and metadata.
    All(Vec<PackageReleases>),
    /// The versions announced since the last run that were not stored yet.
    Since(Vec<SinceRelease>),
}

/// The records that a fetched update yields.
pub open spec fn update_records(update: Update) -> Seq<crate::db::models::Record> {
    match update {
        Update::All(pkgs) => index_records(pkgs@),
        Update::Since(pkgs) => since_records(pkgs@),
    }
}

/// A full run on an empty store, an incremental one from the current count otherwise.
pub fn sync_plan(conn: &PackageStore) -> (r: SyncPlan)
    requires
        conn.wf(),
    ensures
        count_format(conn@, 19) == 0 ==> r == SyncPlan::All,
        count_format(conn@, 19) != 0 ==> r == SyncPlan::Since(count_format(conn@, 19) as i64),
{
    let n = count_packages(conn, 19);
    if n == 0 {
        SyncPlan::All
    } else {
        SyncPlan::Since(n)
    }
}

/// Stores what a run fetched, skipping versions already stored; returns how many
/// records were added.
pub fn update_packages(conn: &mut PackageStore, update: &Update) -> (r: usize)
    requires
        old(conn).wf(),
    ensures
        final(conn).wf(),
        final(conn)@ == ingest(old(conn)@, update_records(*update)),
        r == final(conn)@.len() - old(conn)@.len(),
{
    match update {
        Update::All(pkgs) => crate::elm::packages::map(conn, pkgs),
        Update::Since(pkgs) => map_since(conn, pkgs),
    }
}

/// Stores the fetched legacy versions that the current index no longer lists;
/// returns how many records were added.
pub fn update_outcast_packages(conn: &mut PackageStore, pkgs: &Vec<LegacyRelease>) -> (r: usize)
    requires
        old(conn).wf(),
    ensures
        final(conn).wf(),
        final(conn)@ == ingest(old(conn)@, legacy_records(pkgs@)),
        r == final(conn)@.len() - old(conn)@.len(),
{
    crate::elm::old_format_packages::map(conn, pkgs)
}

} // verus!
