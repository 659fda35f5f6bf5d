use vstd::prelude::*;

use crate::db::models::Record;
use crate::db::{
    has_old_format_package_version, has_old_format_package_versions, ingest, legacy_present,
    save_package, PackageStore,
};
use crate::elm::packages::accepted;
use crate::elm::{map_package, metadata_view, normalize, rfc2822_seconds, rfc2822_timestamp, ElmJson};

verus! {

/// One package of the legacy registry's index.
pub struct OldPackage {
    /// `author/name`.
    pub name: String,
    pub summary: String,
    pub versions: Vec<String>,
}

/// One legacy version, with its metadata document and the `Last-Modified` header
/// of that document's response, where they could be fetched.
pub struct LegacyRelease {
    pub repo: String,
    pub version: String,
    pub elm: Option<ElmJson>,
    pub last_modified: Option<String>,
}

/// The publication time that a `Last-Modified` header gives.
pub open spec fn header_time(h: Option<String>) -> Option<i64> {
    match h {
        Some(s) => rfc2822_seconds(s@),
        None => None,
    }
}

/// The records that legacy versions yield, requested under format 15.
pub open spec fn legacy_records(rs: Seq<LegacyRelease>) -> Seq<Record>
    decreases rs.len(),
{
    if rs.len() == 0 {
        Seq::empty()
    } else {
        let r = rs.last();
        legacy_records(rs.drop_last()) + accepted(
            normalize(15, r.repo@, r.version@, metadata_view(r.elm), header_time(r.last_modified)),
        )
    }
}

/// The versions of `p` that are not stored as legacy records, in order.
pub open spec fn missing_of(s: Seq<Record>, p: OldPackage, n: int) -> Seq<(Seq<char>, Seq<char>)>
    decreases n,
{
    if n <= 0 {
        Seq::empty()
    } else {
        let v = p.versions@[n - 1]@;
        if legacy_present(s, p.name@, v) {
            missing_of(s, p, n - 1)
        } else {
            missing_of(s, p, n - 1).push((p.name@, v))
        }
    }
}

/// Every version of `p` is stored as a legacy record.
pub open spec fn fully_present(s: Seq<Record>, p: OldPackage) -> bool {
    forall|k: int| 0 <= k < p.versions@.len() ==> legacy_present(s, p.name@, #[trigger] p.versions@[k]@)
}

/// The `(author/name, version)` pairs of a legacy index that are not stored yet.
pub open spec fn missing(s: Seq<Record>, pkgs: Seq<OldPackage>) -> Seq<(Seq<char>, Seq<char>)>
    decreases pkgs.len(),
{
    if pkgs.len() == 0 {
        Seq::empty()
    } else {
        let p = pkgs.last();
        missing(s, pkgs.drop_last()) + if fully_present(s, p) {
            Seq::empty()
        } else {
            missing_of(s, p, p.versions@.len() as int)
        }
    }
}

/// The versions of a legacy index that still have to be fetched: a package whose
/// versions are all stored is passed over whole, the others version by version.
pub fn missing_versions(conn: &PackageStore, pkgs: &Vec<OldPackage>) -> (r: Vec<(String, String)>)
    requires
        conn.wf(),
    ensures
        r@.map_values(|p: (String, String)| (p.0@, p.1@)) == missing(conn@, pkgs@),
{
    let mut r: Vec<(String, String)> = Vec::new();
    let mut i: usize = 0;
    while i < pkgs.len()
        invariant
            i <= pkgs@.len(),
            conn.wf(),
            r@.map_values(|p: (String, String)| (p.0@, p.1@)) == missing(conn@, pkgs@.take(i as int)),
        decreases pkgs@.len() - i,
    {
        let p = &pkgs[i];
        let ghost done = missing(conn@, pkgs@.take(i as int));
        assert(pkgs@.take(i as int + 1).drop_last() =~= pkgs@.take(i as int));
        if !has_old_format_package_versions(conn, &p.name, &p.versions) {
            let mut j: usize = 0;
            while j < p.versions.len()
                invariant
                    i < pkgs@.len(),
                    *p == pkgs@[i as int],
                    j <= p.versions@.len(),
                    conn.wf(),
                    r@.map_values(|q: (String, String)| (q.0@, q.1@)) == done + missing_of(
                        conn@,
                        *p,
                        j as int,
                    ),
                decreases p.versions@.len() - j,
            {
                let ghost before = r@.map_values(|q: (String, String)| (q.0@, q.1@));
                if !has_old_format_package_version(conn, &p.name, &p.versions[j]) {
                    let pair = (p.name.clone(), p.versions[j].clone());
                    r.push(pair);
                    assert(r@.map_values(|q: (String, String)| (q.0@, q.1@)) =~= before.push(
                        (p.name@, p.versions@[j as int]@),
                    ));
                    assert(done + missing_of(conn@, *p, j as int + 1) =~= before.push(
                        (p.name@, p.versions@[j as int]@),
                    ));
                }
                j = j + 1;
            }
        } else {
            assert(missing(conn@, pkgs@.take(i as int + 1)) =~= done);
        }
        i = i + 1;
    }
    assert(pkgs@.take(pkgs@.len() as int) =~= pkgs@);
    r
}

/// Stores every fetched legacy version that is not stored yet; returns how many
/// records were added. The publication time comes from the `Last-Modified` header.
pub fn map(conn: &mut PackageStore, pkgs: &Vec<LegacyRelease>) -> (r: usize)
    requires
        old(conn).wf(),
    ensures
        final(conn).wf(),
        final(conn)@ == ingest(old(conn)@, legacy_records(pkgs@)),
        r == final(conn)@.len() - old(conn)@.len(),
{
    let ghost start = conn@;
    let n0 = conn.len();
    let mut i: usize = 0;
    while i < pkgs.len()
        invariant
            i <= pkgs@.len(),
            conn.wf(),
            conn@ == ingest(start, legacy_records(pkgs@.take(i as int))),
            start.len() <= conn@.len(),
            n0 == start.len(),
        decreases pkgs@.len() - i,
    {
        let p = &pkgs[i];
        let ghost before = legacy_records(pkgs@.take(i as int));
        assert(pkgs@.take(i as int + 1).drop_last() =~= pkgs@.take(i as int));
        let t = match &p.last_modified {
            Some(h) => rfc2822_timestamp(h.as_str()),
            None => None,
        };
        match map_package(15, p.repo.as_str(), p.version.as_str(), &p.elm, t) {
            Ok(pkg) => {
                let _ = save_package(conn, &pkg);
                assert(legacy_records(pkgs@.take(i as int + 1)) =~= before.push(pkg@));
                assert(before.push(pkg@).drop_last() =~= before);
            },
            Err(_) => {
                assert(legacy_records(pkgs@.take(i as int + 1)) =~= before);
            },
        }
        i = i + 1;
    }
    assert(pkgs@.take(pkgs@.len() as int) =~= pkgs@);
    conn.len() - n0
}

} // verus!
