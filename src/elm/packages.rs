use vstd::prelude::*;

use crate::db::models::Record;
use crate::db::{
    has_package, ingest, lemma_ingest_idempotent, save_package, split_token, token_key,
    PackageStore,
};
use crate::db::models::natural_key;
use crate::text::split_on;
use crate::elm::{
    lookup_release, map_package, metadata_view, normalize, release_time, releases_view, ElmJson,
};

verus! {

/// One version of a package, with its metadata document where it could be fetched.
pub struct VersionMetadata {
    pub version: String,
    pub elm: Option<ElmJson>,
}

/// One package of the registry's full index: its releases index (version and
/// publication time) and the versions that the index lists.
pub struct PackageReleases {
    pub name: String,
    pub releases: Vec<(String, i64)>,
    pub versions: Vec<VersionMetadata>,
}

/// One version announced by the registry since the last run, with its package's
/// releases index and its metadata document where they could be fetched.
pub struct SinceRelease {
    pub repo: String,
    pub version: String,
    pub releases: Vec<(String, i64)>,
    pub elm: Option<ElmJson>,
}

/// The record a normalization yields, if any, as a sequence of zero or one.
pub open spec fn accepted(r: Result<Record, crate::elm::RejectReason>) -> Seq<Record> {
    match r {
        Ok(rec) => seq![rec],
        Err(_) => Seq::empty(),
    }
}

/// The records that the first `n` versions of `p` yield under the current format.
pub open spec fn package_records(p: PackageReleases, n: int) -> Seq<Record>
    decreases n,
{
    if n <= 0 {
        Seq::empty()
    } else {
        let v = p.versions@[n - 1];
        package_records(p, n - 1) + accepted(
            normalize(
                19,
                p.name@,
                v.version@,
                metadata_view(v.elm),
                release_time(releases_view(p.releases@), v.version@),
            ),
        )
    }
}

/// The records that a full index yields, package after package.
pub open spec fn index_records(pkgs: Seq<PackageReleases>) -> Seq<Record>
    decreases pkgs.len(),
{
    if pkgs.len() == 0 {
        Seq::empty()
    } else {
        index_records(pkgs.drop_last()) + package_records(
            pkgs.last(),
            pkgs.last().versions@.len() as int,
        )
    }
}

/// The records that the versions announced since the last run yield.
pub open spec fn since_records(rs: Seq<SinceRelease>) -> Seq<Record>
    decreases rs.len(),
{
    if rs.len() == 0 {
        Seq::empty()
    } else {
        let r = rs.last();
        since_records(rs.drop_last()) + accepted(
            normalize(
                19,
                r.repo@,
                r.version@,
                metadata_view(r.elm),
                release_time(releases_view(r.releases@), r.version@),
            ),
        )
    }
}

/// Stores every version of a full index that is not stored yet; returns how many
/// records were added.
pub fn map(conn: &mut PackageStore, pkgs: &Vec<PackageReleases>) -> (r: usize)
    requires
        old(conn).wf(),
    ensures
        final(conn).wf(),
        final(conn)@ == ingest(old(conn)@, index_records(pkgs@)),
        r == final(conn)@.len() - old(conn)@.len(),
{
    let ghost start = conn@;
    let n0 = conn.len();
    let mut i: usize = 0;
    while i < pkgs.len()
        invariant
            i <= pkgs@.len(),
            conn.wf(),
            conn@ == ingest(start, index_records(pkgs@.take(i as int))),
            start.len() <= conn@.len(),
            n0 == start.len(),
        decreases pkgs@.len() - i,
    {
        let p = &pkgs[i];
        let ghost done = index_records(pkgs@.take(i as int));
        let mut j: usize = 0;
        while j < p.versions.len()
            invariant
                i < pkgs@.len(),
                *p == pkgs@[i as int],
                j <= p.versions@.len(),
                conn.wf(),
                conn@ == ingest(start, done + package_records(*p, j as int)),
                start.len() <= conn@.len(),
            decreases p.versions@.len() - j,
        {
            let v = &p.versions[j];
            let t = lookup_release(&p.releases, v.version.as_str());
            let res = map_package(19, p.name.as_str(), v.version.as_str(), &v.elm, t);
            let ghost before = done + package_records(*p, j as int);
            match res {
                Ok(pkg) => {
                    let _ = save_package(conn, &pkg);
                    assert(done + package_records(*p, j as int + 1) =~= before.push(pkg@));
                    assert(before.push(pkg@).drop_last() =~= before);
                },
                Err(_) => {
                    assert(done + package_records(*p, j as int + 1) =~= before);
                },
            }
            j = j + 1;
        }
        assert(pkgs@.take(i as int + 1).drop_last() =~= pkgs@.take(i as int));
        i = i + 1;
    }
    assert(pkgs@.take(pkgs@.len() as int) =~= pkgs@);
    conn.len() - n0
}

/// Running a full synchronization a second time on the same index leaves the
/// store as the first run left it.
pub proof fn lemma_full_sync_idempotent(conn: Seq<Record>, pkgs: Seq<PackageReleases>)
    ensures
        ingest(ingest(conn, index_records(pkgs)), index_records(pkgs)) == ingest(
            conn,
            index_records(pkgs),
        ),
{
    lemma_ingest_idempotent(conn, index_records(pkgs));
}

/// Stores every announced version that is not stored yet; returns how many
/// records were added.
pub fn map_since(conn: &mut PackageStore, pkgs: &Vec<SinceRelease>) -> (r: usize)
    requires
        old(conn).wf(),
    ensures
        final(conn).wf(),
        final(conn)@ == ingest(old(conn)@, since_records(pkgs@)),
        r == final(conn)@.len() - old(conn)@.len(),
{
    let ghost start = conn@;
    let n0 = conn.len();
    let mut i: usize = 0;
    while i < pkgs.len()
        invariant
            i <= pkgs@.len(),
            conn.wf(),
            conn@ == ingest(start, since_records(pkgs@.take(i as int))),
            start.len() <= conn@.len(),
            n0 == start.len(),
        decreases pkgs@.len() - i,
    {
        let p = &pkgs[i];
        let ghost before = since_records(pkgs@.take(i as int));
        assert(pkgs@.take(i as int + 1).drop_last() =~= pkgs@.take(i as int));
        let t = lookup_release(&p.releases, p.version.as_str());
        match map_package(19, p.repo.as_str(), p.version.as_str(), &p.elm, t) {
            Ok(pkg) => {
                let _ = save_package(conn, &pkg);
                assert(since_records(pkgs@.take(i as int + 1)) =~= before.push(pkg@));
                assert(before.push(pkg@).drop_last() =~= before);
            },
            Err(_) => {
                assert(since_records(pkgs@.take(i as int + 1)) =~= before);
            },
        }
        i = i + 1;
    }
    assert(pkgs@.take(pkgs@.len() as int) =~= pkgs@);
    conn.len() - n0
}

/// A token names a version stored under the current format.
pub open spec fn token_stored(s: Seq<Record>, token: Seq<char>) -> bool {
    token_key(token) matches Some(k) && exists|i: int|
        0 <= i < s.len() && natural_key(#[trigger] s[i]) == k && s[i].format == 19
}

/// The `(author/name, version)` pairs of the announced tokens that still have to
/// be fetched: those not stored yet that split at exactly one `@`, in order.
pub open spec fn pending(s: Seq<Record>, tokens: Seq<Seq<char>>) -> Seq<(Seq<char>, Seq<char>)>
    decreases tokens.len(),
{
    if tokens.len() == 0 {
        Seq::empty()
    } else {
        let t = tokens.last();
        let f = split_on(t, '@');
        if token_stored(s, t) || f.len() != 2 {
            pending(s, tokens.drop_last())
        } else {
            pending(s, tokens.drop_last()).push((f[0], f[1]))
        }
    }
}

/// Of the tokens `author/name@version` announced since the last run, those whose
/// version still has to be fetched, split into package and version.
pub fn new_releases(conn: &PackageStore, tokens: &Vec<String>) -> (r: Vec<(String, String)>)
    requires
        conn.wf(),
    ensures
        r@.map_values(|p: (String, String)| (p.0@, p.1@)) == pending(
            conn@,
            tokens@.map_values(|t: String| t@),
        ),
{
    let ghost ts = tokens@.map_values(|t: String| t@);
    let mut r: Vec<(String, String)> = Vec::new();
    let mut i: usize = 0;
    while i < tokens.len()
        invariant
            i <= tokens@.len(),
            conn.wf(),
            ts == tokens@.map_values(|t: String| t@),
            r@.map_values(|p: (String, String)| (p.0@, p.1@)) == pending(conn@, ts.take(i as int)),
        decreases tokens@.len() - i,
    {
        let ghost before = r@.map_values(|p: (String, String)| (p.0@, p.1@));
        assert(ts.take(i as int + 1).drop_last() =~= ts.take(i as int));
        assert(ts.take(i as int + 1).last() == tokens@[i as int]@);
        if !has_package(conn, &tokens[i], 19) {
            if let Some(parts) = split_token(&tokens[i]) {
                let ghost pv = (parts.0@, parts.1@);
                r.push(parts);
                assert(r@.map_values(|p: (String, String)| (p.0@, p.1@)) =~= before.push(pv));
            }
        }
        i = i + 1;
    }
    assert(ts.take(tokens@.len() as int) =~= ts);
    r
}

} // verus!
