use vstd::prelude::*;

use crate::db::models::{NewPackage, Record};
use crate::text::{
    chars_of, fields_view, parse_component, parse_number, same_chars, split_chars, split_on,
};

pub mod old_format_packages;
pub mod packages;

verus! {

/// The compatibility range given to versions whose metadata predates the
/// `elm-version` field.
pub open spec fn legacy_elm_version() -> Seq<char> {
    "0.14.0 <= v < 0.15.0"@
}

/// A name for the text that serde_json writes for a JSON object whose entries are
/// the given name/constraint pairs.
pub uninterp spec fn dependencies_text(deps: Seq<(Seq<char>, Seq<char>)>) -> Seq<char>;

/// A name for the Unix time, in seconds, that chrono reads from an RFC 2822 date,
/// or `None` where chrono refuses the text.
pub uninterp spec fn rfc2822_seconds(s: Seq<char>) -> Option<i64>;

/// The metadata document of one package version, as decoded from the registry.
pub struct ElmJson {
    pub summary: String,
    pub license: String,
    /// Empty where the document has no `elm-version` field.
    pub elm_version: String,
    /// Dependency package names, each with its version constraint.
    pub dependencies: Vec<(String, String)>,
}

/// What a metadata document holds, as plain values.
pub struct Metadata {
    pub summary: Seq<char>,
    pub license: Seq<char>,
    pub elm_version: Seq<char>,
    pub dependencies: Seq<(Seq<char>, Seq<char>)>,
}

pub open spec fn pairs_view(deps: Seq<(String, String)>) -> Seq<(Seq<char>, Seq<char>)> {
    deps.map_values(|p: (String, String)| (p.0@, p.1@))
}

impl View for ElmJson {
    type V = Metadata;

    open spec fn view(&self) -> Metadata {
        Metadata {
            summary: self.summary@,
            license: self.license@,
            elm_version: self.elm_version@,
            dependencies: pairs_view(self.dependencies@),
        }
    }
}

pub open spec fn metadata_view(elm: Option<ElmJson>) -> Option<Metadata> {
    match elm {
        Some(e) => Some(e@),
        None => None,
    }
}

/// Why a registry entry could not become a record.
#[derive(Clone, Copy, Debug, PartialEq, Eq, Structural)]
pub enum RejectReason {
    /// The package is not `author/name` with both parts non-empty.
    InvalidRepo,
    /// The version is not three decimal components separated by dots.
    InvalidVersion,
    /// The metadata document could not be fetched or decoded.
    MissingMetadata,
    /// No publication time is known for the version.
    MissingTimestamp,
}

/// `author/name` split at its one slash, both parts non-empty.
pub open spec fn parse_repo(pkg: Seq<char>) -> Option<(Seq<char>, Seq<char>)> {
    let f = split_on(pkg, '/');
    if f.len() == 2 && f[0].len() > 0 && f[1].len() > 0 {
        Some((f[0], f[1]))
    } else {
        None
    }
}

/// `major.minor.patch`: exactly three dot-separated components, each one read by
/// `parse_component`.
pub open spec fn parse_version(version: Seq<char>) -> Option<(i32, i32, i32)> {
    let f = split_on(version, '.');
    if f.len() == 3 && parse_component(f[0]) is Some && parse_component(f[1]) is Some
        && parse_component(f[2]) is Some {
        Some((parse_component(f[0])->0, parse_component(f[1])->0, parse_component(f[2])->0))
    } else {
        None
    }
}

/// The record that the registry entry of version `version` of package `pkg` yields,
/// with metadata `elm` and publication time `timestamp`, requested under `format`.
/// Metadata without a compatibility range is the oldest kind: it gets the legacy
/// range and format 14, whatever format was requested.
pub open spec fn normalize(
    format: i32,
    pkg: Seq<char>,
    version: Seq<char>,
    elm: Option<Metadata>,
    timestamp: Option<i64>,
) -> Result<Record, RejectReason> {
    match parse_repo(pkg) {
        None => Err(RejectReason::InvalidRepo),
        Some((author, name)) => match parse_version(version) {
            None => Err(RejectReason::InvalidVersion),
            Some((major, minor, patch)) => match elm {
                None => Err(RejectReason::MissingMetadata),
                Some(e) => match timestamp {
                    None => Err(RejectReason::MissingTimestamp),
                    Some(t) => Ok(
                        Record {
                            timestamp: t,
                            major,
                            minor,
                            patch,
                            author,
                            name,
                            summary: e.summary,
                            license: e.license,
                            elm_version: if e.elm_version.len() == 0 {
                                legacy_elm_version()
                            } else {
                                e.elm_version
                            },
                            dependencies: dependencies_text(e.dependencies),
                            format: if e.elm_version.len() == 0 {
                                14
                            } else {
                                format
                            },
                        },
                    ),
                },
            },
        },
    }
}

/// Metadata without a compatibility range always yields the legacy range and
/// format 14, whichever format was requested.
pub proof fn lemma_legacy_sentinel(
    format: i32,
    pkg: Seq<char>,
    version: Seq<char>,
    elm: Metadata,
    timestamp: Option<i64>,
)
    requires
        elm.elm_version.len() == 0,
    ensures
        normalize(format, pkg, version, Some(elm), timestamp) matches Ok(r) ==> r.elm_version
            == legacy_elm_version() && r.format == 14,
{
}

/// Relies on `String::from_iter` over characters: the string holds them in order.
#[verifier::external_body]
pub(crate) fn string_from_chars(cs: &Vec<char>) -> (r: String)
    ensures
        r@ == cs@,
{
    cs.iter().collect()
}

/// Relies on serde_json: a `Map` of the pairs, serialized by `Value`'s `to_string`,
/// is a text that depends on the pairs alone.
#[verifier::external_body]
fn dependencies_json(deps: &Vec<(String, String)>) -> (r: String)
    ensures
        r@ == dependencies_text(pairs_view(deps@)),
{
    let map: serde_json::Map<String, serde_json::Value> = deps.iter().map(
        |(k, v)| (k.clone(), serde_json::Value::String(v.clone())),
    ).collect();
    serde_json::Value::Object(map).to_string()
}

/// Relies on chrono's `DateTime::parse_from_rfc2822` and `DateTime::timestamp`: the
/// seconds since the epoch of an RFC 2822 date, or `None` where it does not parse.
#[verifier::external_body]
pub(crate) fn rfc2822_timestamp(s: &str) -> (r: Option<i64>)
    ensures
        r == rfc2822_seconds(s@),
{
    match chrono::DateTime::parse_from_rfc2822(s) {
        Ok(d) => Some(d.timestamp()),
        Err(_) => None,
    }
}

/// An empty compatibility range, the value that a document without the field decodes to.
pub fn default_elm_version() -> (r: String)
    ensures
        r@ == Seq::<char>::empty(),
{
    String::new()
}

/// Splits `author/name`.
pub fn split_repo(pkg: &str) -> (r: Option<(String, String)>)
    ensures
        match r {
            Some((a, n)) => parse_repo(pkg@) == Some((a@, n@)),
            None => parse_repo(pkg@) is None,
        },
{
    let cs = chars_of(pkg);
    let f = split_chars(&cs, '/');
    proof { fields_view(&f); }
    if f.len() == 2 && f[0].len() > 0 && f[1].len() > 0 {
        Some((string_from_chars(&f[0]), string_from_chars(&f[1])))
    } else {
        None
    }
}

/// Reads `major.minor.patch`.
pub fn split_version(version: &str) -> (r: Option<(i32, i32, i32)>)
    ensures
        r == parse_version(version@),
{
    let cs = chars_of(version);
    let f = split_chars(&cs, '.');
    proof { fields_view(&f); }
    if f.len() != 3 {
        return None;
    }
    let major = parse_number(&f[0]);
    let minor = parse_number(&f[1]);
    let patch = parse_number(&f[2]);
    match (major, minor, patch) {
        (Some(x), Some(y), Some(z)) => Some((x, y, z)),
        _ => None,
    }
}

/// The publication time listed for `version` in a releases index: the first entry
/// whose version is `version`.
pub open spec fn release_time(releases: Seq<(Seq<char>, i64)>, version: Seq<char>) -> Option<i64>
    decreases releases.len(),
{
    if releases.len() == 0 {
        None
    } else if releases[0].0 == version {
        Some(releases[0].1)
    } else {
        release_time(releases.drop_first(), version)
    }
}

pub open spec fn releases_view(releases: Seq<(String, i64)>) -> Seq<(Seq<char>, i64)> {
    releases.map_values(|p: (String, i64)| (p.0@, p.1))
}

/// Looks `version` up in a releases index.
pub fn lookup_release(releases: &Vec<(String, i64)>, version: &str) -> (r: Option<i64>)
    ensures
        r == release_time(releases_view(releases@), version@),
{
    let ghost rv = releases_view(releases@);
    let wanted = chars_of(version);
    let mut i: usize = 0;
    assert(rv.skip(0) =~= rv);
    while i < releases.len()
        invariant
            i <= releases@.len(),
            rv == releases_view(releases@),
            wanted@ == version@,
            release_time(rv, version@) == release_time(rv.skip(i as int), version@),
        decreases releases@.len() - i,
    {
        assert(rv.skip(i as int).drop_first() =~= rv.skip(i as int + 1));
        assert(rv.skip(i as int)[0] == (releases@[i as int].0@, releases@[i as int].1));
        let here = chars_of(releases[i].0.as_str());
        assert(rv.skip(i as int)[0] == rv[i as int]);
        let ghost rest = rv.skip(i as int);
        assert(rest.len() > 0);
        if same_chars(&here, &wanted) {
            return Some(releases[i].1);
        }

        i = i + 1;
    }
    None
}

/// Turns the registry entry of version `version` of package `pkg` into a record.
pub fn map_package(
    format: i32,
    pkg: &str,
    version: &str,
    elm: &Option<ElmJson>,
    timestamp: Option<i64>,
) -> (r: Result<NewPackage, RejectReason>)
    ensures
        match r {
            Ok(p) => normalize(format, pkg@, version@, metadata_view(*elm), timestamp) == Ok::<
                Record,
                RejectReason,
            >(p@),
            Err(e) => normalize(format, pkg@, version@, metadata_view(*elm), timestamp) == Err::<
                Record,
                RejectReason,
            >(e),
        },
{
    let (author, name) = match split_repo(pkg) {
        Some(parts) => parts,
        None => return Err(RejectReason::InvalidRepo),
    };
    let (major, minor, patch) = match split_version(version) {
        Some(v) => v,
        None => return Err(RejectReason::InvalidVersion),
    };
    let e = match elm {
        Some(e) => e,
        None => return Err(RejectReason::MissingMetadata),
    };
    let t = match timestamp {
        Some(t) => t,
        None => return Err(RejectReason::MissingTimestamp),
    };
    let legacy = e.elm_version.as_str().unicode_len() == 0;
    let elm_version = if legacy {
        proof { reveal_strlit("0.14.0 <= v < 0.15.0"); }
        "0.14.0 <= v < 0.15.0".to_string()
    } else {
        e.elm_version.clone()
    };
    Ok(
        NewPackage {
            timestamp: t,
            major,
            minor,
            patch,
            author,
            name,
            summary: e.summary.clone(),
            license: e.license.clone(),
            elm_version,
            dependencies: dependencies_json(&e.dependencies),
            format: if legacy {
                14
            } else {
                format
            },
        },
    )
}

} // verus!
