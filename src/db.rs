use vstd::prelude::*;

use crate::elm::{parse_repo, parse_version, split_repo, split_version, string_from_chars};
use crate::text::{chars_of, same_chars, split_chars, split_on};
use models::{natural_key, repo_of, NewPackage, Package, Record};

pub mod models;
pub mod query;

pub use query::{author_packages, last_packages};

verus! {

/// No two records share a natural key.
pub open spec fn keys_unique(s: Seq<Record>) -> bool {
    forall|i: int, j: int|
        0 <= i < j < s.len() ==> natural_key(#[trigger] s[i]) != natural_key(#[trigger] s[j])
}

/// Some record has natural key `k`.
pub open spec fn has_key(s: Seq<Record>, k: (Seq<char>, Seq<char>, i32, i32, i32)) -> bool {
    exists|i: int| 0 <= i < s.len() && natural_key(#[trigger] s[i]) == k
}

/// The largest number of rows the store can number.
pub open spec fn capacity() -> int {
    i32::MAX as int
}

/// The store after an attempt to add `r`: unchanged where its natural key is
/// already present (the first write wins) or where no row number is left.
pub open spec fn insert_record(s: Seq<Record>, r: Record) -> Seq<Record> {
    if has_key(s, natural_key(r)) || s.len() >= capacity() {
        s
    } else {
        s.push(r)
    }
}

/// The store after attempts to add each of `rs`, in order.
pub open spec fn ingest(s: Seq<Record>, rs: Seq<Record>) -> Seq<Record>
    decreases rs.len(),
{
    if rs.len() == 0 {
        s
    } else {
        insert_record(ingest(s, rs.drop_last()), rs.last())
    }
}

/// Adding `r` to `s` would change nothing: its key is there, or no row is left.
pub open spec fn settled(s: Seq<Record>, r: Record) -> bool {
    has_key(s, natural_key(r)) || s.len() >= capacity()
}

proof fn lemma_settled_stays(s: Seq<Record>, x: Record, r: Record)
    requires
        settled(s, r),
    ensures
        settled(insert_record(s, x), r),
{
    if has_key(s, natural_key(r)) && !(has_key(s, natural_key(x)) || s.len() >= capacity()) {
        let i = choose|i: int| 0 <= i < s.len() && natural_key(#[trigger] s[i]) == natural_key(r);
        assert(s.push(x)[i] == s[i]);
    }
}

proof fn lemma_ingest_settles(s: Seq<Record>, rs: Seq<Record>)
    ensures
        forall|k: int| 0 <= k < rs.len() ==> settled(ingest(s, rs), #[trigger] rs[k]),
    decreases rs.len(),
{
    if rs.len() > 0 {
        let prev = ingest(s, rs.drop_last());
        lemma_ingest_settles(s, rs.drop_last());
        assert forall|k: int| 0 <= k < rs.len() implies settled(ingest(s, rs), #[trigger] rs[k]) by {
            if k < rs.len() - 1 {
                assert(rs.drop_last()[k] == rs[k]);
                lemma_settled_stays(prev, rs.last(), rs[k]);
            } else if !settled(prev, rs.last()) {
                assert(ingest(s, rs)[prev.len() as int] == rs.last());
            }
        }
    }
}

proof fn lemma_ingest_settled(s: Seq<Record>, rs: Seq<Record>)
    requires
        forall|k: int| 0 <= k < rs.len() ==> settled(s, #[trigger] rs[k]),
    ensures
        ingest(s, rs) == s,
    decreases rs.len(),
{
    if rs.len() > 0 {
        assert forall|k: int| 0 <= k < rs.drop_last().len() implies settled(
            s,
            #[trigger] rs.drop_last()[k],
        ) by {
            assert(rs.drop_last()[k] == rs[k]);
        }
        lemma_ingest_settled(s, rs.drop_last());
        assert(settled(s, rs[rs.len() - 1]));
    }
}

/// Adding the same records a second time changes nothing.
pub proof fn lemma_ingest_idempotent(s: Seq<Record>, rs: Seq<Record>)
    ensures
        ingest(ingest(s, rs), rs) == ingest(s, rs),
{
    lemma_ingest_settles(s, rs);
    lemma_ingest_settled(ingest(s, rs), rs);
}

/// No two stored records share a natural key.
pub proof fn lemma_keys_unique(conn: &PackageStore)
    requires
        conn.wf(),
    ensures
        keys_unique(conn@),
{
}

/// The number of records stored under `format`.
pub open spec fn count_format(s: Seq<Record>, format: i32) -> int
    decreases s.len(),
{
    if s.len() == 0 {
        0
    } else {
        count_format(s.drop_last(), format) + if s.last().format == format {
            1int
        } else {
            0
        }
    }
}

/// The natural key that a token `author/name@major.minor.patch` names.
pub open spec fn token_key(token: Seq<char>) -> Option<(Seq<char>, Seq<char>, i32, i32, i32)> {
    let f = split_on(token, '@');
    if f.len() == 2 && parse_repo(f[0]) is Some && parse_version(f[1]) is Some {
        let (a, n) = parse_repo(f[0])->0;
        let (x, y, z) = parse_version(f[1])->0;
        Some((a, n, x, y, z))
    } else {
        None
    }
}

/// A compatibility range of the 0.14 to 0.18 compilers.
pub open spec fn legacy_range_prefix(e: Seq<char>) -> bool {
    e.len() >= 4 && e[0] == '0' && e[1] == '.' && e[2] == '1' && '4' <= e[3] && e[3] <= '8'
}

/// A record that the legacy registry covers: an older format, or a 0.14 to 0.18 range.
pub open spec fn is_legacy(r: Record) -> bool {
    r.format < 19 || legacy_range_prefix(r.elm_version)
}

/// Version `version` of repository `repo` is stored as a legacy record.
pub open spec fn legacy_present(s: Seq<Record>, repo: Seq<char>, version: Seq<char>) -> bool {
    exists|i: int|
        0 <= i < s.len() && repo_of(#[trigger] s[i]) == repo && parse_version(version) == Some(
            (s[i].major, s[i].minor, s[i].patch),
        ) && is_legacy(s[i])
}

/// Why a record was not stored.
#[derive(Clone, Copy, Debug, PartialEq, Eq, Structural)]
pub enum StoreError {
    /// A record with the same natural key is already stored.
    DuplicateKey,
    /// Every row number is taken.
    StoreFull,
}

/// The append-only table of package versions.
pub struct PackageStore {
    packages: Vec<Package>,
}

impl View for PackageStore {
    type V = Seq<Record>;

    closed spec fn view(&self) -> Seq<Record> {
        self.packages@.map_values(|p: Package| p@)
    }
}

impl PackageStore {
    /// Rows are numbered from 1 in order of insertion, within `i32`, and natural
    /// keys are unique.
    pub closed spec fn wf(&self) -> bool {
        &&& self.packages@.len() <= capacity()
        &&& forall|i: int| 0 <= i < self.packages@.len() ==> #[trigger] self.packages@[i].id == i + 1
        &&& keys_unique(self@)
    }

    /// The row numbered `i + 1`.
    pub closed spec fn row(&self, i: int) -> Package {
        self.packages@[i]
    }

    /// The row numbered `i + 1` holds the store's `i`-th record.
    pub proof fn lemma_rows(&self)
        ensures
            forall|i: int| 0 <= i < self@.len() ==> #[trigger] self.row(i)@ == self@[i],
            self.wf() ==> forall|i: int| 0 <= i < self@.len() ==> #[trigger] self.row(i).id == i + 1,
    {
    }

    /// An empty store.
    pub fn new() -> (r: PackageStore)
        ensures
            r.wf(),
            r@ == Seq::<Record>::empty(),
    {
        let r = PackageStore { packages: Vec::new() };
        assert(r@ =~= Seq::<Record>::empty());
        r
    }

    /// The number of stored records.
    pub fn len(&self) -> (r: usize)
        ensures
            r == self@.len(),
    {
        self.packages.len()
    }

    /// The row numbered `i + 1`.
    pub fn get(&self, i: usize) -> (r: &Package)
        requires
            i < self@.len(),
        ensures
            r@ == self@[i as int],
            *r == self.row(i as int),
    {
        &self.packages[i]
    }

    /// A store that holds `rows` in order, each one dropped whose natural key an
    /// earlier one holds, within the store's capacity.
    pub fn from_rows(rows: &Vec<NewPackage>) -> (r: PackageStore)
        ensures
            r.wf(),
            r@ == ingest(Seq::empty(), rows@.map_values(|p: NewPackage| p@)),
    {
        let ghost rs = rows@.map_values(|p: NewPackage| p@);
        let mut store = PackageStore::new();
        let mut i: usize = 0;
        while i < rows.len()
            invariant
                i <= rows@.len(),
                rs == rows@.map_values(|p: NewPackage| p@),
                store.wf(),
                store@ == ingest(Seq::empty(), rs.take(i as int)),
            decreases rows@.len() - i,
        {
            assert(rs.take(i as int + 1).drop_last() =~= rs.take(i as int));
            let _ = save_package(&mut store, &rows[i]);
            i = i + 1;
        }
        assert(rs.take(rows@.len() as int) =~= rs);
        store
    }
}

/// The number of records stored under format `pkg_format`.
pub fn count_packages(conn: &PackageStore, pkg_format: i32) -> (r: i64)
    requires
        conn.wf(),
    ensures
        r == count_format(conn@, pkg_format),
{
    let mut n: i64 = 0;
    let mut i: usize = 0;
    while i < conn.packages.len()
        invariant
            conn.wf(),
            i <= conn@.len(),
            n == count_format(conn@.take(i as int), pkg_format),
            n <= i,
        decreases conn@.len() - i,
    {
        assert(conn@.take(i as int + 1).drop_last() =~= conn@.take(i as int));
        if conn.packages[i].format == pkg_format {
            n = n + 1;
        }
        i = i + 1;
    }
    assert(conn@.take(conn@.len() as int) =~= conn@);
    n
}

/// Whether a record with the natural key of `pkg` is stored.
pub fn has_package_version(conn: &PackageStore, pkg: &NewPackage) -> (r: bool)
    requires
        conn.wf(),
    ensures
        r == has_key(conn@, natural_key(pkg@)),
{
    has_key_of(conn, &pkg.author, &pkg.name, pkg.major, pkg.minor, pkg.patch, None)
}

/// Whether a record with natural key `author/name@major.minor.patch` is stored,
/// under format `format` where one is given.
fn has_key_of(
    conn: &PackageStore,
    author: &String,
    name: &String,
    major: i32,
    minor: i32,
    patch: i32,
    format: Option<i32>,
) -> (r: bool)
    ensures
        r == exists|i: int|
            0 <= i < conn@.len() && natural_key(#[trigger] conn@[i]) == (
                author@,
                name@,
                major,
                minor,
                patch,
            ) && (format matches Some(f) ==> conn@[i].format == f),
{
    let mut i: usize = 0;
    while i < conn.packages.len()
        invariant
            i <= conn@.len(),
            forall|j: int|
                0 <= j < i ==> !(natural_key(#[trigger] conn@[j]) == (
                    author@,
                    name@,
                    major,
                    minor,
                    patch,
                ) && (format matches Some(f) ==> conn@[j].format == f)),
        decreases conn@.len() - i,
    {
        let p = &conn.packages[i];
        let format_ok = match format {
            Some(f) => p.format == f,
            None => true,
        };
        if p.author == *author && p.name == *name && p.major == major && p.minor == minor
            && p.patch == patch && format_ok {
            assert(natural_key(conn@[i as int]) == (author@, name@, major, minor, patch));
            return true;
        }
        i = i + 1;
    }
    false
}

/// Whether the version that the token `author/name@major.minor.patch` names is
/// stored under format `pkg_format`; `false` for a token that names no version.
pub fn has_package(conn: &PackageStore, pkg: &String, pkg_format: i32) -> (r: bool)
    requires
        conn.wf(),
    ensures
        r == (token_key(pkg@) matches Some(k) && exists|i: int|
            0 <= i < conn@.len() && natural_key(#[trigger] conn@[i]) == k && conn@[i].format
                == pkg_format),
{
    match split_token(pkg) {
        Some((repo, version)) => match (split_repo(repo.as_str()), split_version(version.as_str())) {
            (Some((author, name)), Some((major, minor, patch))) => has_key_of(
                conn,
                &author,
                &name,
                major,
                minor,
                patch,
                Some(pkg_format),
            ),
            _ => false,
        },
        None => false,
    }
}

/// Splits a token `author/name@version` at its one `@`.
pub fn split_token(token: &String) -> (r: Option<(String, String)>)
    ensures
        match r {
            Some((repo, version)) => {
                let f = split_on(token@, '@');
                f.len() == 2 && repo@ == f[0] && version@ == f[1]
            },
            None => split_on(token@, '@').len() != 2,
        },
{
    let cs = chars_of(token.as_str());
    let f = split_chars(&cs, '@');
    proof { crate::text::fields_view(&f); }
    if f.len() == 2 {
        Some((string_from_chars(&f[0]), string_from_chars(&f[1])))
    } else {
        None
    }
}

/// `author/name` of a stored row.
pub(crate) fn repo_chars(p: &Package) -> (r: Vec<char>)
    ensures
        r@ == repo_of(p@),
{
    let mut r = chars_of(p.author.as_str());
    r.push('/');
    let mut rest = chars_of(p.name.as_str());
    r.append(&mut rest);
    r
}

fn is_legacy_row(p: &Package) -> (r: bool)
    ensures
        r == is_legacy(p@),
{
    if p.format < 19 {
        return true;
    }
    let e = chars_of(p.elm_version.as_str());
    e.len() >= 4 && e[0] == '0' && e[1] == '.' && e[2] == '1' && '4' <= e[3] && e[3] <= '8'
}

/// Whether version `version` of repository `repo` is stored as a legacy record.
pub fn has_old_format_package_version(conn: &PackageStore, repo: &String, version: &String) -> (r:
    bool)
    requires
        conn.wf(),
    ensures
        r == legacy_present(conn@, repo@, version@),
{
    let wanted = chars_of(repo.as_str());
    let v = split_version(version.as_str());
    let mut i: usize = 0;
    while i < conn.packages.len()
        invariant
            i <= conn@.len(),
            wanted@ == repo@,
            v == parse_version(version@),
            forall|j: int|
                0 <= j < i ==> !(repo_of(#[trigger] conn@[j]) == repo@ && parse_version(version@)
                    == Some((conn@[j].major, conn@[j].minor, conn@[j].patch)) && is_legacy(
                    conn@[j],
                )),
        decreases conn@.len() - i,
    {
        let p = &conn.packages[i];
        let same_version = match v {
            Some((x, y, z)) => p.major == x && p.minor == y && p.patch == z,
            None => false,
        };
        if same_version && is_legacy_row(p) && same_chars(&repo_chars(p), &wanted) {
            assert(conn@[i as int] == p@);
            assert(repo_of(conn@[i as int]) == repo@);
            return true;
        }
        i = i + 1;
    }
    false
}

/// Whether every version in `versions` of repository `repo` is stored as a legacy
/// record.
pub fn has_old_format_package_versions(
    conn: &PackageStore,
    repo: &String,
    versions: &Vec<String>,
) -> (r: bool)
    requires
        conn.wf(),
    ensures
        r == forall|k: int| 0 <= k < versions@.len() ==> legacy_present(conn@, repo@, #[trigger] versions@[k]@),
{
    let mut k: usize = 0;
    while k < versions.len()
        invariant
            conn.wf(),
            k <= versions@.len(),
            forall|j: int| 0 <= j < k ==> legacy_present(conn@, repo@, #[trigger] versions@[j]@),
        decreases versions@.len() - k,
    {
        if !has_old_format_package_version(conn, repo, &versions[k]) {
            return false;
        }
        k = k + 1;
    }
    true
}

/// Stores `pkg` unless its natural key is already stored or no row number is left.
pub fn save_package(conn: &mut PackageStore, pkg: &NewPackage) -> (r: Result<(), StoreError>)
    requires
        old(conn).wf(),
    ensures
        final(conn).wf(),
        final(conn)@ == insert_record(old(conn)@, pkg@),
        r == Err::<(), StoreError>(StoreError::DuplicateKey) <==> has_key(old(conn)@, natural_key(pkg@)),
        r == Err::<(), StoreError>(StoreError::StoreFull) <==> !has_key(old(conn)@, natural_key(pkg@))
            && old(conn)@.len() >= capacity(),
        r is Ok <==> final(conn)@ == old(conn)@.push(pkg@),
{
    if has_package_version(conn, pkg) {
        return Err(StoreError::DuplicateKey);
    }
    let n = conn.packages.len();
    if n >= i32::MAX as usize {
        return Err(StoreError::StoreFull);
    }
    let ghost before = conn@;
    conn.packages.push(Package::from_new((n + 1) as i32, pkg));
    assert(conn@ =~= before.push(pkg@));
    assert(conn@ != before);
    Ok(())
}

} // verus!
