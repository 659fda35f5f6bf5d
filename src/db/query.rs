use vstd::prelude::*;

use crate::db::models::{repo_of, Package, Record};
use crate::db::{repo_chars, PackageStore};
use crate::elm::pairs_view;
use crate::release::{version_kind_holds, Release};
use crate::text::{
    chars_of, contains_ignoring_case, fields_view, occurs_at, same_chars, same_ignoring_case,
    split_chars, split_on,
};

verus! {

pub open spec fn records_of(v: Seq<Package>) -> Seq<Record> {
    v.map_values(|p: Package| p@)
}

/// `r` placed into `s` after every record at least as recent as `r`.
pub open spec fn insert_desc(s: Seq<Record>, r: Record) -> Seq<Record>
    decreases s.len(),
{
    if s.len() == 0 {
        seq![r]
    } else if s[0].timestamp < r.timestamp {
        seq![r] + s
    } else {
        seq![s[0]] + insert_desc(s.drop_first(), r)
    }
}

/// `s` ordered by timestamp, most recent first; records with equal timestamps keep
/// their order.
pub open spec fn sort_desc(s: Seq<Record>) -> Seq<Record>
    decreases s.len(),
{
    if s.len() == 0 {
        s
    } else {
        insert_desc(sort_desc(s.drop_last()), s.last())
    }
}

pub open spec fn sorted_desc(s: Seq<Record>) -> bool {
    forall|i: int, j: int| 0 <= i < j < s.len() ==> s[i].timestamp >= s[j].timestamp
}

proof fn lemma_insert_desc_at(s: Seq<Record>, r: Record, pos: int)
    requires
        0 <= pos <= s.len(),
        forall|k: int| 0 <= k < pos ==> s[k].timestamp >= r.timestamp,
        pos == s.len() || s[pos].timestamp < r.timestamp,
    ensures
        insert_desc(s, r) == s.take(pos) + seq![r] + s.skip(pos),
    decreases s.len(),
{
    if s.len() == 0 {
        assert(s.take(pos) + seq![r] + s.skip(pos) =~= seq![r]);
    } else if pos == 0 {
        assert(s.take(pos) + seq![r] + s.skip(pos) =~= seq![r] + s);
    } else {
        lemma_insert_desc_at(s.drop_first(), r, pos - 1);
        assert(s.drop_first().take(pos - 1) + seq![r] + s.drop_first().skip(pos - 1) =~= (s.take(
            pos,
        ) + seq![r] + s.skip(pos)).drop_first());
        assert(s.take(pos) + seq![r] + s.skip(pos) =~= seq![s[0]] + (s.take(pos) + seq![r]
            + s.skip(pos)).drop_first());
    }
}

proof fn lemma_insert_desc_props(s: Seq<Record>, r: Record)
    ensures
        insert_desc(s, r).to_multiset() == s.to_multiset().insert(r),
        sorted_desc(s) ==> sorted_desc(insert_desc(s, r)),
    decreases s.len(),
{
    broadcast use vstd::seq_lib::group_to_multiset_ensures, vstd::seq_lib::lemma_multiset_commutative;
    if s.len() == 0 {
        assert(seq![r] =~= Seq::<Record>::empty().push(r));
    } else if s[0].timestamp < r.timestamp {
        assert(seq![r] =~= Seq::<Record>::empty().push(r));
        assert((seq![r] + s).to_multiset() =~= seq![r].to_multiset().add(s.to_multiset()));
    } else {
        let rest = s.drop_first();
        lemma_insert_desc_props(rest, r);
        assert(s =~= seq![s[0]] + rest);
        assert(seq![s[0]] =~= Seq::<Record>::empty().push(s[0]));
        assert((seq![s[0]] + insert_desc(rest, r)).to_multiset() =~= seq![s[0]].to_multiset().add(
            insert_desc(rest, r).to_multiset(),
        ));
        assert((seq![s[0]] + rest).to_multiset() =~= seq![s[0]].to_multiset().add(rest.to_multiset()));
        if sorted_desc(s) {
            let t = insert_desc(s, r);
            let u = insert_desc(rest, r);
            assert(sorted_desc(rest));
            assert(u.to_multiset().count(u[0]) > 0);
            assert forall|i: int, j: int| 0 <= i < j < t.len() implies t[i].timestamp
                >= t[j].timestamp by {
                if i == 0 {
                    assert(t[j] == u[j - 1]);
                    assert(u.to_multiset().count(u[j - 1]) > 0);
                    assert(u.contains(u[j - 1]));
                    if u[j - 1] != r {
                        assert(rest.to_multiset().count(u[j - 1]) > 0);
                        assert(rest.contains(u[j - 1]));
                        let k = choose|k: int| 0 <= k < rest.len() && rest[k] == u[j - 1];
                        assert(s[k + 1] == rest[k]);
                    }
                }
            }
        }
    }
}

/// The sort orders by timestamp and keeps every record, each as often as before.
pub proof fn lemma_sort_desc(s: Seq<Record>)
    ensures
        sorted_desc(sort_desc(s)),
        sort_desc(s).to_multiset() == s.to_multiset(),
        sort_desc(s).len() == s.len(),
    decreases s.len(),
{
    broadcast use vstd::seq_lib::group_to_multiset_ensures;
    if s.len() > 0 {
        lemma_sort_desc(s.drop_last());
        lemma_insert_desc_props(sort_desc(s.drop_last()), s.last());
        assert(s =~= s.drop_last().push(s.last()));
        assert(sort_desc(s).to_multiset().len() == sort_desc(s).len());
        assert(s.to_multiset().len() == s.len());
    }
}

/// `v` ordered by timestamp, most recent first, ties kept in order.
pub fn sort_by_time(v: &Vec<Package>) -> (r: Vec<Package>)
    ensures
        records_of(r@) == sort_desc(records_of(v@)),
{
    let ghost vs = records_of(v@);
    let mut r: Vec<Package> = Vec::new();
    let mut i: usize = 0;
    assert(records_of(r@) =~= sort_desc(vs.take(0)));
    while i < v.len()
        invariant
            i <= v@.len(),
            vs == records_of(v@),
            records_of(r@) == sort_desc(vs.take(i as int)),
        decreases v@.len() - i,
    {
        let p = v[i].clone();
        let mut pos: usize = 0;
        while pos < r.len() && r[pos].timestamp >= p.timestamp
            invariant
                pos <= r@.len(),
                forall|k: int| 0 <= k < pos ==> r@[k].timestamp >= p.timestamp,
            decreases r@.len() - pos,
        {
            pos = pos + 1;
        }
        let ghost before = records_of(r@);
        proof {
            lemma_insert_desc_at(before, p@, pos as int);
            assert(vs.take(i as int + 1).drop_last() =~= vs.take(i as int));
        }
        r.insert(pos, p);
        assert(records_of(r@) =~= before.take(pos as int) + seq![p@] + before.skip(pos as int));
        i = i + 1;
    }
    assert(vs.take(v@.len() as int) =~= vs);
    r
}

/// Whether two characters are equal, ASCII letters compared without case.
pub fn chars_match(a: char, b: char) -> (r: bool)
    ensures
        r == same_ignoring_case(a, b),
{
    a == b || ('A' <= a && a <= 'Z' && (b as u32) == (a as u32) + 32) || ('A' <= b && b <= 'Z'
        && (a as u32) == (b as u32) + 32)
}

/// Whether `needle` is a substring of `hay`, ASCII letters compared without case.
pub fn contains_ci(hay: &Vec<char>, needle: &Vec<char>) -> (r: bool)
    ensures
        r == contains_ignoring_case(hay@, needle@),
{
    if needle.len() > hay.len() {
        assert forall|i: int| !occurs_at(hay@, needle@, i) by {}
        return false;
    }
    if needle.len() == 0 {
        assert(occurs_at(hay@, needle@, 0));
        return true;
    }
    let n = hay.len();
    let starts = n - needle.len() + 1;
    let mut i: usize = 0;
    while i < starts
        invariant
            n == hay@.len(),
            needle@.len() <= hay@.len(),
            starts == hay@.len() - needle@.len() + 1,
            i <= starts,
            forall|j: int| 0 <= j < i ==> !occurs_at(hay@, needle@, j),
        decreases starts - i,
    {
        let mut k: usize = 0;
        while k < needle.len()
            invariant
                i < starts,
                n == hay@.len(),
                needle@.len() <= hay@.len(),
                starts == hay@.len() - needle@.len() + 1,
                k <= needle@.len(),
                forall|q: int| 0 <= q < k ==> same_ignoring_case(#[trigger] hay@[i + q], needle@[q]),
            ensures
                k <= needle@.len(),
                forall|q: int| 0 <= q < k ==> same_ignoring_case(#[trigger] hay@[i + q], needle@[q]),
                k < needle@.len() ==> !same_ignoring_case(hay@[i + k], needle@[k as int]),
            decreases needle@.len() - k,
        {
            if !chars_match(hay[i + k], needle[k]) {
                break;
            }
            k = k + 1;
        }
        if k == needle.len() {
            assert(occurs_at(hay@, needle@, i as int));
            return true;
        }
        assert(!occurs_at(hay@, needle@, i as int));
        i = i + 1;
    }
    assert forall|j: int| !occurs_at(hay@, needle@, j) by {
        if 0 <= j < i {
        }
    }
    false
}

/// The records of `author`, in store order.
pub open spec fn by_author(s: Seq<Record>, author: Seq<char>) -> Seq<Record>
    decreases s.len(),
{
    if s.len() == 0 {
        s
    } else if s.last().author == author {
        by_author(s.drop_last(), author).push(s.last())
    } else {
        by_author(s.drop_last(), author)
    }
}

/// The names of `s`, each at its first occurrence.
pub open spec fn distinct_names(s: Seq<Record>) -> Seq<Seq<char>>
    decreases s.len(),
{
    if s.len() == 0 {
        Seq::empty()
    } else if distinct_names(s.drop_last()).contains(s.last().name) {
        distinct_names(s.drop_last())
    } else {
        distinct_names(s.drop_last()).push(s.last().name)
    }
}

/// Every package name that `author` published, most recently active first.
pub open spec fn author_names(s: Seq<Record>, author: Seq<char>) -> Seq<Seq<char>> {
    distinct_names(sort_desc(by_author(s, author)))
}

pub open spec fn strings_view(v: Seq<String>) -> Seq<Seq<char>> {
    v.map_values(|x: String| x@)
}

/// Whether `v` holds `x`.
fn has_string(v: &Vec<String>, x: &String) -> (r: bool)
    ensures
        r == strings_view(v@).contains(x@),
{
    let mut i: usize = 0;
    while i < v.len()
        invariant
            i <= v@.len(),
            forall|j: int| 0 <= j < i ==> v@[j]@ != x@,
        decreases v@.len() - i,
    {
        if v[i] == *x {
            assert(strings_view(v@)[i as int] == x@);
            return true;
        }
        i = i + 1;
    }
    false
}

/// Every package name that `user` published, most recently active first.
pub fn author_packages(conn: &PackageStore, user: &String) -> (r: Vec<String>)
    ensures
        strings_view(r@) == author_names(conn@, user@),
{
    let mut mine: Vec<Package> = Vec::new();
    let mut i: usize = 0;
    proof { conn.lemma_rows(); }
    while i < conn.len()
        invariant
            i <= conn@.len(),
            forall|k: int| 0 <= k < conn@.len() ==> #[trigger] conn.row(k)@ == conn@[k],
            records_of(mine@) == by_author(conn@.take(i as int), user@),
        decreases conn@.len() - i,
    {
        assert(conn@.take(i as int + 1).drop_last() =~= conn@.take(i as int));
        let p = conn.get(i);
        if p.author == *user {
            let ghost before = records_of(mine@);
            mine.push(p.clone());
            assert(records_of(mine@) =~= before.push(conn@[i as int]));
        }
        i = i + 1;
    }
    assert(conn@.take(conn@.len() as int) =~= conn@);
    let sorted = sort_by_time(&mine);
    let ghost ss = records_of(sorted@);
    let mut r: Vec<String> = Vec::new();
    let mut k: usize = 0;
    while k < sorted.len()
        invariant
            k <= sorted@.len(),
            ss == records_of(sorted@),
            strings_view(r@) == distinct_names(ss.take(k as int)),
        decreases sorted@.len() - k,
    {
        assert(ss.take(k as int + 1).drop_last() =~= ss.take(k as int));
        let name = &sorted[k].name;
        if !has_string(&r, name) {
            let ghost before = strings_view(r@);
            r.push(name.clone());
            assert(strings_view(r@) =~= before.push(name@));
        }
        k = k + 1;
    }
    assert(ss.take(sorted@.len() as int) =~= ss);
    r
}

/// The key of a query's filter that carries its free-text pattern.
pub open spec fn search_key() -> Seq<char> {
    "_search"@
}

/// The free-text pattern of a filter: the value of its last `_search` entry.
pub open spec fn search_of(f: Seq<(Seq<char>, Seq<char>)>) -> Option<Seq<char>>
    decreases f.len(),
{
    if f.len() == 0 {
        None
    } else if f.last().0 == search_key() {
        Some(f.last().1)
    } else {
        search_of(f.drop_last())
    }
}

/// The author entries of a filter: every entry but `_search`, in order.
pub open spec fn author_pairs(f: Seq<(Seq<char>, Seq<char>)>) -> Seq<(Seq<char>, Seq<char>)>
    decreases f.len(),
{
    if f.len() == 0 {
        f
    } else if f.last().0 == search_key() {
        author_pairs(f.drop_last())
    } else {
        author_pairs(f.drop_last()).push(f.last())
    }
}

/// The `author/name` keys that an author entry names: its space-separated names,
/// or, where one of them is `*`, every package the author published.
pub open spec fn expand(s: Seq<Record>, author: Seq<char>, names: Seq<char>) -> Seq<Seq<char>> {
    let tokens = split_on(names, ' ');
    let ns = if tokens.contains(seq!['*']) {
        author_names(s, author)
    } else {
        tokens
    };
    ns.map_values(|n: Seq<char>| author + seq!['/'] + n)
}

/// The keys that all author entries name.
pub open spec fn expand_all(s: Seq<Record>, pairs: Seq<(Seq<char>, Seq<char>)>) -> Seq<Seq<char>>
    decreases pairs.len(),
{
    if pairs.len() == 0 {
        Seq::empty()
    } else {
        expand_all(s, pairs.drop_last()) + expand(s, pairs.last().0, pairs.last().1)
    }
}

/// The pattern occurs in `author/name` or in the summary, letters compared without case.
pub open spec fn text_match(r: Record, pattern: Seq<char>) -> bool {
    contains_ignoring_case(repo_of(r), pattern) || contains_ignoring_case(r.summary, pattern)
}

/// Whether `r` passes a filter with the expanded `keys`, no author entries where
/// `no_authors`, and free-text `pattern`: key membership, the text predicate, their
/// union where both are given, anything where neither is.
pub open spec fn filter_with(
    r: Record,
    keys: Seq<Seq<char>>,
    no_authors: bool,
    pattern: Option<Seq<char>>,
) -> bool {
    match pattern {
        None => no_authors || keys.contains(repo_of(r)),
        Some(p) => (!no_authors && keys.contains(repo_of(r))) || text_match(r, p),
    }
}

/// Whether `r` passes filter `f` against store `s`.
pub open spec fn filter_holds(s: Seq<Record>, f: Seq<(Seq<char>, Seq<char>)>, r: Record) -> bool {
    filter_with(r, expand_all(s, author_pairs(f)), author_pairs(f).len() == 0, search_of(f))
}

/// Author, name and compatibility range: the groups of a `Last` query.
pub open spec fn group_of(r: Record) -> (Seq<char>, Seq<char>, Seq<char>) {
    (r.author, r.name, r.elm_version)
}

/// Record `i` is the most recent one of its group that passes the filter, the
/// first in store order among equally recent ones.
pub open spec fn group_winner(s: Seq<Record>, f: Seq<(Seq<char>, Seq<char>)>, i: int) -> bool {
    forall|j: int|
        0 <= j < s.len() && filter_holds(s, f, #[trigger] s[j]) && group_of(s[j]) == group_of(s[i])
            ==> s[j].timestamp < s[i].timestamp || (s[j].timestamp == s[i].timestamp && i <= j)
}

/// Record `i` is part of the answer, before ordering and truncation.
pub open spec fn kept(s: Seq<Record>, f: Seq<(Seq<char>, Seq<char>)>, release: Release, i: int) -> bool {
    &&& filter_holds(s, f, s[i])
    &&& version_kind_holds(release, s[i].major, s[i].minor, s[i].patch)
    &&& (release == Release::Last ==> group_winner(s, f, i))
}

/// The kept records among the first `n`, in store order.
pub open spec fn selected(
    s: Seq<Record>,
    f: Seq<(Seq<char>, Seq<char>)>,
    release: Release,
    n: int,
) -> Seq<Record>
    decreases n,
{
    if n <= 0 {
        Seq::empty()
    } else if kept(s, f, release, n - 1) {
        selected(s, f, release, n - 1).push(s[n - 1])
    } else {
        selected(s, f, release, n - 1)
    }
}

/// The answer to a query: the kept records, most recent first, at most `limit`.
pub open spec fn query_result(
    s: Seq<Record>,
    f: Seq<(Seq<char>, Seq<char>)>,
    release: Release,
    limit: int,
) -> Seq<Record> {
    let all = sort_desc(selected(s, f, release, s.len() as int));
    all.take(if limit < all.len() {
        limit
    } else {
        all.len() as int
    })
}

pub open spec fn chars_option(o: Option<Vec<char>>) -> Option<Seq<char>> {
    match o {
        Some(v) => Some(v@),
        None => None,
    }
}

/// Splits a filter into its author entries and its free-text pattern.
pub(crate) fn carve(filter: &Vec<(String, String)>) -> (r: (Vec<(String, String)>, Option<Vec<char>>))
    ensures
        pairs_view(r.0@) == author_pairs(pairs_view(filter@)),
        chars_option(r.1) == search_of(pairs_view(filter@)),
{
    let ghost fv = pairs_view(filter@);
    let key = chars_of("_search");
    let mut authors: Vec<(String, String)> = Vec::new();
    let mut pattern: Option<Vec<char>> = None;
    let mut i: usize = 0;
    while i < filter.len()
        invariant
            i <= filter@.len(),
            fv == pairs_view(filter@),
            key@ == search_key(),
            pairs_view(authors@) == author_pairs(fv.take(i as int)),
            chars_option(pattern) == search_of(fv.take(i as int)),
        decreases filter@.len() - i,
    {
        assert(fv.take(i as int + 1).drop_last() =~= fv.take(i as int));
        assert(fv.take(i as int + 1).last() == (filter@[i as int].0@, filter@[i as int].1@));
        let k = chars_of(filter[i].0.as_str());
        if same_chars(&k, &key) {
            pattern = Some(chars_of(filter[i].1.as_str()));
        } else {
            let ghost before = pairs_view(authors@);
            authors.push((filter[i].0.clone(), filter[i].1.clone()));
            assert(pairs_view(authors@) =~= before.push((filter@[i as int].0@, filter@[i as int].1@)));
        }
        i = i + 1;
    }
    assert(fv.take(filter@.len() as int) =~= fv);
    (authors, pattern)
}

/// `author`, a slash, then `name`.
fn join_key(author: &Vec<char>, name: &Vec<char>) -> (r: Vec<char>)
    ensures
        r@ == author@ + seq!['/'] + name@,
{
    let mut r = author.clone();
    r.push('/');
    let mut rest = name.clone();
    r.append(&mut rest);
    r
}

/// The keys that one author entry names.
fn expand_packages(conn: &PackageStore, user: &String, expr: &String) -> (r: Vec<Vec<char>>)
    ensures
        r.deep_view() == expand(conn@, user@, expr@),
{
    let tokens = split_chars(&chars_of(expr.as_str()), ' ');
    proof { fields_view(&tokens); }
    let star = vec!['*'];
    let mut wildcard = false;
    let mut i: usize = 0;
    while i < tokens.len()
        invariant
            i <= tokens@.len(),
            star@ == seq!['*'],
            forall|k: int| 0 <= k < tokens@.len() ==> #[trigger] tokens@[k]@ == tokens.deep_view()[k],
            wildcard == exists|k: int| 0 <= k < i && tokens.deep_view()[k] == seq!['*'],
        decreases tokens@.len() - i,
    {
        if same_chars(&tokens[i], &star) {
            wildcard = true;
        }
        i = i + 1;
    }
    let mut names: Vec<Vec<char>> = Vec::new();
    if wildcard {
        assert(tokens.deep_view().contains(seq!['*']));
        let all = author_packages(conn, user);
        let mut j: usize = 0;
        while j < all.len()
            invariant
                j <= all@.len(),
                names.deep_view() == strings_view(all@).take(j as int),
            decreases all@.len() - j,
        {
            let ghost before = names.deep_view();
            let c = chars_of(all[j].as_str());
            assert(c.deep_view() =~= c@);
            names.push(c);
            assert(names.deep_view() =~= before.push(all@[j as int]@));
            assert(strings_view(all@).take(j as int + 1) =~= strings_view(all@).take(j as int).push(all@[j as int]@));
            j = j + 1;
        }
        assert(strings_view(all@).take(all@.len() as int) =~= strings_view(all@));
    } else {
        assert(!tokens.deep_view().contains(seq!['*']));
        names = tokens;
    }
    let ghost ns = names.deep_view();
    let who = chars_of(user.as_str());
    let mut r: Vec<Vec<char>> = Vec::new();
    let mut j: usize = 0;
    while j < names.len()
        invariant
            j <= names@.len(),
            who@ == user@,
            ns == names.deep_view(),
            r.deep_view() == ns.take(j as int).map_values(|n: Seq<char>| user@ + seq!['/'] + n),
        decreases names@.len() - j,
    {
        let ghost before = r.deep_view();
        let key = join_key(&who, &names[j]);
        assert(names@[j as int]@ =~= ns[j as int]);
        assert(key.deep_view() =~= key@);
        r.push(key);
        assert(r.deep_view() =~= before.push(user@ + seq!['/'] + ns[j as int]));
        assert(ns.take(j as int + 1).map_values(|n: Seq<char>| user@ + seq!['/'] + n) =~= ns.take(
            j as int,
        ).map_values(|n: Seq<char>| user@ + seq!['/'] + n).push(user@ + seq!['/'] + ns[j as int]));
        j = j + 1;
    }
    assert(ns.take(names@.len() as int) =~= ns);
    r
}

/// The keys that all author entries name.
fn query_packages(conn: &PackageStore, authors: &Vec<(String, String)>) -> (r: Vec<Vec<char>>)
    ensures
        r.deep_view() == expand_all(conn@, pairs_view(authors@)),
{
    let ghost av = pairs_view(authors@);
    let mut r: Vec<Vec<char>> = Vec::new();
    let mut i: usize = 0;
    while i < authors.len()
        invariant
            i <= authors@.len(),
            av == pairs_view(authors@),
            r.deep_view() == expand_all(conn@, av.take(i as int)),
        decreases authors@.len() - i,
    {
        assert(av.take(i as int + 1).drop_last() =~= av.take(i as int));
        assert(av.take(i as int + 1).last() == (authors@[i as int].0@, authors@[i as int].1@));
        let ghost before = r.deep_view();
        let mut more = expand_packages(conn, &authors[i].0, &authors[i].1);
        let ghost mv = more.deep_view();
        r.append(&mut more);
        assert(r.deep_view() =~= before + mv);
        i = i + 1;
    }
    assert(av.take(authors@.len() as int) =~= av);
    r
}

/// Whether `keys` holds `key`.
fn has_key_chars(keys: &Vec<Vec<char>>, key: &Vec<char>) -> (r: bool)
    ensures
        r == keys.deep_view().contains(key@),
{
    proof { fields_view(keys); }
    let mut i: usize = 0;
    while i < keys.len()
        invariant
            i <= keys@.len(),
            forall|k: int| 0 <= k < keys@.len() ==> #[trigger] keys@[k]@ == keys.deep_view()[k],
            forall|k: int| 0 <= k < i ==> keys.deep_view()[k] != key@,
        decreases keys@.len() - i,
    {
        if same_chars(&keys[i], key) {
            return true;
        }
        i = i + 1;
    }
    false
}

/// Whether a stored row passes a filter with the given expanded keys and pattern.
fn passes(p: &Package, keys: &Vec<Vec<char>>, no_authors: bool, pattern: &Option<Vec<char>>) -> (r:
    bool)
    ensures
        r == filter_with(p@, keys.deep_view(), no_authors, chars_option(*pattern)),
{
    let repo = repo_chars(p);
    let listed = !no_authors && has_key_chars(keys, &repo);
    match pattern {
        None => no_authors || has_key_chars(keys, &repo),
        Some(pat) => listed || contains_ci(&repo, pat) || contains_ci(
            &chars_of(p.summary.as_str()),
            pat,
        ),
    }
}

/// Whether row `i` is the most recent of its group among the rows that pass the filter.
fn wins_group(
    conn: &PackageStore,
    matched: &Vec<bool>,
    i: usize,
    Ghost(f): Ghost<Seq<(Seq<char>, Seq<char>)>>,
) -> (r: bool)
    requires
        i < conn@.len(),
        matched@.len() == conn@.len(),
        forall|k: int| 0 <= k < conn@.len() ==> #[trigger] matched@[k] == filter_holds(conn@, f, conn@[k]),
    ensures
        r == group_winner(conn@, f, i as int),
{
    proof { conn.lemma_rows(); }
    let me = conn.get(i);
    let mut j: usize = 0;
    while j < conn.len()
        invariant
            i < conn@.len(),
            j <= conn@.len(),
            matched@.len() == conn@.len(),
            forall|k: int| 0 <= k < conn@.len() ==> #[trigger] matched@[k] == filter_holds(conn@, f, conn@[k]),
            me@ == conn@[i as int],
            forall|k: int| 0 <= k < j ==> (filter_holds(conn@, f, #[trigger] conn@[k]) && group_of(conn@[k]) == group_of(conn@[i as int])
                ==> conn@[k].timestamp < conn@[i as int].timestamp || (conn@[k].timestamp == conn@[i as int].timestamp && i <= k)),
        decreases conn@.len() - j,
    {
        let other = conn.get(j);
        if matched[j] && other.author == me.author && other.name == me.name && other.elm_version
            == me.elm_version && (other.timestamp > me.timestamp || (other.timestamp
            == me.timestamp && j < i)) {
            assert(group_of(conn@[j as int]) == group_of(conn@[i as int]));
            return false;
        }
        j = j + 1;
    }
    true
}

/// The rows that pass `filter` and the classification `release`, most recent first,
/// at most `limit` of them.
///
/// The filter maps authors to space-separated package names, `*` standing for every
/// package of the author; its `_search` entry is a pattern that `author/name` or the
/// summary must hold, ASCII letters compared without case. A row passes where its
/// package is named or, with a pattern, where it matches the pattern; a filter with
/// neither passes every row. `Last` keeps, of each author, name and compatibility
/// range, the most recent passing row.
pub fn last_packages(
    conn: &PackageStore,
    filter: Vec<(String, String)>,
    release: &Release,
    limit: i64,
) -> (r: Vec<Package>)
    requires
        conn.wf(),
        limit >= 0,
    ensures
        records_of(r@) == query_result(conn@, pairs_view(filter@), *release, limit as int),
{
    let ghost f = pairs_view(filter@);
    let (authors, pattern) = carve(&filter);
    let keys = query_packages(conn, &authors);
    let no_authors = authors.len() == 0;
    proof { conn.lemma_rows(); }
    let mut matched: Vec<bool> = Vec::new();
    let mut i: usize = 0;
    while i < conn.len()
        invariant
            i <= conn@.len(),
            f == pairs_view(filter@),
            keys.deep_view() == expand_all(conn@, author_pairs(f)),
            no_authors == (author_pairs(f).len() == 0),
            chars_option(pattern) == search_of(f),
            forall|k: int| 0 <= k < conn@.len() ==> #[trigger] conn.row(k)@ == conn@[k],
            matched@.len() == i,
            forall|k: int| 0 <= k < i ==> #[trigger] matched@[k] == filter_holds(conn@, f, conn@[k]),
        decreases conn@.len() - i,
    {
        matched.push(passes(conn.get(i), &keys, no_authors, &pattern));
        i = i + 1;
    }
    let mut chosen: Vec<Package> = Vec::new();
    let mut i: usize = 0;
    while i < conn.len()
        invariant
            i <= conn@.len(),
            matched@.len() == conn@.len(),
            forall|k: int| 0 <= k < conn@.len() ==> #[trigger] matched@[k] == filter_holds(conn@, f, conn@[k]),
            forall|k: int| 0 <= k < conn@.len() ==> #[trigger] conn.row(k)@ == conn@[k],
            records_of(chosen@) == selected(conn@, f, *release, i as int),
        decreases conn@.len() - i,
    {
        let p = conn.get(i);
        let keep = matched[i] && release.accepts(p.major, p.minor, p.patch) && (*release
            != Release::Last || wins_group(conn, &matched, i, Ghost(f)));
        if keep {
            let ghost before = records_of(chosen@);
            chosen.push(p.clone());
            assert(records_of(chosen@) =~= before.push(conn@[i as int]));
        }
        i = i + 1;
    }
    let mut out = sort_by_time(&chosen);
    proof { lemma_sort_desc(records_of(chosen@)); }
    let n = out.len();
    let ghost all = records_of(out@);
    if (limit as u64) < (n as u64) {
        out.truncate(limit as usize);
        assert(records_of(out@) =~= all.take(limit as int));
    } else {
        assert(records_of(out@) =~= all.take(all.len() as int));
    }
    out
}

/// The answer holds at most `limit` records, ordered most recent first, and is the
/// start of the ordering of all kept records, which holds each of them exactly once.
pub proof fn lemma_query_bounded_ordered(
    s: Seq<Record>,
    f: Seq<(Seq<char>, Seq<char>)>,
    release: Release,
    limit: int,
)
    requires
        limit >= 0,
    ensures
        ({
            let sel = selected(s, f, release, s.len() as int);
            let r = query_result(s, f, release, limit);
            &&& r.len() == if limit < sel.len() {
                limit
            } else {
                sel.len() as int
            }
            &&& sorted_desc(r)
            &&& sorted_desc(sort_desc(sel))
            &&& sort_desc(sel).to_multiset() == sel.to_multiset()
            &&& r == sort_desc(sel).take(r.len() as int)
        }),
{
    lemma_sort_desc(selected(s, f, release, s.len() as int));
}

/// `author` published a package named `name`.
pub open spec fn published(s: Seq<Record>, author: Seq<char>, name: Seq<char>) -> bool {
    exists|i: int| 0 <= i < s.len() && s[i].author == author && s[i].name == name
}

proof fn lemma_by_author(s: Seq<Record>, author: Seq<char>)
    ensures
        forall|x: Record| #[trigger] by_author(s, author).contains(x) <==> (s.contains(x) && x.author == author),
    decreases s.len(),
{
    if s.len() > 0 {
        lemma_by_author(s.drop_last(), author);
        let b = by_author(s.drop_last(), author);
        assert forall|x: Record| #[trigger] by_author(s, author).contains(x) <==> (s.contains(x)
            && x.author == author) by {
            if s.contains(x) && x.author == author {
                let i = choose|i: int| 0 <= i < s.len() && s[i] == x;
                if i < s.len() - 1 {
                    assert(s.drop_last()[i] == x);
                    assert(b.contains(x));
                    let k = choose|k: int| 0 <= k < b.len() && b[k] == x;
                    if s.last().author == author {
                        assert(b.push(s.last())[k] == x);
                    }
                } else {
                    assert(by_author(s, author) == b.push(s.last()));
                    assert(b.push(s.last())[b.len() as int] == x);
                }
            }
            if by_author(s, author).contains(x) {
                let k = choose|k: int| 0 <= k < by_author(s, author).len() && by_author(s, author)[k] == x;
                if s.last().author == author && k == b.len() {
                    assert(s[s.len() - 1] == x);
                } else {
                    assert(b[k] == x);
                    assert(b.contains(x));
                    let i = choose|i: int| 0 <= i < s.drop_last().len() && s.drop_last()[i] == x;
                    assert(s[i] == x);
                }
            }
        }
    }
}

proof fn lemma_distinct_names(s: Seq<Record>)
    ensures
        forall|n: Seq<char>| #[trigger] distinct_names(s).contains(n) <==> exists|i: int|
            0 <= i < s.len() && s[i].name == n,
    decreases s.len(),
{
    if s.len() > 0 {
        lemma_distinct_names(s.drop_last());
        let d = distinct_names(s.drop_last());
        assert forall|n: Seq<char>| #[trigger] distinct_names(s).contains(n) <==> exists|i: int|
            0 <= i < s.len() && s[i].name == n by {
            if exists|i: int| 0 <= i < s.len() && s[i].name == n {
                let i = choose|i: int| 0 <= i < s.len() && s[i].name == n;
                if i < s.len() - 1 {
                    assert(s.drop_last()[i].name == n);
                    assert(d.contains(n));
                    let k = choose|k: int| 0 <= k < d.len() && d[k] == n;
                    assert(d.push(s.last().name)[k] == n);
                } else {
                    assert(d.push(s.last().name)[d.len() as int] == n);
                }
            }
            if distinct_names(s).contains(n) {
                let k = choose|k: int| 0 <= k < distinct_names(s).len() && distinct_names(s)[k] == n;
                if !d.contains(s.last().name) && k == d.len() {
                    assert(s[s.len() - 1].name == n);
                } else {
                    assert(d[k] == n);
                    assert(d.contains(n));
                    let i = choose|i: int| 0 <= i < s.drop_last().len() && s.drop_last()[i].name == n;
                    assert(s[i].name == n);
                }
            }
        }
    }
}

/// The names listed for an author are exactly the names of the packages it published.
pub proof fn lemma_author_names(s: Seq<Record>, author: Seq<char>)
    ensures
        forall|n: Seq<char>| #[trigger] author_names(s, author).contains(n) <==> published(s, author, n),
{
    broadcast use vstd::seq_lib::group_to_multiset_ensures;
    let b = by_author(s, author);
    lemma_by_author(s, author);
    lemma_sort_desc(b);
    lemma_distinct_names(sort_desc(b));
    assert forall|n: Seq<char>| #[trigger] author_names(s, author).contains(n) <==> published(s, author, n) by {
        let t = sort_desc(b);
        if published(s, author, n) {
            let i = choose|i: int| 0 <= i < s.len() && s[i].author == author && s[i].name == n;
            assert(s.contains(s[i]));
            assert(b.contains(s[i]));
            assert(b.to_multiset().count(s[i]) > 0);
            assert(t.contains(s[i]));
            let k = choose|k: int| 0 <= k < t.len() && t[k] == s[i];
            assert(t[k].name == n);
        }
        if author_names(s, author).contains(n) {
            let k = choose|k: int| 0 <= k < t.len() && t[k].name == n;
            assert(t.contains(t[k]));
            assert(t.to_multiset().count(t[k]) > 0);
            assert(b.contains(t[k]));
            let i = choose|i: int| 0 <= i < s.len() && s[i] == t[k];
            assert(s[i].author == author && s[i].name == n);
        }
    }
}

proof fn lemma_selected_same(
    s: Seq<Record>,
    f1: Seq<(Seq<char>, Seq<char>)>,
    f2: Seq<(Seq<char>, Seq<char>)>,
    release: Release,
    n: int,
)
    requires
        forall|r: Record| filter_holds(s, f1, r) == filter_holds(s, f2, r),
    ensures
        selected(s, f1, release, n) == selected(s, f2, release, n),
    decreases n,
{
    if n > 0 {
        lemma_selected_same(s, f1, f2, release, n - 1);
        assert(group_winner(s, f1, n - 1) == group_winner(s, f2, n - 1));
    }
}

/// A filter `{author: "*"}` answers every query as `{author: names}` does, where
/// `names` lists, without `*`, exactly the packages that `author` published.
pub proof fn lemma_wildcard_expansion(
    s: Seq<Record>,
    author: Seq<char>,
    names: Seq<char>,
    release: Release,
    limit: int,
)
    requires
        author != search_key(),
        !split_on(names, ' ').contains(seq!['*']),
        forall|n: Seq<char>| #[trigger] split_on(names, ' ').contains(n) <==> published(s, author, n),
    ensures
        query_result(s, seq![(author, seq!['*'])], release, limit) == query_result(
            s,
            seq![(author, names)],
            release,
            limit,
        ),
{
    let star = seq!['*'];
    let f1 = seq![(author, star)];
    let f2 = seq![(author, names)];
    assert(f1.len() == 1 && f1.last() == (author, star));
    lemma_author_names(s, author);
    assert(f1.drop_last() =~= Seq::<(Seq<char>, Seq<char>)>::empty());
    assert(f2.drop_last() =~= Seq::<(Seq<char>, Seq<char>)>::empty());
    let e = Seq::<(Seq<char>, Seq<char>)>::empty();
    assert(author_pairs(e) == e);
    assert(search_of(e) is None);
    assert(expand_all(s, e) == Seq::<Seq<char>>::empty());
    assert(f1.last().0 != search_key());
    assert(author_pairs(f1) == author_pairs(e).push(f1.last()));
    assert(author_pairs(f1) =~= f1);
    assert(author_pairs(f2) =~= f2);
    assert(search_of(f1) is None);
    assert(search_of(f2) is None);
    assert(expand_all(s, f1) =~= expand(s, author, seq!['*']));
    assert(expand_all(s, f2) =~= expand(s, author, names));
    assert(star.drop_last() =~= Seq::<char>::empty());
    assert(star.last() == '*');
    assert(split_on(Seq::<char>::empty(), ' ') =~= seq![Seq::<char>::empty()]);
    assert(Seq::<char>::empty().push('*') =~= star);
    assert(split_on(star, ' ') =~= seq![star]);
    assert(split_on(star, ' ')[0] == star);
    assert(split_on(star, ' ').contains(star));
    let n1 = author_names(s, author);
    let n2 = split_on(names, ' ');
    let k1 = expand(s, author, star);
    let k2 = expand(s, author, names);
    assert(k1 == n1.map_values(|n: Seq<char>| author + seq!['/'] + n));
    assert(k2 == n2.map_values(|n: Seq<char>| author + seq!['/'] + n));
    assert forall|key: Seq<char>| #[trigger] k1.contains(key) == k2.contains(key) by {
        if k1.contains(key) {
            let i = choose|i: int| 0 <= i < k1.len() && k1[i] == key;
            assert(n1.contains(n1[i]));
            assert(n2.contains(n1[i]));
            let j = choose|j: int| 0 <= j < n2.len() && n2[j] == n1[i];
            assert(k2[j] == key);
        }
        if k2.contains(key) {
            let j = choose|j: int| 0 <= j < k2.len() && k2[j] == key;
            assert(n2.contains(n2[j]));
            assert(n1.contains(n2[j]));
            let i = choose|i: int| 0 <= i < n1.len() && n1[i] == n2[j];
            assert(k1[i] == key);
        }
    }
    assert forall|r: Record| filter_holds(s, f1, r) == filter_holds(s, f2, r) by {
        assert(k1.contains(repo_of(r)) == k2.contains(repo_of(r)));
    }
    lemma_selected_same(s, f1, f2, release, s.len() as int);
}

} // verus!
