use greenwood::db::models::{NewPackage, Package};
use greenwood::db::query::{author_packages, last_packages};
use greenwood::db::{
    count_packages, has_old_format_package_version, has_old_format_package_versions, has_package,
    has_package_version, save_package, PackageStore, StoreError,
};
use greenwood::release::Release;
use greenwood::feed::is_new_package;

fn record(author: &str, name: &str, v: (i32, i32, i32), ts: i64, elm: &str, format: i32) -> NewPackage {
    NewPackage {
        timestamp: ts,
        major: v.0,
        minor: v.1,
        patch: v.2,
        author: author.to_string(),
        name: name.to_string(),
        summary: format!("The {} package", name),
        license: "BSD-3-Clause".to_string(),
        elm_version: elm.to_string(),
        dependencies: "{}".to_string(),
        format,
    }
}

fn store_of(rows: Vec<NewPackage>) -> PackageStore {
    let mut s = PackageStore::new();
    for r in rows.iter() {
        save_package(&mut s, r).unwrap();
    }
    s
}

fn times(r: &[Package]) -> Vec<i64> {
    r.iter().map(|p| p.timestamp).collect()
}

const RANGE: &str = "0.19.0 <= v < 0.20.0";

#[test]
fn duplicate_insert_is_refused_and_first_write_wins() {
    let mut s = PackageStore::new();
    assert_eq!(save_package(&mut s, &record("a", "b", (1, 0, 0), 100, RANGE, 19)), Ok(()));
    let again = record("a", "b", (1, 0, 0), 999, "0.18.0 <= v < 0.19.0", 15);
    assert_eq!(save_package(&mut s, &again), Err(StoreError::DuplicateKey));
    assert_eq!(s.len(), 1);
    assert_eq!(s.get(0).timestamp, 100);
    assert_eq!(s.get(0).id, 1);
    assert!(has_package_version(&s, &again));
    assert!(!has_package_version(&s, &record("a", "b", (1, 0, 1), 100, RANGE, 19)));
}

#[test]
fn rows_are_numbered_and_keys_kept_unique_on_load() {
    let rows = vec![
        record("a", "b", (1, 0, 0), 100, RANGE, 19),
        record("a", "b", (1, 0, 0), 200, RANGE, 15),
        record("a", "c", (1, 0, 0), 300, RANGE, 19),
    ];
    let s = PackageStore::from_rows(&rows);
    assert_eq!(s.len(), 2);
    assert_eq!(s.get(1).id, 2);
    assert_eq!(s.get(1).name, "c");
}

#[test]
fn count_by_format() {
    let s = store_of(vec![
        record("a", "b", (1, 0, 0), 1, RANGE, 19),
        record("a", "b", (1, 0, 1), 2, "0.18.0 <= v < 0.19.0", 15),
        record("a", "c", (1, 0, 0), 3, RANGE, 19),
    ]);
    assert_eq!(count_packages(&s, 19), 2);
    assert_eq!(count_packages(&s, 15), 1);
    assert_eq!(count_packages(&s, 14), 0);
}

#[test]
fn token_lookup() {
    let s = store_of(vec![record("elm", "core", (1, 0, 2), 1, RANGE, 19)]);
    assert!(has_package(&s, &"elm/core@1.0.2".to_string(), 19));
    assert!(!has_package(&s, &"elm/core@1.0.2".to_string(), 15));
    assert!(!has_package(&s, &"elm/core@1.0.3".to_string(), 19));
    assert!(!has_package(&s, &"elm/core".to_string(), 19));
    assert!(!has_package(&s, &"elmcore@1.0.2".to_string(), 19));
}

#[test]
fn legacy_coverage() {
    let s = store_of(vec![
        record("a", "b", (1, 0, 0), 1, "0.18.0 <= v < 0.19.0", 15),
        record("a", "b", (1, 0, 1), 2, RANGE, 19),
        record("a", "b", (2, 0, 0), 3, "0.16.0 <= v < 0.17.0", 19),
    ]);
    let repo = "a/b".to_string();
    assert!(has_old_format_package_version(&s, &repo, &"1.0.0".to_string()));
    assert!(!has_old_format_package_version(&s, &repo, &"1.0.1".to_string()));
    assert!(has_old_format_package_version(&s, &repo, &"2.0.0".to_string()));
    assert!(!has_old_format_package_version(&s, &"a/c".to_string(), &"1.0.0".to_string()));
    let all = vec!["1.0.0".to_string(), "2.0.0".to_string()];
    assert!(has_old_format_package_versions(&s, &repo, &all));
    let some = vec!["1.0.0".to_string(), "1.0.1".to_string()];
    assert!(!has_old_format_package_versions(&s, &repo, &some));
    assert!(has_old_format_package_versions(&s, &repo, &vec![]));
}

#[test]
fn bounded_ordered_output() {
    let s = store_of(vec![
        record("a", "p1", (1, 0, 0), 10, RANGE, 19),
        record("a", "p2", (1, 0, 0), 50, RANGE, 19),
        record("a", "p3", (1, 0, 0), 30, RANGE, 19),
        record("a", "p4", (1, 0, 0), 40, RANGE, 19),
        record("a", "p5", (1, 0, 0), 20, RANGE, 19),
    ]);
    let r = last_packages(&s, vec![], &Release::Any, 2);
    assert_eq!(times(&r), vec![50, 40]);
    assert_eq!(r[0].name, "p2");
    assert_eq!(r[1].name, "p4");
    let r = last_packages(&s, vec![], &Release::Any, 42);
    assert_eq!(times(&r), vec![50, 40, 30, 20, 10]);
    let r = last_packages(&s, vec![], &Release::Any, 0);
    assert!(r.is_empty());
}

#[test]
fn last_keeps_most_recent_per_group() {
    let s = store_of(vec![
        record("a", "b", (1, 0, 0), 100, RANGE, 19),
        record("a", "b", (1, 1, 0), 200, RANGE, 19),
        record("a", "b", (2, 0, 0), 150, RANGE, 19),
    ]);
    let r = last_packages(&s, vec![], &Release::Last, 42);
    assert_eq!(times(&r), vec![200]);
    assert_eq!((r[0].major, r[0].minor, r[0].patch), (1, 1, 0));
}

#[test]
fn last_groups_by_compatibility_range() {
    let s = store_of(vec![
        record("a", "b", (1, 0, 0), 100, "0.18.0 <= v < 0.19.0", 15),
        record("a", "b", (1, 1, 0), 200, RANGE, 19),
        record("a", "b", (2, 0, 0), 150, "0.18.0 <= v < 0.19.0", 15),
        record("c", "d", (1, 0, 0), 120, RANGE, 19),
    ]);
    let r = last_packages(&s, vec![], &Release::Last, 42);
    assert_eq!(times(&r), vec![200, 150, 120]);
}

#[test]
fn release_kinds() {
    let s = store_of(vec![
        record("a", "b", (1, 0, 0), 1, RANGE, 19),
        record("a", "b", (2, 0, 0), 2, RANGE, 19),
        record("a", "b", (2, 1, 0), 3, RANGE, 19),
        record("a", "b", (2, 1, 1), 4, RANGE, 19),
    ]);
    assert_eq!(times(&last_packages(&s, vec![], &Release::First, 42)), vec![1]);
    assert_eq!(times(&last_packages(&s, vec![], &Release::Major, 42)), vec![2, 1]);
    assert_eq!(times(&last_packages(&s, vec![], &Release::Minor, 42)), vec![3]);
    assert_eq!(times(&last_packages(&s, vec![], &Release::Patch, 42)), vec![4]);
    assert_eq!(times(&last_packages(&s, vec![], &Release::Any, 42)), vec![4, 3, 2, 1]);
}

#[test]
fn release_classification_partition() {
    for v in [(1, 0, 0), (2, 0, 0), (0, 3, 0), (1, 2, 3), (0, 0, 1), (0, 0, 0)] {
        let first = Release::First.accepts(v.0, v.1, v.2);
        let major = Release::Major.accepts(v.0, v.1, v.2);
        let minor = Release::Minor.accepts(v.0, v.1, v.2);
        let patch = Release::Patch.accepts(v.0, v.1, v.2);
        if first {
            assert!(major);
        }
        let n = [first, major, minor, patch].iter().filter(|b| **b).count();
        if v == (1, 0, 0) {
            assert_eq!(n, 2);
        } else {
            assert_eq!(n, 1);
        }
    }
}

fn filter(pairs: &[(&str, &str)]) -> Vec<(String, String)> {
    pairs.iter().map(|(k, v)| (k.to_string(), v.to_string())).collect()
}

fn sample() -> PackageStore {
    store_of(vec![
        record("alice", "foo", (1, 0, 0), 10, RANGE, 19),
        record("alice", "bar", (1, 0, 0), 20, RANGE, 19),
        record("bob", "baz", (1, 0, 0), 30, RANGE, 19),
        record("alice", "foo", (1, 0, 1), 40, RANGE, 19),
        record("carol", "Quux", (1, 0, 0), 50, RANGE, 19),
    ])
}

#[test]
fn wildcard_expansion_matches_explicit_names() {
    let s = sample();
    let star = last_packages(&s, filter(&[("alice", "*")]), &Release::Any, 42);
    let named = last_packages(&s, filter(&[("alice", "foo bar")]), &Release::Any, 42);
    assert_eq!(times(&star), vec![40, 20, 10]);
    assert_eq!(times(&star), times(&named));
}

#[test]
fn author_packages_most_recent_first() {
    let s = sample();
    let names = author_packages(&s, &"alice".to_string());
    assert_eq!(names, vec!["foo".to_string(), "bar".to_string()]);
    assert!(author_packages(&s, &"nobody".to_string()).is_empty());
}

#[test]
fn filter_by_named_packages() {
    let s = sample();
    let r = last_packages(&s, filter(&[("alice", "bar"), ("bob", "baz")]), &Release::Any, 42);
    assert_eq!(times(&r), vec![30, 20]);
    let r = last_packages(&s, filter(&[("alice", "nothing")]), &Release::Any, 42);
    assert!(r.is_empty());
}

#[test]
fn search_pattern_is_case_insensitive_substring() {
    let s = sample();
    let r = last_packages(&s, filter(&[("_search", "QUU")]), &Release::Any, 42);
    assert_eq!(times(&r), vec![50]);
    let r = last_packages(&s, filter(&[("_search", "the baz")]), &Release::Any, 42);
    assert_eq!(times(&r), vec![30]);
    let r = last_packages(&s, filter(&[("_search", "alice/")]), &Release::Any, 42);
    assert_eq!(times(&r), vec![40, 20, 10]);
}

#[test]
fn filter_and_search_combine_as_union() {
    let s = sample();
    let r = last_packages(&s, filter(&[("bob", "baz"), ("_search", "quux")]), &Release::Any, 42);
    assert_eq!(times(&r), vec![50, 30]);
}

#[test]
fn first_release_flag() {
    let s = sample();
    assert!(is_new_package(s.get(0)));
    assert!(!is_new_package(s.get(3)));
}
