use greenwood::db::{count_packages, PackageStore};
use greenwood::elm::old_format_packages::{missing_versions, LegacyRelease, OldPackage};
use greenwood::elm::packages::{new_releases, PackageReleases, SinceRelease, VersionMetadata};
use greenwood::elm::{default_elm_version, lookup_release, map_package, ElmJson, RejectReason};
use greenwood::sync::{sync_plan, update_outcast_packages, update_packages, SyncPlan, Update};

fn elm(range: &str) -> ElmJson {
    ElmJson {
        summary: "Core library".to_string(),
        license: "BSD-3-Clause".to_string(),
        elm_version: range.to_string(),
        dependencies: vec![("elm/json".to_string(), "1.0.0 <= v < 2.0.0".to_string())],
    }
}

const RANGE: &str = "0.19.0 <= v < 0.20.0";

fn index() -> Vec<PackageReleases> {
    vec![
        PackageReleases {
            name: "elm/core".to_string(),
            releases: vec![("1.0.0".to_string(), 100), ("1.0.1".to_string(), 200)],
            versions: vec![
                VersionMetadata { version: "1.0.0".to_string(), elm: Some(elm(RANGE)) },
                VersionMetadata { version: "1.0.1".to_string(), elm: Some(elm(RANGE)) },
                VersionMetadata { version: "1.0.2".to_string(), elm: Some(elm(RANGE)) },
            ],
        },
        PackageReleases {
            name: "elm/json".to_string(),
            releases: vec![("1.0.0".to_string(), 150)],
            versions: vec![VersionMetadata { version: "1.0.0".to_string(), elm: None }],
        },
        PackageReleases {
            name: "bad".to_string(),
            releases: vec![("1.0.0".to_string(), 150)],
            versions: vec![VersionMetadata { version: "1.0.0".to_string(), elm: Some(elm(RANGE)) }],
        },
    ]
}

#[test]
fn full_sync_twice_inserts_nothing_the_second_time() {
    let mut s = PackageStore::new();
    assert_eq!(sync_plan(&s), SyncPlan::All);
    let update = Update::All(index());
    assert_eq!(update_packages(&mut s, &update), 2);
    assert_eq!(s.len(), 2);
    assert_eq!(update_packages(&mut s, &update), 0);
    assert_eq!(s.len(), 2);
    assert_eq!(s.get(1).timestamp, 200);
    assert_eq!(sync_plan(&s), SyncPlan::Since(2));
}

#[test]
fn incremental_sync() {
    let mut s = PackageStore::new();
    update_packages(&mut s, &Update::All(index()));
    let tokens = vec![
        "elm/core@1.0.1".to_string(),
        "elm/core@1.0.3".to_string(),
        "broken".to_string(),
        "elm/html@1.0.0".to_string(),
    ];
    let wanted = new_releases(&s, &tokens);
    assert_eq!(
        wanted,
        vec![
            ("elm/core".to_string(), "1.0.3".to_string()),
            ("elm/html".to_string(), "1.0.0".to_string()),
        ]
    );
    let fetched = vec![
        SinceRelease {
            repo: "elm/core".to_string(),
            version: "1.0.3".to_string(),
            releases: vec![("1.0.3".to_string(), 300)],
            elm: Some(elm(RANGE)),
        },
        SinceRelease {
            repo: "elm/html".to_string(),
            version: "1.0.0".to_string(),
            releases: vec![],
            elm: Some(elm(RANGE)),
        },
    ];
    assert_eq!(update_packages(&mut s, &Update::Since(fetched)), 1);
    assert_eq!(s.get(2).timestamp, 300);
    assert_eq!(count_packages(&s, 19), 3);
}

#[test]
fn legacy_backfill() {
    let mut s = PackageStore::new();
    update_packages(&mut s, &Update::All(index()));
    let old = vec![
        OldPackage {
            name: "elm/core".to_string(),
            summary: "Core".to_string(),
            versions: vec!["1.0.0".to_string()],
        },
        OldPackage {
            name: "elm-lang/core".to_string(),
            summary: "Core".to_string(),
            versions: vec!["5.1.1".to_string(), "4.0.0".to_string()],
        },
    ];
    let missing = missing_versions(&s, &old);
    assert_eq!(
        missing,
        vec![
            ("elm/core".to_string(), "1.0.0".to_string()),
            ("elm-lang/core".to_string(), "5.1.1".to_string()),
            ("elm-lang/core".to_string(), "4.0.0".to_string()),
        ]
    );
    let fetched = vec![
        LegacyRelease {
            repo: "elm-lang/core".to_string(),
            version: "5.1.1".to_string(),
            elm: Some(elm("0.18.0 <= v < 0.19.0")),
            last_modified: Some("Tue, 1 Jul 2003 10:52:37 +0200".to_string()),
        },
        LegacyRelease {
            repo: "elm-lang/core".to_string(),
            version: "4.0.0".to_string(),
            elm: Some(elm("")),
            last_modified: Some("not a date".to_string()),
        },
        LegacyRelease {
            repo: "elm-lang/core".to_string(),
            version: "3.0.0".to_string(),
            elm: Some(elm("")),
            last_modified: Some("Mon, 2 Jun 2014 08:00:00 +0000".to_string()),
        },
    ];
    assert_eq!(update_outcast_packages(&mut s, &fetched), 2);
    let a = s.get(2);
    assert_eq!(a.timestamp, 1057049557);
    assert_eq!(a.format, 15);
    assert_eq!(a.elm_version, "0.18.0 <= v < 0.19.0");
    let b = s.get(3);
    assert_eq!(b.timestamp, 1401696000);
    assert_eq!(b.format, 14);
    assert_eq!(b.elm_version, "0.14.0 <= v < 0.15.0");
    let again = missing_versions(&s, &old);
    assert_eq!(
        again,
        vec![
            ("elm/core".to_string(), "1.0.0".to_string()),
            ("elm-lang/core".to_string(), "4.0.0".to_string()),
        ]
    );
}

#[test]
fn normalizes_a_current_version() {
    let p = map_package(19, "elm/core", "1.2.3", &Some(elm(RANGE)), Some(42)).unwrap();
    assert_eq!(p.author, "elm");
    assert_eq!(p.name, "core");
    assert_eq!((p.major, p.minor, p.patch), (1, 2, 3));
    assert_eq!(p.timestamp, 42);
    assert_eq!(p.summary, "Core library");
    assert_eq!(p.license, "BSD-3-Clause");
    assert_eq!(p.elm_version, RANGE);
    assert_eq!(p.dependencies, "{\"elm/json\":\"1.0.0 <= v < 2.0.0\"}");
    assert_eq!(p.format, 19);
}

#[test]
fn legacy_sentinel_whatever_the_requested_format() {
    for format in [14, 15, 19] {
        let p = map_package(format, "a/b", "1.0.0", &Some(elm("")), Some(1)).unwrap();
        assert_eq!(p.elm_version, "0.14.0 <= v < 0.15.0");
        assert_eq!(p.format, 14);
    }
    let p = map_package(15, "a/b", "1.0.0", &Some(elm("0.18.0 <= v < 0.19.0")), Some(1)).unwrap();
    assert_eq!(p.format, 15);
}

#[test]
fn empty_dependencies_serialize_as_empty_object() {
    let mut e = elm(RANGE);
    e.dependencies = vec![];
    let p = map_package(19, "a/b", "1.0.0", &Some(e), Some(1)).unwrap();
    assert_eq!(p.dependencies, "{}");
}

#[test]
fn rejects() {
    let e = Some(elm(RANGE));
    assert_eq!(map_package(19, "ab", "1.0.0", &e, Some(1)).err(), Some(RejectReason::InvalidRepo));
    assert_eq!(map_package(19, "/b", "1.0.0", &e, Some(1)).err(), Some(RejectReason::InvalidRepo));
    assert_eq!(map_package(19, "a/b/c", "1.0.0", &e, Some(1)).err(), Some(RejectReason::InvalidRepo));
    assert_eq!(map_package(19, "a/b", "1.0", &e, Some(1)).err(), Some(RejectReason::InvalidVersion));
    assert_eq!(map_package(19, "a/b", "1.0.0.0", &e, Some(1)).err(), Some(RejectReason::InvalidVersion));
    assert_eq!(map_package(19, "a/b", "1.x.0", &e, Some(1)).err(), Some(RejectReason::InvalidVersion));
    assert_eq!(
        map_package(19, "a/b", "1.0.2147483648", &e, Some(1)).err(),
        Some(RejectReason::InvalidVersion)
    );
    assert!(map_package(19, "a/b", "1.0.2147483647", &e, Some(1)).is_ok());
    assert_eq!(map_package(19, "a/b", "1.0.0", &None, Some(1)).err(), Some(RejectReason::MissingMetadata));
    assert_eq!(map_package(19, "a/b", "1.0.0", &e, None).err(), Some(RejectReason::MissingTimestamp));
}

#[test]
fn release_lookup_takes_first_entry() {
    let rs = vec![("1.0.0".to_string(), 5), ("1.0.1".to_string(), 6), ("1.0.0".to_string(), 7)];
    assert_eq!(lookup_release(&rs, "1.0.0"), Some(5));
    assert_eq!(lookup_release(&rs, "1.0.1"), Some(6));
    assert_eq!(lookup_release(&rs, "2.0.0"), None);
}

#[test]
fn default_elm_version_is_empty() {
    assert_eq!(default_elm_version(), "");
}
