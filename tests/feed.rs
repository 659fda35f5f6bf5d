use greenwood::db::models::Package;
use greenwood::feed::{
    cdata, channel_title, dependency_label, elm_version, escape, is_new_package, is_slack,
    item_comments, item_link, item_title,
};
use greenwood::release::Release;

fn package(v: (i32, i32, i32), elm: &str) -> Package {
    Package {
        id: 1,
        timestamp: 0,
        major: v.0,
        minor: v.1,
        patch: v.2,
        author: "elm".to_string(),
        name: "core".to_string(),
        summary: "Core".to_string(),
        license: "BSD-3-Clause".to_string(),
        elm_version: elm.to_string(),
        dependencies: "{}".to_string(),
        format: 19,
    }
}

#[test]
fn slack_agent() {
    assert!(is_slack(&"Slackbot-LinkExpanding 1.0".to_string()));
    assert!(!is_slack(&"slackbot".to_string()));
    assert!(!is_slack(&"Mozilla/5.0".to_string()));
}

#[test]
fn cdata_only_around_markup() {
    assert_eq!(cdata("plain"), "plain");
    assert_eq!(cdata("a < b"), "<![CDATA[a < b]]>");
}

#[test]
fn escape_for_readers_and_slack() {
    let reader = "Mozilla/5.0".to_string();
    let slack = "Slackbot 1.0".to_string();
    assert_eq!(
        escape(&reader, "0.19.0 <= v < 0.20.0 & \"x\" 'y' >"),
        "0.19.0 ≤ v &lt; 0.20.0 &amp; &quot;x&quot; &apos;y&apos; &gt;"
    );
    assert_eq!(escape(&slack, "a < b"), "a ˂ b");
    assert_eq!(escape(&reader, ""), "");
}

#[test]
fn compatibility_range_display() {
    assert_eq!(elm_version(&package((1, 0, 0), "0.19.0 <= v < 0.20.0")), "elm 0.19");
    assert_eq!(elm_version(&package((1, 0, 0), "0.18.0 <= v < 0.19.0")), "elm 0.18");
    assert_eq!(
        elm_version(&package((1, 0, 0), "0.18.0 <= v < 0.20.0")),
        "0.18.0 <= elm < 0.20.0"
    );
    assert_eq!(elm_version(&package((1, 0, 0), "0.19.1")), "0.19.1");
}

#[test]
fn item_texts() {
    let first = package((1, 0, 0), "0.19.0 <= v < 0.20.0");
    assert!(is_new_package(&first));
    assert_eq!(item_title(&first), "elm/core 1.0.0✨");
    let later = package((12, 3, 40), "0.19.0 <= v < 0.20.0");
    assert!(!is_new_package(&later));
    assert_eq!(item_title(&later), "elm/core 12.3.40");
    assert_eq!(item_link(&later), "https://package.elm-lang.org/packages/elm/core/12.3.40/");
    assert_eq!(item_comments(&later), "https://github.com/elm/core/tree/12.3.40");
}


fn pairs(p: &[(&str, &str)]) -> Vec<(String, String)> {
    p.iter().map(|(k, v)| (k.to_string(), v.to_string())).collect()
}

#[test]
fn channel_titles() {
    assert_eq!(channel_title(&pairs(&[]), &Release::Any), "Elm packages releases");
    assert_eq!(
        channel_title(&pairs(&[("_search", "json")]), &Release::Last),
        "Elm packages last release matching json"
    );
    assert_eq!(
        channel_title(&pairs(&[("elm", "core json"), ("alice", "*")]), &Release::Major),
        "Elm packages major releases of elm/core+json, alice/*"
    );
    assert_eq!(
        channel_title(&pairs(&[("elm", "core"), ("_search", "http")]), &Release::Patch),
        "Elm packages patch releases of elm/core or matching http"
    );
}

#[test]
fn dependency_labels() {
    assert_eq!(dependency_label("elm/json", "1.0.0 <= v < 2.0.0"), "elm/json 1.0.0 ≤ v < 2.0.0");
}

#[test]
fn item_descriptions() {
    let p = package((1, 0, 0), "0.19.0 <= v < 0.20.0");
    let mut p = p;
    p.summary = "Fast & <small>".to_string();
    assert_eq!(
        greenwood::feed::item_description(&"Slackbot".to_string(), &p),
        "elm 0.19<br/><br/>Fast &amp; ˂small&gt;"
    );
    assert_eq!(
        greenwood::feed::item_description(&"Mozilla".to_string(), &p),
        "Fast &amp; &lt;small&gt;"
    );
}
