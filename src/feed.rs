use vstd::prelude::*;

use crate::db::models::{Package, Record};
use crate::db::query::{author_pairs, carve, search_of};
use crate::elm::{pairs_view, string_from_chars};
use crate::release::{is_first, Release};
use crate::text::{
    chars_of, contains_text, decimal, decimal_chars, fields_view, has_char, has_text,
    parse_component, parse_number, replace_all, replace_text, same_chars, split_chars, split_on,
};

verus! {

/// The user agent of the chat service whose previews need plainer markup.
pub open spec fn is_slack_agent(user_agent: Seq<char>) -> bool {
    contains_text(user_agent, "Slackbot"@)
}

/// Whether the request comes from Slack's link previewer.
pub fn is_slack(user_agent: &String) -> (r: bool)
    ensures
        r == is_slack_agent(user_agent@),
{
    has_text(&chars_of(user_agent.as_str()), &chars_of("Slackbot"))
}

/// Whether a stored version is the package's very first release, 1.0.0.
pub fn is_new_package(package: &Package) -> (r: bool)
    ensures
        r == is_first(package.major, package.minor, package.patch),
{
    package.major == 1 && package.minor == 0 && package.patch == 0
}

/// Text wrapped in a CDATA section where it holds a `<`.
pub open spec fn cdata_text(s: Seq<char>) -> Seq<char> {
    if s.contains('<') {
        "<![CDATA["@ + s + "]]>"@
    } else {
        s
    }
}

/// `data`, wrapped in a CDATA section where it holds a `<`.
pub fn cdata(data: &str) -> (r: String)
    ensures
        r@ == cdata_text(data@),
{
    let d = chars_of(data);
    if has_char(&d, '<') {
        let mut out = chars_of("<![CDATA[");
        let mut mid = d.clone();
        out.append(&mut mid);
        let mut tail = chars_of("]]>");
        out.append(&mut tail);
        string_from_chars(&out)
    } else {
        string_from_chars(&d)
    }
}

/// Markup characters replaced by entities; `<=` becomes `≤`, and for Slack a lone
/// `<` becomes a look-alike character instead of an entity.
pub open spec fn escaped(s: Seq<char>, slack: bool) -> Seq<char> {
    let a = replace_all(s, "&"@, "&amp;"@);
    let b = replace_all(a, "<="@, "≤"@);
    let c = replace_all(
        b,
        "<"@,
        if slack {
            "˂"@
        } else {
            "&lt;"@
        },
    );
    let d = replace_all(c, ">"@, "&gt;"@);
    let e = replace_all(d, "\""@, "&quot;"@);
    replace_all(e, "'"@, "&apos;"@)
}

/// `s` made safe to embed in an item description for `user_agent`.
pub fn escape(user_agent: &String, s: &str) -> (r: String)
    ensures
        r@ == escaped(s@, is_slack_agent(user_agent@)),
{
    proof {
        reveal_strlit("&");
        reveal_strlit("<=");
        reveal_strlit("<");
        reveal_strlit(">");
        reveal_strlit("\"");
        reveal_strlit("'");
    }
    let slack = is_slack(user_agent);
    let a = replace_text(&chars_of(s), &chars_of("&"), &chars_of("&amp;"));
    let b = replace_text(&a, &chars_of("<="), &chars_of("≤"));
    let lt = if slack {
        chars_of("˂")
    } else {
        chars_of("&lt;")
    };
    let c = replace_text(&b, &chars_of("<"), &lt);
    let d = replace_text(&c, &chars_of(">"), &chars_of("&gt;"));
    let e = replace_text(&d, &chars_of("\""), &chars_of("&quot;"));
    let f = replace_text(&e, &chars_of("'"), &chars_of("&apos;"));
    string_from_chars(&f)
}

/// A compatibility range split at every dot and space.
pub open spec fn range_fields(e: Seq<char>) -> Seq<Seq<char>> {
    split_on(e.map_values(|c: char| if c == '.' { ' ' } else { c }), ' ')
}

/// `elm X.Y` for a range `X.Y.0 <= v < X.(Y+1).0`, if `e` is one.
pub open spec fn short_range(e: Seq<char>) -> Option<Seq<char>> {
    let f = range_fields(e);
    if f.len() == 9 && f[2] == "0"@ && f[3] == "<="@ && f[4] == "v"@ && f[5] == "<"@ && f[8]
        == "0"@ && f[0] == f[6] && parse_component(f[1]) is Some && parse_component(f[7]) is Some
        && parse_component(f[1])->0 + 1 == parse_component(f[7])->0 {
        Some("elm "@ + f[0] + "."@ + f[1])
    } else {
        None
    }
}

/// How a compatibility range reads in a feed: `elm X.Y` for one minor compiler
/// version, else the range with `v` spelled `elm`.
pub open spec fn elm_version_text(e: Seq<char>) -> Seq<char> {
    match short_range(e) {
        Some(t) => t,
        None => replace_all(e, " v "@, " elm "@),
    }
}

/// The compatibility range of `package` as it reads in a feed.
pub fn elm_version(package: &Package) -> (r: String)
    ensures
        r@ == elm_version_text(package.elm_version@),
{
    let e = chars_of(package.elm_version.as_str());
    let mut spaced: Vec<char> = Vec::new();
    let mut i: usize = 0;
    while i < e.len()
        invariant
            i <= e@.len(),
            spaced@ == e@.take(i as int).map_values(|c: char| if c == '.' { ' ' } else { c }),
        decreases e@.len() - i,
    {
        spaced.push(if e[i] == '.' { ' ' } else { e[i] });
        i = i + 1;
        assert(spaced@ =~= e@.take(i as int).map_values(|c: char| if c == '.' { ' ' } else { c }));
    }
    assert(e@.take(e@.len() as int) =~= e@);
    let f = split_chars(&spaced, ' ');
    proof { fields_view(&f); }
    if f.len() == 9 && same_chars(&f[2], &chars_of("0")) && same_chars(&f[3], &chars_of("<="))
        && same_chars(&f[4], &chars_of("v")) && same_chars(&f[5], &chars_of("<")) && same_chars(
        &f[8],
        &chars_of("0"),
    ) && same_chars(&f[0], &f[6]) {
        match (parse_number(&f[1]), parse_number(&f[7])) {
            (Some(lower), Some(upper)) => {
                if lower as i64 + 1 == upper as i64 {
                    let mut out = chars_of("elm ");
                    let mut major = f[0].clone();
                    out.append(&mut major);
                    out.push('.');
                    let mut minor = f[1].clone();
                    out.append(&mut minor);
                    proof { reveal_strlit("."); }
                    assert(out@ =~= "elm "@ + f.deep_view()[0] + "."@ + f.deep_view()[1]);
                    return string_from_chars(&out);
                }
            },
            _ => {},
        }
    }
    proof { reveal_strlit(" v "); }
    let r = replace_text(&e, &chars_of(" v "), &chars_of(" elm "));
    string_from_chars(&r)
}

/// The description of a feed item: the escaped summary, after the compatibility
/// range for Slack.
pub open spec fn item_description_text(user_agent: Seq<char>, r: Record) -> Seq<char> {
    if is_slack_agent(user_agent) {
        escaped(elm_version_text(r.elm_version), true) + "<br/><br/>"@ + escaped(r.summary, true)
    } else {
        escaped(r.summary, false)
    }
}

/// The description of the feed item of `package` for `user_agent`.
pub fn item_description(user_agent: &String, package: &Package) -> (r: String)
    ensures
        r@ == item_description_text(user_agent@, package@),
{
    if is_slack(user_agent) {
        let range = escape(user_agent, elm_version(package).as_str());
        let summary = escape(user_agent, package.summary.as_str());
        let mut out = chars_of(range.as_str());
        let mut gap = chars_of("<br/><br/>");
        out.append(&mut gap);
        let mut rest = chars_of(summary.as_str());
        out.append(&mut rest);
        string_from_chars(&out)
    } else {
        escape(user_agent, package.summary.as_str())
    }
}

/// `major.minor.patch` in decimal.
pub open spec fn version_text(r: Record) -> Seq<char> {
    decimal(r.major as int) + "."@ + decimal(r.minor as int) + "."@ + decimal(r.patch as int)
}

fn version_chars(package: &Package) -> (r: Vec<char>)
    ensures
        r@ == version_text(package@),
{
    proof { reveal_strlit("."); }
    let mut out = decimal_chars(package.major);
    out.push('.');
    let mut minor = decimal_chars(package.minor);
    out.append(&mut minor);
    out.push('.');
    let mut patch = decimal_chars(package.patch);
    out.append(&mut patch);
    assert(out@ =~= version_text(package@));
    out
}

/// `author/name major.minor.patch`, with a sparkle for a first release.
pub open spec fn item_title_text(r: Record) -> Seq<char> {
    r.author + "/"@ + r.name + " "@ + version_text(r) + if is_first(r.major, r.minor, r.patch) {
        "✨"@
    } else {
        ""@
    }
}

/// The title of a feed item.
pub fn item_title(package: &Package) -> (r: String)
    ensures
        r@ == item_title_text(package@),
{
    proof {
        reveal_strlit("/");
        reveal_strlit(" ");
        reveal_strlit("");
    }
    let mut out = chars_of(package.author.as_str());
    out.push('/');
    let mut name = chars_of(package.name.as_str());
    out.append(&mut name);
    out.push(' ');
    let mut version = version_chars(package);
    out.append(&mut version);
    let mut mark = if is_new_package(package) {
        chars_of("✨")
    } else {
        chars_of("")
    };
    out.append(&mut mark);
    assert(out@ =~= item_title_text(package@));
    string_from_chars(&out)
}

/// The registry page of a version.
pub open spec fn item_link_text(r: Record) -> Seq<char> {
    "https://package.elm-lang.org/packages/"@ + r.author + "/"@ + r.name + "/"@ + version_text(r)
        + "/"@
}

/// The link of a feed item: the version's page on the registry.
pub fn item_link(package: &Package) -> (r: String)
    ensures
        r@ == item_link_text(package@),
{
    proof { reveal_strlit("/"); }
    let mut out = chars_of("https://package.elm-lang.org/packages/");
    let mut author = chars_of(package.author.as_str());
    out.append(&mut author);
    out.push('/');
    let mut name = chars_of(package.name.as_str());
    out.append(&mut name);
    out.push('/');
    let mut version = version_chars(package);
    out.append(&mut version);
    out.push('/');
    assert(out@ =~= item_link_text(package@));
    string_from_chars(&out)
}

/// The source tree of a version.
pub open spec fn item_comments_text(r: Record) -> Seq<char> {
    "https://github.com/"@ + r.author + "/"@ + r.name + "/tree/"@ + version_text(r)
}

/// The comments link of a feed item: the version's source tree.
pub fn item_comments(package: &Package) -> (r: String)
    ensures
        r@ == item_comments_text(package@),
{
    proof { reveal_strlit("/"); }
    let mut out = chars_of("https://github.com/");
    let mut author = chars_of(package.author.as_str());
    out.append(&mut author);
    out.push('/');
    let mut name = chars_of(package.name.as_str());
    out.append(&mut name);
    let mut tree = chars_of("/tree/");
    out.append(&mut tree);
    let mut version = version_chars(package);
    out.append(&mut version);
    assert(out@ =~= item_comments_text(package@));
    string_from_chars(&out)
}

/// How a feed names the versions that `release` keeps.
pub open spec fn release_label(release: Release) -> Seq<char> {
    match release {
        Release::Any => "releases"@,
        Release::Last => "last release"@,
        Release::First => "first release"@,
        Release::Major => "major releases"@,
        Release::Minor => "minor releases"@,
        Release::Patch => "patch releases"@,
    }
}

fn release_label_of(release: &Release) -> (r: &'static str)
    ensures
        r@ == release_label(*release),
{
    match release {
        Release::Any => "releases",
        Release::Last => "last release",
        Release::First => "first release",
        Release::Major => "major releases",
        Release::Minor => "minor releases",
        Release::Patch => "patch releases",
    }
}

/// `items` separated by `sep`.
pub open spec fn join_with(items: Seq<Seq<char>>, sep: Seq<char>) -> Seq<char>
    decreases items.len(),
{
    if items.len() == 0 {
        Seq::empty()
    } else if items.len() == 1 {
        items[0]
    } else {
        join_with(items.drop_last(), sep) + sep + items.last()
    }
}

/// `author/names` of each author entry of a filter, spaces written as `+`.
pub open spec fn title_entries(f: Seq<(Seq<char>, Seq<char>)>) -> Seq<Seq<char>> {
    author_pairs(f).map_values(
        |p: (Seq<char>, Seq<char>)| p.0 + "/"@ + replace_all(p.1, " "@, "+"@),
    )
}

/// The title of the feed answering filter `f` with classification `release`.
pub open spec fn channel_title_text(f: Seq<(Seq<char>, Seq<char>)>, release: Release) -> Seq<
    char,
> {
    let head = "Elm packages "@ + release_label(release);
    let pkgs = title_entries(f);
    match (pkgs.len() == 0, search_of(f)) {
        (true, None) => head,
        (true, Some(p)) => head + " matching "@ + p,
        (false, None) => head + " of "@ + join_with(pkgs, ", "@),
        (false, Some(p)) => head + " of "@ + join_with(pkgs, ", "@) + " or matching "@ + p,
    }
}

/// The title of the feed answering `filter` with classification `release`.
pub fn channel_title(filter: &Vec<(String, String)>, release: &Release) -> (r: String)
    ensures
        r@ == channel_title_text(pairs_view(filter@), *release),
{
    proof {
        reveal_strlit(" ");
        reveal_strlit("/");
    }
    let ghost f = pairs_view(filter@);
    let (authors, pattern) = carve(filter);
    let ghost entries = title_entries(f);
    let mut joined: Vec<char> = Vec::new();
    let mut i: usize = 0;
    while i < authors.len()
        invariant
            i <= authors@.len(),
            pairs_view(authors@) == author_pairs(f),
            entries == title_entries(f),
            entries.len() == authors@.len(),
            joined@ == join_with(entries.take(i as int), ", "@),
        decreases authors@.len() - i,
    {
        proof {
            reveal_strlit(" ");
            reveal_strlit("/");
        }
        let ghost before = joined@;
        assert(entries.take(i as int + 1).drop_last() =~= entries.take(i as int));
        if i > 0 {
            let mut sep = chars_of(", ");
            joined.append(&mut sep);
        }
        let mut entry = chars_of(authors[i].0.as_str());
        entry.push('/');
        let mut names = replace_text(&chars_of(authors[i].1.as_str()), &chars_of(" "), &chars_of("+"));
        entry.append(&mut names);
        assert(pairs_view(authors@)[i as int] == (authors@[i as int].0@, authors@[i as int].1@));
        assert(author_pairs(f)[i as int] == (authors@[i as int].0@, authors@[i as int].1@));
        assert(entries[i as int] == authors@[i as int].0@ + "/"@ + replace_all(
            authors@[i as int].1@,
            " "@,
            "+"@,
        ));
        assert(entry@ =~= entries[i as int]);
        joined.append(&mut entry);
        if i == 0 {
            assert(joined@ =~= join_with(entries.take(1), ", "@));
        } else {
            assert(joined@ =~= join_with(entries.take(i as int + 1), ", "@));
        }
        i = i + 1;
    }
    assert(entries.take(authors@.len() as int) =~= entries);
    let mut out = chars_of("Elm packages ");
    let mut label = chars_of(release_label_of(release));
    out.append(&mut label);
    if authors.len() > 0 {
        let mut of = chars_of(" of ");
        out.append(&mut of);
        out.append(&mut joined);
    }
    match pattern {
        Some(mut p) => {
            let mut link = if authors.len() > 0 {
                chars_of(" or matching ")
            } else {
                chars_of(" matching ")
            };
            out.append(&mut link);
            out.append(&mut p);
        },
        None => {},
    }
    assert(out@ =~= channel_title_text(f, *release));
    string_from_chars(&out)
}

/// A dependency as a feed lists it: its name, then its constraint with `<=` as `≤`.
pub open spec fn dependency_text(pkg: Seq<char>, constraint: Seq<char>) -> Seq<char> {
    pkg + " "@ + replace_all(constraint, "<="@, "≤"@)
}

/// The label of dependency `pkg` with version constraint `constraint`.
pub fn dependency_label(pkg: &str, constraint: &str) -> (r: String)
    ensures
        r@ == dependency_text(pkg@, constraint@),
{
    proof { reveal_strlit("<="); }
    let mut out = chars_of(pkg);
    let mut space = chars_of(" ");
    out.append(&mut space);
    let mut rest = replace_text(&chars_of(constraint), &chars_of("<="), &chars_of("≤"));
    out.append(&mut rest);
    string_from_chars(&out)
}

} // verus!
