use vstd::prelude::*;

verus! {

/// What a stored package version holds, as plain values.
///
/// Formats: 19 is `elm.json`; 15 is `elm-package.json` with its `elm-version`
/// field; 14 is `elm-package.json` without it; 13 (`elm_dependencies.json`) is
/// never stored.
pub struct Record {
    pub timestamp: i64,
    pub major: i32,
    pub minor: i32,
    pub patch: i32,
    pub author: Seq<char>,
    pub name: Seq<char>,
    pub summary: Seq<char>,
    pub license: Seq<char>,
    pub elm_version: Seq<char>,
    pub dependencies: Seq<char>,
    pub format: i32,
}

/// A stored package version; `id` is its row number in the store, from 1.
#[derive(Debug)]
pub struct Package {
    pub id: i32,
    pub timestamp: i64,
    pub major: i32,
    pub minor: i32,
    pub patch: i32,
    pub author: String,
    pub name: String,
    pub summary: String,
    pub license: String,
    pub elm_version: String,
    pub dependencies: String,
    pub format: i32,
}

/// A package version ready to be stored.
#[derive(Debug)]
pub struct NewPackage {
    pub timestamp: i64,
    pub major: i32,
    pub minor: i32,
    pub patch: i32,
    pub author: String,
    pub name: String,
    pub summary: String,
    pub license: String,
    pub elm_version: String,
    pub dependencies: String,
    pub format: i32,
}

impl View for Package {
    type V = Record;

    open spec fn view(&self) -> Record {
        Record {
            timestamp: self.timestamp,
            major: self.major,
            minor: self.minor,
            patch: self.patch,
            author: self.author@,
            name: self.name@,
            summary: self.summary@,
            license: self.license@,
            elm_version: self.elm_version@,
            dependencies: self.dependencies@,
            format: self.format,
        }
    }
}

impl View for NewPackage {
    type V = Record;

    open spec fn view(&self) -> Record {
        Record {
            timestamp: self.timestamp,
            major: self.major,
            minor: self.minor,
            patch: self.patch,
            author: self.author@,
            name: self.name@,
            summary: self.summary@,
            license: self.license@,
            elm_version: self.elm_version@,
            dependencies: self.dependencies@,
            format: self.format,
        }
    }
}

/// The natural key of a version: author, name and the three version components.
pub open spec fn natural_key(r: Record) -> (Seq<char>, Seq<char>, i32, i32, i32) {
    (r.author, r.name, r.major, r.minor, r.patch)
}

/// `author/name`, the repository a version belongs to.
pub open spec fn repo_of(r: Record) -> Seq<char> {
    r.author + seq!['/'] + r.name
}

impl Clone for Package {
    fn clone(&self) -> (r: Self)
        ensures
            r@ == self@,
            r.id == self.id,
    {
        Package {
            id: self.id,
            timestamp: self.timestamp,
            major: self.major,
            minor: self.minor,
            patch: self.patch,
            author: self.author.clone(),
            name: self.name.clone(),
            summary: self.summary.clone(),
            license: self.license.clone(),
            elm_version: self.elm_version.clone(),
            dependencies: self.dependencies.clone(),
            format: self.format,
        }
    }
}

impl Package {
    /// The stored row numbered `id` that holds `pkg`.
    pub fn from_new(id: i32, pkg: &NewPackage) -> (r: Package)
        ensures
            r@ == pkg@,
            r.id == id,
    {
        Package {
            id,
            timestamp: pkg.timestamp,
            major: pkg.major,
            minor: pkg.minor,
            patch: pkg.patch,
            author: pkg.author.clone(),
            name: pkg.name.clone(),
            summary: pkg.summary.clone(),
            license: pkg.license.clone(),
            elm_version: pkg.elm_version.clone(),
            dependencies: pkg.dependencies.clone(),
            format: pkg.format,
        }
    }
}

} // verus!
