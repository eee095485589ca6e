//! The submodule record: one entry of a `.gitmodules` manifest.

use vstd::prelude::*;

verus! {

/// Mathematical view of one manifest record.
pub ghost struct SubmoduleView {
    pub name: Seq<char>,
    pub path: Seq<char>,
    pub url: Seq<char>,
    pub branch: Option<Seq<char>>,
}

/// One parsed `[submodule "..."]` entry: the quoted section name, the
/// checkout path, the repository url, and the optional branch.
///
/// A record carries no invariant of its own; the parser only ever builds
/// one through [`Submodule::try_new`], with all three required fields
/// present and the name non-empty.
#[derive(Debug, Clone, PartialEq, Eq)]
pub struct Submodule {
    pub name: String,
    pub path: String,
    pub url: String,
    pub branch: Option<String>,
}

impl View for Submodule {
    type V = SubmoduleView;

    open spec fn view(&self) -> SubmoduleView {
        SubmoduleView {
            name: self.name@,
            path: self.path@,
            url: self.url@,
            branch: opt_string_view(self.branch),
        }
    }
}

/// The view of an optional string.
pub open spec fn opt_string_view(o: Option<String>) -> Option<Seq<char>> {
    match o {
        Some(s) => Some(s@),
        None => None,
    }
}

/// Which required fields were absent when a record could not be built.
#[derive(Debug, Clone, Copy, PartialEq, Eq, Structural)]
pub struct MissingFields {
    pub name: bool,
    pub path: bool,
    pub url: bool,
}

impl Submodule {
    /// Builds a record exactly when the pending name, path and url are all
    /// present; otherwise reports which of the three were absent. The branch
    /// is copied as-is and never required.
    pub fn try_new(
        name: &Option<String>,
        path: &Option<String>,
        url: &Option<String>,
        branch: &Option<String>,
    ) -> (r: Result<Submodule, MissingFields>)
        ensures
            r is Ok <==> (name is Some && path is Some && url is Some),
            r is Ok ==> r->Ok_0@ == (SubmoduleView {
                name: name->0@,
                path: path->0@,
                url: url->0@,
                branch: opt_string_view(*branch),
            }),
            r is Err ==> r->Err_0 == (MissingFields {
                name: name is None,
                path: path is None,
                url: url is None,
            }),
    {
        match (name, path, url) {
            (Some(name), Some(path), Some(url)) => Ok(
                Submodule {
                    name: name.clone(),
                    path: path.clone(),
                    url: url.clone(),
                    branch: match branch {
                        Some(b) => Some(b.clone()),
                        None => None,
                    },
                },
            ),
            _ => Err(
                MissingFields { name: name.is_none(), path: path.is_none(), url: url.is_none() },
            ),
        }
    }
}

} // verus!
