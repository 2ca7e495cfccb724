//! The parts of an absolute URL that reverse generation reads and rewrites.
//! The scheme and authority are carried through untouched; the path is a
//! list of segments (a URL path holds at least one — the path `/` is one
//! empty segment); the query is a list of pairs; the fragment a string.

use vstd::prelude::*;

verus! {

/// An absolute URL, split into the parts the reverse generator works on.
#[derive(Clone, Debug, PartialEq, Eq)]
pub struct UrlParts {
    /// `scheme://host[:port]`, carried through unchanged.
    pub origin: String,
    /// The path segments, without their leading slashes.
    pub segments: Vec<String>,
    /// The query pairs, or `None` where the URL has no query.
    pub query: Option<Vec<(String, String)>>,
    /// The fragment, or `None` where the URL has none.
    pub fragment: Option<String>,
}

/// The mathematical shape of a URL's parts.
pub struct UrlPartsModel {
    pub origin: Seq<char>,
    pub segments: Seq<Seq<char>>,
    pub query: Option<Seq<(Seq<char>, Seq<char>)>>,
    pub fragment: Option<Seq<char>>,
}

impl View for UrlParts {
    type V = UrlPartsModel;

    open spec fn view(&self) -> UrlPartsModel {
        UrlPartsModel {
            origin: self.origin@,
            segments: self.segments.deep_view(),
            query: match self.query {
                Some(q) => Some(q.deep_view()),
                None => None,
            },
            fragment: match self.fragment {
                Some(f) => Some(f@),
                None => None,
            },
        }
    }
}

impl UrlParts {
    /// A URL path holds at least one segment.
    pub open spec fn wf(&self) -> bool {
        self@.segments.len() >= 1
    }
}

} // verus!
