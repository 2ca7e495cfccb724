//! The pattern-matching collaborator. The glob-to-pattern engine is
//! `route_recognizer`: it owns the matching semantics (segment equality,
//! `:name` captures, `*name` wildcards, precedence between overlapping
//! globs). The router only registers globs and consumes match results, so
//! the engine stands behind the trusted items of this module, and what
//! `recognize` yields on a given matcher and path is named, not spelt out.

use vstd::prelude::*;

use crate::params::{keys_unique, map_of_pairs};

verus! {

/// One method's pattern matcher: a `route_recognizer::Router` whose payload
/// is the caller's handler number. Opaque to the verifier; the trusted
/// functions below are its only doors.
#[verifier::external_body]
pub struct Matcher {
    inner: route_recognizer::Router<u64>,
}

/// What `route_recognizer::Router::recognize` yields for a matcher value
/// and a path: `None` for no match, or the payload stored with the matched
/// glob and the captured parameters. Matching reads only the matcher and
/// the path, so the result is a function of the two.
pub uninterp spec fn recognizer_match(m: Matcher, path: Seq<char>) -> Option<
    (u64, Map<Seq<char>, Seq<char>>),
>;

/// The registration ledger of a matcher: the (glob, payload) pairs handed
/// to `route_recognizer::Router::add`, in order.
pub uninterp spec fn matcher_routes(m: Matcher) -> Seq<(Seq<char>, u64)>;

impl Matcher {
    /// Relies on `route_recognizer::Router::new`: a fresh recognizer has no
    /// accepting state, so it matches no path at all.
    #[verifier::external_body]
    pub(crate) fn new() -> (r: Matcher)
        ensures
            matcher_routes(r) == Seq::<(Seq<char>, u64)>::empty(),
            forall|p: Seq<char>| (#[trigger] recognizer_match(r, p)) is None,
    {
        Matcher { inner: route_recognizer::Router::new() }
    }

    /// Relies on `route_recognizer::Router::add` to compile the glob into
    /// the matcher with `dest` as its payload. Beyond the ledger, nothing
    /// is promised of the grown matcher: which paths it then matches is the
    /// engine's own rule. The glob must be ASCII without NUL: `add` slices
    /// the glob one byte past each segment start, so a multi-byte leading
    /// character aborts, and the engine's character classes cannot take the
    /// NUL character.
    #[verifier::external_body]
    pub(crate) fn add_route(&mut self, glob: &str, dest: u64)
        requires
            glob.is_ascii(),
            !glob@.contains('\0'),
        ensures
            matcher_routes(*final(self)) == matcher_routes(*old(self)).push((glob@, dest)),
    {
        self.inner.add(glob, dest);
    }

    /// Relies on `route_recognizer::Router::recognize` for the match
    /// result. Its parameters come out of a `BTreeMap`, so the keys are
    /// unique. The path may not hold the NUL character, which the engine's
    /// character test cannot take.
    #[verifier::external_body]
    pub(crate) fn recognize(&self, path: &str) -> (res: Option<(u64, Vec<(String, String)>)>)
        requires
            !path@.contains('\0'),
        ensures
            res is Some <==> recognizer_match(*self, path@) is Some,
            res matches Some(m) ==> {
                &&& m.0 == recognizer_match(*self, path@).unwrap().0
                &&& keys_unique(m.1.deep_view())
                &&& map_of_pairs(m.1.deep_view()) == recognizer_match(*self, path@).unwrap().1
            },
    {
        match self.inner.recognize(path) {
            Ok(m) => {
                let handler: u64 = **m.handler();
                let params: Vec<(String, String)> = m.params().iter().map(
                    |(k, v)| (k.to_string(), v.to_string()),
                ).collect();
                Some((handler, params))
            },
            Err(_) => None,
        }
    }
}

} // verus!
