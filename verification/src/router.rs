//! The route table and the dispatcher. A table holds one pattern matcher
//! per HTTP method and a route-identifier-to-glob map for reverse URL
//! generation. Dispatch tries the exact path first, then the trailing-slash
//! variant as a redirect, then OPTIONS aggregation, and gives up with
//! not-found.

use vstd::prelude::*;

use crate::matcher::{matcher_routes, recognizer_match, Matcher};
use crate::method::{all_methods, lemma_method_order_complete, method_order, Method};
use crate::params::{has_key, keys_unique, map_of_pairs, remove_key, value_of, ParamMap};
use crate::strutil::{lemma_toggled_no_nul, toggle_path, toggled};

verus! {

/// A routing table: one matcher per method, and the identifier-to-glob map.
/// Registration fills it; dispatch and reverse generation only read it.
pub struct Router {
    get_matcher: Matcher,
    post_matcher: Matcher,
    put_matcher: Matcher,
    delete_matcher: Matcher,
    head_matcher: Matcher,
    patch_matcher: Matcher,
    options_matcher: Matcher,
    route_ids: ParamMap,
}

/// The terminal result of routing one request. `Handled` carries the
/// payload registered with the matched glob and the captured parameters;
/// the caller runs the handler that the payload stands for.
#[derive(Clone, Debug, PartialEq, Eq)]
pub enum DispatchOutcome {
    Handled { handler: u64, params: Vec<(String, String)> },
    Redirect { path: String },
    OptionsReport { allowed: Vec<Method> },
    NotFound,
}

/// The mathematical shape of a dispatch outcome: captured parameters as a
/// map, the redirect target and the allowed methods as sequences.
pub enum OutcomeModel {
    Handled { handler: u64, params: Map<Seq<char>, Seq<char>> },
    Redirect { path: Seq<char> },
    OptionsReport { allowed: Seq<Method> },
    NotFound,
}

impl View for DispatchOutcome {
    type V = OutcomeModel;

    open spec fn view(&self) -> OutcomeModel {
        match self {
            DispatchOutcome::Handled { handler, params } => OutcomeModel::Handled {
                handler: *handler,
                params: map_of_pairs(params.deep_view()),
            },
            DispatchOutcome::Redirect { path } => OutcomeModel::Redirect { path: path@ },
            DispatchOutcome::OptionsReport { allowed } => OutcomeModel::OptionsReport {
                allowed: allowed@,
            },
            DispatchOutcome::NotFound => OutcomeModel::NotFound,
        }
    }
}

/// The parameter list of a handled outcome never repeats a key.
pub open spec fn outcome_wf(o: DispatchOutcome) -> bool {
    match o {
        DispatchOutcome::Handled { handler, params } => keys_unique(params.deep_view()),
        _ => true,
    }
}

/// The methods of `ms`, in order, whose matcher matches `p`.
pub open spec fn allowed_from(r: Router, p: Seq<char>, ms: Seq<Method>) -> Seq<Method>
    decreases ms.len(),
{
    if ms.len() == 0 {
        Seq::empty()
    } else {
        (if recognizer_match(r.matcher_of(ms[0]), p) is Some {
            seq![ms[0]]
        } else {
            Seq::<Method>::empty()
        }) + allowed_from(r, p, ms.skip(1))
    }
}

/// The methods whose matcher matches the unmodified path, in scan order.
pub open spec fn allowed_methods(r: Router, p: Seq<char>) -> Seq<Method> {
    allowed_from(r, p, method_order())
}

/// What dispatching `m` and `p` against the table `r` yields: the exact
/// match if there is one, else a redirect to the slash-toggled path if that
/// matches, else aggregate OPTIONS reporting, else not-found.
pub open spec fn spec_dispatch(r: Router, m: Method, p: Seq<char>) -> OutcomeModel {
    if recognizer_match(r.matcher_of(m), p) is Some {
        let mtch = recognizer_match(r.matcher_of(m), p).unwrap();
        OutcomeModel::Handled { handler: mtch.0, params: mtch.1 }
    } else if recognizer_match(r.matcher_of(m), toggled(p)) is Some {
        OutcomeModel::Redirect { path: toggled(p) }
    } else if m == Method::Options {
        OutcomeModel::OptionsReport { allowed: allowed_methods(r, p) }
    } else {
        OutcomeModel::NotFound
    }
}

impl Router {
    /// The matcher that serves method `m`.
    pub closed spec fn matcher_of(&self, m: Method) -> Matcher {
        match m {
            Method::Get => self.get_matcher,
            Method::Post => self.post_matcher,
            Method::Put => self.put_matcher,
            Method::Delete => self.delete_matcher,
            Method::Head => self.head_matcher,
            Method::Patch => self.patch_matcher,
            Method::Options => self.options_matcher,
        }
    }

    /// The identifier-to-glob pairs, in registration order.
    pub closed spec fn ids(&self) -> Seq<(Seq<char>, Seq<char>)> {
        self.route_ids@
    }

    /// Route identifiers never repeat in the table.
    pub closed spec fn wf(&self) -> bool {
        keys_unique(self.ids())
    }

    /// An empty router: no matcher holds a route or matches any path, and
    /// no identifiers are recorded.
    pub fn new() -> (r: Router)
        ensures
            r.wf(),
            r.ids() == Seq::<(Seq<char>, Seq<char>)>::empty(),
            forall|m: Method, p: Seq<char>|
                (#[trigger] recognizer_match(r.matcher_of(m), p)) is None,
            forall|m: Method|
                #[trigger] matcher_routes(r.matcher_of(m)) == Seq::<(Seq<char>, u64)>::empty(),
    {
        let r = Router {
            get_matcher: Matcher::new(),
            post_matcher: Matcher::new(),
            put_matcher: Matcher::new(),
            delete_matcher: Matcher::new(),
            head_matcher: Matcher::new(),
            patch_matcher: Matcher::new(),
            options_matcher: Matcher::new(),
            route_ids: ParamMap::new(),
        };
        proof {
            assert forall|m: Method, p: Seq<char>|
                (#[trigger] recognizer_match(r.matcher_of(m), p)) is None by {
                match m {
                    Method::Get => assert(r.matcher_of(m) == r.get_matcher),
                    Method::Post => assert(r.matcher_of(m) == r.post_matcher),
                    Method::Put => assert(r.matcher_of(m) == r.put_matcher),
                    Method::Delete => assert(r.matcher_of(m) == r.delete_matcher),
                    Method::Head => assert(r.matcher_of(m) == r.head_matcher),
                    Method::Patch => assert(r.matcher_of(m) == r.patch_matcher),
                    Method::Options => assert(r.matcher_of(m) == r.options_matcher),
                }
            }
            assert forall|m: Method|
                #[trigger] matcher_routes(r.matcher_of(m)) == Seq::<(Seq<char>, u64)>::empty() by {
                match m {
                    Method::Get => assert(r.matcher_of(m) == r.get_matcher),
                    Method::Post => assert(r.matcher_of(m) == r.post_matcher),
                    Method::Put => assert(r.matcher_of(m) == r.put_matcher),
                    Method::Delete => assert(r.matcher_of(m) == r.delete_matcher),
                    Method::Head => assert(r.matcher_of(m) == r.head_matcher),
                    Method::Patch => assert(r.matcher_of(m) == r.patch_matcher),
                    Method::Options => assert(r.matcher_of(m) == r.options_matcher),
                }
            }
        }
        r
    }

    /// Registers `glob` under `method` with `handler` as its payload, and
    /// under `route_id`, where one is given, for reverse generation. The
    /// glob goes onto the method's matcher; the matchers of all other
    /// methods are untouched. The glob must be ASCII without NUL — the
    /// matching engine aborts on others.
    pub fn route(&mut self, method: Method, glob: &str, handler: u64, route_id: Option<&str>)
        requires
            old(self).wf(),
            glob.is_ascii(),
            !glob@.contains('\0'),
        ensures
            matcher_routes(final(self).matcher_of(method)) == matcher_routes(
                old(self).matcher_of(method),
            ).push((glob@, handler)),
            final(self).wf(),
            forall|m2: Method|
                m2 != method ==> final(self).matcher_of(m2) == old(self).matcher_of(m2),
            final(self).ids() == match route_id {
                Some(id) => remove_key(old(self).ids(), id@).push((id@, glob@)),
                None => old(self).ids(),
            },
    {
        match method {
            Method::Get => self.get_matcher.add_route(glob, handler),
            Method::Post => self.post_matcher.add_route(glob, handler),
            Method::Put => self.put_matcher.add_route(glob, handler),
            Method::Delete => self.delete_matcher.add_route(glob, handler),
            Method::Head => self.head_matcher.add_route(glob, handler),
            Method::Patch => self.patch_matcher.add_route(glob, handler),
            Method::Options => self.options_matcher.add_route(glob, handler),
        }
        match route_id {
            Some(id) => self.route_ids.insert(id, glob),
            None => (),
        }
    }

    /// Like `route`, for the GET method.
    pub fn get(&mut self, glob: &str, handler: u64, route_id: Option<&str>)
        requires
            old(self).wf(),
            glob.is_ascii(),
            !glob@.contains('\0'),
        ensures
            matcher_routes(final(self).matcher_of(Method::Get)) == matcher_routes(
                old(self).matcher_of(Method::Get),
            ).push((glob@, handler)),
            final(self).wf(),
            forall|m2: Method|
                m2 != Method::Get ==> final(self).matcher_of(m2) == old(self).matcher_of(m2),
            final(self).ids() == match route_id {
                Some(id) => remove_key(old(self).ids(), id@).push((id@, glob@)),
                None => old(self).ids(),
            },
    {
        self.route(Method::Get, glob, handler, route_id)
    }

    /// Like `route`, for the POST method.
    pub fn post(&mut self, glob: &str, handler: u64, route_id: Option<&str>)
        requires
            old(self).wf(),
            glob.is_ascii(),
            !glob@.contains('\0'),
        ensures
            matcher_routes(final(self).matcher_of(Method::Post)) == matcher_routes(
                old(self).matcher_of(Method::Post),
            ).push((glob@, handler)),
            final(self).wf(),
            forall|m2: Method|
                m2 != Method::Post ==> final(self).matcher_of(m2) == old(self).matcher_of(m2),
            final(self).ids() == match route_id {
                Some(id) => remove_key(old(self).ids(), id@).push((id@, glob@)),
                None => old(self).ids(),
            },
    {
        self.route(Method::Post, glob, handler, route_id)
    }

    /// Like `route`, for the PUT method.
    pub fn put(&mut self, glob: &str, handler: u64, route_id: Option<&str>)
        requires
            old(self).wf(),
            glob.is_ascii(),
            !glob@.contains('\0'),
        ensures
            matcher_routes(final(self).matcher_of(Method::Put)) == matcher_routes(
                old(self).matcher_of(Method::Put),
            ).push((glob@, handler)),
            final(self).wf(),
            forall|m2: Method|
                m2 != Method::Put ==> final(self).matcher_of(m2) == old(self).matcher_of(m2),
            final(self).ids() == match route_id {
                Some(id) => remove_key(old(self).ids(), id@).push((id@, glob@)),
                None => old(self).ids(),
            },
    {
        self.route(Method::Put, glob, handler, route_id)
    }

    /// Like `route`, for the DELETE method.
    pub fn delete(&mut self, glob: &str, handler: u64, route_id: Option<&str>)
        requires
            old(self).wf(),
            glob.is_ascii(),
            !glob@.contains('\0'),
        ensures
            matcher_routes(final(self).matcher_of(Method::Delete)) == matcher_routes(
                old(self).matcher_of(Method::Delete),
            ).push((glob@, handler)),
            final(self).wf(),
            forall|m2: Method|
                m2 != Method::Delete ==> final(self).matcher_of(m2) == old(self).matcher_of(m2),
            final(self).ids() == match route_id {
                Some(id) => remove_key(old(self).ids(), id@).push((id@, glob@)),
                None => old(self).ids(),
            },
    {
        self.route(Method::Delete, glob, handler, route_id)
    }

    /// Like `route`, for the HEAD method.
    pub fn head(&mut self, glob: &str, handler: u64, route_id: Option<&str>)
        requires
            old(self).wf(),
            glob.is_ascii(),
            !glob@.contains('\0'),
        ensures
            matcher_routes(final(self).matcher_of(Method::Head)) == matcher_routes(
                old(self).matcher_of(Method::Head),
            ).push((glob@, handler)),
            final(self).wf(),
            forall|m2: Method|
                m2 != Method::Head ==> final(self).matcher_of(m2) == old(self).matcher_of(m2),
            final(self).ids() == match route_id {
                Some(id) => remove_key(old(self).ids(), id@).push((id@, glob@)),
                None => old(self).ids(),
            },
    {
        self.route(Method::Head, glob, handler, route_id)
    }

    /// Like `route`, for the PATCH method.
    pub fn patch(&mut self, glob: &str, handler: u64, route_id: Option<&str>)
        requires
            old(self).wf(),
            glob.is_ascii(),
            !glob@.contains('\0'),
        ensures
            matcher_routes(final(self).matcher_of(Method::Patch)) == matcher_routes(
                old(self).matcher_of(Method::Patch),
            ).push((glob@, handler)),
            final(self).wf(),
            forall|m2: Method|
                m2 != Method::Patch ==> final(self).matcher_of(m2) == old(self).matcher_of(m2),
            final(self).ids() == match route_id {
                Some(id) => remove_key(old(self).ids(), id@).push((id@, glob@)),
                None => old(self).ids(),
            },
    {
        self.route(Method::Patch, glob, handler, route_id)
    }

    /// Like `route`, for the OPTIONS method.
    pub fn options(&mut self, glob: &str, handler: u64, route_id: Option<&str>)
        requires
            old(self).wf(),
            glob.is_ascii(),
            !glob@.contains('\0'),
        ensures
            matcher_routes(final(self).matcher_of(Method::Options)) == matcher_routes(
                old(self).matcher_of(Method::Options),
            ).push((glob@, handler)),
            final(self).wf(),
            forall|m2: Method|
                m2 != Method::Options ==> final(self).matcher_of(m2) == old(self).matcher_of(m2),
            final(self).ids() == match route_id {
                Some(id) => remove_key(old(self).ids(), id@).push((id@, glob@)),
                None => old(self).ids(),
            },
    {
        self.route(Method::Options, glob, handler, route_id)
    }

    /// The glob registered under `route_id`, for reverse generation.
    pub fn glob_of(&self, route_id: &str) -> (r: Option<String>)
        ensures
            r is Some <==> has_key(self.ids(), route_id@),
            r matches Some(g) ==> g@ == value_of(self.ids(), route_id@),
    {
        self.route_ids.get(route_id)
    }

    /// Looks `path` up in the matcher of `method`.
    fn recognize(&self, method: Method, path: &str) -> (res: Option<(u64, Vec<(String, String)>)>)
        requires
            !path@.contains('\0'),
        ensures
            res is Some <==> recognizer_match(self.matcher_of(method), path@) is Some,
            res matches Some(m) ==> {
                &&& m.0 == recognizer_match(self.matcher_of(method), path@).unwrap().0
                &&& keys_unique(m.1.deep_view())
                &&& map_of_pairs(m.1.deep_view()) == recognizer_match(
                    self.matcher_of(method),
                    path@,
                ).unwrap().1
            },
    {
        let matcher = match method {
            Method::Get => &self.get_matcher,
            Method::Post => &self.post_matcher,
            Method::Put => &self.put_matcher,
            Method::Delete => &self.delete_matcher,
            Method::Head => &self.head_matcher,
            Method::Patch => &self.patch_matcher,
            Method::Options => &self.options_matcher,
        };
        matcher.recognize(path)
    }

    /// The methods whose matcher matches `path`, in scan order.
    fn handle_options(&self, path: &str) -> (r: Vec<Method>)
        requires
            !path@.contains('\0'),
        ensures
            r@ == allowed_methods(*self, path@),
    {
        let methods = all_methods();
        let mut allowed: Vec<Method> = Vec::new();
        let mut i: usize = 0;
        proof {
            assert(method_order().skip(0) =~= method_order());
            assert(allowed@ + allowed_from(*self, path@, method_order()) =~= allowed_methods(
                *self,
                path@,
            ));
        }
        while i < methods.len()
            invariant
                0 <= i <= methods.len(),
                !path@.contains('\0'),
                methods@ == method_order(),
                allowed_methods(*self, path@) == allowed@ + allowed_from(
                    *self,
                    path@,
                    method_order().skip(i as int),
                ),
            decreases methods.len() - i,
        {
            let m = methods[i];
            proof {
                lemma_allowed_from_unfold(*self, path@, method_order(), i as int);
            }
            let ghost prev = allowed@;
            if self.recognize(m, path).is_some() {
                allowed.push(m);
                proof {
                    assert(prev + (seq![m] + allowed_from(
                        *self,
                        path@,
                        method_order().skip(i as int + 1),
                    )) =~= allowed@ + allowed_from(*self, path@, method_order().skip(i as int + 1)));
                }
            } else {
                proof {
                    assert(prev + (Seq::<Method>::empty() + allowed_from(
                        *self,
                        path@,
                        method_order().skip(i as int + 1),
                    )) =~= allowed@ + allowed_from(*self, path@, method_order().skip(i as int + 1)));
                }
            }
            i = i + 1;
        }
        proof {
            assert(method_order().skip(i as int) =~= Seq::<Method>::empty());
            assert(allowed@ + allowed_from(*self, path@, method_order().skip(i as int)) =~= allowed@);
        }
        allowed
    }

    /// Tests for a match of the slash-toggled path, handing the toggled
    /// path back where it matches.
    fn redirect_slash(&self, method: Method, path: &str) -> (r: Option<String>)
        requires
            !path@.contains('\0'),
        ensures
            r is Some <==> recognizer_match(self.matcher_of(method), toggled(path@)) is Some,
            r matches Some(s) ==> s@ == toggled(path@),
    {
        let t = toggle_path(path);
        proof {
            lemma_toggled_no_nul(path@);
        }
        if self.recognize(method, t.as_str()).is_some() {
            Some(t)
        } else {
            None
        }
    }

    /// Dispatches one request: a pure, deterministic function of the
    /// method, the path and the table, with exactly one outcome. The path
    /// may not hold the NUL character, which the matching engine cannot
    /// take; an HTTP path never does.
    pub fn handle(&self, method: Method, path: &str) -> (r: DispatchOutcome)
        requires
            !path@.contains('\0'),
        ensures
            r@ == spec_dispatch(*self, method, path@),
            outcome_wf(r),
    {
        match self.recognize(method, path) {
            Some((handler, params)) => DispatchOutcome::Handled { handler, params },
            None => match self.redirect_slash(method, path) {
                Some(p) => DispatchOutcome::Redirect { path: p },
                None => {
                    if method == Method::Options {
                        DispatchOutcome::OptionsReport { allowed: self.handle_options(path) }
                    } else {
                        DispatchOutcome::NotFound
                    }
                },
            },
        }
    }
}

pub proof fn lemma_allowed_from_unfold(r: Router, p: Seq<char>, ms: Seq<Method>, i: int)
    requires
        0 <= i < ms.len(),
    ensures
        allowed_from(r, p, ms.skip(i)) == (if recognizer_match(r.matcher_of(ms[i]), p) is Some {
            seq![ms[i]]
        } else {
            Seq::<Method>::empty()
        }) + allowed_from(r, p, ms.skip(i + 1)),
{
    assert(ms.skip(i).skip(1) =~= ms.skip(i + 1));
    assert(ms.skip(i)[0] == ms[i]);
}

/// Law: an exact match takes precedence over everything; dispatch then
/// hands back exactly the matcher's payload and parameters — never a
/// redirect, and never another route's handler.
pub proof fn lemma_exact_match_precedence(r: Router, m: Method, p: Seq<char>)
    requires
        recognizer_match(r.matcher_of(m), p) is Some,
    ensures
        spec_dispatch(r, m, p) == (OutcomeModel::Handled {
            handler: recognizer_match(r.matcher_of(m), p).unwrap().0,
            params: recognizer_match(r.matcher_of(m), p).unwrap().1,
        }),
{
}

/// Law: where the path itself has no match but its trailing-slash variant
/// has, dispatch redirects to the variant — in both toggle directions.
pub proof fn lemma_slash_redirect(r: Router, m: Method, p: Seq<char>)
    requires
        recognizer_match(r.matcher_of(m), p) is None,
        recognizer_match(r.matcher_of(m), toggled(p)) is Some,
    ensures
        spec_dispatch(r, m, p) == (OutcomeModel::Redirect { path: toggled(p) }),
{
}

/// A method stands in the aggregated list exactly when it is scanned and
/// its matcher matches the unmodified path.
pub proof fn lemma_allowed_from_contains(r: Router, p: Seq<char>, ms: Seq<Method>, m: Method)
    ensures
        allowed_from(r, p, ms).contains(m) <==> (ms.contains(m) && recognizer_match(
            r.matcher_of(m),
            p,
        ) is Some),
    decreases ms.len(),
{
    if ms.len() == 0 {
        assert(!ms.contains(m));
        assert(!allowed_from(r, p, ms).contains(m));
    } else {
        lemma_allowed_from_contains(r, p, ms.skip(1), m);
        let head = if recognizer_match(r.matcher_of(ms[0]), p) is Some {
            seq![ms[0]]
        } else {
            Seq::<Method>::empty()
        };
        let rest = allowed_from(r, p, ms.skip(1));
        assert(allowed_from(r, p, ms) == head + rest);
        assert((head + rest).contains(m) <==> (head.contains(m) || rest.contains(m))) by {
            if (head + rest).contains(m) {
                let i = choose|i: int| 0 <= i < (head + rest).len() && (head + rest)[i] == m;
                if i < head.len() {
                    assert(head[i] == m);
                } else {
                    assert(rest[i - head.len()] == m);
                }
            }
            if head.contains(m) {
                let i = choose|i: int| 0 <= i < head.len() && head[i] == m;
                assert((head + rest)[i] == m);
            }
            if rest.contains(m) {
                let i = choose|i: int| 0 <= i < rest.len() && rest[i] == m;
                assert((head + rest)[head.len() + i] == m);
            }
        }
        assert(head.contains(m) <==> (ms[0] == m && recognizer_match(r.matcher_of(m), p) is Some))
            by {
            if head.contains(m) {
                let i = choose|i: int| 0 <= i < head.len() && head[i] == m;
                assert(head[0] == ms[0]);
            }
            if ms[0] == m && recognizer_match(r.matcher_of(m), p) is Some {
                assert(head[0] == m);
            }
        }
        assert(ms.contains(m) <==> (ms[0] == m || ms.skip(1).contains(m))) by {
            if ms.contains(m) {
                let i = choose|i: int| 0 <= i < ms.len() && ms[i] == m;
                if i > 0 {
                    assert(ms.skip(1)[i - 1] == m);
                }
            }
            if ms.skip(1).contains(m) {
                let i = choose|i: int| 0 <= i < ms.skip(1).len() && ms.skip(1)[i] == m;
                assert(ms[i + 1] == m);
            }
        }
    }
}

/// Law: OPTIONS dispatch on a path with no OPTIONS match of its own (nor of
/// its slash toggle) reports exactly the methods whose pattern matches the
/// unmodified path.
pub proof fn lemma_options_aggregation(r: Router, p: Seq<char>, m: Method)
    requires
        recognizer_match(r.matcher_of(Method::Options), p) is None,
        recognizer_match(r.matcher_of(Method::Options), toggled(p)) is None,
    ensures
        spec_dispatch(r, Method::Options, p) == (OutcomeModel::OptionsReport {
            allowed: allowed_methods(r, p),
        }),
        allowed_methods(r, p).contains(m) <==> recognizer_match(r.matcher_of(m), p) is Some,
{
    lemma_method_order_complete(m);
    lemma_allowed_from_contains(r, p, method_order(), m);
}

/// All matchers of `ms` failing on `p`, the aggregate is empty.
pub proof fn lemma_allowed_from_none(r: Router, p: Seq<char>, ms: Seq<Method>)
    requires
        forall|m: Method| recognizer_match(r.matcher_of(m), p) is None,
    ensures
        allowed_from(r, p, ms) == Seq::<Method>::empty(),
    decreases ms.len(),
{
    if ms.len() > 0 {
        lemma_allowed_from_none(r, p, ms.skip(1));
        assert(Seq::<Method>::empty() + allowed_from(r, p, ms.skip(1)) =~= allowed_from(
            r,
            p,
            ms.skip(1),
        ));
    }
}

/// Law: OPTIONS on a path that no pattern of any method matches (nor, for
/// OPTIONS itself, the slash toggle) reports an empty allowed set — still a
/// report, not a not-found.
pub proof fn lemma_options_empty(r: Router, p: Seq<char>)
    requires
        forall|m: Method| recognizer_match(r.matcher_of(m), p) is None,
        recognizer_match(r.matcher_of(Method::Options), toggled(p)) is None,
    ensures
        spec_dispatch(r, Method::Options, p) == (OutcomeModel::OptionsReport {
            allowed: Seq::<Method>::empty(),
        }),
{
    lemma_allowed_from_none(r, p, method_order());
}

/// Law: a router in the shape `Router::new` hands out — no matcher
/// matches any path — dispatches every non-OPTIONS request to not-found
/// and reports an empty allowed set to every OPTIONS request.
pub proof fn lemma_empty_router_dispatch(r: Router, m: Method, p: Seq<char>)
    requires
        forall|m2: Method, p2: Seq<char>|
            (#[trigger] recognizer_match(r.matcher_of(m2), p2)) is None,
    ensures
        m != Method::Options ==> spec_dispatch(r, m, p) == OutcomeModel::NotFound,
        m == Method::Options ==> spec_dispatch(r, m, p) == (OutcomeModel::OptionsReport {
            allowed: Seq::<Method>::empty(),
        }),
{
    lemma_allowed_from_none(r, p, method_order());
}

/// Law: dispatch is a function of the table, the method and the path —
/// dispatching the same pair twice against an unmodified table yields the
/// same outcome both times.
pub proof fn lemma_dispatch_deterministic(
    r: Router,
    m: Method,
    p: Seq<char>,
    o1: OutcomeModel,
    o2: OutcomeModel,
)
    requires
        o1 == spec_dispatch(r, m, p),
        o2 == spec_dispatch(r, m, p),
    ensures
        o1 == o2,
{
}

/// The error of a dispatch that found no matching route; it pairs with a
/// not-found response.
#[derive(Clone, Copy, Debug, PartialEq, Eq, Structural)]
pub struct NoRoute;

impl NoRoute {
    /// The human-readable description of the error.
    pub fn message(&self) -> (r: &'static str)
        ensures
            r@ == "No matching route found."@,
    {
        "No matching route found."
    }
}

/// The error of a request that was redirected by adding or removing a
/// trailing slash.
#[derive(Clone, Copy, Debug, PartialEq, Eq, Structural)]
pub struct TrailingSlash;

impl TrailingSlash {
    /// The human-readable description of the error.
    pub fn message(&self) -> (r: &'static str)
        ensures
            r@ == "The request had a trailing slash."@,
    {
        "The request had a trailing slash."
    }
}

} // verus!
