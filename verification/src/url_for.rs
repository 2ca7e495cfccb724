//! Reverse URL generation: a stored glob, a base URL and a parameter map
//! yield a new URL. The base path is trimmed — one segment beyond the
//! glob's non-empty segment count where the base is deeper than the
//! template, else cleared whole — then rebuilt from the glob, placeholders
//! consuming their values from the parameter map; what is left of the map
//! becomes the query string, and the fragment is dropped.

use vstd::prelude::*;

use crate::params::{has_key, keys_unique, remove_key, value_of, ParamMap};
use crate::router::Router;
use crate::strutil::{
    clone_pair_vec, clone_string_vec, count_nonempty, count_nonempty_exec, lemma_deep_view_drop_last,
    lemma_deep_view_push, split_slash, split_slash_spec,
};
use crate::urlparts::{UrlParts, UrlPartsModel};

verus! {

/// The failures of reverse URL generation: both are configuration errors of
/// the caller, not request-time conditions.
#[derive(Clone, Debug, PartialEq, Eq)]
pub enum UrlForError {
    /// No route was registered under the identifier handed to `url_for`.
    UnknownRouteId { route_id: String },
    /// The glob holds a placeholder for which the parameter map has no
    /// value.
    MissingParam { key: String },
}

/// Removing one segment from the end of a URL path: the last segment goes,
/// except that a path of one segment is emptied rather than shortened (a
/// URL path never has fewer than one segment).
pub open spec fn pop_segment(s: Seq<Seq<char>>) -> Seq<Seq<char>> {
    if s.len() > 1 {
        s.drop_last()
    } else {
        seq![Seq::<char>::empty()]
    }
}

/// `pop_segment`, applied `n` times.
pub open spec fn pop_segments(s: Seq<Seq<char>>, n: nat) -> Seq<Seq<char>>
    decreases n,
{
    if n == 0 {
        s
    } else {
        pop_segments(pop_segment(s), (n - 1) as nat)
    }
}

/// Appending a segment to a URL path: the sole empty segment of the root
/// path is replaced rather than extended.
pub open spec fn push_segment(s: Seq<Seq<char>>, v: Seq<char>) -> Seq<Seq<char>> {
    if s == seq![Seq::<char>::empty()] {
        seq![v]
    } else {
        s.push(v)
    }
}

/// Whether a glob segment is a parameter placeholder: `:name` or `*name`
/// with a non-empty name.
pub open spec fn is_placeholder(g: Seq<char>) -> bool {
    g.len() > 1 && (g[0] == ':' || g[0] == '*')
}

/// Walking the glob's segments in order: a placeholder consumes its key
/// from the parameter map and appends the captured value; every other
/// segment — a lone `:` or `*`, or an empty one — is appended as it
/// stands. Fails with the key of the first placeholder that has no value.
pub open spec fn build_segments(
    globs: Seq<Seq<char>>,
    segs: Seq<Seq<char>>,
    params: Seq<(Seq<char>, Seq<char>)>,
) -> Result<(Seq<Seq<char>>, Seq<(Seq<char>, Seq<char>)>), Seq<char>>
    decreases globs.len(),
{
    if globs.len() == 0 {
        Ok((segs, params))
    } else {
        let g = globs[0];
        if is_placeholder(g) {
            let key = g.skip(1);
            if has_key(params, key) {
                build_segments(
                    globs.skip(1),
                    push_segment(segs, value_of(params, key)),
                    remove_key(params, key),
                )
            } else {
                Err(key)
            }
        } else {
            build_segments(globs.skip(1), push_segment(segs, g), params)
        }
    }
}

/// The glob segments the walk appends: a single leading empty segment (a
/// glob starting with `/`) is dropped, exactly once; empty segments
/// anywhere else stay.
pub open spec fn walk_segments(globs: Seq<Seq<char>>) -> Seq<Seq<char>> {
    if globs.len() >= 1 && globs[0].len() == 0 {
        globs.skip(1)
    } else {
        globs
    }
}

/// The base path after trimming: where the glob has fewer non-empty
/// segments than the base path has segments, one segment more than that
/// count is dropped from the end; otherwise the path is cleared whole.
pub open spec fn trimmed_segments(base: Seq<Seq<char>>, globs: Seq<Seq<char>>) -> Seq<Seq<char>> {
    let keep = count_nonempty(globs);
    if keep < base.len() {
        pop_segments(base, (keep + 1) as nat)
    } else {
        seq![Seq::<char>::empty()]
    }
}

/// What reverse generation yields on a URL's parts: the trimmed-and-rebuilt
/// path, the unconsumed parameters as the whole query (the base query is
/// discarded), and no fragment — or the key of the first unmet placeholder.
pub open spec fn spec_url_for(
    base: UrlPartsModel,
    glob: Seq<char>,
    params: Seq<(Seq<char>, Seq<char>)>,
) -> Result<UrlPartsModel, Seq<char>> {
    let globs = split_slash_spec(glob);
    match build_segments(walk_segments(globs), trimmed_segments(base.segments, globs), params) {
        Ok(r) => Ok(
            UrlPartsModel {
                origin: base.origin,
                segments: r.0,
                query: if r.1.len() == 0 {
                    None
                } else {
                    Some(r.1)
                },
                fragment: None,
            },
        ),
        Err(k) => Err(k),
    }
}

pub proof fn lemma_pop_segments_step(s: Seq<Seq<char>>, n: nat)
    ensures
        pop_segments(s, n + 1) == pop_segment(pop_segments(s, n)),
    decreases n,
{
    assert(pop_segments(s, n + 1) == pop_segments(pop_segment(s), n));
    if n == 0 {
        assert(pop_segments(pop_segment(s), 0) == pop_segment(s));
        assert(pop_segments(s, 0) == s);
    } else {
        lemma_pop_segments_step(pop_segment(s), (n - 1) as nat);
    }
}

pub proof fn lemma_build_segments_unfold(
    globs: Seq<Seq<char>>,
    i: int,
    segs: Seq<Seq<char>>,
    params: Seq<(Seq<char>, Seq<char>)>,
)
    requires
        0 <= i < globs.len(),
    ensures
        build_segments(globs.skip(i), segs, params) == ({
            let g = globs[i];
            if is_placeholder(g) {
                let key = g.skip(1);
                if has_key(params, key) {
                    build_segments(
                        globs.skip(i + 1),
                        push_segment(segs, value_of(params, key)),
                        remove_key(params, key),
                    )
                } else {
                    Err(key)
                }
            } else {
                build_segments(globs.skip(i + 1), push_segment(segs, g), params)
            }
        }),
{
    assert(globs.skip(i).skip(1) =~~= globs.skip(i + 1));
    assert(globs.skip(i)[0] == globs[i]);
}

/// Removes the last path segment in place, as `pop_segment` says.
fn pop_segment_exec(v: &mut Vec<String>)
    requires
        old(v)@.len() >= 1,
    ensures
        final(v).deep_view() == pop_segment(old(v).deep_view()),
        final(v)@.len() >= 1,
{
    if v.len() > 1 {
        let ghost before = *v;
        let _ = v.pop();
        proof {
            lemma_deep_view_drop_last(before, *v);
        }
    } else {
        v.clear();
        v.push(String::new());
        proof {
            assert(v.deep_view() =~~= seq![Seq::<char>::empty()]);
        }
    }
}

/// Appends one path segment in place, as `push_segment` says.
fn push_segment_exec(v: &mut Vec<String>, s: String)
    ensures
        final(v).deep_view() == push_segment(old(v).deep_view(), s@),
        final(v)@.len() >= 1,
{
    let is_root = v.len() == 1 && v[0].as_str().unicode_len() == 0;
    proof {
        if is_root {
            assert(old(v).deep_view() =~~= seq![Seq::<char>::empty()]);
        } else {
            if old(v).deep_view() == seq![Seq::<char>::empty()] {
                assert(old(v).deep_view().len() == 1);
                assert(old(v)@.len() == 1);
                assert(old(v).deep_view()[0] == old(v)@[0]@);
                assert(old(v)@[0]@.len() == 0);
                assert(false);
            }
        }
    }
    if is_root {
        let _ = v.pop();
        v.push(s);
        proof {
            assert(v.deep_view() =~~= seq![s@]);
        }
    } else {
        let ghost before = *v;
        v.push(s);
        proof {
            lemma_deep_view_push(before, *v, s);
        }
    }
}

/// Rewrites `url` in place from `glob` and `params`, as `spec_url_for`
/// says. On a missing parameter the URL is left as it stood and the key
/// comes back in the error.
pub fn url_for_impl(url: &mut UrlParts, glob: &str, params: ParamMap) -> (r: Result<
    (),
    UrlForError,
>)
    requires
        old(url).wf(),
        params.wf(),
    ensures
        match r {
            Ok(()) => {
                &&& spec_url_for(old(url)@, glob@, params@) is Ok
                &&& final(url)@ == spec_url_for(old(url)@, glob@, params@)->Ok_0
                &&& final(url).wf()
            },
            Err(e) => {
                &&& *final(url) == *old(url)
                &&& spec_url_for(old(url)@, glob@, params@) is Err
                &&& e matches UrlForError::MissingParam { key } && key@ == spec_url_for(
                    old(url)@,
                    glob@,
                    params@,
                )->Err_0
            },
        },
{
    let globs = split_slash(glob);
    let ghost globs_v = globs.deep_view();
    proof {
        crate::strutil::lemma_split_slash_len(glob@);
        assert(globs_v.len() >= 1);
        assert(globs@.len() == globs_v.len());
    }
    let keep = count_nonempty_exec(&globs);

    let mut segs = clone_string_vec(&url.segments);
    let ghost base_segs = old(url)@.segments;
    proof {
        assert(segs.deep_view() =~~= base_segs);
    }
    if keep < segs.len() {
        let npop = keep + 1;
        let mut k: usize = 0;
        while k < npop
            invariant
                0 <= k <= npop,
                segs@.len() >= 1,
                segs.deep_view() == pop_segments(base_segs, k as nat),
            decreases npop - k,
        {
            proof {
                lemma_pop_segments_step(base_segs, k as nat);
            }
            pop_segment_exec(&mut segs);
            k = k + 1;
        }
        proof {
            assert(segs.deep_view() == trimmed_segments(base_segs, globs_v));
        }
    } else {
        segs.clear();
        segs.push(String::new());
        proof {
            assert(segs.deep_view() =~~= seq![Seq::<char>::empty()]);
            assert(segs.deep_view() == trimmed_segments(base_segs, globs_v));
        }
    }

    let ghost trimmed0 = segs.deep_view();
    let ghost params0 = params@;
    let ghost walk = walk_segments(globs_v);
    let mut work = params;
    proof {
        assert(globs_v[0] == globs@[0]@);
    }
    let start_at: usize = if globs[0].as_str().unicode_len() == 0 {
        1
    } else {
        0
    };
    let mut i: usize = start_at;
    proof {
        if start_at == 0 {
            assert(globs_v.skip(0) =~~= globs_v);
        }
        assert(walk == globs_v.skip(i as int));
    }
    while i < globs.len()
        invariant
            0 <= i <= globs.len(),
            globs_v == globs.deep_view(),
            globs_v.len() == globs@.len(),
            keys_unique(work@),
            segs@.len() >= 1,
            build_segments(walk, trimmed0, params0) == build_segments(
                globs_v.skip(i as int),
                segs.deep_view(),
                work@,
            ),
            walk == walk_segments(globs_v),
            globs_v == split_slash_spec(glob@),
            trimmed0 == trimmed_segments(old(url)@.segments, globs_v),
            params0 == params@,
            *url == *old(url),
            old(url).wf(),
        decreases globs.len() - i,
    {
        proof {
            assert(globs_v[i as int] == globs@[i as int]@);
            lemma_build_segments_unfold(globs_v, i as int, segs.deep_view(), work@);
        }
        let g_len = globs[i].as_str().unicode_len();
        let is_ph = g_len > 1 && {
            let c = globs[i].as_str().get_char(0);
            c == ':' || c == '*'
        };
        if is_ph {
            let key = globs[i].as_str().substring_char(1, g_len);
            proof {
                assert(key@ =~= globs_v[i as int].skip(1));
            }
            match work.remove(key) {
                Some(v) => {
                    push_segment_exec(&mut segs, v);
                },
                None => {
                    return Err(UrlForError::MissingParam { key: key.to_owned() });
                },
            }
        } else {
            let seg = globs[i].clone();
            push_segment_exec(&mut segs, seg);
        }
        i = i + 1;
    }
    proof {
        assert(globs_v.skip(i as int) =~~= Seq::<Seq<char>>::empty());
        assert(build_segments(walk, trimmed0, params0) == Ok::<
            (Seq<Seq<char>>, Seq<(Seq<char>, Seq<char>)>),
            Seq<char>,
        >((segs.deep_view(), work@)));
    }
    let use_query = !work.is_empty();
    let pairs = work.into_pairs();
    url.segments = segs;
    url.query = if use_query {
        Some(pairs)
    } else {
        None
    };
    url.fragment = None;
    proof {
        let expected = spec_url_for(old(url)@, glob@, params@)->Ok_0;
        assert(url@.segments == expected.segments);
        assert(url@.query == expected.query);
        assert(url@.origin == expected.origin);
        assert(url@.fragment == expected.fragment);
        assert(url@ == expected);
    }
    Ok(())
}

/// Generates a URL from the route registered under `route_id`, rewriting
/// `base`'s path from the stored glob and `params` and turning the leftover
/// parameters into the query string. Fails with a lookup error on an
/// unknown identifier and with a missing-parameter error where the glob
/// asks for a value the map does not hold.
pub fn url_for(router: &Router, base: &UrlParts, route_id: &str, params: ParamMap) -> (r: Result<
    UrlParts,
    UrlForError,
>)
    requires
        base.wf(),
        params.wf(),
    ensures
        match r {
            Ok(u) => {
                &&& has_key(router.ids(), route_id@)
                &&& spec_url_for(base@, value_of(router.ids(), route_id@), params@) is Ok
                &&& u@ == spec_url_for(base@, value_of(router.ids(), route_id@), params@)->Ok_0
                &&& u.wf()
            },
            Err(e) => match e {
                UrlForError::UnknownRouteId { route_id: rid } => {
                    &&& !has_key(router.ids(), route_id@)
                    &&& rid@ == route_id@
                },
                UrlForError::MissingParam { key } => {
                    &&& has_key(router.ids(), route_id@)
                    &&& spec_url_for(base@, value_of(router.ids(), route_id@), params@) is Err
                    &&& key@ == spec_url_for(
                        base@,
                        value_of(router.ids(), route_id@),
                        params@,
                    )->Err_0
                },
            },
        },
{
    match router.glob_of(route_id) {
        Some(glob) => {
            let mut u = UrlParts {
                origin: base.origin.clone(),
                segments: clone_string_vec(&base.segments),
                query: match &base.query {
                    Some(q) => Some(clone_pair_vec(q)),
                    None => None,
                },
                fragment: match &base.fragment {
                    Some(f) => Some(f.clone()),
                    None => None,
                },
            };
            proof {
                assert(u@ == base@);
            }
            match url_for_impl(&mut u, glob.as_str(), params) {
                Ok(()) => Ok(u),
                Err(e) => Err(e),
            }
        },
        None => Err(UrlForError::UnknownRouteId { route_id: route_id.to_owned() }),
    }
}

/// A glob list ending in an empty segment builds a path ending in an empty
/// segment.
pub proof fn lemma_build_last_empty(
    globs: Seq<Seq<char>>,
    segs: Seq<Seq<char>>,
    params: Seq<(Seq<char>, Seq<char>)>,
)
    requires
        globs.len() >= 1,
        globs.last().len() == 0,
        build_segments(globs, segs, params) is Ok,
    ensures
        build_segments(globs, segs, params)->Ok_0.0.last() == Seq::<char>::empty(),
    decreases globs.len(),
{
    let g = globs[0];
    if globs.len() == 1 {
        assert(g == globs.last());
        assert(!is_placeholder(g));
        assert(globs.skip(1) =~~= Seq::<Seq<char>>::empty());
        let built = push_segment(segs, g);
        assert(build_segments(globs, segs, params) == build_segments(globs.skip(1), built, params));
        assert(built.last() == g);
    } else {
        assert(globs.skip(1).last() == globs.last());
        if is_placeholder(g) {
            let key = g.skip(1);
            assert(has_key(params, key));
            lemma_build_last_empty(
                globs.skip(1),
                push_segment(segs, value_of(params, key)),
                remove_key(params, key),
            );
        } else {
            lemma_build_last_empty(globs.skip(1), push_segment(segs, g), params);
        }
    }
}

/// Law: a glob ending in a slash (a trailing empty template segment) keeps
/// the trailing slash in the generated path: the last segment of a
/// successful result is empty.
pub proof fn lemma_trailing_slash_preserved(
    base: UrlPartsModel,
    glob: Seq<char>,
    params: Seq<(Seq<char>, Seq<char>)>,
)
    requires
        glob.len() >= 1,
        glob.last() == '/',
        spec_url_for(base, glob, params) is Ok,
    ensures
        spec_url_for(base, glob, params)->Ok_0.segments.last() == Seq::<char>::empty(),
{
    let globs = split_slash_spec(glob);
    crate::strutil::lemma_split_slash_last(glob);
    let walk = walk_segments(globs);
    assert(walk.len() >= 1);
    assert(walk.last() == globs.last());
    lemma_build_last_empty(walk, trimmed_segments(base.segments, globs), params);
}

/// A successful build's leftover parameters all come out of the parameter
/// map that went in, with the keys still unique.
pub proof fn lemma_build_leftover_from_params(
    globs: Seq<Seq<char>>,
    segs: Seq<Seq<char>>,
    params: Seq<(Seq<char>, Seq<char>)>,
)
    requires
        keys_unique(params),
        build_segments(globs, segs, params) is Ok,
    ensures
        keys_unique(build_segments(globs, segs, params)->Ok_0.1),
        forall|k: Seq<char>|
            has_key(build_segments(globs, segs, params)->Ok_0.1, k) ==> has_key(params, k),
    decreases globs.len(),
{
    if globs.len() > 0 {
        let g = globs[0];
        if is_placeholder(g) {
            let key = g.skip(1);
            crate::params::lemma_remove_key_props(params, key);
            lemma_build_leftover_from_params(
                globs.skip(1),
                push_segment(segs, value_of(params, key)),
                remove_key(params, key),
            );
        } else {
            lemma_build_leftover_from_params(globs.skip(1), push_segment(segs, g), params);
        }
    }
}

/// Law: the query of a generated URL is exactly the unconsumed parameter
/// list — every query pair's key was passed in, keys stay unique, and the
/// base URL's own query and fragment are discarded whatever they held.
pub proof fn lemma_query_from_unconsumed_params(
    base: UrlPartsModel,
    glob: Seq<char>,
    params: Seq<(Seq<char>, Seq<char>)>,
)
    requires
        keys_unique(params),
        spec_url_for(base, glob, params) is Ok,
    ensures
        spec_url_for(base, glob, params)->Ok_0.fragment is None,
        match spec_url_for(base, glob, params)->Ok_0.query {
            None => true,
            Some(q) => keys_unique(q) && forall|k: Seq<char>| has_key(q, k) ==> has_key(params, k),
        },
{
    let globs = split_slash_spec(glob);
    lemma_build_leftover_from_params(
        walk_segments(globs),
        trimmed_segments(base.segments, globs),
        params,
    );
}

} // verus!
