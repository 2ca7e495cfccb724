//! String helpers shared by dispatch and reverse URL generation: splitting a
//! path or glob on `/`, toggling a trailing slash, and character-wise string
//! equality.

use vstd::prelude::*;

verus! {

/// What splitting `s` on `'/'` yields: always one segment more than there are
/// slashes, so `""` splits to one empty segment and `"/"` to two.
pub open spec fn split_slash_spec(s: Seq<char>) -> Seq<Seq<char>>
    decreases s.len(),
{
    if s.len() == 0 {
        seq![Seq::<char>::empty()]
    } else {
        let prev = split_slash_spec(s.drop_last());
        if s.last() == '/' {
            prev.push(Seq::<char>::empty())
        } else {
            prev.update(prev.len() - 1, prev.last().push(s.last()))
        }
    }
}

pub proof fn lemma_split_slash_len(s: Seq<char>)
    ensures
        split_slash_spec(s).len() >= 1,
    decreases s.len(),
{
    if s.len() > 0 {
        lemma_split_slash_len(s.drop_last());
    }
}

/// A string ending in a slash splits to a list ending in an empty segment.
pub proof fn lemma_split_slash_last(s: Seq<char>)
    requires
        s.len() > 0,
        s.last() == '/',
    ensures
        split_slash_spec(s).len() >= 2,
        split_slash_spec(s).last() == Seq::<char>::empty(),
{
    lemma_split_slash_len(s.drop_last());
}

/// Appending one character to a vector of strings, seen through `deep_view`.
pub proof fn lemma_deep_view_push(v1: Vec<String>, v2: Vec<String>, x: String)
    requires
        v2@ == v1@.push(x),
    ensures
        v2.deep_view() == v1.deep_view().push(x@),
{
    assert(v2.deep_view() =~~= v1.deep_view().push(x@));
}

/// Removing the last element of a vector of strings, seen through `deep_view`.
pub proof fn lemma_deep_view_drop_last(v1: Vec<String>, v2: Vec<String>)
    requires
        v1@.len() > 0,
        v2@ == v1@.drop_last(),
    ensures
        v2.deep_view() == v1.deep_view().drop_last(),
{
    assert(v2.deep_view() =~~= v1.deep_view().drop_last());
}

/// Splits `s` on `'/'`.
pub fn split_slash(s: &str) -> (r: Vec<String>)
    ensures
        r.deep_view() == split_slash_spec(s@),
{
    let n = s.unicode_len();
    let mut r: Vec<String> = Vec::new();
    let mut start: usize = 0;
    let mut i: usize = 0;
    proof {
        assert(s@.take(0) =~= Seq::<char>::empty());
        assert(s@.subrange(0, 0) =~= Seq::<char>::empty());
        assert(r.deep_view().push(s@.subrange(0, 0)) =~~= split_slash_spec(s@.take(0)));
    }
    while i < n
        invariant
            0 <= start <= i <= n,
            n == s@.len(),
            split_slash_spec(s@.take(i as int)) == r.deep_view().push(s@.subrange(
                start as int,
                i as int,
            )),
        decreases n - i,
    {
        let c = s.get_char(i);
        let ghost prev_r = r;
        let ghost prefix = s@.take(i as int);
        assert(s@.take(i + 1).drop_last() =~= prefix);
        assert(s@.take(i + 1).last() == s@[i as int]);
        if c == '/' {
            let seg = s.substring_char(start, i).to_owned();
            let ghost old_r = r;
            r.push(seg);
            proof {
                lemma_deep_view_push(old_r, r, seg);
                assert(split_slash_spec(s@.take(i + 1)) =~~= r.deep_view().push(
                    s@.subrange(i + 1, i + 1),
                ));
            }
            start = i + 1;
        } else {
            proof {
                let prev = split_slash_spec(prefix);
                assert(prev == r.deep_view().push(s@.subrange(start as int, i as int)));
                assert(prev.len() == r.deep_view().len() + 1);
                assert(prev.last() == s@.subrange(start as int, i as int));
                assert(prev.last().push(s@[i as int]) =~= s@.subrange(start as int, i + 1));
                assert(split_slash_spec(s@.take(i + 1)) =~~= r.deep_view().push(
                    s@.subrange(start as int, i + 1),
                ));
            }
        }
        i = i + 1;
    }
    let seg = s.substring_char(start, n).to_owned();
    let ghost old_r = r;
    r.push(seg);
    proof {
        lemma_deep_view_push(old_r, r, seg);
        assert(s@.take(n as int) =~= s@);
        assert(s@.subrange(start as int, n as int) == seg@);
        assert(r.deep_view() == split_slash_spec(s@));
    }
    r
}

/// How many segments of `ss` are non-empty.
pub open spec fn count_nonempty(ss: Seq<Seq<char>>) -> nat
    decreases ss.len(),
{
    if ss.len() == 0 {
        0
    } else {
        (if ss[0].len() > 0 {
            1nat
        } else {
            0nat
        }) + count_nonempty(ss.skip(1))
    }
}

pub proof fn lemma_count_nonempty_unfold(ss: Seq<Seq<char>>, i: int)
    requires
        0 <= i < ss.len(),
    ensures
        count_nonempty(ss.skip(i)) == (if ss[i].len() > 0 {
            1nat
        } else {
            0nat
        }) + count_nonempty(ss.skip(i + 1)),
{
    assert(ss.skip(i).skip(1) =~~= ss.skip(i + 1));
    assert(ss.skip(i)[0] == ss[i]);
}

pub proof fn lemma_count_nonempty_bound(ss: Seq<Seq<char>>)
    ensures
        count_nonempty(ss) <= ss.len(),
    decreases ss.len(),
{
    if ss.len() > 0 {
        lemma_count_nonempty_bound(ss.skip(1));
    }
}

/// Counts the non-empty strings of `v`.
pub fn count_nonempty_exec(v: &Vec<String>) -> (r: usize)
    ensures
        r == count_nonempty(v.deep_view()),
{
    let ghost ss = v.deep_view();
    let mut cnt: usize = 0;
    let mut i: usize = 0;
    proof {
        lemma_count_nonempty_bound(ss);
        assert(ss.skip(0) =~~= ss);
    }
    while i < v.len()
        invariant
            0 <= i <= v.len(),
            cnt <= i,
            ss == v.deep_view(),
            ss.len() == v.len(),
            count_nonempty(ss) == cnt + count_nonempty(ss.skip(i as int)),
        decreases v.len() - i,
    {
        proof {
            lemma_count_nonempty_unfold(ss, i as int);
            assert(ss[i as int] == v[i as int]@);
        }
        if v[i].as_str().unicode_len() > 0 {
            cnt = cnt + 1;
        }
        i = i + 1;
    }
    proof {
        assert(ss.skip(i as int) =~~= Seq::<Seq<char>>::empty());
        assert(count_nonempty(ss.skip(i as int)) == 0);
    }
    cnt
}

/// The trailing-slash variant of a path: one slash appended if the path
/// does not end in one, the final slash removed if it does. The empty path
/// has no trailing slash, so its variant is `/`.
pub open spec fn toggled(p: Seq<char>) -> Seq<char> {
    if p.len() > 0 && p.last() == '/' {
        p.drop_last()
    } else {
        p.push('/')
    }
}

/// Toggling the trailing slash introduces no character but `/`.
pub proof fn lemma_toggled_no_nul(p: Seq<char>)
    requires
        !p.contains('\0'),
    ensures
        !toggled(p).contains('\0'),
{
    if toggled(p).contains('\0') {
        let i = choose|i: int| 0 <= i < toggled(p).len() && toggled(p)[i] == '\0';
        if p.len() > 0 && p.last() == '/' {
            assert(p[i] == '\0');
            assert(p.contains('\0'));
        } else {
            if i < p.len() {
                assert(p[i] == '\0');
                assert(p.contains('\0'));
            } else {
                assert(toggled(p)[i] == '/');
            }
        }
    }
}

/// Builds the trailing-slash variant of `p`.
pub fn toggle_path(p: &str) -> (r: String)
    ensures
        r@ == toggled(p@),
{
    let n = p.unicode_len();
    if n == 0 {
        let r = "/".to_owned();
        proof {
            reveal_strlit("/");
            assert(("/")@ =~= seq!['/']);
            assert(p@.push('/') =~= seq!['/']);
        }
        r
    } else if p.get_char(n - 1) == '/' {
        let r = p.substring_char(0, n - 1).to_owned();
        proof {
            assert(p@.subrange(0, n - 1) =~= p@.drop_last());
        }
        r
    } else {
        let mut r = p.to_owned();
        r.append("/");
        proof {
            reveal_strlit("/");
            assert(("/")@ =~= seq!['/']);
            assert(p@ + ("/")@ =~= p@.push('/'));
        }
        r
    }
}

/// Clones a vector of strings.
pub fn clone_string_vec(v: &Vec<String>) -> (r: Vec<String>)
    ensures
        r@ == v@,
{
    let mut r: Vec<String> = Vec::new();
    let mut i: usize = 0;
    while i < v.len()
        invariant
            0 <= i <= v.len(),
            r@ == v@.subrange(0, i as int),
        decreases v.len() - i,
    {
        r.push(v[i].clone());
        proof {
            assert(r@ =~= v@.subrange(0, i + 1));
        }
        i = i + 1;
    }
    proof {
        assert(r@ =~= v@);
    }
    r
}

/// Clones a vector of string pairs.
pub fn clone_pair_vec(v: &Vec<(String, String)>) -> (r: Vec<(String, String)>)
    ensures
        r@ == v@,
{
    let mut r: Vec<(String, String)> = Vec::new();
    let mut i: usize = 0;
    while i < v.len()
        invariant
            0 <= i <= v.len(),
            r@ == v@.subrange(0, i as int),
        decreases v.len() - i,
    {
        let p = &v[i];
        r.push((p.0.clone(), p.1.clone()));
        proof {
            assert(r@ =~= v@.subrange(0, i + 1));
        }
        i = i + 1;
    }
    proof {
        assert(r@ =~= v@);
    }
    r
}

/// Character-wise equality of two strings.
pub fn str_eq(a: &str, b: &str) -> (r: bool)
    ensures
        r == (a@ == b@),
{
    let na = a.unicode_len();
    let nb = b.unicode_len();
    if na != nb {
        return false;
    }
    let mut i: usize = 0;
    while i < na
        invariant
            0 <= i <= na,
            na == a@.len(),
            na == b@.len(),
            forall|j: int| 0 <= j < i ==> a@[j] == b@[j],
        decreases na - i,
    {
        if a.get_char(i) != b.get_char(i) {
            return false;
        }
        i = i + 1;
    }
    proof {
        assert(a@ =~= b@);
    }
    true
}

} // verus!
