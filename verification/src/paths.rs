//! Path text: joining (`PathBuf::join`), the last component
//! (`Path::file_name`) and `~` expansion.

use vstd::prelude::*;
use crate::text::{append_chars, chars_of, has_prefix, starts_with_chars, string_of};

verus! {

/// `base` joined with `rest` as `PathBuf::join` does on Unix: an absolute
/// `rest` replaces `base`; otherwise a `/` separates them unless `base` is
/// empty or already ends with one.
pub open spec fn path_join(base: Seq<char>, rest: Seq<char>) -> Seq<char> {
    if rest.len() > 0 && rest[0] == '/' {
        rest
    } else if base.len() > 0 && base.last() != '/' {
        base + seq!['/'] + rest
    } else {
        base + rest
    }
}

/// `base` joined with `rest` (see [`path_join`]).
pub fn join_chars(base: &Vec<char>, rest: &Vec<char>) -> (r: Vec<char>)
    ensures
        r@ == path_join(base@, rest@),
{
    if rest.len() > 0 && rest[0] == '/' {
        return rest.clone();
    }
    let mut r = base.clone();
    if base.len() > 0 && base[base.len() - 1] != '/' {
        r.push('/');
    }
    append_chars(&mut r, rest);
    r
}

/// The characters after the last `/` of `p`.
pub open spec fn trailing_segment(p: Seq<char>) -> Seq<char>
    decreases p.len(),
{
    if p.len() == 0 || p.last() == '/' {
        seq![]
    } else {
        trailing_segment(p.drop_last()).push(p.last())
    }
}

/// The last component of `p` other than `.`, ignoring empty components
/// (`None` when there is none).
pub open spec fn last_component(p: Seq<char>) -> Option<Seq<char>>
    decreases p.len(),
{
    if p.len() == 0 {
        None
    } else if p.last() == '/' {
        last_component(p.drop_last())
    } else if trailing_segment(p) == seq!['.'] {
        last_component(p.drop_last())
    } else {
        Some(trailing_segment(p))
    }
}

/// The final component of a path, as `Path::file_name` gives it: `None`
/// when the path has no normal component at its end (it is empty, `/`, or
/// ends in `..`).
pub open spec fn file_name(p: Seq<char>) -> Option<Seq<char>> {
    match last_component(p) {
        Some(c) => if c == seq!['.', '.'] {
            None
        } else {
            Some(c)
        },
        None => None,
    }
}

proof fn lemma_trailing_segment_take(p: Seq<char>, k: int)
    requires
        0 <= k <= p.len(),
        k == 0 || p[k - 1] == '/',
        forall|j: int| k <= j < p.len() ==> #[trigger] p[j] != '/',
    ensures
        trailing_segment(p) == p.skip(k),
    decreases p.len(),
{
    if p.len() > k {
        lemma_trailing_segment_take(p.drop_last(), k);
        assert(p.drop_last().skip(k).push(p.last()) =~= p.skip(k));
    } else {
        if p.len() > 0 {
            assert(p.last() == '/');
        }
        assert(p.skip(k) =~= seq![]);
    }
}

/// The final component of the path `p` (see [`file_name`]).
pub fn file_name_of(p: &Vec<char>) -> (r: Option<Vec<char>>)
    ensures
        match r {
            Some(v) => file_name(p@) == Some(v@),
            None => file_name(p@) is None,
        },
{
    let mut end: usize = p.len();
    assert(p@.take(end as int) =~= p@);
    loop
        invariant
            end <= p.len(),
            last_component(p@) == last_component(p@.take(end as int)),
        decreases end,
    {
        if end == 0 {
            return None;
        }
        let ghost t = p@.take(end as int);
        if p[end - 1] == '/' {
            assert(t.drop_last() =~= p@.take(end - 1));
            end = end - 1;
        } else {
            let mut start: usize = end - 1;
            while start > 0 && p[start - 1] != '/'
                invariant
                    start < end <= p.len(),
                    forall|j: int| start <= j < end ==> #[trigger] p@[j] != '/',
                decreases start,
            {
                start = start - 1;
            }
            proof {
                lemma_trailing_segment_take(t, start as int);
                assert(t.skip(start as int) =~= p@.subrange(start as int, end as int));
            }
            if end - start == 1 && p[start] == '.' {
                assert(trailing_segment(t) =~= seq!['.']);
                assert(t.drop_last() =~= p@.take(end - 1));
                end = end - 1;
            } else {
                let mut seg: Vec<char> = Vec::new();
                let mut k: usize = start;
                while k < end
                    invariant
                        start <= k <= end <= p.len(),
                        seg@ == p@.subrange(start as int, k as int),
                    decreases end - k,
                {
                    seg.push(p[k]);
                    assert(p@.subrange(start as int, k as int).push(p@[k as int]) =~= p@.subrange(
                        start as int,
                        k + 1,
                    ));
                    k = k + 1;
                }
                assert(last_component(t) == Some(seg@)) by {
                    if seg@ == seq!['.'] {
                        assert(seg@[0] == p@[start as int]);
                    }
                }
                if seg.len() == 2 && seg[0] == '.' && seg[1] == '.' {
                    assert(seg@ =~= seq!['.', '.']);
                    return None;
                }
                return Some(seg);
            }
        }
    }
}

/// Whether `p` names the home directory or a path under it: `~` or a
/// path starting with `~/`.
pub open spec fn is_home_path(p: Seq<char>) -> bool {
    p == seq!['~'] || has_prefix(p, seq!['~', '/'])
}

/// `p` with a leading `~` replaced by the home directory `home`, when
/// there is one: `~` is the home directory itself, `~/rest` is `rest`
/// joined to it; any other path stays as it is.
pub open spec fn expanded_path(p: Seq<char>, home: Option<Seq<char>>) -> Seq<char> {
    if is_home_path(p) {
        match home {
            Some(h) => if p == seq!['~'] {
                h
            } else {
                path_join(h, p.skip(2))
            },
            None => p,
        }
    } else {
        p
    }
}

/// `path` with `~` expanded to `home` (see [`expanded_path`]).
pub fn expand_path_with(path: &str, home: Option<&str>) -> (r: String)
    ensures
        r@ == expanded_path(
            path@,
            match home {
                Some(h) => Some(h@),
                None => None,
            },
        ),
{
    let p = chars_of(path);
    let mut tilde: Vec<char> = Vec::new();
    tilde.push('~');
    let mut tilde_slash: Vec<char> = Vec::new();
    tilde_slash.push('~');
    tilde_slash.push('/');
    assert(tilde@ =~= seq!['~']);
    assert(tilde_slash@ =~= seq!['~', '/']);
    let alone = crate::text::same_chars(&p, &tilde);
    if alone || starts_with_chars(&p, &tilde_slash) {
        match home {
            Some(h) => {
                if alone {
                    return crate::text::owned(h);
                }
                let hc = chars_of(h);
                let rest = crate::text::chars_from(&p, 2);
                let joined = join_chars(&hc, &rest);
                return string_of(&joined);
            },
            None => {},
        }
    }
    string_of(&p)
}

/// `path` with `~` expanded to the user's home directory, when it is
/// known (see [`expanded_path`]); a path that does not start with `~` is
/// left as it is.
pub fn expand_path(path: &str) -> (r: String)
    ensures
        !is_home_path(path@) ==> r@ == path@,
        r@ == expanded_path(path@, None) || exists|h: Seq<char>| r@ == expanded_path(path@, Some(h)),
{
    let home = crate::system::home_directory();
    match &home {
        Some(h) => expand_path_with(path, Some(h.as_str())),
        None => expand_path_with(path, None),
    }
}

} // verus!

verus! {

/// A normal path component: not empty, without `/`, and neither `.` nor
/// `..`.
pub open spec fn is_normal_name(n: Seq<char>) -> bool {
    &&& n.len() > 0
    &&& forall|i: int| 0 <= i < n.len() ==> #[trigger] n[i] != '/'
    &&& n != seq!['.']
    &&& n != seq!['.', '.']
}

proof fn lemma_trailing_segment_shape(p: Seq<char>)
    ensures
        forall|i: int| 0 <= i < trailing_segment(p).len() ==> #[trigger] trailing_segment(p)[i] != '/',
        p.len() > 0 && p.last() != '/' ==> trailing_segment(p).len() > 0,
    decreases p.len(),
{
    if p.len() > 0 && p.last() != '/' {
        lemma_trailing_segment_shape(p.drop_last());
        let t = trailing_segment(p.drop_last());
        assert forall|i: int| 0 <= i < trailing_segment(p).len() implies #[trigger] trailing_segment(p)[i] != '/' by {
            if i < t.len() {
                assert(trailing_segment(p)[i] == t[i]);
            }
        }
    }
}

proof fn lemma_last_component_shape(p: Seq<char>)
    ensures
        last_component(p) matches Some(c) ==> c.len() > 0 && c != seq!['.'] && forall|i: int|
            0 <= i < c.len() ==> #[trigger] c[i] != '/',
    decreases p.len(),
{
    if p.len() > 0 {
        if p.last() == '/' || trailing_segment(p) == seq!['.'] {
            lemma_last_component_shape(p.drop_last());
        } else {
            lemma_trailing_segment_shape(p);
        }
    }
}

/// What `Path::file_name` gives is a normal path component.
pub proof fn lemma_file_name_is_normal(p: Seq<char>)
    ensures
        file_name(p) matches Some(n) ==> is_normal_name(n),
{
    lemma_last_component_shape(p);
}

/// Joining a normal component to a path gives a path whose file name is
/// that component.
pub proof fn lemma_join_file_name(base: Seq<char>, n: Seq<char>)
    requires
        is_normal_name(n),
    ensures
        file_name(path_join(base, n)) == Some(n),
{
    let q = path_join(base, n);
    assert(n[0] != '/');
    let k = q.len() - n.len();
    if base.len() > 0 && base.last() != '/' {
        assert(q =~= base + seq!['/'] + n);
        assert(q[k - 1] == '/');
    } else {
        assert(q =~= base + n);
        if k > 0 {
            assert(q[k - 1] == base.last());
        }
    }
    assert forall|j: int| k <= j < q.len() implies #[trigger] q[j] != '/' by {
        assert(q[j] == n[j - k]);
    }
    lemma_trailing_segment_take(q, k);
    assert(q.skip(k) =~= n);
    assert(q.last() == n.last());
}

} // verus!
