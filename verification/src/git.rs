//! What the rest of the program learns from a git repository: the branch
//! and the repository's identity. Reading the repository happens outside;
//! this module turns what was read into the identity.
use vstd::prelude::*;
use crate::template::{find_pair, lemma_find_pair};
use crate::text::{
    chars_of, has_suffix, index_of, range_has_prefix, string_of_range,
};

verus! {

/// Everything the rest of the program may learn from a git repository.
#[derive(Debug)]
pub struct GitContext {
    /// Short branch name (e.g. `BCP-74043-fix-login`); `None` when HEAD is
    /// detached or there is no repository. An unborn branch is still
    /// `Some`.
    pub branch: Option<String>,
    /// Repo identity: the origin URL's last path segment without `.git`,
    /// else the folder's name; `None` outside a repository.
    pub repo_name: Option<String>,
}

/// The path part of an origin URL: after `scheme://host/` for URLs, after
/// the first `:` for scp-style addresses, the whole text otherwise.
/// `None` when a URL has no path.
pub open spec fn url_path(u: Seq<char>) -> Option<Seq<char>> {
    match find_pair(u, 0, u.len() as int, '/') {
        Some(i) => {
            let rest = u.skip(i + 2);
            let j = index_of(rest, '/');
            if j < rest.len() {
                Some(rest.skip(j + 1))
            } else {
                None
            }
        },
        None => {
            let j = index_of(u, ':');
            if j < u.len() {
                Some(u.skip(j + 1))
            } else {
                Some(u)
            }
        },
    }
}

/// `s` without its trailing `/`s.
pub open spec fn trim_end_slashes(s: Seq<char>) -> Seq<char>
    decreases s.len(),
{
    if s.len() > 0 && s.last() == '/' {
        trim_end_slashes(s.drop_last())
    } else {
        s
    }
}

/// The text after the last `/` of `s` (all of `s` when it has none).
pub open spec fn last_segment(s: Seq<char>) -> Seq<char>
    decreases s.len(),
{
    if s.len() == 0 {
        s
    } else if s.last() == '/' {
        Seq::empty()
    } else {
        last_segment(s.drop_last()).push(s.last())
    }
}

pub open spec fn git_suffix() -> Seq<char> {
    ".git"@
}

/// The repository name an origin URL gives: the last path segment with a
/// `.git` suffix stripped; `None` when there is no path or the name is
/// empty.
pub open spec fn spec_repo_name_from_url(u: Seq<char>) -> Option<Seq<char>> {
    match url_path(u) {
        None => None,
        Some(tail) => {
            let last = last_segment(trim_end_slashes(tail));
            let name = if has_suffix(last, git_suffix()) {
                last.take(last.len() - git_suffix().len())
            } else {
                last
            };
            if name.len() > 0 {
                Some(name)
            } else {
                None
            }
        },
    }
}

fn trim_end_slashes_index(v: &Vec<char>, lo: usize, hi: usize) -> (b: usize)
    requires
        lo <= hi <= v@.len(),
    ensures
        lo <= b <= hi,
        trim_end_slashes(v@.subrange(lo as int, hi as int)) == v@.subrange(lo as int, b as int),
{
    let mut b = hi;
    while b > lo && v[b - 1] == '/'
        invariant
            lo <= b <= hi <= v@.len(),
            trim_end_slashes(v@.subrange(lo as int, hi as int)) == trim_end_slashes(
                v@.subrange(lo as int, b as int),
            ),
        decreases b,
    {
        assert(v@.subrange(lo as int, b as int).drop_last() =~= v@.subrange(lo as int, b - 1));
        b = b - 1;
    }
    b
}

fn last_segment_start(v: &Vec<char>, lo: usize, hi: usize) -> (a: usize)
    requires
        lo <= hi <= v@.len(),
    ensures
        lo <= a <= hi,
        last_segment(v@.subrange(lo as int, hi as int)) == v@.subrange(a as int, hi as int),
{
    let mut a = hi;
    while a > lo && v[a - 1] != '/'
        invariant
            lo <= a <= hi <= v@.len(),
            last_segment(v@.subrange(lo as int, hi as int)) == last_segment(v@.subrange(lo as int, a as int))
                + v@.subrange(a as int, hi as int),
        decreases a,
    {
        let ghost s = v@.subrange(lo as int, a as int);
        assert(s.drop_last() =~= v@.subrange(lo as int, a - 1));
        assert(v@.subrange(a - 1, hi as int) =~= seq![v@[a - 1]] + v@.subrange(a as int, hi as int));
        assert(last_segment(s) == last_segment(s.drop_last()).push(s.last()));
        assert(last_segment(s.drop_last()).push(s.last()) + v@.subrange(a as int, hi as int)
            =~= last_segment(s.drop_last()) + v@.subrange(a - 1, hi as int));
        a = a - 1;
    }
    assert(last_segment(v@.subrange(lo as int, a as int)) =~= Seq::<char>::empty());
    assert(Seq::<char>::empty() + v@.subrange(a as int, hi as int) =~= v@.subrange(a as int, hi as int));
    a
}

/// Normalizes an origin URL to a repo name: the last path segment with
/// the `.git` suffix stripped. Handles scp-style (`git@host:org/repo.git`)
/// and URL (`https://host/org/repo.git`) forms; a trailing `/` is
/// tolerated. `None` when the URL has no path.
pub fn repo_name_from_url(url: &str) -> (r: Option<String>)
    ensures
        match r {
            Some(n) => spec_repo_name_from_url(url@) == Some(n@),
            None => spec_repo_name_from_url(url@) is None,
        },
{
    let v = chars_of(url);
    let n = v.len();
    proof {
        lemma_find_pair(v@, 0, n as int, '/');
    }
    let tail_start = match crate::template::find_pair_in(&v, 0, n, '/') {
        Some(i) => {
            let rest_start = i + 2;
            let j = crate::text::find_char(&v, rest_start, n, '/');
            proof {
                assert(v@.subrange(rest_start as int, n as int) =~= v@.skip(rest_start as int));
            }
            if j == n {
                return None;
            }
            proof {
                assert(v@.skip(rest_start as int).skip(j - rest_start + 1) =~= v@.skip(j + 1));
            }
            j + 1
        },
        None => {
            let j = crate::text::find_char(&v, 0, n, ':');
            proof {
                assert(v@.subrange(0, n as int) =~= v@);
            }
            if j < n {
                assert(v@.skip(j + 1) =~= v@.subrange(j + 1, n as int));
                j + 1
            } else {
                assert(v@.skip(0) =~= v@);
                0
            }
        },
    };
    assert(url_path(v@) == Some(v@.subrange(tail_start as int, n as int)));
    let b = trim_end_slashes_index(&v, tail_start, n);
    let a = last_segment_start(&v, tail_start, b);
    let ghost last = v@.subrange(a as int, b as int);
    let g = chars_of(".git");
    let mut e = b;
    if b - a >= g.len() && range_has_prefix(&v, b - g.len(), b, &g) {
        assert(v@.subrange((b - g@.len()) as int, b as int).take(g@.len() as int) =~= last.skip(
            last.len() - git_suffix().len(),
        ));
        e = b - g.len();
        assert(last.take(last.len() - git_suffix().len()) =~= v@.subrange(a as int, e as int));
    } else {
        proof {
            if has_suffix(last, git_suffix()) {
                assert(v@.subrange((b - g@.len()) as int, b as int).take(g@.len() as int) =~= last.skip(
                    last.len() - git_suffix().len(),
                ));
            }
        }
    }
    if e > a {
        Some(string_of_range(&v, a, e))
    } else {
        None
    }
}

/// The repository's identity: the name the origin URL gives, else the
/// repository folder's name, else `unknown`.
pub fn repo_name(origin_url: Option<&str>, folder_name: Option<&str>) -> (r: String)
    ensures
        r@ == match (match origin_url {
            Some(u) => spec_repo_name_from_url(u@),
            None => None,
        }) {
            Some(n) => n,
            None => match folder_name {
                Some(f) => f@,
                None => "unknown"@,
            },
        },
{
    let from_url = match origin_url {
        Some(u) => repo_name_from_url(u),
        None => None,
    };
    match from_url {
        Some(n) => n,
        None => match folder_name {
            Some(f) => String::from_str(f),
            None => String::from_str("unknown"),
        },
    }
}

} // verus!
