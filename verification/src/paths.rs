//! Path handling on plain strings: the parent of a path, and the
//! normalization of a path into a history key.
//!
//! Paths are treated as POSIX-style strings. The parent of the root `"/"` is
//! the root itself; the parent of a single relative component is the empty
//! string, and the parent of the empty string falls back to `"/"`.

use crate::text::matches_at;
use crate::text::starts_with;
use vstd::prelude::*;
use vstd::string::*;

verus! {

/// The largest index of `'/'` in `p`, or `-1` when `p` has none.
pub open spec fn last_slash(p: Seq<char>) -> int
    decreases p.len(),
{
    if p.len() == 0 {
        -1
    } else if p[p.len() - 1] == '/' {
        p.len() - 1
    } else {
        last_slash(p.drop_last())
    }
}

/// The parent of a path: one trailing slash is ignored, the last component
/// is dropped, and the root stays its own parent.
pub open spec fn parent_spec(p: Seq<char>) -> Seq<char> {
    let q = if p.len() > 1 && p[p.len() - 1] == '/' {
        p.drop_last()
    } else {
        p
    };
    if q.len() == 0 {
        seq!['/']
    } else if q.len() == 1 && q[0] == '/' {
        seq!['/']
    } else {
        let i = last_slash(q);
        if i == -1 {
            Seq::empty()
        } else if i == 0 {
            seq!['/']
        } else {
            q.take(i)
        }
    }
}

/// The history key for `path` under the media root `root`: the part of
/// `path` below `root` (without the separating slash) when `path` lies
/// under it, the empty key for the root itself, and `path` verbatim
/// otherwise or when `root` is empty.
pub open spec fn norm_key_spec(path: Seq<char>, root: Seq<char>) -> Seq<char> {
    if root.len() == 0 {
        path
    } else if path == root {
        Seq::empty()
    } else if path.len() > root.len() && starts_with(path, root) && root[root.len() - 1] == '/' {
        path.skip(root.len() as int)
    } else if path.len() > root.len() && starts_with(path, root) && path[root.len() as int]
        == '/' {
        path.skip(root.len() as int + 1)
    } else {
        path
    }
}

/// Computes `parent_spec` on a string path.
#[verifier::loop_isolation(true)]
pub fn parent_of(p: &str) -> (r: String)
    ensures
        r@ == parent_spec(p@),
{
    proof {
        reveal_strlit("/");
    }
    let plen = p.unicode_len();
    let qlen = if plen > 1 && p.get_char(plen - 1) == '/' {
        plen - 1
    } else {
        plen
    };
    let ghost q = if plen > 1 && p@[plen - 1] == '/' {
        p@.drop_last()
    } else {
        p@
    };
    proof {
        assert(q =~= p@.take(qlen as int));
    }
    if qlen == 0 {
        let r = String::from_str("/");
        proof {
            assert(r@ =~= seq!['/']);
        }
        return r;
    }
    if qlen == 1 && p.get_char(0) == '/' {
        let r = String::from_str("/");
        proof {
            assert(r@ =~= seq!['/']);
        }
        return r;
    }
    let mut i: usize = qlen;
    proof {
        assert(q.take(qlen as int) =~= q);
    }
    loop
        invariant
            i <= qlen,
            qlen <= plen,
            plen == p@.len(),
            q == p@.take(qlen as int),
            last_slash(q) == last_slash(q.take(i as int)),
        ensures
            i <= qlen,
            i > 0 ==> p@[i - 1] == '/' && last_slash(q) == i - 1,
            i == 0 ==> last_slash(q) == -1,
        decreases i,
    {
        if i == 0 {
            break;
        }
        if p.get_char(i - 1) == '/' {
            proof {
                assert(q.take(i as int)[i - 1] == '/');
            }
            break;
        }
        proof {
            assert(q.take(i as int).drop_last() =~= q.take(i - 1));
        }
        i = i - 1;
    }
    if i == 0 {
        String::new()
    } else if i == 1 {
        let r = String::from_str("/");
        proof {
            assert(r@ =~= seq!['/']);
        }
        r
    } else {
        let r = String::from_str(p.substring_char(0, i - 1));
        proof {
            assert(p@.subrange(0, i - 1) =~= q.take(i - 1));
        }
        r
    }
}

/// Computes `norm_key_spec` on string paths.
pub fn normalize_key(path: &str, root: &str) -> (r: String)
    ensures
        r@ == norm_key_spec(path@, root@),
{
    let plen = path.unicode_len();
    let rlen = root.unicode_len();
    if rlen == 0 {
        return String::from_str(path);
    }
    proof {
        assert(path@.skip(0) =~= path@);
    }
    if plen == rlen && matches_at(path, 0, root) {
        proof {
            assert(path@ =~= root@);
        }
        return String::new();
    }
    if plen > rlen && matches_at(path, 0, root) {
        if root.get_char(rlen - 1) == '/' {
            return String::from_str(path.substring_char(rlen, plen));
        }
        if path.get_char(rlen) == '/' {
            return String::from_str(path.substring_char(rlen + 1, plen));
        }
    }
    proof {
        if plen == rlen {
            assert(path@.take(rlen as int) =~= path@);
        }
    }
    String::from_str(path)
}

} // verus!
