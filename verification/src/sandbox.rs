//! Sandboxed path resolution. Every caller-supplied path string is composed
//! and screened here before any filesystem call is made outside the library:
//! an argument holding `..` is rejected outright, and a canonicalized
//! candidate is accepted only when it stays at or under the canonical root.

use vstd::prelude::*;
use crate::bytes::{
    bytes_eq, contains_dotdot, has_dotdot, starts_with, starts_with_spec, trim_bytes,
    trim_spec,
};

verus! {

/// `s` with every leading `/` removed.
pub open spec fn strip_slashes(s: Seq<u8>) -> Seq<u8>
    decreases s.len(),
{
    if s.len() > 0 && s[0] == 47 {
        strip_slashes(s.drop_first())
    } else {
        s
    }
}

proof fn lemma_strip_slashes_at(s: Seq<u8>, i: int)
    requires
        0 <= i <= s.len(),
        forall|k: int| 0 <= k < i ==> s[k] == 47,
        i == s.len() || s[i] != 47,
    ensures
        strip_slashes(s) =~= s.subrange(i, s.len() as int),
    decreases i,
{
    if i == 0 {
        assert(s.subrange(0, s.len() as int) =~= s);
    } else {
        lemma_strip_slashes_at(s.drop_first(), i - 1);
        assert(s.drop_first().subrange(i - 1, s.drop_first().len() as int) =~= s.subrange(
            i,
            s.len() as int,
        ));
    }
}

/// Copy of `s` without its leading slashes.
pub fn strip_leading_slashes(s: &[u8]) -> (r: Vec<u8>)
    ensures
        r@ == strip_slashes(s@),
{
    let mut i: usize = 0;
    while i < s.len() && s[i] == 47
        invariant
            i <= s.len(),
            forall|k: int| 0 <= k < i ==> s@[k] == 47,
        decreases s.len() - i,
    {
        i += 1;
    }
    proof {
        lemma_strip_slashes_at(s@, i as int);
    }
    let mut out: Vec<u8> = Vec::new();
    let mut k: usize = i;
    while k < s.len()
        invariant
            i <= k <= s.len(),
            out@ =~= s@.subrange(i as int, k as int),
        decreases s.len() - k,
    {
        out.push(s[k]);
        proof {
            assert(out@ =~= s@.subrange(i as int, k + 1 as int));
        }
        k += 1;
    }
    out
}

/// `base` with the relative part `rel` appended: a separator is added
/// unless `base` already ends with one or `rel` is empty.
pub open spec fn join_path(base: Seq<u8>, rel: Seq<u8>) -> Seq<u8> {
    if rel.len() == 0 {
        base
    } else if base.len() > 0 && base.last() == 47 {
        base + rel
    } else {
        base + seq![47u8] + rel
    }
}

/// Build `join_path(base@, rel@)`.
pub fn join_bytes(base: &[u8], rel: &[u8]) -> (r: Vec<u8>)
    ensures
        r@ == join_path(base@, rel@),
{
    let mut out: Vec<u8> = Vec::new();
    out.extend_from_slice(base);
    if rel.len() == 0 {
        proof {
            assert(out@ =~= join_path(base@, rel@));
        }
        return out;
    }
    if base.len() == 0 || base[base.len() - 1] != 47 {
        out.push(47);
        proof {
            assert(out@ =~= base@ + seq![47u8]);
        }
    }
    out.extend_from_slice(rel);
    proof {
        assert(out@ =~= join_path(base@, rel@));
    }
    out
}

/// The containment relation of the sandbox: `p` names the same location as
/// `root` or one nested under it, read component-wise as `Path::starts_with`
/// reads canonical absolute paths.
pub open spec fn path_within(p: Seq<u8>, root: Seq<u8>) -> bool {
    p == root || (starts_with_spec(p, root) && ((root.len() > 0 && root.last() == 47) || (p.len()
        > root.len() && p[root.len() as int] == 47)))
}

/// Decide `path_within(p@, root@)`: the final containment check run on
/// canonicalized paths before any file operation.
pub fn is_within(p: &[u8], root: &[u8]) -> (r: bool)
    ensures
        r == path_within(p@, root@),
{
    if bytes_eq(p, root) {
        return true;
    }
    if !starts_with(p, root) {
        return false;
    }
    if root.len() > 0 && root[root.len() - 1] == 47 {
        return true;
    }
    p.len() > root.len() && p[root.len()] == 47
}

proof fn lemma_join_within(base: Seq<u8>, rel: Seq<u8>)
    ensures
        path_within(join_path(base, rel), base),
{
    let p = join_path(base, rel);
    if rel.len() == 0 {
    } else if base.len() > 0 && base.last() == 47 {
        assert(p.subrange(0, base.len() as int) =~= base);
    } else {
        assert(p.subrange(0, base.len() as int) =~= base);
        assert(p[base.len() as int] == 47);
    }
}

/// What `sanitize_path` returns: the trimmed argument resolved against
/// `root`, or nothing when it holds `..`.
pub open spec fn sanitize_path_spec(root: Seq<u8>, arg: Seq<u8>) -> Option<Seq<u8>> {
    let t = trim_spec(arg);
    if t.len() == 0 || t == seq![47u8] {
        Some(root)
    } else if has_dotdot(t) {
        None
    } else {
        Some(join_path(root, strip_slashes(t)))
    }
}

/// Resolve a caller-supplied path against the root alone, with no
/// filesystem access: an empty or `/` argument names the root itself; an
/// argument holding `..` is rejected; anything else is joined under the
/// root. Every accepted path lies within the root by construction.
pub fn sanitize_path(root: &[u8], arg: &[u8]) -> (r: Option<Vec<u8>>)
    ensures
        match r {
            Some(p) => sanitize_path_spec(root@, arg@) == Some(p@) && path_within(p@, root@),
            None => sanitize_path_spec(root@, arg@) is None,
        },
        has_dotdot(trim_spec(arg@)) ==> r is None,
{
    let t = trim_bytes(arg);
    if t.len() == 0 || (t.len() == 1 && t[0] == 47) {
        proof {
            if t@.len() == 1 && t@[0] == 47 {
                assert(t@ =~= seq![47u8]);
            }
            assert(!has_dotdot(t@));
        }
        return Some(vstd::slice::slice_to_vec(root));
    }
    proof {
        if t@ == seq![47u8] {
            assert(t@.len() == 1 && t@[0] == 47);
        }
    }
    if contains_dotdot(&t) {
        return None;
    }
    let rel = strip_leading_slashes(&t);
    let joined = join_bytes(root, &rel);
    proof {
        lemma_join_within(root@, rel@);
    }
    Some(joined)
}

/// What `compose_existing` returns: the candidate path for a name that must
/// already exist, before canonicalization.
pub open spec fn compose_existing_spec(root: Seq<u8>, cwd: Seq<u8>, arg: Seq<u8>) -> Option<
    Seq<u8>,
> {
    let t = trim_spec(arg);
    if t.len() == 0 {
        Some(cwd)
    } else if has_dotdot(t) {
        None
    } else if t[0] == 47 {
        Some(join_path(root, strip_slashes(t)))
    } else {
        Some(join_path(cwd, strip_slashes(t)))
    }
}

/// Compose the candidate path for an argument naming an existing entry: an
/// empty argument resolves to the current directory, an absolute one
/// against the root, a relative one against the current directory; one
/// holding `..` is rejected before any filesystem access. The caller
/// canonicalizes the candidate and must then pass it through `is_within`.
pub fn compose_existing(root: &[u8], cwd: &[u8], arg: &[u8]) -> (r: Option<Vec<u8>>)
    ensures
        match r {
            Some(p) => compose_existing_spec(root@, cwd@, arg@) == Some(p@),
            None => compose_existing_spec(root@, cwd@, arg@) is None,
        },
        has_dotdot(trim_spec(arg@)) ==> r is None,
{
    let t = trim_bytes(arg);
    if t.len() == 0 {
        proof {
            assert(!has_dotdot(t@));
        }
        return Some(vstd::slice::slice_to_vec(cwd));
    }
    if contains_dotdot(&t) {
        return None;
    }
    let rel = strip_leading_slashes(&t);
    if t[0] == 47 {
        Some(join_bytes(root, &rel))
    } else {
        Some(join_bytes(cwd, &rel))
    }
}

/// What `compose_new_target` returns: the candidate parent path and the
/// final name for a target that need not exist yet.
pub open spec fn compose_new_target_spec(root: Seq<u8>, cwd: Seq<u8>, arg: Seq<u8>) -> Option<
    (Seq<u8>, Seq<u8>),
> {
    let t = trim_spec(arg);
    if t.len() == 0 || t.last() == 47 || has_dotdot(t) {
        None
    } else {
        let base = if t[0] == 47 {
            root
        } else {
            cwd
        };
        let name = strip_slashes(t);
        match name.index_of_last(47u8) {
            Some(k) => Some(
                (join_path(base, name.subrange(0, k)), name.subrange(k + 1, name.len() as int)),
            ),
            None => Some((base, name)),
        }
    }
}

proof fn lemma_strip_slashes_keeps_tail(s: Seq<u8>)
    requires
        s.len() > 0,
        s.last() != 47,
    ensures
        strip_slashes(s).len() > 0,
        strip_slashes(s).last() == s.last(),
    decreases s.len(),
{
    if s[0] == 47 {
        lemma_strip_slashes_keeps_tail(s.drop_first());
        assert(s.drop_first().last() == s.last());
    }
}

/// Last index of `b` in `s`, or `None`; agrees with `Seq::index_of_last`.
fn rfind_byte(s: &[u8], b: u8) -> (r: Option<usize>)
    ensures
        match r {
            Some(i) => s@.index_of_last(b) == Some(i as int),
            None => s@.index_of_last(b) is None,
        },
{
    let mut j: usize = s.len();
    while j > 0
        invariant
            j <= s@.len(),
            forall|k: int| j <= k < s@.len() ==> s@[k] != b,
        decreases j,
    {
        j -= 1;
        if s[j] == b {
            proof {
                s@.index_of_last_ensures(b);
                match s@.index_of_last(b) {
                    Some(idx) => {
                        if idx < j {
                            assert(false);
                        } else if idx > j {
                            assert(s@[idx] != b);
                            assert(false);
                        }
                    },
                    None => {
                        assert(s@[j as int] != b);
                        assert(false);
                    },
                }
            }
            return Some(j);
        }
    }
    proof {
        s@.index_of_last_ensures(b);
        match s@.index_of_last(b) {
            Some(idx) => {
                assert(s@[idx] != b);
                assert(false);
            },
            None => {},
        }
    }
    None
}

/// Compose the candidate parent path and final name for a target that need
/// not exist yet (an upload): rejected outright when the trimmed argument
/// is empty, ends with `/`, or holds `..`. The caller canonicalizes the
/// parent and passes it through `accept_new_target`.
pub fn compose_new_target(root: &[u8], cwd: &[u8], arg: &[u8]) -> (r: Option<(Vec<u8>, Vec<u8>)>)
    ensures
        match r {
            Some(pair) => compose_new_target_spec(root@, cwd@, arg@) == Some(
                (pair.0@, pair.1@),
            ) && pair.1@.len() > 0,
            None => compose_new_target_spec(root@, cwd@, arg@) is None,
        },
        has_dotdot(trim_spec(arg@)) ==> r is None,
{
    let t = trim_bytes(arg);
    if t.len() == 0 {
        return None;
    }
    if t[t.len() - 1] == 47 {
        proof {
            assert(trim_spec(arg@).last() == 47);
        }
        return None;
    }
    if contains_dotdot(&t) {
        return None;
    }
    let name = strip_leading_slashes(&t);
    proof {
        lemma_strip_slashes_keeps_tail(t@);
    }
    let base: &[u8] = if t[0] == 47 {
        root
    } else {
        cwd
    };
    match rfind_byte(&name, 47) {
        Some(k) => {
            proof {
                name@.index_of_last_ensures(47u8);
            }
            let mut dir: Vec<u8> = Vec::new();
            let mut i: usize = 0;
            while i < k
                invariant
                    i <= k < name@.len(),
                    dir@ =~= name@.subrange(0, i as int),
                decreases k - i,
            {
                dir.push(name[i]);
                proof {
                    assert(dir@ =~= name@.subrange(0, i + 1 as int));
                }
                i += 1;
            }
            let n = name.len();
            proof {
                name@.index_of_last_ensures(47u8);
                assert(k < n);
            }
            let mut file: Vec<u8> = Vec::new();
            let mut j: usize = k + 1;
            while j < name.len()
                invariant
                    k + 1 <= j <= name@.len(),
                    file@ =~= name@.subrange(k + 1 as int, j as int),
                decreases name.len() - j,
            {
                file.push(name[j]);
                proof {
                    assert(file@ =~= name@.subrange(k + 1 as int, j + 1 as int));
                }
                j += 1;
            }
            proof {
                name@.index_of_last_ensures(47u8);
                assert(name@.last() != 47);
                assert(file@.len() > 0);
            }
            let parent = join_bytes(base, &dir);
            Some((parent, file))
        },
        None => Some((vstd::slice::slice_to_vec(base), name)),
    }
}

/// Accept a canonicalized parent directory for a new target: succeeds only
/// when the parent lies within the canonical root, and then appends the
/// final name. Every accepted path lies within the root.
pub fn accept_new_target(canon_parent: &[u8], canon_root: &[u8], name: &[u8]) -> (r: Option<
    Vec<u8>,
>)
    ensures
        match r {
            Some(p) => path_within(canon_parent@, canon_root@) && p@ == join_path(
                canon_parent@,
                name@,
            ) && path_within(p@, canon_root@),
            None => !path_within(canon_parent@, canon_root@),
        },
{
    if !is_within(canon_parent, canon_root) {
        return None;
    }
    let p = join_bytes(canon_parent, name);
    proof {
        lemma_join_within(canon_parent@, name@);
        lemma_within_trans(p@, canon_parent@, canon_root@);
    }
    Some(p)
}

proof fn lemma_within_trans(p: Seq<u8>, q: Seq<u8>, root: Seq<u8>)
    requires
        path_within(p, q),
        path_within(q, root),
    ensures
        path_within(p, root),
{
    if p == q || q == root {
    } else {
        assert(starts_with_spec(p, root)) by {
            assert(p.subrange(0, q.len() as int) == q);
            assert(q.subrange(0, root.len() as int) == root);
            assert(p.subrange(0, root.len() as int) =~= root) by {
                assert(forall|k: int|
                    0 <= k < root.len() ==> p.subrange(0, q.len() as int)[k] == #[trigger] p[k]);
            }
        }
        if !(root.len() > 0 && root.last() == 47) {
            assert(q[root.len() as int] == 47);
            assert(p.subrange(0, q.len() as int)[root.len() as int] == p[root.len() as int]);
        }
    }
}

} // verus!
