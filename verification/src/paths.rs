//! File paths as the bytes the operating system gives them, so that a path
//! that is not valid UTF-8 still names the same file.
use vstd::prelude::*;

verus! {

/// The byte of the path separator, `/`.
pub open spec fn is_sep(b: u8) -> bool {
    b == 47u8
}

/// A path with `rel` joined onto `base`, as a path join does it on Unix: an
/// absolute `rel` replaces `base`; otherwise a `/` separates the two unless
/// `base` is empty or already ends with one.
pub open spec fn join_spec(base: Seq<u8>, rel: Seq<u8>) -> Seq<u8> {
    if rel.len() > 0 && is_sep(rel[0]) {
        rel
    } else if base.len() == 0 {
        rel
    } else if is_sep(base.last()) {
        base + rel
    } else {
        base + seq![47u8] + rel
    }
}

/// The path held in an optional byte buffer, by its bytes.
pub open spec fn opt_bytes(o: Option<Vec<u8>>) -> Option<Seq<u8>> {
    match o {
        Some(v) => Some(v@),
        None => None,
    }
}

/// Appends the bytes of `s`.
fn push_all(out: &mut Vec<u8>, s: &[u8])
    ensures
        final(out)@ == old(out)@ + s@,
{
    let n = s.len();
    let mut i: usize = 0;
    let ghost start = out@;
    while i < n
        invariant
            n == s@.len(),
            i <= n,
            out@ == start + s@.take(i as int),
        decreases n - i,
    {
        out.push(s[i]);
        assert(s@.take(i + 1) =~= s@.take(i as int).push(s@[i as int]));
        i = i + 1;
    }
    assert(s@.take(n as int) =~= s@);
}

/// Joins a path onto a base path.
pub fn join_path(base: &[u8], rel: &[u8]) -> (r: Vec<u8>)
    ensures
        r@ == join_spec(base@, rel@),
{
    let mut out: Vec<u8> = Vec::new();
    if rel.len() > 0 && rel[0] == 47u8 {
        push_all(&mut out, rel);
        assert(out@ =~= rel@);
        return out;
    }
    push_all(&mut out, base);
    let lb = base.len();
    if lb > 0 && base[lb - 1] != 47u8 {
        out.push(47u8);
    }
    push_all(&mut out, rel);
    assert(out@ =~= join_spec(base@, rel@));
    out
}

} // verus!
