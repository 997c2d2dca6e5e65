//! Glob matching for key lookup: `*` stands for any run of bytes.
use vstd::prelude::*;

verus! {

/// `*` matches any run of bytes (including none); every other byte matches
/// only itself; the whole pattern must cover the whole key.
pub open spec fn glob_match(key: Seq<u8>, pat: Seq<u8>) -> bool
    decreases pat.len(), key.len(),
{
    if pat.len() == 0 {
        key.len() == 0
    } else if pat[0] == 42 {
        glob_match(key, pat.drop_first()) || (key.len() > 0 && glob_match(key.drop_first(), pat))
    } else {
        key.len() > 0 && pat[0] == key[0] && glob_match(key.drop_first(), pat.drop_first())
    }
}

/// Decides `glob_match` on the tails `key[ki..]` and `pat[pi..]`.
fn match_from(key: &[u8], pat: &[u8], ki: usize, pi: usize) -> (r: bool)
    requires
        ki <= key@.len(),
        pi <= pat@.len(),
    ensures
        r == glob_match(key@.skip(ki as int), pat@.skip(pi as int)),
    decreases pat@.len() - pi, key@.len() - ki,
{
    let ghost ks = key@.skip(ki as int);
    let ghost ps = pat@.skip(pi as int);
    if pi == pat.len() {
        ki == key.len()
    } else if pat[pi] == 42 {
        proof {
            assert(ps[0] == pat@[pi as int]);
            assert(ps.drop_first() =~= pat@.skip(pi as int + 1));
            assert(ks.len() > 0 ==> ks.drop_first() =~= key@.skip(ki as int + 1));
        }
        if match_from(key, pat, ki, pi + 1) {
            true
        } else if ki < key.len() {
            match_from(key, pat, ki + 1, pi)
        } else {
            false
        }
    } else if ki < key.len() && key[ki] == pat[pi] {
        proof {
            assert(ps[0] == pat@[pi as int]);
            assert(ks[0] == key@[ki as int]);
            assert(ps.drop_first() =~= pat@.skip(pi as int + 1));
            assert(ks.drop_first() =~= key@.skip(ki as int + 1));
        }
        match_from(key, pat, ki + 1, pi + 1)
    } else {
        proof {
            assert(ps[0] == pat@[pi as int]);
            if ks.len() > 0 {
                assert(ks[0] == key@[ki as int]);
            }
        }
        false
    }
}

/// Whether `pattern` matches the whole of `key`.
pub fn is_match(key: &[u8], pattern: &[u8]) -> (r: bool)
    ensures
        r == glob_match(key@, pattern@),
{
    proof {
        assert(key@.skip(0) =~= key@);
        assert(pattern@.skip(0) =~= pattern@);
    }
    match_from(key, pattern, 0, 0)
}

} // verus!
