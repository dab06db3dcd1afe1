use vstd::prelude::*;

use crate::strs::chars_of;

verus! {

pub open spec fn starts_with(s: Seq<char>, p: Seq<char>) -> bool {
    p.len() <= s.len() && s.take(p.len() as int) == p
}

pub fn has_prefix(s: &[char], p: &[char]) -> (r: bool)
    ensures
        r == starts_with(s@, p@),
{
    if p.len() > s.len() {
        return false;
    }
    let mut i: usize = 0;
    while i < p.len()
        invariant
            p@.len() <= s@.len(),
            i <= p@.len(),
            forall|k: int| 0 <= k < i ==> s@[k] == p@[k],
        decreases p.len() - i,
    {
        if s[i] != p[i] {
            assert(s@.take(p@.len() as int)[i as int] != p@[i as int]);
            return false;
        }
        i = i + 1;
    }
    assert(s@.take(p@.len() as int) =~= p@);
    true
}

/// Whether a path names a web resource to download first.
pub fn is_url(path: &str) -> (r: bool)
    ensures
        r == (starts_with(path@, "http://"@) || starts_with(path@, "https://"@)),
{
    let cs = chars_of(path);
    let http = chars_of("http://");
    let https = chars_of("https://");
    has_prefix(cs.as_slice(), http.as_slice()) || has_prefix(cs.as_slice(), https.as_slice())
}

} // verus!
