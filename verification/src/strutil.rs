use vstd::prelude::*;

verus! {

broadcast use vstd::string::axiom_spec_iter;

/// The characters of `s`, as a vector that verified code can index freely.
pub fn chars_of(s: &str) -> (v: Vec<char>)
    ensures
        v@ == s@,
{
    let mut v: Vec<char> = Vec::new();
    for c in it: s.chars()
        invariant
            it.seq() == s@,
            v@ == it.seq().take(it.index() as int),
    {
        v.push(c);
    }
    proof {
        assert(v@ =~= s@);
    }
    v
}

/// Whether two string slices hold the same characters.
pub fn str_eq(a: &str, b: &str) -> (r: bool)
    ensures
        r == (a@ == b@),
{
    let sa = a.to_owned();
    let sb = b.to_owned();
    sa == sb
}

/// Whether `p` occurs in `s` as a contiguous run of characters.
pub open spec fn has_sub(s: Seq<char>, p: Seq<char>) -> bool {
    exists|i: int|
        0 <= i <= s.len() - p.len() && #[trigger] s.subrange(i, i + p.len() as int) == p
}

/// Substring search.
pub fn contains_sub(s: &str, p: &str) -> (r: bool)
    ensures
        r == has_sub(s@, p@),
{
    let sv = chars_of(s);
    let pv = chars_of(p);
    let slen = sv.len();
    let plen = pv.len();
    if plen > slen {
        return false;
    }
    let mut i: usize = 0;
    while i <= slen - plen
        invariant_except_break
            0 <= i <= slen - plen + 1,
            slen == sv.len(),
            plen == pv.len(),
            plen <= slen,
            sv@ == s@,
            pv@ == p@,
            forall|j: int|
                0 <= j < i ==> #[trigger] s@.subrange(j, j + p@.len() as int) != p@,
        ensures
            has_sub(s@, p@) == (i <= slen - plen),
        decreases slen - plen - i + 1,
    {
        let mut k: usize = 0;
        while k < plen && sv[i + k] == pv[k]
            invariant
                0 <= k <= plen,
                i + plen <= slen,
                slen == sv.len(),
                plen == pv.len(),
                sv@ == s@,
                pv@ == p@,
                forall|m: int| 0 <= m < k ==> s@[i + m] == p@[m],
            decreases plen - k,
        {
            k += 1;
        }
        if k == plen {
            proof {
                assert(s@.subrange(i as int, i + p@.len() as int) =~= p@);
            }
            break;
        }
        proof {
            assert(s@.subrange(i as int, i + p@.len() as int)[k as int] != p@[k as int]);
        }
        i += 1;
    }
    i <= slen - plen
}

/// Relies on `String::push_str` from std: it appends the characters of the
/// slice to the end of the string.
#[verifier::external_body]
pub fn push_str(s: &mut String, t: &str)
    ensures
        final(s)@ == old(s)@ + t@,
{
    s.push_str(t);
}

} // verus!
