use vstd::prelude::*;

use crate::strutil::chars_of;

verus! {

/// How many redirects a fetch follows before it gives up.
pub const MAX_REDIRECTS: usize = 10;

/// The first index at which `p` occurs in `s`.
pub open spec fn s_find(s: Seq<char>, p: Seq<char>) -> Option<int>
    decreases s.len(),
{
    if p.len() > s.len() {
        None
    } else if s.take(p.len() as int) == p {
        Some(0)
    } else if s.len() == 0 {
        None
    } else {
        match s_find(s.drop_first(), p) {
            Some(i) => Some(i + 1),
            None => None,
        }
    }
}

/// Whether `p` occurs in `s` at index `i`.
pub open spec fn match_at(s: Seq<char>, p: Seq<char>, i: int) -> bool {
    0 <= i <= s.len() - p.len() && s.subrange(i, i + p.len() as int) == p
}

/// `s_find` yields the first match and nothing before it, or no match at
/// all.
pub proof fn lemma_find_spec(s: Seq<char>, p: Seq<char>)
    ensures
        match s_find(s, p) {
            Some(i) => match_at(s, p, i) && forall|j: int| 0 <= j < i ==> !match_at(s, p, j),
            None => forall|j: int| !match_at(s, p, j),
        },
    decreases s.len(),
{
    if p.len() > s.len() {
        assert forall|j: int| !match_at(s, p, j) by {}
    } else if s.take(p.len() as int) == p {
        assert(s.subrange(0, p.len() as int) =~= s.take(p.len() as int));
    } else if s.len() == 0 {
        assert(s.take(p.len() as int) =~= p);
    } else {
        lemma_find_spec(s.drop_first(), p);
        assert forall|j: int| 1 <= j <= s.len() - p.len() implies (match_at(s, p, j) <==> match_at(
            s.drop_first(),
            p,
            j - 1,
        )) by {
            assert(s.drop_first().subrange(j - 1, j - 1 + p.len() as int) =~= s.subrange(
                j,
                j + p.len() as int,
            ));
        }
        assert(s.subrange(0, p.len() as int) =~= s.take(p.len() as int));
        match s_find(s.drop_first(), p) {
            Some(i) => {
                assert(match_at(s, p, i + 1));
            },
            None => {},
        }
    }
}

/// Find the first occurrence of `p` in `s`.
pub fn find_sub(s: &Vec<char>, p: &Vec<char>) -> (r: Option<usize>)
    ensures
        match r {
            Some(i) => s_find(s@, p@) == Some(i as int),
            None => s_find(s@, p@) is None,
        },
{
    proof {
        lemma_find_spec(s@, p@);
    }
    let slen = s.len();
    let plen = p.len();
    if plen > slen {
        return None;
    }
    let mut i: usize = 0;
    while i <= slen - plen
        invariant_except_break
            0 <= i <= slen - plen + 1,
            plen <= slen,
            slen == s@.len(),
            plen == p@.len(),
            forall|j: int| 0 <= j < i ==> !match_at(s@, p@, j),
        ensures
            plen <= slen && slen == s@.len() && plen == p@.len(),
            (i <= slen - plen && match_at(s@, p@, i as int) && forall|j: int|
                0 <= j < i ==> !match_at(s@, p@, j)) || (i == slen - plen + 1 && forall|j: int|
                !match_at(s@, p@, j)),
        decreases slen - plen - i + 1,
    {
        let mut k: usize = 0;
        while k < plen && s[i + k] == p[k]
            invariant
                0 <= k <= plen,
                i + plen <= slen,
                slen == s@.len(),
                plen == p@.len(),
                forall|m: int| 0 <= m < k ==> s@[i + m] == p@[m],
            decreases plen - k,
        {
            k += 1;
        }
        if k == plen {
            proof {
                assert(s@.subrange(i as int, i + p@.len() as int) =~= p@);
            }
            break ;
        }
        proof {
            assert(s@.subrange(i as int, i + p@.len() as int)[k as int] != p@[k as int]);
        }
        i += 1;
    }
    if i <= slen - plen {
        proof {
            if s_find(s@, p@) is None {
                assert(!match_at(s@, p@, i as int));
            }
            let f = s_find(s@, p@).unwrap();
            if f < i {
                assert(match_at(s@, p@, f));
            }
            if f > i {
                assert(!match_at(s@, p@, i as int));
            }
        }
        Some(i)
    } else {
        None
    }
}

/// The scheme and authority of a location: everything up to the first path
/// slash after the scheme separator, or the whole location where no path
/// follows.
pub open spec fn s_origin(base: Seq<char>) -> Seq<char> {
    let after = match s_find(base, "://"@) {
        Some(i) => i + 3,
        None => 0,
    };
    match s_find(base.skip(after), "/"@) {
        Some(j) => base.take(after + j),
        None => base,
    }
}

/// The last index at which `c` occurs in `s`.
pub open spec fn s_last_index(s: Seq<char>, c: char) -> Option<int>
    decreases s.len(),
{
    if s.len() == 0 {
        None
    } else if s.last() == c {
        Some(s.len() - 1)
    } else {
        s_last_index(s.drop_last(), c)
    }
}

/// A relative reference resolved against the location it was served from:
/// a reference with a scheme stands alone; one that begins with a slash
/// keeps only the scheme and authority of the base; any other replaces
/// everything after the last slash of the base, or extends a base that has
/// no path of its own.
pub open spec fn s_resolve(base: Seq<char>, loc: Seq<char>) -> Seq<char> {
    if s_find(loc, "://"@) is Some {
        loc
    } else if loc.len() > 0 && loc[0] == '/' {
        s_origin(base) + loc
    } else {
        let o = s_origin(base).len() as int;
        match s_last_index(base, '/') {
            Some(l) => if l >= o {
                base.take(l + 1) + loc
            } else {
                base + "/"@ + loc
            },
            None => base + "/"@ + loc,
        }
    }
}

/// Relies on `String` collecting an iterator of characters from std: the
/// result holds exactly the characters of the vector, in order.
#[verifier::external_body]
fn string_from_chars(v: &Vec<char>) -> (r: String)
    ensures
        r@ == v@,
{
    v.iter().collect()
}

/// Find the last occurrence of `c` in `s`.
#[verifier::loop_isolation(false)]
fn find_last(s: &Vec<char>, c: char) -> (r: Option<usize>)
    ensures
        match r {
            Some(i) => s_last_index(s@, c) == Some(i as int),
            None => s_last_index(s@, c) is None,
        },
{
    let mut i: usize = s.len();
    proof {
        assert(s@.take(s@.len() as int) =~= s@);
    }
    while i > 0
        invariant
            0 <= i <= s@.len(),
            s_last_index(s@.take(i as int), c) == s_last_index(s@, c),
        decreases i,
    {
        proof {
            assert(s@.take(i as int).last() == s@[i - 1]);
            assert(s@.take(i as int).drop_last() =~= s@.take(i - 1));
        }
        if s[i - 1] == c {
            return Some(i - 1);
        }
        i -= 1;
    }
    proof {
        assert(s@.take(0) =~= Seq::<char>::empty());
    }
    None
}

/// The last index of a character lies inside the text.
proof fn lemma_last_index_bound(s: Seq<char>, c: char)
    ensures
        s_last_index(s, c) matches Some(i) ==> 0 <= i < s.len(),
    decreases s.len(),
{
    if s.len() > 0 && s.last() != c {
        lemma_last_index_bound(s.drop_last(), c);
    }
}

/// Resolve a redirect location against the request location.
#[verifier::loop_isolation(false)]
#[verifier::rlimit(60)]
pub fn resolve_location(base: &str, location: &str) -> (r: String)
    ensures
        r@ == s_resolve(base@, location@),
{
    let bv = chars_of(base);
    let blen = bv.len();
    let lv = chars_of(location);
    let scheme_sep = chars_of("://");
    let slash = chars_of("/");
    proof {
        reveal_strlit("://");
        reveal_strlit("/");
        assert(scheme_sep@ =~= "://"@);
        assert(slash@ =~= "/"@);
        assert(scheme_sep@.len() == 3);
        assert(slash@.len() == 1);
        lemma_find_spec(bv@, "://"@);
        lemma_find_spec(lv@, "://"@);
    }
    if find_sub(&lv, &scheme_sep).is_some() {
        return location.to_owned();
    }
    if lv.len() > 0 {
        let c0 = lv[0];
        if c0 == '/' {
            let after = match find_sub(&bv, &scheme_sep) {
                Some(i) => {
                    proof {
                        assert(s_find(bv@, "://"@) == Some(i as int));
                        assert(match_at(bv@, "://"@, i as int));
                    }
                    i + 3
                },
                None => 0,
            };
            let mut tail: Vec<char> = Vec::new();
            let mut t: usize = after;
            while t < blen
                invariant
                    after <= t <= bv@.len(),
                    tail@ == bv@.skip(after as int).take(t - after),
                decreases bv@.len() - t,
            {
                proof {
                    assert(bv@.skip(after as int).take(t - after + 1).drop_last() =~= bv@.skip(
                        after as int,
                    ).take(t - after));
                    assert(bv@.skip(after as int).take(t - after + 1).last() == bv@[t as int]);
                }
                tail.push(bv[t]);
                t += 1;
            }
            proof {
                assert(bv@.skip(after as int).take(bv@.len() - after) =~= bv@.skip(after as int));
                lemma_find_spec(bv@.skip(after as int), "/"@);
            }
            let origin_len: usize = match find_sub(&tail, &slash) {
                Some(j) => after + j,
                None => blen,
            };
            let mut out: Vec<char> = Vec::new();
            let mut t2: usize = 0;
            while t2 < origin_len
                invariant
                    0 <= t2 <= origin_len,
                    origin_len <= bv@.len(),
                    out@ == bv@.take(t2 as int),
                decreases origin_len - t2,
            {
                proof {
                    assert(bv@.take(t2 + 1).drop_last() =~= bv@.take(t2 as int));
                    assert(bv@.take(t2 + 1).last() == bv@[t2 as int]);
                }
                out.push(bv[t2]);
                t2 += 1;
            }
            let mut rest = lv;
            out.append(&mut rest);
            proof {
                assert(s_origin(base@) =~= bv@.take(origin_len as int));
                assert(out@ =~= s_resolve(base@, location@));
            }
            return string_from_chars(&out);
        }
    }
    let origin_end: usize = {
        let after = match find_sub(&bv, &scheme_sep) {
            Some(i) => {
                proof {
                    assert(s_find(bv@, "://"@) == Some(i as int));
                    assert(match_at(bv@, "://"@, i as int));
                }
                i + 3
            },
            None => 0,
        };
        let mut tail: Vec<char> = Vec::new();
        let mut t: usize = after;
        while t < blen
            invariant
                after <= t <= bv@.len(),
                tail@ == bv@.skip(after as int).take(t - after),
            decreases bv@.len() - t,
        {
            proof {
                assert(bv@.skip(after as int).take(t - after + 1).drop_last() =~= bv@.skip(
                    after as int,
                ).take(t - after));
                assert(bv@.skip(after as int).take(t - after + 1).last() == bv@[t as int]);
            }
            tail.push(bv[t]);
            t += 1;
        }
        proof {
            assert(bv@.skip(after as int).take(bv@.len() - after) =~= bv@.skip(after as int));
            lemma_find_spec(bv@.skip(after as int), "/"@);
        }
        match find_sub(&tail, &slash) {
            Some(j) => after + j,
            None => blen,
        }
    };
    proof {
        assert(s_origin(base@) =~= bv@.take(origin_end as int));
    }
    let mut out: Vec<char> = Vec::new();
    proof {
        lemma_last_index_bound(bv@, '/');
    }
    match find_last(&bv, '/') {
        Some(l) if l >= origin_end => {
            let mut t: usize = 0;
            while t < l + 1
                invariant
                    0 <= t <= l + 1,
                    l < bv@.len(),
                    out@ == bv@.take(t as int),
                decreases l + 1 - t,
            {
                proof {
                    assert(bv@.take(t + 1).drop_last() =~= bv@.take(t as int));
                    assert(bv@.take(t + 1).last() == bv@[t as int]);
                }
                out.push(bv[t]);
                t += 1;
            }
            let mut rest = lv;
            out.append(&mut rest);
            proof {
                assert(out@ =~= s_resolve(base@, location@));
            }
            string_from_chars(&out)
        },
        _ => {
            let mut b2 = bv;
            out.append(&mut b2);
            out.push('/');
            let mut rest = lv;
            out.append(&mut rest);
            proof {
                assert(out@ =~= base@ + "/"@ + location@);
                assert(out@ =~= s_resolve(base@, location@));
            }
            string_from_chars(&out)
        },
    }
}

/// What a fetch does with one response.
#[derive(Debug, Clone, PartialEq, Eq)]
pub enum FetchDecision {
    /// The body is the answer.
    Deliver,
    /// Fetch again at the resolved location.
    Follow(String),
    /// A redirect that cannot be followed.
    GiveUp,
}

/// Whether a status code redirects.
pub open spec fn s_is_redirect(status: u16) -> bool {
    300 <= status <= 399
}

/// Decide what to do with a response: a redirect status with a location
/// and depth to spare is followed at the resolved location; a redirect
/// without a location, or one too deep, is given up; anything else is the
/// answer.
pub fn redirect_step(status: u16, location: Option<&String>, base: &str, depth: usize) -> (r:
    FetchDecision)
    ensures
        !s_is_redirect(status) ==> r == FetchDecision::Deliver,
        s_is_redirect(status) && (location is None || depth >= MAX_REDIRECTS) ==> r
            == FetchDecision::GiveUp,
        s_is_redirect(status) && location is Some && depth < MAX_REDIRECTS ==> (r matches
        FetchDecision::Follow(u) && u@ == s_resolve(base@, location.unwrap()@)),
{
    if status < 300 || status > 399 {
        FetchDecision::Deliver
    } else {
        match location {
            Some(loc) if depth < MAX_REDIRECTS => {
                FetchDecision::Follow(resolve_location(base, loc.as_str()))
            },
            _ => FetchDecision::GiveUp,
        }
    }
}

} // verus!
