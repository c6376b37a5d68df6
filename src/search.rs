//! First-match searches and their specifications.
use vstd::prelude::*;

use crate::types::{GuestDetails, Member};

verus! {

/// Position of the first element that satisfies `p`, or -1 where none does.
pub open spec fn first_index<A>(s: Seq<A>, p: spec_fn(A) -> bool) -> int
    decreases s.len(),
{
    if s.len() == 0 {
        -1
    } else {
        let k = first_index(s.drop_last(), p);
        if k >= 0 {
            k
        } else if p(s.last()) {
            s.len() - 1
        } else {
            -1
        }
    }
}

pub proof fn lemma_first_index<A>(s: Seq<A>, p: spec_fn(A) -> bool, i: int)
    requires
        0 <= i <= s.len(),
        forall|k: int| 0 <= k < i ==> !p(#[trigger] s[k]),
        i == s.len() || p(s[i]),
    ensures
        first_index(s, p) == if i == s.len() {
            -1
        } else {
            i
        },
    decreases s.len(),
{
    if s.len() > 0 {
        let d = s.drop_last();
        assert forall|k: int| 0 <= k < (if i == s.len() { i - 1 } else { i }) implies !p(
            #[trigger] d[k],
        ) by {
            assert(d[k] == s[k]);
        }
        if i == s.len() {
            lemma_first_index(d, p, i - 1);
        } else {
            lemma_first_index(d, p, i);
        }
    }
}

pub proof fn lemma_first_index_bounds<A>(s: Seq<A>, p: spec_fn(A) -> bool)
    ensures
        -1 <= first_index(s, p) < s.len(),
        first_index(s, p) >= 0 ==> p(s[first_index(s, p)]),
        first_index(s, p) < 0 ==> forall|k: int| 0 <= k < s.len() ==> !p(#[trigger] s[k]),
    decreases s.len(),
{
    if s.len() > 0 {
        lemma_first_index_bounds(s.drop_last(), p);
        if first_index(s, p) < 0 {
            assert forall|k: int| 0 <= k < s.len() implies !p(#[trigger] s[k]) by {
                if k < s.len() - 1 {
                    assert(s.drop_last()[k] == s[k]);
                }
            }
        }
    }
}

/// Position of the tier with roster weight `w`, or -1.
pub open spec fn weight_index(tiers: Seq<GuestDetails>, w: u64) -> int {
    first_index(tiers, |t: GuestDetails| t.guest_weight == w)
}

/// Position of the tier with roster weight `w`.
pub fn find_tier(tiers: &Vec<GuestDetails>, w: u64) -> (r: Option<usize>)
    ensures
        match r {
            Some(i) => i < tiers@.len() && weight_index(tiers@, w) == i,
            None => weight_index(tiers@, w) == -1,
        },
{
    let ghost p = |t: GuestDetails| t.guest_weight == w;
    let mut i: usize = 0;
    while i < tiers.len()
        invariant
            i <= tiers@.len(),
            p == (|t: GuestDetails| t.guest_weight == w),
            forall|k: int| 0 <= k < i ==> !p(#[trigger] tiers@[k]),
        decreases tiers@.len() - i,
    {
        if tiers[i].guest_weight == w {
            proof {
                lemma_first_index(tiers@, p, i as int);
            }
            return Some(i);
        }
        i = i + 1;
    }
    proof {
        lemma_first_index(tiers@, p, i as int);
    }
    None
}

/// The texts of a list of strings.
pub open spec fn strs_view(s: Seq<String>) -> Seq<Seq<char>> {
    s.map_values(|x: String| x@)
}

/// The (address, weight) pairs of a list of roster entries.
pub open spec fn members_view(s: Seq<Member>) -> Seq<(Seq<char>, u64)> {
    s.map_values(|m: Member| (m.addr@, m.weight))
}

/// Whether a list of strings holds text `a`.
pub fn contains_str(v: &Vec<String>, a: &String) -> (r: bool)
    ensures
        r == strs_view(v@).contains(a@),
{
    let mut i: usize = 0;
    while i < v.len()
        invariant
            i <= v@.len(),
            forall|k: int| 0 <= k < i ==> v@[k]@ != a@,
        decreases v@.len() - i,
    {
        if v[i] == *a {
            assert(strs_view(v@)[i as int] == a@);
            return true;
        }
        i = i + 1;
    }
    assert forall|k: int| 0 <= k < strs_view(v@).len() implies strs_view(v@)[k] != a@ by {
        assert(strs_view(v@)[k] == v@[k]@);
    }
    false
}

} // verus!
