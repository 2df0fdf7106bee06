use vstd::prelude::*;

use crate::body::{advanced, moved_seg, redirected, stepped_x, stepped_y, wrap_add, wrap_sub, Seg};

verus! {

/// No segment of the chain is sitting a tick out.
pub open spec fn no_wait(s: Seq<Seg>) -> bool {
    forall|i: int| 0 <= i < s.len() ==> !(#[trigger] s[i]).wait
}

/// Wraparound closure: a coordinate stepped past the positive edge lands on
/// the negation of where it stood, symmetrically at the negative edge, and a
/// step from inside the field never leaves `[-half, half]`.
pub proof fn lemma_wraparound(c: int, size: int, half: int)
    requires
        -half <= c <= half,
        0 < size,
    ensures
        c + size > half ==> wrap_add(c, size, half) == -c,
        c - size < -half ==> wrap_sub(c, size, half) == -c,
        -half <= wrap_add(c, size, half) <= half,
        -half <= wrap_sub(c, size, half) <= half,
{
}

/// What one advance does to a chain with no waiting segment: the length is
/// kept, every segment steps along its own pre-tick direction, no segment
/// waits afterwards, the head keeps its direction, and every follower comes
/// out facing the direction its predecessor had.
pub proof fn lemma_advance_unfold(s: Seq<Seg>, size: int, half: int)
    requires
        no_wait(s),
    ensures
        advanced(s, size, half).len() == s.len(),
        forall|i: int|
            0 <= i < s.len() ==> (#[trigger] advanced(s, size, half)[i]).x == stepped_x(
                s[i].x,
                s[i].dir,
                size,
                half,
            ) && advanced(s, size, half)[i].y == stepped_y(s[i].y, s[i].dir, size, half)
                && !advanced(s, size, half)[i].wait,
        s.len() > 0 ==> advanced(s, size, half)[0].dir == s[0].dir,
        forall|i: int| 1 <= i < s.len() ==> (#[trigger] advanced(s, size, half)[i]).dir == s[i
            - 1].dir,
    decreases s.len(),
{
    if s.len() == 0 {
    } else {
        let t = s.skip(1);
        assert(no_wait(t)) by {
            assert(forall|i: int| 0 <= i < t.len() ==> t[i] == s[i + 1]);
        }
        lemma_advance_unfold(t, size, half);
        let at = advanced(t, size, half);
        let rt = redirected(at, s[0].dir);
        assert(advanced(s, size, half) =~= seq![moved_seg(s[0], size, half)] + rt);
        assert forall|i: int| 1 <= i < s.len() implies (#[trigger] advanced(s, size, half)[i]).x
            == stepped_x(s[i].x, s[i].dir, size, half) && advanced(s, size, half)[i].y == stepped_y(
            s[i].y,
            s[i].dir,
            size,
            half,
        ) && !advanced(s, size, half)[i].wait && advanced(s, size, half)[i].dir == s[i - 1].dir by {
            assert(advanced(s, size, half)[i] == rt[i - 1]);
            assert(t[i - 1] == s[i]);
            if i == 1 {
                assert(rt[0].dir == s[0].dir);
                assert(rt[0].x == at[0].x && rt[0].y == at[0].y && rt[0].wait == at[0].wait);
            } else {
                assert(rt[i - 1] == at[i - 1]);
                assert(at[i - 1].dir == t[i - 2].dir);
                assert(t[i - 2] == s[i - 1]);
            }
        }
    }
}

/// Follower lag: in a chain with no waiting segments where, on this tick,
/// segment `i` landed on the position its predecessor held before the tick,
/// the same holds again on the next tick — each follower keeps tracing its
/// predecessor's path exactly one tick behind.
pub proof fn lemma_follower_lag(s: Seq<Seg>, size: int, half: int, i: int)
    requires
        no_wait(s),
        1 <= i < s.len(),
        advanced(s, size, half)[i].x == s[i - 1].x,
        advanced(s, size, half)[i].y == s[i - 1].y,
    ensures
        advanced(advanced(s, size, half), size, half)[i].x == advanced(s, size, half)[i - 1].x,
        advanced(advanced(s, size, half), size, half)[i].y == advanced(s, size, half)[i - 1].y,
{
    let s1 = advanced(s, size, half);
    lemma_advance_unfold(s, size, half);
    assert(no_wait(s1));
    lemma_advance_unfold(s1, size, half);
    assert(s1[i].dir == s[i - 1].dir);
    assert(advanced(s1, size, half)[i].x == stepped_x(s1[i].x, s1[i].dir, size, half));
    assert(s1[i - 1].x == stepped_x(s[i - 1].x, s[i - 1].dir, size, half));
    assert(s1[i - 1].y == stepped_y(s[i - 1].y, s[i - 1].dir, size, half));
}

} // verus!
