//! Ring reconstruction: closed rings from an unordered bag of arcs.

use vstd::prelude::*;

use crate::errors::EdigeoError;
use crate::geom::{arcs_bounded, coords_eq, coords_equal, ring_bounded, Coord};

verus! {

/// An arc that already closes on itself, within tolerance.
pub open spec fn self_closed(arc: Seq<Coord>) -> bool {
    arc.len() > 3 && coords_eq(arc.first(), arc.last())
}

/// A usable ring: at least four vertices, ends meeting within
/// tolerance.
pub open spec fn ring_usable(r: Seq<Coord>) -> bool {
    r.len() >= 4 && coords_eq(r.first(), r.last())
}

/// The vertex lists of a list of arcs.
pub open spec fn arc_views(v: Seq<Vec<Coord>>) -> Seq<Seq<Coord>> {
    v.map(|i: int, a: Vec<Coord>| a@)
}

/// Whether the vertex occurs somewhere in the arcs.
pub open spec fn vertex_of(arcs: Seq<Vec<Coord>>, c: Coord) -> bool {
    exists|i: int, u: int| 0 <= i < arcs.len() && 0 <= u < arcs[i]@.len() && arcs[i]@[u] == c
}

/// Every vertex of the ring occurs in the arcs.
pub open spec fn ring_of(r: Seq<Coord>, arcs: Seq<Vec<Coord>>) -> bool {
    forall|t: int| 0 <= t < r.len() ==> vertex_of(arcs, #[trigger] r[t])
}

/// Copies a vertex list.
pub fn copy_coords(src: &Vec<Coord>) -> (r: Vec<Coord>)
    ensures
        r@ == src@,
{
    let mut r: Vec<Coord> = Vec::new();
    append_coords(&mut r, src);
    r
}

/// Appends all of `src` to `dst`.
fn append_coords(dst: &mut Vec<Coord>, src: &Vec<Coord>)
    ensures
        final(dst)@ == old(dst)@ + src@,
{
    let n = src.len();
    let mut i: usize = 0;
    while i < n
        invariant
            0 <= i <= n,
            n == src@.len(),
            dst@ == old(dst)@ + src@.subrange(0, i as int),
        decreases n - i,
    {
        dst.push(src[i]);
        proof {
            assert(dst@ =~= old(dst)@ + src@.subrange(0, i + 1));
        }
        i = i + 1;
    }
    proof {
        assert(src@.subrange(0, n as int) =~= src@);
        assert(dst@ =~= old(dst)@ + src@);
    }
}

/// Appends all of `src` to `dst`, reversed.
fn append_coords_rev(dst: &mut Vec<Coord>, src: &Vec<Coord>)
    ensures
        final(dst)@.len() == old(dst)@.len() + src@.len(),
        forall|j: int| 0 <= j < old(dst)@.len() ==> final(dst)@[j] == old(dst)@[j],
        forall|j: int|
            0 <= j < src@.len() ==> #[trigger] final(dst)@[old(dst)@.len() + j] == src@[src@.len()
                - 1 - j],
{
    let n = src.len();
    let mut i: usize = 0;
    while i < n
        invariant
            0 <= i <= n,
            n == src@.len(),
            dst@.len() == old(dst)@.len() + i,
            forall|j: int| 0 <= j < old(dst)@.len() ==> dst@[j] == old(dst)@[j],
            forall|j: int|
                0 <= j < i ==> #[trigger] dst@[old(dst)@.len() + j] == src@[src@.len() - 1 - j],
        decreases n - i,
    {
        dst.push(src[n - 1 - i]);
        i = i + 1;
    }
}

/// Reverses a vertex list.
fn reverse_coords(src: &Vec<Coord>) -> (r: Vec<Coord>)
    ensures
        r@.len() == src@.len(),
        forall|j: int| 0 <= j < src@.len() ==> #[trigger] r@[j] == src@[src@.len() - 1 - j],
{
    let mut r: Vec<Coord> = Vec::new();
    append_coords_rev(&mut r, src);
    proof {
        assert forall|j: int|
            0 <= j < src@.len() implies #[trigger] r@[j] == src@[src@.len() - 1 - j] by {
            assert(r@[0 + j] == src@[src@.len() - 1 - j]);
        }
    }
    r
}

/// Which way an arc attaches to the chain being grown.
enum Splice {
    /// The arc continues the tail as it is.
    TailForward,
    /// The arc continues the tail reversed.
    TailReversed,
    /// The arc leads into the head as it is.
    HeadForward,
    /// The arc leads into the head reversed.
    HeadReversed,
}

/// Reconstructs closed rings from unordered arcs.
///
/// Arcs already closed on themselves are taken over unchanged — so a
/// list that holds only closed rings reconstructs to exactly itself.
/// The remaining arcs are spliced end to end, within tolerance and in
/// either orientation; a spliced chain of more than three vertices is
/// closed (exactly, when its ends only meet within tolerance) and
/// kept. When nothing usable comes out of a non-empty input, the
/// repair has failed.
#[verifier::rlimit(100)]
pub fn reconstruct_rings(arcs: &Vec<Vec<Coord>>) -> (r: Result<Vec<Vec<Coord>>, EdigeoError>)
    requires
        forall|i: int| 0 <= i < arcs@.len() ==> (#[trigger] arcs@[i])@.len() >= 1,
    ensures
        match r {
            Ok(rings) => {
                &&& (arcs@.len() == 0 ==> rings@.len() == 0)
                &&& (arcs@.len() > 0 ==> rings@.len() > 0)
                &&& (forall|j: int| 0 <= j < rings@.len() ==> ring_usable((#[trigger] rings@[j])@))
                &&& (forall|i: int|
                    0 <= i < arcs@.len() && self_closed((#[trigger] arcs@[i])@) ==> exists|j: int|
                        0 <= j < rings@.len() && (#[trigger] rings@[j])@ == arcs@[i]@)
                &&& ((forall|i: int| 0 <= i < arcs@.len() ==> self_closed((#[trigger] arcs@[i])@))
                    ==> arc_views(rings@) == arc_views(arcs@))
                &&& (arcs_bounded(arcs@) ==> forall|j: int|
                    0 <= j < rings@.len() ==> ring_bounded((#[trigger] rings@[j])@))
                &&& (forall|j: int| 0 <= j < rings@.len() ==> ring_of((#[trigger] rings@[j])@, arcs@))
            },
            Err(e) => {
                &&& (e matches EdigeoError::RepairFailed { .. })
                &&& arcs@.len() > 0
                &&& (forall|i: int| 0 <= i < arcs@.len() ==> !self_closed((#[trigger] arcs@[i])@))
            },
        },
{
    let mut rings: Vec<Vec<Coord>> = Vec::new();
    let mut remaining: Vec<Vec<Coord>> = Vec::new();
    if arcs.len() == 0 {
        return Ok(rings);
    }
    let n = arcs.len();
    let mut i: usize = 0;
    while i < n
        invariant
            0 <= i <= n,
            n == arcs@.len(),
            forall|k: int| 0 <= k < arcs@.len() ==> (#[trigger] arcs@[k])@.len() >= 1,
            forall|j: int| 0 <= j < rings@.len() ==> ring_usable((#[trigger] rings@[j])@),
            forall|k: int|
                0 <= k < i && self_closed((#[trigger] arcs@[k])@) ==> exists|j: int|
                    0 <= j < rings@.len() && (#[trigger] rings@[j])@ == arcs@[k]@,
            (forall|k: int| 0 <= k < i ==> self_closed((#[trigger] arcs@[k])@)) ==> arc_views(
                rings@,
            ) == arc_views(arcs@.subrange(0, i as int)),
            (forall|k: int| 0 <= k < i ==> self_closed((#[trigger] arcs@[k])@))
                ==> remaining@.len() == 0,
            arcs_bounded(arcs@) ==> (forall|j: int|
                0 <= j < rings@.len() ==> ring_bounded((#[trigger] rings@[j])@)),
            arcs_bounded(arcs@) ==> (forall|j: int|
                0 <= j < remaining@.len() ==> ring_bounded((#[trigger] remaining@[j])@)),
            forall|j: int| 0 <= j < rings@.len() ==> ring_of((#[trigger] rings@[j])@, arcs@),
            forall|j: int| 0 <= j < remaining@.len() ==> ring_of((#[trigger] remaining@[j])@, arcs@),
            forall|j: int| 0 <= j < remaining@.len() ==> (#[trigger] remaining@[j])@.len() >= 1,
        decreases n - i,
    {
        let arc = &arcs[i];
        let len = arc.len();
        let is_closed = len > 3 && coords_equal(arc[0], arc[len - 1]);
        let copy = copy_coords(arc);
        proof {
            assert(is_closed == self_closed(arcs@[i as int]@));
            if arcs_bounded(arcs@) {
                assert(ring_bounded(arcs@[i as int]@));
            }
            assert(ring_of(copy@, arcs@)) by {
                assert forall|t: int| 0 <= t < copy@.len() implies vertex_of(
                    arcs@,
                    #[trigger] copy@[t],
                ) by {
                    assert(arcs@[i as int]@[t] == copy@[t]);
                }
            }
        }
        if is_closed {
            let ghost rings_old = rings@;
            rings.push(copy);
            proof {
                assert forall|k: int|
                    0 <= k < i + 1 && self_closed((#[trigger] arcs@[k])@) implies exists|j: int|
                    0 <= j < rings@.len() && (#[trigger] rings@[j])@ == arcs@[k]@ by {
                    if k == i {
                        assert(rings@[rings@.len() - 1]@ == arcs@[i as int]@);
                    } else {
                        let j = choose|j: int|
                            0 <= j < rings_old.len() && (#[trigger] rings_old[j])@ == arcs@[k]@;
                        assert(rings@[j]@ == arcs@[k]@);
                    }
                }
                if forall|k: int| 0 <= k < i + 1 ==> self_closed((#[trigger] arcs@[k])@) {
                    assert(arc_views(rings_old) == arc_views(arcs@.subrange(0, i as int)));
                    let lhs = arc_views(rings@);
                    let rhs = arc_views(arcs@.subrange(0, i + 1));
                    assert(lhs.len() == rings_old.len() + 1);
                    assert(rings_old.len() == arc_views(arcs@.subrange(0, i as int)).len());
                    assert(lhs.len() == rhs.len());
                    assert forall|k: int| 0 <= k < lhs.len() implies lhs[k] == rhs[k] by {
                        if k < i {
                            assert(rings@[k] == rings_old[k]);
                            assert(arc_views(rings_old)[k] == arc_views(
                                arcs@.subrange(0, i as int),
                            )[k]);
                            assert(arcs@.subrange(0, i as int)[k] == arcs@.subrange(0, i + 1)[k]);
                        } else {
                            assert(rings@[k]@ == arcs@[i as int]@);
                            assert(arcs@.subrange(0, i + 1)[k] == arcs@[i as int]);
                        }
                    }
                    assert(lhs =~= rhs);
                }
            }
        } else {
            remaining.push(copy);
            proof {
                assert(!self_closed(arcs@[i as int]@));
            }
        }
        i = i + 1;
    }
    proof {
        assert(arcs@.subrange(0, n as int) =~= arcs@);
    }
    let ghost all_closed = forall|k: int| 0 <= k < arcs@.len() ==> self_closed(
        (#[trigger] arcs@[k])@,
    );

    // Splice the remaining arcs into chains, one seed at a time.
    while remaining.len() > 0
        invariant
            forall|j: int| 0 <= j < rings@.len() ==> ring_usable((#[trigger] rings@[j])@),
            forall|k: int|
                0 <= k < arcs@.len() && self_closed((#[trigger] arcs@[k])@) ==> exists|j: int|
                    0 <= j < rings@.len() && (#[trigger] rings@[j])@ == arcs@[k]@,
            all_closed == (forall|k: int|
                0 <= k < arcs@.len() ==> self_closed((#[trigger] arcs@[k])@)),
            all_closed ==> remaining@.len() == 0 && arc_views(rings@) == arc_views(arcs@),
            arcs_bounded(arcs@) ==> (forall|j: int|
                0 <= j < rings@.len() ==> ring_bounded((#[trigger] rings@[j])@)),
            arcs_bounded(arcs@) ==> (forall|j: int|
                0 <= j < remaining@.len() ==> ring_bounded((#[trigger] remaining@[j])@)),
            forall|j: int| 0 <= j < rings@.len() ==> ring_of((#[trigger] rings@[j])@, arcs@),
            forall|j: int| 0 <= j < remaining@.len() ==> ring_of((#[trigger] remaining@[j])@, arcs@),
            forall|j: int| 0 <= j < remaining@.len() ==> (#[trigger] remaining@[j])@.len() >= 1,
        decreases remaining@.len(),
    {
        let mut ring = match remaining.pop() {
            Some(a) => a,
            None => {
                return Err(EdigeoError::RepairFailed {
                    entity_id: "unknown".to_owned(),
                    reason: "empty arc set".to_owned(),
                });
            },
        };
        let ghost budget = remaining@.len();
        let mut made = true;
        while made && remaining.len() > 0
            invariant
                ring@.len() >= 1,
                remaining@.len() <= budget,
                made ==> remaining@.len() <= budget,
                arcs_bounded(arcs@) ==> ring_bounded(ring@),
                arcs_bounded(arcs@) ==> (forall|j: int|
                    0 <= j < remaining@.len() ==> ring_bounded((#[trigger] remaining@[j])@)),
                ring_of(ring@, arcs@),
                forall|j: int| 0 <= j < remaining@.len() ==> ring_of(
                    (#[trigger] remaining@[j])@,
                    arcs@,
                ),
                forall|j: int| 0 <= j < remaining@.len() ==> (#[trigger] remaining@[j])@.len()
                    >= 1,
            decreases remaining@.len(), (if made {
                1int
            } else {
                0int
            }),
        {
            let rl = ring.len();
            let ring_first = ring[0];
            let ring_last = ring[rl - 1];
            let rn = remaining.len();
            let mut found: Option<(usize, Splice)> = None;
            let mut s: usize = 0;
            while s < rn && found.is_none()
                invariant
                    0 <= s <= rn,
                    rn == remaining@.len(),
                    forall|j: int| 0 <= j < remaining@.len() ==> (#[trigger] remaining@[j])@.len()
                        >= 1,
                    found matches Some(p) ==> p.0 < remaining@.len(),
                decreases (if found is None {
                    1int
                } else {
                    0int
                }), rn - s,
            {
                let arc_ref = &remaining[s];
                let al = arc_ref.len();
                let arc_first = arc_ref[0];
                let arc_last = arc_ref[al - 1];
                if coords_equal(ring_last, arc_first) {
                    found = Some((s, Splice::TailForward));
                } else if coords_equal(ring_last, arc_last) {
                    found = Some((s, Splice::TailReversed));
                } else if coords_equal(ring_first, arc_last) {
                    found = Some((s, Splice::HeadForward));
                } else if coords_equal(ring_first, arc_first) {
                    found = Some((s, Splice::HeadReversed));
                } else {
                    s = s + 1;
                }
            }
            match found {
                None => {
                    made = false;
                },
                Some((idx, way)) => {
                    let arc = remaining.remove(idx);
                    let ghost ring0 = ring@;
                    let ghost bounded = arcs_bounded(arcs@);
                    proof {
                        if bounded {
                            assert(ring_bounded(arc@));
                            assert(ring_bounded(ring0));
                        }
                        assert(ring_of(arc@, arcs@));
                        assert(ring_of(ring0, arcs@));
                    }
                    match way {
                        Splice::TailForward => {
                            let _ = ring.pop();
                            append_coords(&mut ring, &arc);
                            proof {
                                assert forall|t: int| 0 <= t < ring@.len() implies (bounded
                                    ==> crate::geom::coord_bounded(#[trigger] ring@[t]))
                                    && vertex_of(arcs@, ring@[t]) by {
                                    if t < ring0.len() - 1 {
                                        assert(ring@[t] == ring0[t]);
                                    } else {
                                        assert(ring@[t] == arc@[t - (ring0.len() - 1)]);
                                    }
                                }
                            }
                        },
                        Splice::TailReversed => {
                            let _ = ring.pop();
                            append_coords_rev(&mut ring, &arc);
                            proof {
                                assert forall|t: int| 0 <= t < ring@.len() implies (bounded
                                    ==> crate::geom::coord_bounded(#[trigger] ring@[t]))
                                    && vertex_of(arcs@, ring@[t]) by {
                                    if t < ring0.len() - 1 {
                                        assert(ring@[t] == ring0[t]);
                                    } else {
                                        let j = t - (ring0.len() - 1);
                                        assert(ring@[(ring0.len() - 1) + j] == arc@[arc@.len() - 1
                                            - j]);
                                    }
                                }
                            }
                        },
                        Splice::HeadForward => {
                            let mut head = arc;
                            let ghost arc0 = head@;
                            let _ = head.pop();
                            append_coords(&mut head, &ring);
                            ring = head;
                            proof {
                                assert forall|t: int| 0 <= t < ring@.len() implies (bounded
                                    ==> crate::geom::coord_bounded(#[trigger] ring@[t]))
                                    && vertex_of(arcs@, ring@[t]) by {
                                    if t < arc0.len() - 1 {
                                        assert(ring@[t] == arc0[t]);
                                    } else {
                                        assert(ring@[t] == ring0[t - (arc0.len() - 1)]);
                                    }
                                }
                            }
                        },
                        Splice::HeadReversed => {
                            let mut head = reverse_coords(&arc);
                            let ghost rev0 = head@;
                            let _ = head.pop();
                            append_coords(&mut head, &ring);
                            ring = head;
                            proof {
                                assert forall|t: int| 0 <= t < ring@.len() implies (bounded
                                    ==> crate::geom::coord_bounded(#[trigger] ring@[t]))
                                    && vertex_of(arcs@, ring@[t]) by {
                                    if t < rev0.len() - 1 {
                                        assert(ring@[t] == rev0[t]);
                                        assert(rev0[t] == arc@[arc@.len() - 1 - t]);
                                    } else {
                                        assert(ring@[t] == ring0[t - (rev0.len() - 1)]);
                                    }
                                }
                            }
                        },
                    }
                    proof {
                        assert(ring@.len() >= 1);
                    }
                    made = true;
                },
            }
        }
        // Close and keep the chain if it is long enough.
        let rl = ring.len();
        let closed = rl > 1 && coords_equal(ring[0], ring[rl - 1]);
        if closed && rl > 3 {
            let ghost rings_old = rings@;
            rings.push(ring);
            proof {
                reestablish_presence(arcs@, rings_old, rings@);
            }
        } else if rl > 3 {
            let first = ring[0];
            let ghost ring_pre = ring@;
            ring.push(first);
            proof {
                assert forall|t: int| 0 <= t < ring@.len() implies vertex_of(
                    arcs@,
                    #[trigger] ring@[t],
                ) by {
                    if t < ring_pre.len() {
                        assert(ring@[t] == ring_pre[t]);
                    } else {
                        assert(ring@[t] == ring_pre[0]);
                    }
                }
            }
            let ghost rings_old = rings@;
            rings.push(ring);
            proof {
                reestablish_presence(arcs@, rings_old, rings@);
            }
        }
    }
    if rings.len() == 0 {
        proof {
            assert forall|k: int|
                0 <= k < arcs@.len() implies !self_closed((#[trigger] arcs@[k])@) by {
                if self_closed(arcs@[k]@) {
                    let j = choose|j: int|
                        0 <= j < rings@.len() && (#[trigger] rings@[j])@ == arcs@[k]@;
                }
            }
        }
        return Err(EdigeoError::RepairFailed {
            entity_id: "unknown".to_owned(),
            reason: "Could not reconstruct any closed rings".to_owned(),
        });
    }
    Ok(rings)
}

/// Pushing a ring keeps every ring already present.
proof fn reestablish_presence(
    arcs: Seq<Vec<Coord>>,
    rings_old: Seq<Vec<Coord>>,
    rings_new: Seq<Vec<Coord>>,
)
    requires
        forall|j: int| 0 <= j < rings_old.len() ==> rings_new[j] == rings_old[j],
        rings_new.len() == rings_old.len() + 1,
        forall|k: int|
            0 <= k < arcs.len() && self_closed((#[trigger] arcs[k])@) ==> exists|j: int|
                0 <= j < rings_old.len() && (#[trigger] rings_old[j])@ == arcs[k]@,
    ensures
        forall|k: int|
            0 <= k < arcs.len() && self_closed((#[trigger] arcs[k])@) ==> exists|j: int|
                0 <= j < rings_new.len() && (#[trigger] rings_new[j])@ == arcs[k]@,
{
    assert forall|k: int|
        0 <= k < arcs.len() && self_closed((#[trigger] arcs[k])@) implies exists|j: int|
        0 <= j < rings_new.len() && (#[trigger] rings_new[j])@ == arcs[k]@ by {
        let j = choose|j: int| 0 <= j < rings_old.len() && (#[trigger] rings_old[j])@ == arcs[k]@;
        assert(rings_new[j]@ == arcs[k]@);
    }
}

} // verus!
