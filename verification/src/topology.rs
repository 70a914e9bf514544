//! Outer/inner classification: organising reconstructed rings into
//! polygons with holes, and pruning dead-end arcs.

use vstd::prelude::*;

use crate::geom::{
    coord_bounded, point_in_ring, point_in_ring_spec, ring_bounded, Coord, Polygon,
};
use crate::repair::copy_coords;

verus! {

/// Whether ring `j` strictly contains the first vertex of ring `i`.
pub open spec fn encloses(rings: Seq<Vec<Coord>>, j: int, i: int) -> bool {
    rings[i]@.len() > 0 && point_in_ring_spec(rings[j]@, rings[i]@.first())
}

/// The first ring other than `i` that contains `i`'s first vertex,
/// scanning from `from`.
pub open spec fn first_encloser(rings: Seq<Vec<Coord>>, i: int, from: int) -> Option<int>
    decreases rings.len() - from,
{
    if from < 0 || from >= rings.len() {
        None
    } else if from != i && encloses(rings, from, i) {
        Some(from)
    } else {
        first_encloser(rings, i, from + 1)
    }
}

/// Indices of the rings among the first `k` that no other ring
/// encloses, in order.
pub open spec fn outer_indices(rings: Seq<Vec<Coord>>, k: int) -> Seq<int>
    decreases k,
{
    if k <= 0 {
        Seq::empty()
    } else {
        let p = outer_indices(rings, k - 1);
        if first_encloser(rings, k - 1, 0) is None {
            p.push(k - 1)
        } else {
            p
        }
    }
}

/// Indices of the rings among the first `k` whose first enclosing ring
/// is `j`, in order.
pub open spec fn inner_indices(rings: Seq<Vec<Coord>>, j: int, k: int) -> Seq<int>
    decreases k,
{
    if k <= 0 {
        Seq::empty()
    } else {
        let p = inner_indices(rings, j, k - 1);
        if first_encloser(rings, k - 1, 0) == Some(j) {
            p.push(k - 1)
        } else {
            p
        }
    }
}

proof fn lemma_first_encloser_skip(rings: Seq<Vec<Coord>>, i: int, from: int, upto: int)
    requires
        0 <= from <= upto <= rings.len(),
        forall|j: int| from <= j < upto ==> j == i || !encloses(rings, j, i),
    ensures
        first_encloser(rings, i, from) == first_encloser(rings, i, upto),
    decreases upto - from,
{
    if from < upto {
        lemma_first_encloser_skip(rings, i, from + 1, upto);
    }
}

proof fn lemma_outer_indices_range(rings: Seq<Vec<Coord>>, k: int)
    requires
        0 <= k <= rings.len(),
    ensures
        forall|p: int|
            0 <= p < outer_indices(rings, k).len() ==> 0 <= #[trigger] outer_indices(rings, k)[p]
                < k,
    decreases k,
{
    if k > 0 {
        lemma_outer_indices_range(rings, k - 1);
        let prev = outer_indices(rings, k - 1);
        assert forall|p: int|
            0 <= p < outer_indices(rings, k).len() implies 0 <= #[trigger] outer_indices(rings, k)[
            p
        ] < k by {
            if first_encloser(rings, k - 1, 0) is None {
                assert(outer_indices(rings, k) == prev.push(k - 1));
                if p < prev.len() {
                    assert(outer_indices(rings, k)[p] == prev[p]);
                }
            } else {
                assert(outer_indices(rings, k) == prev);
            }
        }
    }
}

proof fn lemma_inner_indices_range(rings: Seq<Vec<Coord>>, j: int, k: int)
    requires
        0 <= k <= rings.len(),
    ensures
        forall|p: int|
            0 <= p < inner_indices(rings, j, k).len() ==> 0 <= #[trigger] inner_indices(
                rings,
                j,
                k,
            )[p] < k,
    decreases k,
{
    if k > 0 {
        lemma_inner_indices_range(rings, j, k - 1);
        let prev = inner_indices(rings, j, k - 1);
        assert forall|p: int|
            0 <= p < inner_indices(rings, j, k).len() implies 0 <= #[trigger] inner_indices(
            rings,
            j,
            k,
        )[p] < k by {
            if first_encloser(rings, k - 1, 0) == Some(j) {
                assert(inner_indices(rings, j, k) == prev.push(k - 1));
                if p < prev.len() {
                    assert(inner_indices(rings, j, k)[p] == prev[p]);
                }
            } else {
                assert(inner_indices(rings, j, k) == prev);
            }
        }
    }
}

/// Organises rings into polygons with holes: a ring whose first vertex
/// lies strictly inside another ring becomes a hole of the first such
/// ring; every other ring becomes an exterior, in input order, with
/// its holes in input order.
#[verifier::rlimit(60)]
pub fn organize_rings(rings: Vec<Vec<Coord>>) -> (r: Vec<Polygon>)
    requires
        forall|i: int| 0 <= i < rings@.len() ==> ring_bounded((#[trigger] rings@[i])@),
    ensures
        r@.len() == outer_indices(rings@, rings@.len() as int).len(),
        forall|p: int|
            0 <= p < r@.len() ==> (#[trigger] r@[p]).exterior@ == rings@[outer_indices(
                rings@,
                rings@.len() as int,
            )[p]]@,
        forall|p: int|
            0 <= p < r@.len() ==> (#[trigger] r@[p]).interiors@.len() == inner_indices(
                rings@,
                outer_indices(rings@, rings@.len() as int)[p],
                rings@.len() as int,
            ).len(),
        forall|p: int, q: int|
            0 <= p < r@.len() && 0 <= q < r@[p].interiors@.len() ==> ((#[trigger] r@[p].interiors@[
                q
            ])@ == rings@[inner_indices(
                rings@,
                outer_indices(rings@, rings@.len() as int)[p],
                rings@.len() as int,
            )[q]]@),
{
    let n = rings.len();
    let mut enc: Vec<Option<usize>> = Vec::new();
    let mut i: usize = 0;
    while i < n
        invariant
            0 <= i <= n,
            n == rings@.len(),
            forall|k: int| 0 <= k < rings@.len() ==> ring_bounded((#[trigger] rings@[k])@),
            enc@.len() == i,
            forall|k: int|
                0 <= k < i ==> (match #[trigger] enc@[k] {
                    Some(j) => first_encloser(rings@, k, 0) == Some(j as int),
                    None => first_encloser(rings@, k, 0) is None,
                }),
        decreases n - i,
    {
        let mut found: Option<usize> = None;
        if rings[i].len() > 0 {
            let p = rings[i][0];
            let mut j: usize = 0;
            while j < n && found.is_none()
                invariant
                    0 <= j <= n,
                    n == rings@.len(),
                    i < n,
                    p == rings@[i as int]@.first(),
                    rings@[i as int]@.len() > 0,
                    forall|k: int| 0 <= k < rings@.len() ==> ring_bounded((#[trigger] rings@[k])@),
                    (match found {
                        Some(f) => f < rings@.len() && first_encloser(rings@, i as int, 0) == Some(
                            f as int,
                        ),
                        None => forall|jj: int|
                            0 <= jj < j ==> jj == i || !encloses(rings@, jj, i as int),
                    }),
                decreases (if found is None {
                    1int
                } else {
                    0int
                }), n - j,
            {
                if j != i {
                    proof {
                        assert(coord_bounded(rings@[i as int]@[0]));
                    }
                    if point_in_ring(&rings[j], p) {
                        proof {
                            lemma_first_encloser_skip(rings@, i as int, 0, j as int);
                        }
                        found = Some(j);
                    } else {
                        j = j + 1;
                    }
                } else {
                    j = j + 1;
                }
            }
            proof {
                if found is None {
                    lemma_first_encloser_skip(rings@, i as int, 0, n as int);
                }
            }
        } else {
            proof {
                assert forall|jj: int| 0 <= jj < n implies jj == i as int || !encloses(
                    rings@,
                    jj,
                    i as int,
                ) by {
                    assert(rings@[i as int]@.len() == 0);
                }
                lemma_first_encloser_skip(rings@, i as int, 0, n as int);
            }
        }
        enc.push(found);
        i = i + 1;
    }
    // Build the polygons, outer rings in input order.
    let mut result: Vec<Polygon> = Vec::new();
    let mut i: usize = 0;
    while i < n
        invariant
            0 <= i <= n,
            n == rings@.len(),
            enc@.len() == n,
            forall|k: int| 0 <= k < rings@.len() ==> ring_bounded((#[trigger] rings@[k])@),
            forall|k: int|
                0 <= k < n ==> (match #[trigger] enc@[k] {
                    Some(j) => first_encloser(rings@, k, 0) == Some(j as int),
                    None => first_encloser(rings@, k, 0) is None,
                }),
            result@.len() == outer_indices(rings@, i as int).len(),
            forall|p: int|
                0 <= p < result@.len() ==> (#[trigger] result@[p]).exterior@ == rings@[outer_indices(
                    rings@,
                    i as int,
                )[p]]@,
            forall|p: int|
                0 <= p < result@.len() ==> (#[trigger] result@[p]).interiors@.len()
                    == inner_indices(rings@, outer_indices(rings@, i as int)[p], n as int).len(),
            forall|p: int, q: int|
                0 <= p < result@.len() && 0 <= q < result@[p].interiors@.len() ==> ((
                #[trigger] result@[p].interiors@[q])@ == rings@[inner_indices(
                    rings@,
                    outer_indices(rings@, i as int)[p],
                    n as int,
                )[q]]@),
        decreases n - i,
    {
        proof {
            lemma_outer_indices_range(rings@, i as int);
        }
        let is_outer = match enc[i] {
            Some(_) => false,
            None => true,
        };
        if is_outer {
            let mut holes: Vec<Vec<Coord>> = Vec::new();
            let mut k: usize = 0;
            while k < n
                invariant
                    0 <= k <= n,
                    n == rings@.len(),
                    enc@.len() == n,
                    i < n,
                    forall|t: int|
                        0 <= t < n ==> (match #[trigger] enc@[t] {
                            Some(j) => first_encloser(rings@, t, 0) == Some(j as int),
                            None => first_encloser(rings@, t, 0) is None,
                        }),
                    holes@.len() == inner_indices(rings@, i as int, k as int).len(),
                    forall|q: int|
                        0 <= q < holes@.len() ==> (#[trigger] holes@[q])@ == rings@[inner_indices(
                            rings@,
                            i as int,
                            k as int,
                        )[q]]@,
                decreases n - k,
            {
                proof {
                    lemma_inner_indices_range(rings@, i as int, k as int);
                }
                let matches_outer = match enc[k] {
                    Some(j) => j == i,
                    None => false,
                };
                if matches_outer {
                    holes.push(copy_coords(&rings[k]));
                }
                k = k + 1;
            }
            let exterior = copy_coords(&rings[i]);
            result.push(Polygon { exterior, interiors: holes });
        }
        i = i + 1;
    }
    result
}

/// The micro-grid key of a vertex: each axis rounded to millionths.
pub open spec fn micro_key(c: Coord) -> (int, int) {
    (crate::geom::round_half_away(c.x as int, 1000), crate::geom::round_half_away(c.y as int, 1000))
}

/// How many arc endpoints among the first `j` arcs carry the key;
/// each non-empty arc contributes its first and its last vertex.
pub open spec fn key_count(vs: Seq<Seq<Coord>>, key: (int, int), j: int) -> nat
    decreases j,
{
    if j <= 0 {
        0
    } else {
        key_count(vs, key, j - 1) + (if vs[j - 1].len() > 0 {
            (if micro_key(vs[j - 1].first()) == key {
                1nat
            } else {
                0nat
            }) + (if micro_key(vs[j - 1].last()) == key {
                1nat
            } else {
                0nat
            })
        } else {
            0nat
        })
    }
}

/// Whether arc `i` stays: it is non-empty and each of its endpoint
/// keys occurs at least twice among all endpoints.
pub open spec fn arc_kept(vs: Seq<Seq<Coord>>, i: int) -> bool {
    &&& vs[i].len() > 0
    &&& key_count(vs, micro_key(vs[i].first()), vs.len() as int) >= 2
    &&& key_count(vs, micro_key(vs[i].last()), vs.len() as int) >= 2
}

/// The arcs among the first `j` that stay, in order.
pub open spec fn kept_filter(vs: Seq<Seq<Coord>>, j: int) -> Seq<Seq<Coord>>
    decreases j,
{
    if j <= 0 {
        Seq::empty()
    } else {
        let p = kept_filter(vs, j - 1);
        if arc_kept(vs, j - 1) {
            p.push(vs[j - 1])
        } else {
            p
        }
    }
}

proof fn lemma_filter_len(vs: Seq<Seq<Coord>>, j: int)
    requires
        0 <= j <= vs.len(),
    ensures
        kept_filter(vs, j).len() <= j,
    decreases j,
{
    if j > 0 {
        lemma_filter_len(vs, j - 1);
    }
}

proof fn lemma_filter_full(vs: Seq<Seq<Coord>>, j: int)
    requires
        0 <= j <= vs.len(),
        kept_filter(vs, j).len() == j,
    ensures
        forall|i: int| 0 <= i < j ==> arc_kept(vs, i),
        kept_filter(vs, j) =~= vs.subrange(0, j),
    decreases j,
{
    if j > 0 {
        lemma_filter_len(vs, j - 1);
        assert(arc_kept(vs, j - 1));
        lemma_filter_full(vs, j - 1);
    }
}

/// The two endpoint keys of a vertex.
fn quant_key(c: Coord) -> (r: (i64, i64))
    ensures
        (r.0 as int, r.1 as int) == micro_key(c),
{
    let qx = quant_axis(c.x);
    let qy = quant_axis(c.y);
    (qx, qy)
}

/// One axis value on the micro grid.
fn quant_axis(v: i64) -> (r: i64)
    ensures
        r as int == crate::geom::round_half_away(v as int, 1000),
{
    let vi = v as i128;
    let m: i128 = if vi >= 0 {
        vi
    } else {
        -vi
    };
    let mq = (m + 500) / 1000;
    proof {
        assert(0 <= mq <= m) by (nonlinear_arith)
            requires
                0 <= m,
                mq as int == ((m as int) + 500) / 1000,
        ;
    }
    if vi >= 0 {
        mq as i64
    } else {
        (-mq) as i64
    }
}

/// Drops arcs that dead-end: an arc stays only while it is non-empty
/// and each of its two endpoints coincides, on the micro grid, with at
/// least two arc endpoints overall; dropping repeats to a fixpoint, so
/// in the result every arc's endpoint keys each occur at least twice
/// among the result's own endpoints.
pub fn remove_dead_ends(arcs: &mut Vec<Vec<Coord>>)
    ensures
        final(arcs)@.len() <= old(arcs)@.len(),
        forall|i: int| #![trigger final(arcs)@[i]]
            0 <= i < final(arcs)@.len() ==> arc_kept(
                final(arcs)@.map(|j: int, v: Vec<Coord>| v@),
                i,
            ),
        kept_filter(
            final(arcs)@.map(|j: int, v: Vec<Coord>| v@),
            final(arcs)@.len() as int,
        ) =~= final(arcs)@.map(|j: int, v: Vec<Coord>| v@),
{
    loop
        invariant
            arcs@.len() <= old(arcs)@.len(),
        ensures
            arcs@.len() <= old(arcs)@.len(),
            forall|i: int| #![trigger arcs@[i]]
                0 <= i < arcs@.len() ==> arc_kept(arcs@.map(|j: int, v: Vec<Coord>| v@), i),
            kept_filter(arcs@.map(|j: int, v: Vec<Coord>| v@), arcs@.len() as int)
                =~= arcs@.map(|j: int, v: Vec<Coord>| v@),
        decreases arcs@.len(),
    {
        let ghost vs = arcs@.map(|j: int, v: Vec<Coord>| v@);
        let n = arcs.len();
        // Endpoint keys of every arc; an empty arc gets none and is
        // dropped below.
        let mut keys: Vec<((i64, i64), (i64, i64))> = Vec::new();
        let mut i: usize = 0;
        while i < n
            invariant
                0 <= i <= n,
                n == arcs@.len(),
                vs == arcs@.map(|j: int, v: Vec<Coord>| v@),
                keys@.len() == i,
                forall|j: int|
                    0 <= j < i && vs[j].len() > 0 ==> ((#[trigger] keys@[j]).0.0 as int,
                    keys@[j].0.1 as int) == micro_key(vs[j].first()) && (keys@[j].1.0 as int,
                    keys@[j].1.1 as int) == micro_key(vs[j].last()),
            decreases n - i,
        {
            let arc = &arcs[i];
            if arc.len() > 0 {
                let fk = quant_key(arc[0]);
                let lk = quant_key(arc[arc.len() - 1]);
                keys.push((fk, lk));
            } else {
                keys.push(((0, 0), (0, 0)));
            }
            i = i + 1;
        }
        // Keep the arcs whose endpoints both occur at least twice.
        let mut keep: Vec<Vec<Coord>> = Vec::new();
        let mut i: usize = 0;
        while i < n
            invariant
                0 <= i <= n,
                n == arcs@.len(),
                vs == arcs@.map(|j: int, v: Vec<Coord>| v@),
                keys@.len() == n,
                forall|j: int|
                    0 <= j < n && vs[j].len() > 0 ==> ((#[trigger] keys@[j]).0.0 as int,
                    keys@[j].0.1 as int) == micro_key(vs[j].first()) && (keys@[j].1.0 as int,
                    keys@[j].1.1 as int) == micro_key(vs[j].last()),
                keep@.map(|j: int, v: Vec<Coord>| v@) == kept_filter(vs, i as int),
            decreases n - i,
        {
            let nonempty = arcs[i].len() > 0;
            let mut keep_it = false;
            if nonempty {
                let (fk, lk) = keys[i];
                let fc = count_key(&keys, arcs, fk, Ghost(vs));
                let lc = count_key(&keys, arcs, lk, Ghost(vs));
                keep_it = fc >= 2 && lc >= 2;
                proof {
                    assert(keep_it == arc_kept(vs, i as int));
                }
            } else {
                proof {
                    assert(!arc_kept(vs, i as int));
                }
            }
            if keep_it {
                keep.push(crate::repair::copy_coords(&arcs[i]));
                proof {
                    assert(keep@.map(|j: int, v: Vec<Coord>| v@) =~= kept_filter(vs, i + 1));
                }
            } else {
                proof {
                    assert(keep@.map(|j: int, v: Vec<Coord>| v@) =~= kept_filter(vs, i + 1));
                }
            }
            i = i + 1;
        }
        if keep.len() == arcs.len() {
            proof {
                assert(kept_filter(vs, n as int).len() == n);
                lemma_filter_full(vs, n as int);
                assert(vs.subrange(0, n as int) =~= vs);
            }
            break ;
        }
        proof {
            lemma_filter_len(vs, n as int);
            assert(keep@.len() < arcs@.len());
        }
        let mut tmp = keep;
        core::mem::swap(arcs, &mut tmp);
    }
}

/// Counts the endpoints carrying `key`, capped at two.
fn count_key(
    keys: &Vec<((i64, i64), (i64, i64))>,
    arcs: &Vec<Vec<Coord>>,
    key: (i64, i64),
    Ghost(vs): Ghost<Seq<Seq<Coord>>>,
) -> (r: usize)
    requires
        vs == arcs@.map(|j: int, v: Vec<Coord>| v@),
        keys@.len() == arcs@.len(),
        forall|j: int|
            0 <= j < vs.len() && vs[j].len() > 0 ==> ((#[trigger] keys@[j]).0.0 as int,
            keys@[j].0.1 as int) == micro_key(vs[j].first()) && (keys@[j].1.0 as int,
            keys@[j].1.1 as int) == micro_key(vs[j].last()),
    ensures
        (r >= 2) == (key_count(vs, (key.0 as int, key.1 as int), vs.len() as int) >= 2),
{
    let n = keys.len();
    let mut c: usize = 0;
    let mut j: usize = 0;
    while j < n
        invariant
            0 <= j <= n,
            n == keys@.len() == vs.len(),
            vs == arcs@.map(|t: int, v: Vec<Coord>| v@),
            forall|t: int|
                0 <= t < vs.len() && vs[t].len() > 0 ==> ((#[trigger] keys@[t]).0.0 as int,
                keys@[t].0.1 as int) == micro_key(vs[t].first()) && (keys@[t].1.0 as int,
                keys@[t].1.1 as int) == micro_key(vs[t].last()),
            c <= 2,
            (if c < 2 {
                c as nat
            } else {
                2nat
            }) == (if key_count(vs, (key.0 as int, key.1 as int), j as int) < 2 {
                key_count(vs, (key.0 as int, key.1 as int), j as int)
            } else {
                2nat
            }),
        decreases n - j,
    {
        let nonempty = arcs[j].len() > 0;
        if nonempty {
            let (jf, jl) = keys[j];
            if c < 2 && jf.0 == key.0 && jf.1 == key.1 {
                c = c + 1;
            }
            if c < 2 && jl.0 == key.0 && jl.1 == key.1 {
                c = c + 1;
            }
        }
        proof {
            assert(vs[j as int].len() == arcs@[j as int]@.len()) by {
                assert(vs[j as int] == arcs@.map(|t: int, v: Vec<Coord>| v@)[j as int]);
            }
        }
        j = j + 1;
    }
    c
}

} // verus!
