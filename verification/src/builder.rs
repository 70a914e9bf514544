//! From decoded records to typed features: polygons out of faces,
//! lines out of arcs, points out of nodes, and the convex-hull
//! fallback when ring reconstruction fails.

use vstd::prelude::*;

use crate::errors::EdigeoError;
use crate::geom::{
    arcs_bounded_exec, coord_bounded, geometry_bounded, polygon_bounded, ring_bounded,
    ring_bounded_exec, Coord, Geometry, Polygon,
};
use crate::parser::vec_records::ParsedVec;
use crate::repair::{copy_coords, reconstruct_rings};
use crate::str_map::StrMap;
use crate::topology::organize_rings;
use crate::types::{Feature, Quality};

verus! {

/// A geometry fit to emit: every part has enough vertices for its
/// kind, and polygon rings are at least four vertices long.
pub open spec fn geometry_sane(g: Geometry) -> bool {
    match g {
        Geometry::Point(_) => true,
        Geometry::MultiPoint(v) => v@.len() >= 1,
        Geometry::LineString(v) => v@.len() >= 2,
        Geometry::MultiLineString(ls) => ls@.len() >= 1 && (forall|i: int|
            0 <= i < ls@.len() ==> (#[trigger] ls@[i])@.len() >= 2),
        Geometry::Polygon(p) => polygon_sane(p),
        Geometry::MultiPolygon(mp) => mp@.len() >= 1 && (forall|i: int|
            0 <= i < mp@.len() ==> polygon_sane(#[trigger] mp@[i])),
    }
}

/// Every ring of the polygon is usable: at least four vertices, ends
/// meeting within tolerance.
pub open spec fn polygon_sane(p: Polygon) -> bool {
    &&& crate::repair::ring_usable(p.exterior@)
    &&& forall|i: int|
        0 <= i < p.interiors@.len() ==> crate::repair::ring_usable((#[trigger] p.interiors@[i])@)
}

/// The signed area step used by the hull builder: which side of the
/// line from `o` through `a` the point `b` falls on.
fn cross_sign(o: Coord, a: Coord, b: Coord) -> (r: i128)
    requires
        coord_bounded(o),
        coord_bounded(a),
        coord_bounded(b),
{
    let d1x = (a.x as i128) - (o.x as i128);
    let d1y = (a.y as i128) - (o.y as i128);
    let d2x = (b.x as i128) - (o.x as i128);
    let d2y = (b.y as i128) - (o.y as i128);
    proof {
        let l: int = 4_000_000_000_000_000_000;
        assert((-(l * l) <= (d1x as int) * (d2y as int) <= l * l) && (-(l * l) <= (d1y as int) * (
        d2x as int) <= l * l)) by (nonlinear_arith)
            requires
                -l <= d1x as int <= l,
                -l <= d1y as int <= l,
                -l <= d2x as int <= l,
                -l <= d2y as int <= l,
                l == 4_000_000_000_000_000_000,
        ;
    }
    d1x * d2y - d1y * d2x
}

/// How many vertices the first `j` arcs carry in all.
pub open spec fn vertex_total(vs: Seq<Seq<Coord>>, j: int) -> nat
    decreases j,
{
    if j <= 0 {
        0
    } else {
        vertex_total(vs, j - 1) + vs[j - 1].len()
    }
}

/// Whether the vertex occurs in one of the arcs.
pub open spec fn coord_in(vs: Seq<Seq<Coord>>, c: Coord) -> bool {
    exists|i: int, u: int| 0 <= i < vs.len() && 0 <= u < vs[i].len() && vs[i][u] == c
}

/// The convex hull of every arc vertex, as a closed single-ring
/// polygon whose vertices are drawn from the input. The repair fails
/// whenever fewer than three vertices exist, and also when a vertex
/// is out of range or the points are too degenerate to span a hull.
#[verifier::rlimit(60)]
pub fn convex_hull_fallback(arcs: &Vec<Vec<Coord>>) -> (r: Result<Polygon, EdigeoError>)
    ensures
        match r {
            Ok(p) => crate::geom::ring_ok(p.exterior@) && p.interiors@.len() == 0
                && polygon_bounded(p) && (forall|t: int|
                0 <= t < p.exterior@.len() ==> coord_in(
                    arcs@.map(|j: int, v: Vec<Coord>| v@),
                    #[trigger] p.exterior@[t],
                )),
            Err(e) => e matches EdigeoError::RepairFailed { .. },
        },
        vertex_total(arcs@.map(|j: int, v: Vec<Coord>| v@), arcs@.len() as int) < 3 ==> r is Err,
{
    let ghost vs = arcs@.map(|j: int, v: Vec<Coord>| v@);
    let mut pts: Vec<Coord> = Vec::new();
    let an = arcs.len();
    let mut i: usize = 0;
    while i < an
        invariant
            0 <= i <= an,
            an == arcs@.len(),
            vs == arcs@.map(|j: int, v: Vec<Coord>| v@),
            pts@.len() == vertex_total(vs, i as int),
            forall|t: int| 0 <= t < pts@.len() ==> coord_in(vs, #[trigger] pts@[t]),
        decreases an - i,
    {
        let arc = &arcs[i];
        proof {
            assert(arc@ == vs[i as int]);
        }
        let cn = arc.len();
        let mut k: usize = 0;
        while k < cn
            invariant
                0 <= k <= cn,
                cn == arc@.len(),
                arc@ == vs[i as int],
                i < an == arcs@.len(),
                vs == arcs@.map(|j: int, v: Vec<Coord>| v@),
                pts@.len() == vertex_total(vs, i as int) + k,
                forall|t: int| 0 <= t < pts@.len() ==> coord_in(vs, #[trigger] pts@[t]),
            decreases cn - k,
        {
            pts.push(arc[k]);
            proof {
                assert(vs[i as int][k as int] == arc@[k as int]);
            }
            k = k + 1;
        }
        i = i + 1;
    }
    proof {
        assert(pts@.len() == vertex_total(vs, an as int));
    }
    if pts.len() < 3 {
        return Err(EdigeoError::RepairFailed {
            entity_id: "unknown".to_owned(),
            reason: "Not enough points for convex hull".to_owned(),
        });
    }
    if !ring_bounded_exec(&pts) {
        return Err(EdigeoError::RepairFailed {
            entity_id: "unknown".to_owned(),
            reason: "Vertex out of range for convex hull".to_owned(),
        });
    }
    // Sort by x, then y (insertion into a fresh list).
    let mut sorted: Vec<Coord> = Vec::new();
    let pn = pts.len();
    let mut i: usize = 0;
    while i < pn
        invariant
            0 <= i <= pn,
            pn == pts@.len(),
            ring_bounded(pts@),
            ring_bounded(sorted@),
            sorted@.len() == i,
            forall|t: int| 0 <= t < pts@.len() ==> coord_in(vs, #[trigger] pts@[t]),
            forall|t: int| 0 <= t < sorted@.len() ==> coord_in(vs, #[trigger] sorted@[t]),
        decreases pn - i,
    {
        let p = pts[i];
        let sn = sorted.len();
        let mut pos: usize = 0;
        while pos < sn && (sorted[pos].x < p.x || (sorted[pos].x == p.x && sorted[pos].y <= p.y))
            invariant
                0 <= pos <= sn,
                sn == sorted@.len(),
            decreases sn - pos,
        {
            pos = pos + 1;
        }
        let ghost before = sorted@;
        sorted.insert(pos, p);
        proof {
            assert forall|j: int| 0 <= j < sorted@.len() implies coord_bounded(
                #[trigger] sorted@[j],
            ) && coord_in(vs, sorted@[j]) by {
                if j < pos {
                    assert(sorted@[j] == before[j]);
                } else if j == pos {
                } else {
                    assert(sorted@[j] == before[j - 1]);
                }
            }
        }
        i = i + 1;
    }
    // Monotone chain, lower then upper hull.
    let sn = sorted.len();
    let mut hull: Vec<Coord> = Vec::new();
    let mut i: usize = 0;
    while i < sn
        invariant
            0 <= i <= sn,
            sn == sorted@.len(),
            sn >= 3,
            ring_bounded(sorted@),
            ring_bounded(hull@),
            forall|t: int| 0 <= t < sorted@.len() ==> coord_in(vs, #[trigger] sorted@[t]),
            forall|t: int| 0 <= t < hull@.len() ==> coord_in(vs, #[trigger] hull@[t]),
            i > 0 ==> hull@.len() >= 1,
        decreases sn - i,
    {
        let p = sorted[i];
        loop
            invariant
                ring_bounded(hull@),
                ring_bounded(sorted@),
                i < sn,
                sn == sorted@.len(),
                coord_bounded(p),
                forall|t: int| 0 <= t < hull@.len() ==> coord_in(vs, #[trigger] hull@[t]),
            decreases hull@.len(),
        {
            let hl = hull.len();
            if hl >= 2 {
                let a = hull[hl - 2];
                let b = hull[hl - 1];
                if cross_sign(a, b, p) <= 0 {
                    let _ = hull.pop();
                } else {
                    break ;
                }
            } else {
                break ;
            }
        }
        hull.push(p);
        i = i + 1;
    }
    let lower_len = hull.len();
    let mut i: usize = sn;
    while i > 0
        invariant
            0 <= i <= sn,
            sn == sorted@.len(),
            ring_bounded(sorted@),
            ring_bounded(hull@),
            forall|t: int| 0 <= t < sorted@.len() ==> coord_in(vs, #[trigger] sorted@[t]),
            forall|t: int| 0 <= t < hull@.len() ==> coord_in(vs, #[trigger] hull@[t]),
            hull@.len() >= lower_len >= 1,
        decreases i,
    {
        let p = sorted[i - 1];
        loop
            invariant
                ring_bounded(hull@),
                coord_bounded(p),
                forall|t: int| 0 <= t < hull@.len() ==> coord_in(vs, #[trigger] hull@[t]),
                hull@.len() >= lower_len >= 1,
            decreases hull@.len(),
        {
            let hl = hull.len();
            if hl > lower_len && hl >= 2 {
                let a = hull[hl - 2];
                let b = hull[hl - 1];
                if cross_sign(a, b, p) <= 0 {
                    let _ = hull.pop();
                } else {
                    break ;
                }
            } else {
                break ;
            }
        }
        hull.push(p);
        i = i - 1;
    }
    // Both chains repeat their far endpoint; drop the duplicate tail.
    let _ = hull.pop();
    if hull.len() < 3 {
        return Err(EdigeoError::RepairFailed {
            entity_id: "unknown".to_owned(),
            reason: "Degenerate point set for convex hull".to_owned(),
        });
    }
    let first = hull[0];
    hull.push(first);
    proof {
        assert(crate::geom::ring_ok(hull@));
    }
    Ok(Polygon { exterior: hull, interiors: Vec::new() })
}

/// The vertex lists of a face's non-empty arcs, in order.
pub open spec fn face_arc_views(arcs: Seq<crate::parser::vec_records::Arc>, j: int) -> Seq<
    Seq<Coord>,
>
    decreases j,
{
    if j <= 0 {
        Seq::empty()
    } else {
        let p = face_arc_views(arcs, j - 1);
        if arcs[j - 1].coords@.len() > 0 {
            p.push(arcs[j - 1].coords@)
        } else {
            p
        }
    }
}

/// The arcs the named faces contribute, in order: for each face
/// identifier that resolves, its attached arcs' vertex lists.
pub open spec fn collected_arcs(
    pfe: Map<Seq<char>, crate::parser::vec_records::Face>,
    ids: Seq<String>,
    k: int,
) -> Seq<Seq<Coord>>
    decreases k,
{
    if k <= 0 {
        Seq::empty()
    } else {
        let p = collected_arcs(pfe, ids, k - 1);
        let id = ids[k - 1]@;
        if pfe.contains_key(id) {
            p + face_arc_views(pfe[id].arcs@, pfe[id].arcs@.len() as int)
        } else {
            p
        }
    }
}

/// Every vertex list in range.
pub open spec fn all_rings_bounded(s: Seq<Seq<Coord>>) -> bool {
    forall|i: int| 0 <= i < s.len() ==> ring_bounded(#[trigger] s[i])
}

/// Builds a polygon or multi-polygon from the faces a relation names:
/// their arcs are reconstructed into rings and organised into
/// polygons; when reconstruction fails, the convex hull of the arcs
/// stands in. Nothing comes out when the faces carry no arcs, a
/// vertex is out of range, or reconstruction and the fallback both
/// fail; a single face holding one already-closed in-range arc always
/// yields exactly that ring as a hole-free polygon.
#[verifier::rlimit(60)]
pub fn build_polygon_from_pfe(parsed: &ParsedVec, pfe_ids: &Vec<String>) -> (r: Option<Geometry>)
    ensures
        r matches Some(g) ==> geometry_sane(g) && geometry_bounded(g) && (g is Polygon || g
            is MultiPolygon),
        collected_arcs(parsed.pfe@, pfe_ids@, pfe_ids@.len() as int).len() == 0 ==> r is None,
        !all_rings_bounded(collected_arcs(parsed.pfe@, pfe_ids@, pfe_ids@.len() as int)) ==> r
            is None,
        ({
            let col = collected_arcs(parsed.pfe@, pfe_ids@, pfe_ids@.len() as int);
            col.len() == 1 && crate::repair::self_closed(col[0]) && all_rings_bounded(col)
        }) ==> (r matches Some(g) && (g matches Geometry::Polygon(p) && p.exterior@
            == collected_arcs(parsed.pfe@, pfe_ids@, pfe_ids@.len() as int)[0]
            && p.interiors@.len() == 0)),
{
    let ghost col = collected_arcs(parsed.pfe@, pfe_ids@, pfe_ids@.len() as int);
    let mut all_arcs: Vec<Vec<Coord>> = Vec::new();
    let n = pfe_ids.len();
    let mut i: usize = 0;
    while i < n
        invariant
            0 <= i <= n,
            n == pfe_ids@.len(),
            forall|j: int| 0 <= j < all_arcs@.len() ==> (#[trigger] all_arcs@[j])@.len() >= 1,
            all_arcs@.map(|j: int, v: Vec<Coord>| v@) == collected_arcs(
                parsed.pfe@,
                pfe_ids@,
                i as int,
            ),
        decreases n - i,
    {
        match parsed.pfe.get(pfe_ids[i].as_str()) {
            Some(face) => {
                let an = face.arcs.len();
                let mut k: usize = 0;
                while k < an
                    invariant
                        0 <= k <= an,
                        an == face.arcs@.len(),
                        face == parsed.pfe@[pfe_ids@[i as int]@],
                        i < n == pfe_ids@.len(),
                        parsed.pfe@.contains_key(pfe_ids@[i as int]@),
                        forall|j: int| 0 <= j < all_arcs@.len() ==> (#[trigger] all_arcs@[j])@.len()
                            >= 1,
                        all_arcs@.map(|j: int, v: Vec<Coord>| v@) == collected_arcs(
                            parsed.pfe@,
                            pfe_ids@,
                            i as int,
                        ) + face_arc_views(face.arcs@, k as int),
                    decreases an - k,
                {
                    if face.arcs[k].coords.len() > 0 {
                        let ghost before_map = all_arcs@.map(|j: int, v: Vec<Coord>| v@);
                        all_arcs.push(copy_coords(&face.arcs[k].coords));
                        proof {
                            assert(face_arc_views(face.arcs@, k + 1) == face_arc_views(
                                face.arcs@,
                                k as int,
                            ).push(face.arcs@[k as int].coords@));
                            assert(all_arcs@.map(|j: int, v: Vec<Coord>| v@) =~= before_map.push(
                                face.arcs@[k as int].coords@,
                            ));
                            assert(before_map.push(face.arcs@[k as int].coords@) =~= collected_arcs(
                                parsed.pfe@,
                                pfe_ids@,
                                i as int,
                            ) + face_arc_views(face.arcs@, k + 1));
                        }
                    } else {
                        proof {
                            assert(face_arc_views(face.arcs@, k + 1) == face_arc_views(
                                face.arcs@,
                                k as int,
                            ));
                        }
                    }
                    k = k + 1;
                }
                proof {
                    assert(all_arcs@.map(|j: int, v: Vec<Coord>| v@) =~= collected_arcs(
                        parsed.pfe@,
                        pfe_ids@,
                        i + 1,
                    ));
                }
            },
            None => {
                proof {
                    assert(all_arcs@.map(|j: int, v: Vec<Coord>| v@) =~= collected_arcs(
                        parsed.pfe@,
                        pfe_ids@,
                        i + 1,
                    ));
                }
            },
        }
        i = i + 1;
    }
    proof {
        assert(all_arcs@.map(|j: int, v: Vec<Coord>| v@) == col);
        assert(all_arcs@.len() == col.len());
    }
    if all_arcs.len() == 0 {
        return None;
    }
    let bounded_ok = arcs_bounded_exec(&all_arcs);
    proof {
        assert forall|j: int| 0 <= j < all_arcs@.len() implies (#[trigger] all_arcs@[j])@ == col[
            j
        ] by {
            assert(all_arcs@.map(|t: int, v: Vec<Coord>| v@)[j] == all_arcs@[j]@);
        }
        assert(crate::geom::arcs_bounded(all_arcs@) == all_rings_bounded(col));
    }
    if !bounded_ok {
        return None;
    }
    let ghost single_closed = col.len() == 1 && crate::repair::self_closed(col[0])
        && all_rings_bounded(col);
    match reconstruct_usable_rings(&all_arcs) {
        Ok(rings) => {
            proof {
                if single_closed {
                    assert(crate::repair::self_closed(all_arcs@[0]@));
                    assert(forall|j: int|
                        0 <= j < all_arcs@.len() ==> crate::repair::self_closed(
                            (#[trigger] all_arcs@[j])@,
                        ));
                    assert(crate::repair::arc_views(rings@) == crate::repair::arc_views(
                        all_arcs@,
                    ));
                    assert(rings@.len() == 1);
                    assert(rings@[0]@ == crate::repair::arc_views(rings@)[0]);
                    assert(rings@[0]@ == col[0]);
                }
            }
            if rings.len() == 0 {
                return None;
            }
            let ghost rings_view = rings@;
            let polygons = organize_rings(rings);
            proof {
                if single_closed {
                    assert(crate::topology::first_encloser(rings_view, 0, 1) is None);
                    assert(crate::topology::first_encloser(rings_view, 0, 0) is None);
                    assert(crate::topology::outer_indices(rings_view, 1) =~= seq![0int]) by {
                        reveal_with_fuel(crate::topology::outer_indices, 2);
                    }
                    assert(crate::topology::inner_indices(rings_view, 0, 1) =~= Seq::<
                        int,
                    >::empty()) by {
                        reveal_with_fuel(crate::topology::inner_indices, 2);
                    }
                    assert(polygons@.len() == 1);
                    assert(polygons@[0].exterior@ == rings_view[0]@);
                    assert(polygons@[0].interiors@.len() == 0);
                }
            }
            if polygons.len() == 0 {
                return None;
            }
            let mut sane = true;
            let pn = polygons.len();
            let mut k: usize = 0;
            while k < pn
                invariant
                    0 <= k <= pn,
                    pn == polygons@.len(),
                    sane == (forall|j: int| 0 <= j < k ==> polygon_sane(#[trigger] polygons@[j])
                        && polygon_bounded(#[trigger] polygons@[j])),
                decreases pn - k,
            {
                let p = &polygons[k];
                let ok = polygon_min_ring_exec(p) && crate::geom::ring_bounded_exec(&p.exterior)
                    && interiors_bounded_exec(&p.interiors);
                if !ok {
                    sane = false;
                }
                k = k + 1;
            }
            if !sane {
                proof {
                    if single_closed {
                        assert(polygon_sane(polygons@[0]));
                        assert(polygon_bounded(polygons@[0]));
                        assert(false);
                    }
                }
                return None;
            }
            if polygons.len() == 1 {
                let mut ps = polygons;
                match ps.pop() {
                    Some(p) => Some(Geometry::Polygon(p)),
                    None => None,
                }
            } else {
                Some(Geometry::MultiPolygon(polygons))
            }
        },
        Err(_) => {
            proof {
                if single_closed {
                    assert(crate::repair::self_closed(all_arcs@[0]@));
                    assert(false);
                }
            }
            match convex_hull_fallback(&all_arcs) {
                Ok(polygon) => Some(Geometry::Polygon(polygon)),
                Err(_) => None,
            }
        },
    }
}

/// Ring reconstruction, restated with only what the polygon builder
/// needs: usable rings, bounds carried over, the identity case for
/// fully closed input, and failure only without any self-closed arc.
fn reconstruct_usable_rings(arcs: &Vec<Vec<Coord>>) -> (r: Result<Vec<Vec<Coord>>, EdigeoError>)
    requires
        forall|i: int| 0 <= i < arcs@.len() ==> (#[trigger] arcs@[i])@.len() >= 1,
    ensures
        match r {
            Ok(rings) => {
                &&& (arcs@.len() > 0 ==> rings@.len() > 0)
                &&& (forall|j: int|
                    0 <= j < rings@.len() ==> crate::repair::ring_usable((#[trigger] rings@[j])@))
                &&& ((forall|i: int|
                    0 <= i < arcs@.len() ==> crate::repair::self_closed((#[trigger] arcs@[i])@))
                    ==> crate::repair::arc_views(rings@) == crate::repair::arc_views(arcs@))
                &&& (crate::geom::arcs_bounded(arcs@) ==> forall|j: int|
                    0 <= j < rings@.len() ==> ring_bounded((#[trigger] rings@[j])@))
            },
            Err(e) => {
                &&& (e matches EdigeoError::RepairFailed { .. })
                &&& (forall|i: int|
                    0 <= i < arcs@.len() ==> !crate::repair::self_closed((#[trigger] arcs@[i])@))
            },
        },
{
    reconstruct_rings(arcs)
}

/// Exec test that every polygon ring is usable.
fn polygon_min_ring_exec(p: &Polygon) -> (b: bool)
    ensures
        b == polygon_sane(*p),
{
    if !ring_usable_exec(&p.exterior) {
        return false;
    }
    let n = p.interiors.len();
    let mut i: usize = 0;
    while i < n
        invariant
            0 <= i <= n,
            n == p.interiors@.len(),
            crate::repair::ring_usable(p.exterior@),
            forall|j: int| 0 <= j < i ==> crate::repair::ring_usable((#[trigger] p.interiors@[j])@),
        decreases n - i,
    {
        if !ring_usable_exec(&p.interiors[i]) {
            return false;
        }
        i = i + 1;
    }
    true
}

/// Exec test of a usable ring.
fn ring_usable_exec(r: &Vec<Coord>) -> (b: bool)
    ensures
        b == crate::repair::ring_usable(r@),
{
    r.len() >= 4 && crate::geom::coords_equal(r[0], r[r.len() - 1])
}

/// Exec test that every hole is in range.
fn interiors_bounded_exec(hs: &Vec<Vec<Coord>>) -> (b: bool)
    ensures
        b == (forall|j: int| 0 <= j < hs@.len() ==> ring_bounded((#[trigger] hs@[j])@)),
{
    let n = hs.len();
    let mut i: usize = 0;
    while i < n
        invariant
            0 <= i <= n,
            n == hs@.len(),
            forall|j: int| 0 <= j < i ==> ring_bounded((#[trigger] hs@[j])@),
        decreases n - i,
    {
        if !ring_bounded_exec(&hs[i]) {
            return false;
        }
        i = i + 1;
    }
    true
}

/// The polylines the named arcs qualify for a multi-line: for each
/// identifier in order, the named arc's vertices, when the arc
/// resolves, has at least two vertices, and is in range.
pub open spec fn qualifying_lines(
    par: Map<Seq<char>, crate::parser::vec_records::Arc>,
    ids: Seq<String>,
    k: int,
) -> Seq<Seq<Coord>>
    decreases k,
{
    if k <= 0 {
        Seq::empty()
    } else {
        let p = qualifying_lines(par, ids, k - 1);
        let id = ids[k - 1]@;
        if par.contains_key(id) && par[id].coords@.len() >= 2 && ring_bounded(par[id].coords@) {
            p.push(par[id].coords@)
        } else {
            p
        }
    }
}

/// Builds a line or multi-line from the arcs a relation names: one
/// named arc of two or more in-range vertices gives exactly that
/// line; several names give the multi-line of every qualifying arc,
/// in order; nothing qualifies, nothing comes out.
pub fn build_linestring_from_par(parsed: &ParsedVec, par_ids: &Vec<String>) -> (r: Option<
    Geometry,
>)
    ensures
        r matches Some(g) ==> geometry_sane(g) && geometry_bounded(g),
        par_ids@.len() == 1 ==> {
            let id = par_ids@[0]@;
            &&& (r is Some) == (parsed.par@.contains_key(id) && parsed.par@[id].coords@.len() >= 2
                && ring_bounded(parsed.par@[id].coords@))
            &&& (r matches Some(g) ==> (g matches Geometry::LineString(v) && v@ == parsed.par@[
                id
            ].coords@))
        },
        par_ids@.len() != 1 ==> {
            let q = qualifying_lines(parsed.par@, par_ids@, par_ids@.len() as int);
            &&& (r is Some) == (q.len() > 0)
            &&& (r matches Some(g) ==> (g matches Geometry::MultiLineString(ls) && ls@.map(
                |i: int, v: Vec<Coord>| v@,
            ) == q))
        },
{
    if par_ids.len() == 1 {
        match parsed.par.get(par_ids[0].as_str()) {
            Some(arc) => {
                if arc.coords.len() < 2 {
                    return None;
                }
                if !ring_bounded_exec(&arc.coords) {
                    return None;
                }
                Some(Geometry::LineString(copy_coords(&arc.coords)))
            },
            None => None,
        }
    } else {
        let mut lines: Vec<Vec<Coord>> = Vec::new();
        let n = par_ids.len();
        let mut i: usize = 0;
        while i < n
            invariant
                0 <= i <= n,
                n == par_ids@.len(),
                forall|j: int| 0 <= j < lines@.len() ==> (#[trigger] lines@[j])@.len() >= 2,
                forall|j: int| 0 <= j < lines@.len() ==> ring_bounded((#[trigger] lines@[j])@),
                lines@.map(|j: int, v: Vec<Coord>| v@) == qualifying_lines(
                    parsed.par@,
                    par_ids@,
                    i as int,
                ),
            decreases n - i,
        {
            match parsed.par.get(par_ids[i].as_str()) {
                Some(arc) => {
                    if arc.coords.len() >= 2 && ring_bounded_exec(&arc.coords) {
                        lines.push(copy_coords(&arc.coords));
                    }
                },
                None => {},
            }
            proof {
                assert(lines@.map(|j: int, v: Vec<Coord>| v@) =~= qualifying_lines(
                    parsed.par@,
                    par_ids@,
                    i + 1,
                ));
            }
            i = i + 1;
        }
        if lines.len() == 0 {
            None
        } else {
            Some(Geometry::MultiLineString(lines))
        }
    }
}

/// Builds a point from the first named node, exactly when that node
/// resolves and carries an in-range coordinate.
pub fn build_point_from_pno(parsed: &ParsedVec, pno_ids: &Vec<String>) -> (r: Option<Geometry>)
    ensures
        (r is Some) == (pno_ids@.len() > 0 && parsed.pno@.contains_key(pno_ids@[0]@)
            && parsed.pno@[pno_ids@[0]@].coords@.len() > 0 && coord_bounded(
            parsed.pno@[pno_ids@[0]@].coords@[0],
        )),
        r matches Some(g) ==> g == Geometry::Point(parsed.pno@[pno_ids@[0]@].coords@[0]),
{
    if pno_ids.len() == 0 {
        return None;
    }
    match parsed.pno.get(pno_ids[0].as_str()) {
        Some(node) => {
            if node.coords.len() == 0 {
                return None;
            }
            let c = node.coords[0];
            if !crate::geom::coord_bounded_exec(c) {
                return None;
            }
            Some(Geometry::Point(c))
        },
        None => None,
    }
}

/// Whether a relation record is of kind `REL`.
pub open spec fn rel_link(l: crate::parser::vec_records::Link) -> bool {
    match l.scp {
        Some(r) => r.rty@ == "REL"@,
        None => false,
    }
}

/// The first referenced record identifier of the given kind among the
/// first `k` references.
pub open spec fn first_rid(
    ftp: Seq<crate::parser::vec_records::Reference>,
    kind: Seq<char>,
    k: int,
) -> Option<Seq<char>>
    decreases k,
{
    if k <= 0 {
        None
    } else {
        match first_rid(ftp, kind, k - 1) {
            Some(x) => Some(x),
            None => if ftp[k - 1].rty@ == kind {
                Some(ftp[k - 1].rid@)
            } else {
                None
            },
        }
    }
}

/// All referenced record identifiers of the given kind among the
/// first `k` references, in order.
pub open spec fn rids_of(
    ftp: Seq<crate::parser::vec_records::Reference>,
    kind: Seq<char>,
    k: int,
) -> Seq<Seq<char>>
    decreases k,
{
    if k <= 0 {
        Seq::empty()
    } else {
        let p = rids_of(ftp, kind, k - 1);
        if ftp[k - 1].rty@ == kind {
            p.push(ftp[k - 1].rid@)
        } else {
            p
        }
    }
}

/// The attribute map a feature carries out: its record attributes,
/// with the creation and update dates of its quality entry joined in
/// when the reference resolves.
pub open spec fn props_of(
    attrs: Map<Seq<char>, String>,
    qap: Option<String>,
    quality: Map<Seq<char>, Quality>,
) -> Map<Seq<char>, String> {
    let m1 = match qap {
        Some(q) => if quality.contains_key(q@) {
            match quality[q@].create_date {
                Some(d) => attrs.insert("createDate"@, d),
                None => attrs,
            }
        } else {
            attrs
        },
        None => attrs,
    };
    match qap {
        Some(q) => if quality.contains_key(q@) {
            match quality[q@].update_date {
                Some(d) => m1.insert("updateDate"@, d),
                None => m1,
            }
        } else {
            m1
        },
        None => m1,
    }
}

/// The emitted identifier: the non-empty cadastral identifier
/// attribute when present, else the record identifier.
pub open spec fn feature_id_of(props: Map<Seq<char>, String>, rec_id: Seq<char>) -> Seq<char> {
    if props.contains_key("IDU"@) && props["IDU"@]@.len() > 0 {
        props["IDU"@]@
    } else {
        rec_id
    }
}

/// The emitted class name: the class reference identifier, verbatim.
pub open spec fn feature_type_of(scp: Option<crate::parser::vec_records::Reference>) -> Seq<
    char,
> {
    match scp {
        Some(r) => r.rid@,
        None => "UNKNOWN"@,
    }
}

/// How an emitted feature relates to the relation record it came
/// from: the relation is of kind `REL`, its first feature reference
/// resolves, and identifier, class name, attributes and geometry kind
/// all follow the record — faces give a polygon or multi-polygon,
/// else arcs give a line or multi-line, else the first node gives
/// exactly its first coordinate as a point.
pub open spec fn feature_from_link(
    f: Feature,
    l: crate::parser::vec_records::Link,
    pno: Map<Seq<char>, crate::parser::vec_records::Point>,
    fea_map: Map<Seq<char>, crate::parser::vec_records::Feature>,
    quality: Map<Seq<char>, Quality>,
) -> bool {
    &&& rel_link(l)
    &&& match first_rid(l.ftp@, "FEA"@, l.ftp@.len() as int) {
        Some(fid) => fea_map.contains_key(fid) && {
            let fr = fea_map[fid];
            let props = props_of(fr.attributes@, fr.qap, quality);
            &&& f.feature_type@ == feature_type_of(fr.scp)
            &&& f.properties@ == props
            &&& f.id@ == feature_id_of(props, fr.id@)
            &&& {
                let pfes = rids_of(l.ftp@, "PFE"@, l.ftp@.len() as int);
                let pars = rids_of(l.ftp@, "PAR"@, l.ftp@.len() as int);
                let pnos = rids_of(l.ftp@, "PNO"@, l.ftp@.len() as int);
                if pfes.len() > 0 {
                    f.geometry is Polygon || f.geometry is MultiPolygon
                } else if pars.len() > 0 {
                    f.geometry is LineString || f.geometry is MultiLineString
                } else {
                    pnos.len() > 0 && pno.contains_key(pnos[0]) && f.geometry
                        == Geometry::Point(pno[pnos[0]].coords@[0])
                }
            }
        },
        None => false,
    }
}

/// Builds typed features from the decoded records: each relation of
/// kind `REL` ties a business feature to faces, arcs or nodes, in
/// that order of preference; quality dates join the attributes; the
/// cadastral identifier names the feature when it is present and
/// non-empty. A face-bearing relation whose rings cannot be repaired
/// is dropped and recorded as a repair failure under its feature
/// identifier.
#[verifier::rlimit(100)]
pub fn build_geometries(
    parsed: &ParsedVec,
    quality: &StrMap<Quality>,
    errors: &mut Vec<EdigeoError>,
) -> (r: Result<Vec<Feature>, EdigeoError>)
    ensures
        r matches Ok(fs) && {
            &&& fs@.len() <= parsed.lnk.kv_seq().len()
            &&& (forall|i: int|
                0 <= i < fs@.len() ==> geometry_sane((#[trigger] fs@[i]).geometry)
                    && geometry_bounded(fs@[i].geometry))
            &&& (forall|i: int|
                0 <= i < fs@.len() ==> exists|k: int|
                    0 <= k < parsed.lnk.kv_seq().len() && feature_from_link(
                        #[trigger] fs@[i],
                        parsed.lnk.kv_seq()[k].1,
                        parsed.pno@,
                        parsed.fea@,
                        quality@,
                    ))
        },
        final(errors)@.len() >= old(errors)@.len(),
        final(errors)@.subrange(0, old(errors)@.len() as int) == old(errors)@,
        forall|e: int|
            old(errors)@.len() <= e < final(errors)@.len() ==> (#[trigger] final(errors)@[e])
                matches EdigeoError::RepairFailed { .. },
{
    proof {
        reveal_strlit("REL");
        reveal_strlit("FEA");
        reveal_strlit("PFE");
        reveal_strlit("PAR");
        reveal_strlit("PNO");
        reveal_strlit("IDU");
        reveal_strlit("UNKNOWN");
        reveal_strlit("createDate");
        reveal_strlit("updateDate");
    }
    let mut features: Vec<Feature> = Vec::new();
    let links = parsed.lnk.entries();
    let ln = links.len();
    let mut i: usize = 0;
    while i < ln
        invariant
            0 <= i <= ln,
            ln == links@.len(),
            links@ == parsed.lnk.kv_seq(),
            features@.len() <= i,
            forall|j: int|
                0 <= j < features@.len() ==> geometry_sane((#[trigger] features@[j]).geometry)
                    && geometry_bounded(features@[j].geometry),
            forall|j: int|
                0 <= j < features@.len() ==> exists|k: int|
                    0 <= k < parsed.lnk.kv_seq().len() && feature_from_link(
                        #[trigger] features@[j],
                        parsed.lnk.kv_seq()[k].1,
                        parsed.pno@,
                        parsed.fea@,
                        quality@,
                    ),
            errors@.len() >= old(errors)@.len(),
            errors@.subrange(0, old(errors)@.len() as int) == old(errors)@,
            forall|e: int|
                old(errors)@.len() <= e < errors@.len() ==> (#[trigger] errors@[e]) matches
                    EdigeoError::RepairFailed { .. },
        decreases ln - i,
    {
        let lnk = &links[i].1;
        let is_rel = match &lnk.scp {
            Some(scp) => crate::text::str_eq(scp.rty.as_str(), "REL"),
            None => false,
        };
        if is_rel {
            // Sort the tied references by kind.
            let mut fea_id: Option<String> = None;
            let mut pfe_ids: Vec<String> = Vec::new();
            let mut par_ids: Vec<String> = Vec::new();
            let mut pno_ids: Vec<String> = Vec::new();
            let ghost ftp = lnk.ftp@;
            let fn2 = lnk.ftp.len();
            let mut k: usize = 0;
            while k < fn2
                invariant
                    0 <= k <= fn2,
                    fn2 == ftp.len(),
                    ftp == lnk.ftp@,
                    (match fea_id {
                        Some(s) => first_rid(ftp, "FEA"@, k as int) == Some(s@),
                        None => first_rid(ftp, "FEA"@, k as int) is None,
                    }),
                    pfe_ids@.map(|t: int, s: String| s@) == rids_of(ftp, "PFE"@, k as int),
                    par_ids@.map(|t: int, s: String| s@) == rids_of(ftp, "PAR"@, k as int),
                    pno_ids@.map(|t: int, s: String| s@) == rids_of(ftp, "PNO"@, k as int),
                decreases fn2 - k,
            {
                let rf = &lnk.ftp[k];
                proof {
                    reveal_strlit("FEA");
                    reveal_strlit("PFE");
                    reveal_strlit("PAR");
                    reveal_strlit("PNO");
                    assert("FEA"@[0] == 'F' && "PFE"@[0] == 'P' && "PAR"@[0] == 'P' && "PNO"@[0]
                        == 'P' && "PFE"@[1] == 'F' && "PAR"@[1] == 'A' && "PNO"@[1] == 'N');
                }
                if fea_id.is_none() && crate::text::str_eq(rf.rty.as_str(), "FEA") {
                    fea_id = Some(rf.rid.clone());
                } else if crate::text::str_eq(rf.rty.as_str(), "PFE") {
                    pfe_ids.push(rf.rid.clone());
                } else if crate::text::str_eq(rf.rty.as_str(), "PAR") {
                    par_ids.push(rf.rid.clone());
                } else if crate::text::str_eq(rf.rty.as_str(), "PNO") {
                    pno_ids.push(rf.rid.clone());
                }
                proof {
                    assert(pfe_ids@.map(|t: int, s: String| s@) =~= rids_of(ftp, "PFE"@, k + 1));
                    assert(par_ids@.map(|t: int, s: String| s@) =~= rids_of(ftp, "PAR"@, k + 1));
                    assert(pno_ids@.map(|t: int, s: String| s@) =~= rids_of(ftp, "PNO"@, k + 1));
                }
                k = k + 1;
            }
            let fea = match fea_id {
                Some(fid) => {
                    match parsed.fea.get(fid.as_str()) {
                        Some(f) => Some(f),
                        None => None,
                    }
                },
                None => None,
            };
            match fea {
                Some(fea) => {
                    let geometry: Option<Geometry> = if pfe_ids.len() > 0 {
                        let built = build_polygon_from_pfe(parsed, &pfe_ids);
                        if built.is_none() {
                            // Surface the loss: the face could not be
                            // repaired into any polygon.
                            let ghost epre = errors@;
                            errors.push(
                                EdigeoError::RepairFailed {
                                    entity_id: fea.id.clone(),
                                    reason: "Could not build a polygon from the faces".to_owned(),
                                },
                            );
                            proof {
                                assert(errors@.subrange(0, old(errors)@.len() as int)
                                    =~= old(errors)@);
                            }
                        }
                        built
                    } else if par_ids.len() > 0 {
                        build_linestring_from_par(parsed, &par_ids)
                    } else if pno_ids.len() > 0 {
                        build_point_from_pno(parsed, &pno_ids)
                    } else {
                        None
                    };
                    match geometry {
                        Some(geometry) => {
                            // Attributes, plus the quality dates.
                            let mut properties = copy_str_map(&fea.attributes);
                            match &fea.qap {
                                Some(qid) => {
                                    match quality.get(qid.as_str()) {
                                        Some(q) => {
                                            match &q.create_date {
                                                Some(d) => {
                                                    properties.insert(
                                                        "createDate".to_owned(),
                                                        d.clone(),
                                                    );
                                                },
                                                None => {},
                                            }
                                            match &q.update_date {
                                                Some(d) => {
                                                    properties.insert(
                                                        "updateDate".to_owned(),
                                                        d.clone(),
                                                    );
                                                },
                                                None => {},
                                            }
                                        },
                                        None => {},
                                    }
                                },
                                None => {},
                            }
                            proof {
                                assert(properties@ == props_of(
                                    fea.attributes@,
                                    fea.qap,
                                    quality@,
                                ));
                            }
                            let feature_type = match &fea.scp {
                                Some(s) => s.rid.clone(),
                                None => "UNKNOWN".to_owned(),
                            };
                            let feature_id = match properties.get("IDU") {
                                Some(v) => {
                                    if v.as_str().is_empty() {
                                        fea.id.clone()
                                    } else {
                                        v.clone()
                                    }
                                },
                                None => fea.id.clone(),
                            };
                            let ghost features_old = features@;
                            let feature = Feature {
                                id: feature_id,
                                geometry,
                                properties,
                                feature_type,
                            };
                            proof {
                                assert(feature_from_link(
                                    feature,
                                    parsed.lnk.kv_seq()[i as int].1,
                                    parsed.pno@,
                                    parsed.fea@,
                                    quality@,
                                ));
                            }
                            features.push(feature);
                            proof {
                                assert forall|j: int|
                                    0 <= j < features@.len() implies exists|kk: int|
                                    0 <= kk < parsed.lnk.kv_seq().len() && feature_from_link(
                                        #[trigger] features@[j],
                                        parsed.lnk.kv_seq()[kk].1,
                                        parsed.pno@,
                                        parsed.fea@,
                                        quality@,
                                    ) by {
                                    if j < features_old.len() {
                                        assert(features@[j] == features_old[j]);
                                        let kk = choose|kk: int|
                                            0 <= kk < parsed.lnk.kv_seq().len()
                                                && feature_from_link(
                                                features_old[j],
                                                parsed.lnk.kv_seq()[kk].1,
                                                parsed.pno@,
                                                parsed.fea@,
                                                quality@,
                                            );
                                        assert(feature_from_link(
                                            features@[j],
                                            parsed.lnk.kv_seq()[kk].1,
                                            parsed.pno@,
                                            parsed.fea@,
                                            quality@,
                                        ));
                                    } else {
                                        assert(feature_from_link(
                                            features@[j],
                                            parsed.lnk.kv_seq()[i as int].1,
                                            parsed.pno@,
                                            parsed.fea@,
                                            quality@,
                                        ));
                                    }
                                }
                            }
                        },
                        None => {},
                    }
                },
                None => {},
            }
        }
        i = i + 1;
    }
    Ok(features)
}

/// Copies a string map.
fn copy_str_map(m: &StrMap<String>) -> (r: StrMap<String>)
    ensures
        r@ == m@,
{
    let mut r: StrMap<String> = StrMap::new();
    let entries = m.entries();
    let n = entries.len();
    let mut i: usize = 0;
    while i < n
        invariant
            0 <= i <= n,
            n == entries@.len(),
            entries@ == m.kv_seq(),
            m@ == crate::str_map::entries_map(m.kv_seq()),
            r@ == crate::str_map::entries_map(m.kv_seq().subrange(0, i as int)),
        decreases n - i,
    {
        r.insert(entries[i].0.clone(), entries[i].1.clone());
        proof {
            let t = m.kv_seq().subrange(0, i + 1);
            assert(t.drop_last() =~= m.kv_seq().subrange(0, i as int));
            assert(t.last() == m.kv_seq()[i as int]);
        }
        i = i + 1;
    }
    proof {
        assert(m.kv_seq().subrange(0, n as int) =~= m.kv_seq());
    }
    r
}

} // verus!
