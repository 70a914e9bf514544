//! Geometry model.
//!
//! Coordinates are fixed-point integers counting billionths of the source
//! unit (metres or degrees), so equality tests, rounding, quantisation and
//! the point-in-ring test are exact integer computations.

use vstd::prelude::*;

verus! {

/// One 2-D vertex, in billionths of a unit.
#[derive(Clone, Copy, Debug, PartialEq, Eq, Structural, Hash)]
pub struct Coord {
    pub x: i64,
    pub y: i64,
}

/// Largest magnitude a parsed coordinate may take (two billion units);
/// keeps every intermediate product inside `i128`.
pub const COORD_LIMIT: i64 = 2_000_000_000_000_000_000;

/// Whether one coordinate lies inside the supported range.
pub open spec fn coord_bounded(c: Coord) -> bool {
    &&& -COORD_LIMIT <= c.x <= COORD_LIMIT
    &&& -COORD_LIMIT <= c.y <= COORD_LIMIT
}

/// Whether every vertex of a ring or polyline is in range.
pub open spec fn ring_bounded(r: Seq<Coord>) -> bool {
    forall|i: int| 0 <= i < r.len() ==> coord_bounded(#[trigger] r[i])
}

/// Whether every vertex of every arc is in range.
pub open spec fn arcs_bounded(arcs: Seq<Vec<Coord>>) -> bool {
    forall|i: int| 0 <= i < arcs.len() ==> ring_bounded(#[trigger] arcs[i]@)
}

/// A polygon: one exterior ring and zero or more interior rings (holes).
#[derive(Clone, Debug)]
pub struct Polygon {
    pub exterior: Vec<Coord>,
    pub interiors: Vec<Vec<Coord>>,
}

/// A feature geometry.
#[derive(Clone, Debug)]
pub enum Geometry {
    Point(Coord),
    MultiPoint(Vec<Coord>),
    LineString(Vec<Coord>),
    MultiLineString(Vec<Vec<Coord>>),
    Polygon(Polygon),
    MultiPolygon(Vec<Polygon>),
}

// ---- tolerant coordinate equality ----

/// Two coordinates within a thousandth of a unit of each other (the
/// reconstruction tolerance) count as the same junction point.
pub open spec fn coords_eq(a: Coord, b: Coord) -> bool {
    &&& -1000 < a.x - b.x < 1000
    &&& -1000 < a.y - b.y < 1000
}

/// Exec test of `coords_eq`.
pub fn coords_equal(a: Coord, b: Coord) -> (r: bool)
    ensures
        r == coords_eq(a, b),
{
    let dx = (a.x as i128) - (b.x as i128);
    let dy = (a.y as i128) - (b.y as i128);
    -1000 < dx && dx < 1000 && -1000 < dy && dy < 1000
}

// ---- ingest precondition ----

/// A closed linear ring as the store accepts it: at least four vertices
/// and an exactly repeated first vertex.
pub open spec fn ring_ok(r: Seq<Coord>) -> bool {
    r.len() >= 4 && r.first() == r.last()
}

/// Every ring of the polygon is acceptable.
pub open spec fn polygon_ok(p: Polygon) -> bool {
    &&& ring_ok(p.exterior@)
    &&& forall|i: int| 0 <= i < p.interiors@.len() ==> ring_ok(#[trigger] p.interiors@[i]@)
}

/// The ingest precondition: which geometries the bulk loader may receive.
pub open spec fn geometry_ok(g: Geometry) -> bool {
    match g {
        Geometry::Point(_) => true,
        Geometry::MultiPoint(_) => true,
        Geometry::LineString(ls) => ls@.len() >= 2,
        Geometry::MultiLineString(mls) => forall|i: int|
            0 <= i < mls@.len() ==> (#[trigger] mls@[i])@.len() >= 2,
        Geometry::Polygon(p) => polygon_ok(p),
        Geometry::MultiPolygon(mp) => forall|i: int|
            0 <= i < mp@.len() ==> polygon_ok(#[trigger] mp@[i]),
    }
}

/// Exec test of a ring.
pub fn ring_ok_exec(r: &Vec<Coord>) -> (b: bool)
    ensures
        b == ring_ok(r@),
{
    r.len() >= 4 && {
        let first = r[0];
        let last = r[r.len() - 1];
        first.x == last.x && first.y == last.y
    }
}

/// Exec test of a polygon.
pub fn polygon_ok_exec(p: &Polygon) -> (b: bool)
    ensures
        b == polygon_ok(*p),
{
    if !ring_ok_exec(&p.exterior) {
        return false;
    }
    let n = p.interiors.len();
    let mut i: usize = 0;
    while i < n
        invariant
            0 <= i <= n,
            n == p.interiors@.len(),
            ring_ok(p.exterior@),
            forall|j: int| 0 <= j < i ==> ring_ok(#[trigger] p.interiors@[j]@),
        decreases n - i,
    {
        if !ring_ok_exec(&p.interiors[i]) {
            return false;
        }
        i = i + 1;
    }
    true
}

/// Exec test of the ingest precondition.
pub fn geometry_ok_for_postgis(g: &Geometry) -> (b: bool)
    ensures
        b == geometry_ok(*g),
{
    match g {
        Geometry::Point(_) => true,
        Geometry::MultiPoint(_) => true,
        Geometry::LineString(ls) => ls.len() >= 2,
        Geometry::MultiLineString(mls) => {
            let n = mls.len();
            let mut i: usize = 0;
            let mut ok = true;
            while i < n
                invariant
                    0 <= i <= n,
                    n == mls@.len(),
                    ok == (forall|j: int| 0 <= j < i ==> (#[trigger] mls@[j])@.len() >= 2),
                decreases n - i,
            {
                if mls[i].len() < 2 {
                    proof {
                        assert(!((mls@[i as int])@.len() >= 2));
                    }
                    ok = false;
                }
                i = i + 1;
            }
            ok
        },
        Geometry::Polygon(p) => polygon_ok_exec(p),
        Geometry::MultiPolygon(mp) => {
            let n = mp.len();
            let mut i: usize = 0;
            let mut ok = true;
            while i < n
                invariant
                    0 <= i <= n,
                    n == mp@.len(),
                    ok == (forall|j: int| 0 <= j < i ==> polygon_ok(#[trigger] mp@[j])),
                decreases n - i,
            {
                if !polygon_ok_exec(&mp[i]) {
                    ok = false;
                }
                i = i + 1;
            }
            ok
        },
    }
}

// ---- rounding ----

/// Round-half-away-from-zero of `v` to a multiple of `unit`, expressed in
/// multiples of `unit`.
pub open spec fn round_half_away(v: int, unit: int) -> int {
    if v >= 0 {
        (v + unit / 2) / unit
    } else {
        -(((-v) + unit / 2) / unit)
    }
}

proof fn lemma_round_mult_bounded(v: int, unit: int, limit: int)
    requires
        1 <= unit,
        0 < limit,
        limit % unit == 0,
        -limit <= v <= limit,
    ensures
        -limit <= round_half_away(v, unit) * unit <= limit,
    decreases (if v >= 0 { 0int } else { 1int }),
{
    if v >= 0 {
        let q = (v + unit / 2) / unit;
        let l = limit / unit;
        assert(l * unit == limit) by (nonlinear_arith)
            requires
                1 <= unit,
                limit % unit == 0,
                l == limit / unit,
        ;
        assert(q * unit <= v + unit / 2 && 0 <= q * unit) by (nonlinear_arith)
            requires
                1 <= unit,
                0 <= v,
                q == (v + unit / 2) / unit,
        ;
        assert(q <= l) by (nonlinear_arith)
            requires
                1 <= unit,
                q * unit <= v + unit / 2,
                v <= limit,
                l * unit == limit,
                0 <= q,
        ;
        assert(q * unit <= l * unit) by (nonlinear_arith)
            requires
                q <= l,
                1 <= unit,
        ;
    } else {
        lemma_round_mult_bounded(-v, unit, limit);
        assert(round_half_away(v, unit) == -round_half_away(-v, unit));
        assert((-round_half_away(-v, unit)) * unit == -(round_half_away(-v, unit) * unit))
            by (nonlinear_arith);
    }
}

/// Rounds `v` to the nearest multiple of `unit`, halves away from zero.
pub fn round_to_unit(v: i64, unit: i64) -> (r: i64)
    requires
        1 <= unit <= 1_000_000_000,
        (COORD_LIMIT as int) % (unit as int) == 0,
        -COORD_LIMIT <= v <= COORD_LIMIT,
    ensures
        r as int == round_half_away(v as int, unit as int) * unit,
        -COORD_LIMIT <= r <= COORD_LIMIT,
{
    let vi = v as i128;
    let u = unit as i128;
    let m: i128 = if vi >= 0 { vi } else { -vi };
    let mq = (m + u / 2) / u;
    proof {
        assert((mq as int) * (u as int) <= (m as int) + (u as int) / 2 && 0 <= (mq as int) * (
        u as int) && 0 <= mq) by (nonlinear_arith)
            requires
                1 <= u as int,
                0 <= m as int,
                mq as int == ((m as int) + (u as int) / 2) / (u as int),
        ;
    }
    let prod = mq * u;
    let r128: i128 = if vi >= 0 { prod } else { -prod };
    proof {
        lemma_round_mult_bounded(v as int, unit as int, COORD_LIMIT as int);
        if v >= 0 {
            assert(mq == round_half_away(v as int, unit as int));
        } else {
            assert(round_half_away(v as int, unit as int) == -mq);
            assert((-mq) * (unit as int) == -(mq * (unit as int))) by (nonlinear_arith);
        }
    }
    r128 as i64
}

/// The rounding unit for a decimal precision: `10^(9-p)` for `p < 9`,
/// and 1 (no rounding) from nine decimals up.
pub open spec fn unit_for_precision(p: int) -> int {
    if p <= 0 {
        1_000_000_000
    } else if p == 1 {
        100_000_000
    } else if p == 2 {
        10_000_000
    } else if p == 3 {
        1_000_000
    } else if p == 4 {
        100_000
    } else if p == 5 {
        10_000
    } else if p == 6 {
        1_000
    } else if p == 7 {
        100
    } else if p == 8 {
        10
    } else {
        1
    }
}

/// Exec table of `unit_for_precision`.
pub fn precision_unit(p: u8) -> (u: i64)
    ensures
        u as int == unit_for_precision(p as int),
        1 <= u <= 1_000_000_000,
        (COORD_LIMIT as int) % (u as int) == 0,
{
    if p == 0 {
        1_000_000_000
    } else if p == 1 {
        100_000_000
    } else if p == 2 {
        10_000_000
    } else if p == 3 {
        1_000_000
    } else if p == 4 {
        100_000
    } else if p == 5 {
        10_000
    } else if p == 6 {
        1_000
    } else if p == 7 {
        100
    } else if p == 8 {
        10
    } else {
        1
    }
}

/// One rounded coordinate.
pub open spec fn spec_round_coord(c: Coord, p: int) -> Coord {
    Coord {
        x: (round_half_away(c.x as int, unit_for_precision(p)) * unit_for_precision(p)) as i64,
        y: (round_half_away(c.y as int, unit_for_precision(p)) * unit_for_precision(p)) as i64,
    }
}

/// A rounded ring.
pub open spec fn spec_round_ring(r: Seq<Coord>, p: int) -> Seq<Coord> {
    r.map(|i: int, c: Coord| spec_round_coord(c, p))
}

/// Rounds one coordinate.
pub fn round_coord(c: Coord, unit: i64, Ghost(p): Ghost<int>) -> (r: Coord)
    requires
        unit as int == unit_for_precision(p),
        1 <= unit <= 1_000_000_000,
        (COORD_LIMIT as int) % (unit as int) == 0,
        coord_bounded(c),
    ensures
        r == spec_round_coord(c, p),
        coord_bounded(r),
{
    Coord { x: round_to_unit(c.x, unit), y: round_to_unit(c.y, unit) }
}

/// Rounds every vertex of a ring.
pub fn round_ring(r: &Vec<Coord>, unit: i64, Ghost(p): Ghost<int>) -> (out: Vec<Coord>)
    requires
        unit as int == unit_for_precision(p),
        1 <= unit <= 1_000_000_000,
        (COORD_LIMIT as int) % (unit as int) == 0,
        ring_bounded(r@),
    ensures
        out@ == spec_round_ring(r@, p),
        ring_bounded(out@),
{
    let n = r.len();
    let mut out: Vec<Coord> = Vec::new();
    let mut i: usize = 0;
    while i < n
        invariant
            0 <= i <= n,
            n == r@.len(),
            unit as int == unit_for_precision(p),
            1 <= unit <= 1_000_000_000,
            (COORD_LIMIT as int) % (unit as int) == 0,
            ring_bounded(r@),
            out@ == spec_round_ring(r@.subrange(0, i as int), p),
            ring_bounded(out@),
        decreases n - i,
    {
        out.push(round_coord(r[i], unit, Ghost(p)));
        proof {
            assert(out@ =~= spec_round_ring(r@.subrange(0, i + 1), p));
        }
        i = i + 1;
    }
    proof {
        assert(r@.subrange(0, n as int) =~= r@);
    }
    out
}

/// Whether every vertex of the geometry is in range.
pub open spec fn geometry_bounded(g: Geometry) -> bool {
    match g {
        Geometry::Point(c) => coord_bounded(c),
        Geometry::MultiPoint(v) => ring_bounded(v@),
        Geometry::LineString(v) => ring_bounded(v@),
        Geometry::MultiLineString(ls) => forall|i: int|
            0 <= i < ls@.len() ==> ring_bounded((#[trigger] ls@[i])@),
        Geometry::Polygon(p) => polygon_bounded(p),
        Geometry::MultiPolygon(mp) => forall|i: int|
            0 <= i < mp@.len() ==> polygon_bounded(#[trigger] mp@[i]),
    }
}

/// Whether every vertex of the polygon is in range.
pub open spec fn polygon_bounded(p: Polygon) -> bool {
    &&& ring_bounded(p.exterior@)
    &&& forall|i: int| 0 <= i < p.interiors@.len() ==> ring_bounded((#[trigger] p.interiors@[i])@)
}

/// How an output ring list relates to its input under rounding.
pub open spec fn rings_rounded(a: Seq<Vec<Coord>>, b: Seq<Vec<Coord>>, p: int) -> bool {
    &&& b.len() == a.len()
    &&& forall|i: int| 0 <= i < a.len() ==> (#[trigger] b[i])@ == spec_round_ring(a[i]@, p)
}

/// How an output polygon relates to its input under rounding.
pub open spec fn polygon_rounded(a: Polygon, b: Polygon, p: int) -> bool {
    &&& b.exterior@ == spec_round_ring(a.exterior@, p)
    &&& rings_rounded(a.interiors@, b.interiors@, p)
}

/// How an output geometry relates to its input under rounding: same
/// shape, every vertex rounded to the precision.
pub open spec fn geometry_rounded(g: Geometry, o: Geometry, p: int) -> bool {
    match (g, o) {
        (Geometry::Point(c), Geometry::Point(d)) => d == spec_round_coord(c, p),
        (Geometry::MultiPoint(a), Geometry::MultiPoint(b)) => b@ == spec_round_ring(a@, p),
        (Geometry::LineString(a), Geometry::LineString(b)) => b@ == spec_round_ring(a@, p),
        (Geometry::MultiLineString(a), Geometry::MultiLineString(b)) => rings_rounded(a@, b@, p),
        (Geometry::Polygon(a), Geometry::Polygon(b)) => polygon_rounded(a, b, p),
        (Geometry::MultiPolygon(a), Geometry::MultiPolygon(b)) => {
            &&& b@.len() == a@.len()
            &&& forall|i: int| 0 <= i < a@.len() ==> polygon_rounded(a@[i], #[trigger] b@[i], p)
        },
        _ => false,
    }
}

/// Rounds every ring of a list.
fn round_rings(rs: &Vec<Vec<Coord>>, unit: i64, Ghost(p): Ghost<int>) -> (out: Vec<Vec<Coord>>)
    requires
        unit as int == unit_for_precision(p),
        1 <= unit <= 1_000_000_000,
        (COORD_LIMIT as int) % (unit as int) == 0,
        forall|i: int| 0 <= i < rs@.len() ==> ring_bounded((#[trigger] rs@[i])@),
    ensures
        rings_rounded(rs@, out@, p),
        forall|i: int| 0 <= i < out@.len() ==> ring_bounded((#[trigger] out@[i])@),
{
    let n = rs.len();
    let mut out: Vec<Vec<Coord>> = Vec::new();
    let mut i: usize = 0;
    while i < n
        invariant
            0 <= i <= n,
            n == rs@.len(),
            unit as int == unit_for_precision(p),
            1 <= unit <= 1_000_000_000,
            (COORD_LIMIT as int) % (unit as int) == 0,
            forall|k: int| 0 <= k < n ==> ring_bounded((#[trigger] rs@[k])@),
            out@.len() == i,
            forall|k: int| 0 <= k < i ==> (#[trigger] out@[k])@ == spec_round_ring(rs@[k]@, p),
            forall|k: int| 0 <= k < i ==> ring_bounded((#[trigger] out@[k])@),
        decreases n - i,
    {
        out.push(round_ring(&rs[i], unit, Ghost(p)));
        i = i + 1;
    }
    out
}

/// Rounds every ring of a polygon.
fn round_polygon(pg: &Polygon, unit: i64, Ghost(p): Ghost<int>) -> (out: Polygon)
    requires
        unit as int == unit_for_precision(p),
        1 <= unit <= 1_000_000_000,
        (COORD_LIMIT as int) % (unit as int) == 0,
        polygon_bounded(*pg),
    ensures
        polygon_rounded(*pg, out, p),
        polygon_bounded(out),
{
    Polygon {
        exterior: round_ring(&pg.exterior, unit, Ghost(p)),
        interiors: round_rings(&pg.interiors, unit, Ghost(p)),
    }
}

/// Rounds every vertex of a geometry to `decimals` decimal places of the
/// source unit, halves away from zero; nine or more decimals leave the
/// fixed-point value unchanged.
pub fn round_geometry_coords(g: &Geometry, decimals: u8) -> (out: Geometry)
    requires
        geometry_bounded(*g),
    ensures
        geometry_rounded(*g, out, decimals as int),
        geometry_bounded(out),
{
    let unit = precision_unit(decimals);
    let ghost p: int = decimals as int;
    match g {
        Geometry::Point(c) => Geometry::Point(round_coord(*c, unit, Ghost(p))),
        Geometry::MultiPoint(v) => Geometry::MultiPoint(round_ring(v, unit, Ghost(p))),
        Geometry::LineString(v) => Geometry::LineString(round_ring(v, unit, Ghost(p))),
        Geometry::MultiLineString(ls) => Geometry::MultiLineString(
            round_rings(ls, unit, Ghost(p)),
        ),
        Geometry::Polygon(pg) => Geometry::Polygon(round_polygon(pg, unit, Ghost(p))),
        Geometry::MultiPolygon(mp) => {
            let n = mp.len();
            let mut out: Vec<Polygon> = Vec::new();
            let mut i: usize = 0;
            while i < n
                invariant
                    0 <= i <= n,
                    n == mp@.len(),
                    unit as int == unit_for_precision(p),
                    1 <= unit <= 1_000_000_000,
                    (COORD_LIMIT as int) % (unit as int) == 0,
                    forall|k: int| 0 <= k < n ==> polygon_bounded(#[trigger] mp@[k]),
                    out@.len() == i,
                    forall|k: int| 0 <= k < i ==> polygon_rounded(mp@[k], #[trigger] out@[k], p),
                    forall|k: int| 0 <= k < i ==> polygon_bounded(#[trigger] out@[k]),
                decreases n - i,
            {
                out.push(round_polygon(&mp[i], unit, Ghost(p)));
                i = i + 1;
            }
            Geometry::MultiPolygon(out)
        },
    }
}

// ---- point-in-ring (ray casting) ----

/// Whether the edge from `a` to `b` crosses the horizontal ray going
/// right from `p`, counting each crossing once.
pub open spec fn edge_crosses(a: Coord, b: Coord, p: Coord) -> bool {
    let cross = (b.x - a.x) * (p.y - a.y) - (p.x - a.x) * (b.y - a.y);
    if (a.y > p.y) == (b.y > p.y) {
        false
    } else if b.y > a.y {
        cross > 0
    } else {
        cross < 0
    }
}

/// Number of edges among the first `k` edges of `r` that cross the ray.
pub open spec fn crossings_upto(r: Seq<Coord>, p: Coord, k: int) -> nat
    decreases k,
{
    if k <= 0 {
        0
    } else {
        crossings_upto(r, p, k - 1) + (if edge_crosses(r[k - 1], r[k], p) {
            1nat
        } else {
            0nat
        })
    }
}

/// The ray-casting containment test: `p` is inside the ring when a ray
/// to the right crosses its edges an odd number of times.
pub open spec fn point_in_ring_spec(r: Seq<Coord>, p: Coord) -> bool {
    r.len() >= 2 && crossings_upto(r, p, r.len() - 1) % 2 == 1
}

/// Exec ray-casting test.
pub fn point_in_ring(r: &Vec<Coord>, p: Coord) -> (b: bool)
    requires
        ring_bounded(r@),
        coord_bounded(p),
    ensures
        b == point_in_ring_spec(r@, p),
{
    let n = r.len();
    if n < 2 {
        return false;
    }
    let mut cnt: usize = 0;
    let mut i: usize = 1;
    while i < n
        invariant
            1 <= i <= n,
            n == r@.len(),
            ring_bounded(r@),
            coord_bounded(p),
            cnt <= i - 1,
            cnt as nat == crossings_upto(r@, p, i - 1),
        decreases n - i,
    {
        let a = r[i - 1];
        let b = r[i];
        let ax = a.x as i128;
        let ay = a.y as i128;
        let bx = b.x as i128;
        let by = b.y as i128;
        let px = p.x as i128;
        let py = p.y as i128;
        proof {
            assert(coord_bounded(r@[i - 1]));
            assert(coord_bounded(r@[i as int]));
        }
        let crosses: bool = if (ay > py) == (by > py) {
            false
        } else {
            let d1 = bx - ax;
            let d2 = py - ay;
            let d3 = px - ax;
            let d4 = by - ay;
            proof {
                let l: int = 4_000_000_000_000_000_000;
                assert((-(l * l) <= (d1 as int) * (d2 as int) <= l * l) && (-(l * l) <= (d3 as int)
                    * (d4 as int) <= l * l)) by (nonlinear_arith)
                    requires
                        -l <= d1 as int <= l,
                        -l <= d2 as int <= l,
                        -l <= d3 as int <= l,
                        -l <= d4 as int <= l,
                        l == 4_000_000_000_000_000_000,
                ;
            }
            let cross = d1 * d2 - d3 * d4;
            if by > ay {
                cross > 0
            } else {
                cross < 0
            }
        };
        proof {
            assert(crosses == edge_crosses(r@[i - 1], r@[i as int], p));
        }
        if crosses {
            cnt = cnt + 1;
        }
        i = i + 1;
    }
    cnt % 2 == 1
}

/// Exec test of `coord_bounded`.
pub fn coord_bounded_exec(c: Coord) -> (b: bool)
    ensures
        b == coord_bounded(c),
{
    -COORD_LIMIT <= c.x && c.x <= COORD_LIMIT && -COORD_LIMIT <= c.y && c.y <= COORD_LIMIT
}

/// Exec test of `ring_bounded`.
pub fn ring_bounded_exec(r: &Vec<Coord>) -> (b: bool)
    ensures
        b == ring_bounded(r@),
{
    let n = r.len();
    let mut i: usize = 0;
    while i < n
        invariant
            0 <= i <= n,
            n == r@.len(),
            forall|j: int| 0 <= j < i ==> coord_bounded(#[trigger] r@[j]),
        decreases n - i,
    {
        if !coord_bounded_exec(r[i]) {
            return false;
        }
        i = i + 1;
    }
    true
}

/// Exec test of `arcs_bounded`.
pub fn arcs_bounded_exec(arcs: &Vec<Vec<Coord>>) -> (b: bool)
    ensures
        b == arcs_bounded(arcs@),
{
    let n = arcs.len();
    let mut i: usize = 0;
    while i < n
        invariant
            0 <= i <= n,
            n == arcs@.len(),
            forall|j: int| 0 <= j < i ==> ring_bounded((#[trigger] arcs@[j])@),
        decreases n - i,
    {
        if !ring_bounded_exec(&arcs[i]) {
            return false;
        }
        i = i + 1;
    }
    true
}

/// Exec test of `geometry_bounded`.
pub fn geometry_bounded_exec(g: &Geometry) -> (b: bool)
    ensures
        b == geometry_bounded(*g),
{
    match g {
        Geometry::Point(c) => coord_bounded_exec(*c),
        Geometry::MultiPoint(v) => ring_bounded_exec(v),
        Geometry::LineString(v) => ring_bounded_exec(v),
        Geometry::MultiLineString(ls) => arcs_bounded_exec(ls),
        Geometry::Polygon(p) => polygon_bounded_exec(p),
        Geometry::MultiPolygon(mp) => polygons_bounded_exec(mp),
    }
}

/// Exec test that every polygon of a list is in range.
pub fn polygons_bounded_exec(mp: &Vec<Polygon>) -> (b: bool)
    ensures
        b == (forall|j: int| 0 <= j < mp@.len() ==> polygon_bounded(#[trigger] mp@[j])),
{
    let n = mp.len();
    let mut i: usize = 0;
    while i < n
        invariant
            0 <= i <= n,
            n == mp@.len(),
            forall|j: int| 0 <= j < i ==> polygon_bounded(#[trigger] mp@[j]),
        decreases n - i,
    {
        if !polygon_bounded_exec(&mp[i]) {
            return false;
        }
        i = i + 1;
    }
    true
}

/// Exec test of `polygon_bounded`.
pub fn polygon_bounded_exec(p: &Polygon) -> (b: bool)
    ensures
        b == polygon_bounded(*p),
{
    if !ring_bounded_exec(&p.exterior) {
        return false;
    }
    let n = p.interiors.len();
    let mut i: usize = 0;
    while i < n
        invariant
            0 <= i <= n,
            n == p.interiors@.len(),
            ring_bounded(p.exterior@),
            forall|j: int| 0 <= j < i ==> ring_bounded((#[trigger] p.interiors@[j])@),
        decreases n - i,
    {
        if !ring_bounded_exec(&p.interiors[i]) {
            return false;
        }
        i = i + 1;
    }
    true
}

} // verus!
