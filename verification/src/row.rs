//! The bulk-load row encoder: geometry as extended well-known text,
//! quoted text fields, and the fixed column order the copy stream
//! names.

use vstd::prelude::*;
use vstd::string::StringSliceAdditionalSpecFns;

use crate::geom::{Coord, Geometry, Polygon, geometry_ok, geometry_ok_for_postgis};
use crate::numbers::{fixed_chars, fixed_trunc_chars, push_fixed_chars, push_fixed_trunc_chars};

verus! {

/// Characters taken as bytes, one for one.
pub open spec fn ascii(s: Seq<char>) -> Seq<u8> {
    s.map(|i: int, c: char| c as u8)
}

/// Appends the characters of `v` as bytes.
fn push_ascii_chars(out: &mut Vec<u8>, v: &Vec<char>)
    ensures
        final(out)@ == old(out)@ + ascii(v@),
{
    let n = v.len();
    let mut i: usize = 0;
    while i < n
        invariant
            0 <= i <= n,
            n == v@.len(),
            out@ == old(out)@ + ascii(v@.subrange(0, i as int)),
        decreases n - i,
    {
        out.push(v[i] as u8);
        proof {
            assert(out@ =~= old(out)@ + ascii(v@.subrange(0, i + 1)));
        }
        i = i + 1;
    }
    proof {
        assert(v@.subrange(0, n as int) =~= v@);
    }
}

// ---- well-known text ----

/// One vertex: x, a space, y.
pub open spec fn coord_wkt(c: Coord) -> Seq<u8> {
    ascii(fixed_chars(c.x as int)) + seq![32u8] + ascii(fixed_chars(c.y as int))
}

/// A comma-separated vertex list.
pub open spec fn coords_wkt(s: Seq<Coord>) -> Seq<u8>
    decreases s.len(),
{
    if s.len() == 0 {
        Seq::empty()
    } else if s.len() == 1 {
        coord_wkt(s[0])
    } else {
        coords_wkt(s.drop_last()) + seq![44u8] + coord_wkt(s.last())
    }
}

/// A parenthesised vertex list.
pub open spec fn ring_wkt(r: Seq<Coord>) -> Seq<u8> {
    seq![40u8] + coords_wkt(r) + seq![41u8]
}

/// A comma-separated list of parenthesised vertex lists.
pub open spec fn rings_wkt(rs: Seq<Vec<Coord>>) -> Seq<u8>
    decreases rs.len(),
{
    if rs.len() == 0 {
        Seq::empty()
    } else if rs.len() == 1 {
        ring_wkt(rs[0]@)
    } else {
        rings_wkt(rs.drop_last()) + seq![44u8] + ring_wkt(rs.last()@)
    }
}

/// The holes of a polygon, each preceded by a comma.
pub open spec fn holes_wkt(hs: Seq<Vec<Coord>>) -> Seq<u8>
    decreases hs.len(),
{
    if hs.len() == 0 {
        Seq::empty()
    } else {
        holes_wkt(hs.drop_last()) + seq![44u8] + ring_wkt(hs.last()@)
    }
}

/// A polygon body: exterior and holes, parenthesised.
pub open spec fn polygon_wkt(p: Polygon) -> Seq<u8> {
    seq![40u8] + ring_wkt(p.exterior@) + holes_wkt(p.interiors@) + seq![41u8]
}

/// A comma-separated list of polygon bodies.
pub open spec fn polygons_wkt(ps: Seq<Polygon>) -> Seq<u8>
    decreases ps.len(),
{
    if ps.len() == 0 {
        Seq::empty()
    } else if ps.len() == 1 {
        polygon_wkt(ps[0])
    } else {
        polygons_wkt(ps.drop_last()) + seq![44u8] + polygon_wkt(ps.last())
    }
}

/// The well-known text of a geometry, as bytes.
pub open spec fn wkt_bytes(g: Geometry) -> Seq<u8> {
    match g {
        Geometry::Point(c) => seq![80u8, 79u8, 73u8, 78u8, 84u8, 40u8] + coord_wkt(c) + seq![41u8],
        Geometry::MultiPoint(v) => seq![
            77u8, 85u8, 76u8, 84u8, 73u8, 80u8, 79u8, 73u8, 78u8, 84u8, 40u8,
        ] + coords_wkt(v@) + seq![41u8],
        Geometry::LineString(v) => seq![
            76u8, 73u8, 78u8, 69u8, 83u8, 84u8, 82u8, 73u8, 78u8, 71u8, 40u8,
        ] + coords_wkt(v@) + seq![41u8],
        Geometry::MultiLineString(ls) => seq![
            77u8, 85u8, 76u8, 84u8, 73u8, 76u8, 73u8, 78u8, 69u8, 83u8, 84u8, 82u8, 73u8, 78u8,
            71u8, 40u8,
        ] + rings_wkt(ls@) + seq![41u8],
        Geometry::Polygon(p) => seq![80u8, 79u8, 76u8, 89u8, 71u8, 79u8, 78u8] + polygon_wkt(p),
        Geometry::MultiPolygon(mp) => seq![
            77u8, 85u8, 76u8, 84u8, 73u8, 80u8, 79u8, 76u8, 89u8, 71u8, 79u8, 78u8, 40u8,
        ] + polygons_wkt(mp@) + seq![41u8],
    }
}

/// Appends one vertex.
fn push_coord_wkt(out: &mut Vec<u8>, c: Coord)
    ensures
        final(out)@ == old(out)@ + coord_wkt(c),
{
    let mut xs: Vec<char> = Vec::new();
    push_fixed_chars(c.x, &mut xs);
    push_ascii_chars(out, &xs);
    out.push(32u8);
    let mut ys: Vec<char> = Vec::new();
    push_fixed_chars(c.y, &mut ys);
    push_ascii_chars(out, &ys);
    proof {
        assert(out@ =~= old(out)@ + coord_wkt(c));
    }
}

proof fn lemma_coords_wkt_step(s: Seq<Coord>, k: int)
    requires
        1 <= k < s.len(),
    ensures
        coords_wkt(s.subrange(0, k + 1)) == coords_wkt(s.subrange(0, k)) + seq![44u8] + coord_wkt(
            s[k],
        ),
{
    let t = s.subrange(0, k + 1);
    assert(t.drop_last() =~= s.subrange(0, k));
    assert(t.last() == s[k]);
}

/// Appends a comma-separated vertex list.
fn push_coords_wkt(out: &mut Vec<u8>, s: &Vec<Coord>)
    ensures
        final(out)@ == old(out)@ + coords_wkt(s@),
{
    let n = s.len();
    let mut i: usize = 0;
    while i < n
        invariant
            0 <= i <= n,
            n == s@.len(),
            out@ == old(out)@ + coords_wkt(s@.subrange(0, i as int)),
        decreases n - i,
    {
        if i > 0 {
            out.push(44u8);
        }
        push_coord_wkt(out, s[i]);
        proof {
            if i == 0 {
                assert(s@.subrange(0, 1) =~= seq![s@[0]]);
                assert(coords_wkt(s@.subrange(0, 1)) == coord_wkt(s@[0]));
                assert(out@ =~= old(out)@ + coords_wkt(s@.subrange(0, 1)));
            } else {
                lemma_coords_wkt_step(s@, i as int);
                assert(out@ =~= old(out)@ + coords_wkt(s@.subrange(0, i + 1)));
            }
        }
        i = i + 1;
    }
    proof {
        assert(s@.subrange(0, n as int) =~= s@);
    }
}

/// Appends a parenthesised vertex list.
fn push_ring_wkt(out: &mut Vec<u8>, r: &Vec<Coord>)
    ensures
        final(out)@ == old(out)@ + ring_wkt(r@),
{
    out.push(40u8);
    push_coords_wkt(out, r);
    out.push(41u8);
    proof {
        assert(out@ =~= old(out)@ + ring_wkt(r@));
    }
}

proof fn lemma_rings_wkt_step(s: Seq<Vec<Coord>>, k: int)
    requires
        1 <= k < s.len(),
    ensures
        rings_wkt(s.subrange(0, k + 1)) == rings_wkt(s.subrange(0, k)) + seq![44u8] + ring_wkt(
            s[k]@,
        ),
{
    let t = s.subrange(0, k + 1);
    assert(t.drop_last() =~= s.subrange(0, k));
    assert(t.last() == s[k]);
}

/// Appends a comma-separated list of rings.
fn push_rings_wkt(out: &mut Vec<u8>, rs: &Vec<Vec<Coord>>)
    ensures
        final(out)@ == old(out)@ + rings_wkt(rs@),
{
    let n = rs.len();
    let mut i: usize = 0;
    while i < n
        invariant
            0 <= i <= n,
            n == rs@.len(),
            out@ == old(out)@ + rings_wkt(rs@.subrange(0, i as int)),
        decreases n - i,
    {
        if i > 0 {
            out.push(44u8);
        }
        push_ring_wkt(out, &rs[i]);
        proof {
            if i == 0 {
                assert(rs@.subrange(0, 1) =~= seq![rs@[0]]);
                assert(rings_wkt(rs@.subrange(0, 1)) == ring_wkt(rs@[0]@));
                assert(out@ =~= old(out)@ + rings_wkt(rs@.subrange(0, 1)));
            } else {
                lemma_rings_wkt_step(rs@, i as int);
                assert(out@ =~= old(out)@ + rings_wkt(rs@.subrange(0, i + 1)));
            }
        }
        i = i + 1;
    }
    proof {
        assert(rs@.subrange(0, n as int) =~= rs@);
    }
}

/// Appends one polygon body.
fn push_polygon_wkt(out: &mut Vec<u8>, p: &Polygon)
    ensures
        final(out)@ == old(out)@ + polygon_wkt(*p),
{
    out.push(40u8);
    push_ring_wkt(out, &p.exterior);
    let n = p.interiors.len();
    let mut i: usize = 0;
    while i < n
        invariant
            0 <= i <= n,
            n == p.interiors@.len(),
            out@ == old(out)@ + seq![40u8] + ring_wkt(p.exterior@) + holes_wkt(
                p.interiors@.subrange(0, i as int),
            ),
        decreases n - i,
    {
        out.push(44u8);
        push_ring_wkt(out, &p.interiors[i]);
        proof {
            let t = p.interiors@.subrange(0, i + 1);
            assert(t.drop_last() =~= p.interiors@.subrange(0, i as int));
            assert(t.last() == p.interiors@[i as int]);
            assert(out@ =~= old(out)@ + seq![40u8] + ring_wkt(p.exterior@) + holes_wkt(t));
        }
        i = i + 1;
    }
    out.push(41u8);
    proof {
        assert(p.interiors@.subrange(0, n as int) =~= p.interiors@);
        assert(out@ =~= old(out)@ + polygon_wkt(*p));
    }
}

proof fn lemma_polygons_wkt_step(s: Seq<Polygon>, k: int)
    requires
        1 <= k < s.len(),
    ensures
        polygons_wkt(s.subrange(0, k + 1)) == polygons_wkt(s.subrange(0, k)) + seq![44u8]
            + polygon_wkt(s[k]),
{
    let t = s.subrange(0, k + 1);
    assert(t.drop_last() =~= s.subrange(0, k));
    assert(t.last() == s[k]);
}

/// Appends the well-known text of a geometry.
pub fn push_wkt_bytes(out: &mut Vec<u8>, g: &Geometry)
    ensures
        final(out)@ == old(out)@ + wkt_bytes(*g),
{
    match g {
        Geometry::Point(c) => {
            crate::bytes::push_byte_slice(out, &[80u8, 79u8, 73u8, 78u8, 84u8, 40u8]);
            push_coord_wkt(out, *c);
            out.push(41u8);
            proof {
                assert([80u8, 79u8, 73u8, 78u8, 84u8, 40u8]@ =~= seq![
                    80u8, 79u8, 73u8, 78u8, 84u8, 40u8,
                ]);
                assert(out@ =~= old(out)@ + wkt_bytes(*g));
            }
        },
        Geometry::MultiPoint(v) => {
            crate::bytes::push_byte_slice(
                out,
                &[77u8, 85u8, 76u8, 84u8, 73u8, 80u8, 79u8, 73u8, 78u8, 84u8, 40u8],
            );
            push_coords_wkt(out, v);
            out.push(41u8);
            proof {
                assert([77u8, 85u8, 76u8, 84u8, 73u8, 80u8, 79u8, 73u8, 78u8, 84u8, 40u8]@ =~= seq![
                    77u8, 85u8, 76u8, 84u8, 73u8, 80u8, 79u8, 73u8, 78u8, 84u8, 40u8,
                ]);
                assert(out@ =~= old(out)@ + wkt_bytes(*g));
            }
        },
        Geometry::LineString(v) => {
            crate::bytes::push_byte_slice(
                out,
                &[76u8, 73u8, 78u8, 69u8, 83u8, 84u8, 82u8, 73u8, 78u8, 71u8, 40u8],
            );
            push_coords_wkt(out, v);
            out.push(41u8);
            proof {
                assert([76u8, 73u8, 78u8, 69u8, 83u8, 84u8, 82u8, 73u8, 78u8, 71u8, 40u8]@ =~= seq![
                    76u8, 73u8, 78u8, 69u8, 83u8, 84u8, 82u8, 73u8, 78u8, 71u8, 40u8,
                ]);
                assert(out@ =~= old(out)@ + wkt_bytes(*g));
            }
        },
        Geometry::MultiLineString(ls) => {
            crate::bytes::push_byte_slice(
                out,
                &[
                    77u8, 85u8, 76u8, 84u8, 73u8, 76u8, 73u8, 78u8, 69u8, 83u8, 84u8, 82u8, 73u8,
                    78u8, 71u8, 40u8,
                ],
            );
            push_rings_wkt(out, ls);
            out.push(41u8);
            proof {
                assert([
                    77u8, 85u8, 76u8, 84u8, 73u8, 76u8, 73u8, 78u8, 69u8, 83u8, 84u8, 82u8, 73u8,
                    78u8, 71u8, 40u8,
                ]@ =~= seq![
                    77u8, 85u8, 76u8, 84u8, 73u8, 76u8, 73u8, 78u8, 69u8, 83u8, 84u8, 82u8, 73u8,
                    78u8, 71u8, 40u8,
                ]);
                assert(out@ =~= old(out)@ + wkt_bytes(*g));
            }
        },
        Geometry::Polygon(p) => {
            crate::bytes::push_byte_slice(out, &[80u8, 79u8, 76u8, 89u8, 71u8, 79u8, 78u8]);
            push_polygon_wkt(out, p);
            proof {
                assert([80u8, 79u8, 76u8, 89u8, 71u8, 79u8, 78u8]@ =~= seq![
                    80u8, 79u8, 76u8, 89u8, 71u8, 79u8, 78u8,
                ]);
                assert(out@ =~= old(out)@ + wkt_bytes(*g));
            }
        },
        Geometry::MultiPolygon(mp) => {
            crate::bytes::push_byte_slice(
                out,
                &[77u8, 85u8, 76u8, 84u8, 73u8, 80u8, 79u8, 76u8, 89u8, 71u8, 79u8, 78u8, 40u8],
            );
            let ghost tag = out@;
            let n = mp.len();
            let mut i: usize = 0;
            while i < n
                invariant
                    0 <= i <= n,
                    n == mp@.len(),
                    out@ == tag + polygons_wkt(mp@.subrange(0, i as int)),
                decreases n - i,
            {
                if i > 0 {
                    out.push(44u8);
                }
                push_polygon_wkt(out, &mp[i]);
                proof {
                    if i == 0 {
                        assert(mp@.subrange(0, 1) =~= seq![mp@[0]]);
                        assert(polygons_wkt(mp@.subrange(0, 1)) == polygon_wkt(mp@[0]));
                        assert(out@ =~= tag + polygons_wkt(mp@.subrange(0, 1)));
                    } else {
                        lemma_polygons_wkt_step(mp@, i as int);
                        assert(out@ =~= tag + polygons_wkt(mp@.subrange(0, i + 1)));
                    }
                }
                i = i + 1;
            }
            out.push(41u8);
            proof {
                assert([77u8, 85u8, 76u8, 84u8, 73u8, 80u8, 79u8, 76u8, 89u8, 71u8, 79u8, 78u8,
                    40u8,
                ]@ =~= seq![
                    77u8, 85u8, 76u8, 84u8, 73u8, 80u8, 79u8, 76u8, 89u8, 71u8, 79u8, 78u8, 40u8,
                ]);
                assert(mp@.subrange(0, n as int) =~= mp@);
                assert(out@ =~= old(out)@ + wkt_bytes(*g));
            }
        },
    }
}

// ---- quoted text fields ----

/// How one byte appears inside a quoted field: doubled quotes, line
/// breaks as spaces, anything else as itself.
pub open spec fn byte_csv(b: u8) -> Seq<u8> {
    if b == 34 {
        seq![34u8, 34u8]
    } else if b == 10 || b == 13 {
        seq![32u8]
    } else {
        seq![b]
    }
}

/// A byte sequence escaped for a quoted field.
pub open spec fn csv_escaped(b: Seq<u8>) -> Seq<u8>
    decreases b.len(),
{
    if b.len() == 0 {
        Seq::empty()
    } else {
        csv_escaped(b.drop_last()) + byte_csv(b.last())
    }
}

/// A quoted field holding the given bytes, escaped.
pub open spec fn csv_field(b: Seq<u8>) -> Seq<u8> {
    seq![34u8] + csv_escaped(b) + seq![34u8]
}

proof fn lemma_csv_escaped_concat(a: Seq<u8>, b: Seq<u8>)
    ensures
        csv_escaped(a + b) == csv_escaped(a) + csv_escaped(b),
    decreases b.len(),
{
    if b.len() == 0 {
        assert(a + b =~= a);
        assert(csv_escaped(a) + csv_escaped(b) =~= csv_escaped(a));
    } else {
        lemma_csv_escaped_concat(a, b.drop_last());
        assert((a + b).drop_last() =~= a + b.drop_last());
        assert((a + b).last() == b.last());
        assert(csv_escaped(a) + csv_escaped(b) =~= csv_escaped(a) + csv_escaped(b.drop_last())
            + byte_csv(b.last()));
    }
}

/// Appends the escaped bytes of a byte slice.
fn push_csv_escaped(out: &mut Vec<u8>, bs: &[u8])
    ensures
        final(out)@ == old(out)@ + csv_escaped(bs@),
{
    let n = bs.len();
    let mut i: usize = 0;
    while i < n
        invariant
            0 <= i <= n,
            n == bs@.len(),
            out@ == old(out)@ + csv_escaped(bs@.subrange(0, i as int)),
        decreases n - i,
    {
        let b = bs[i];
        if b == 34 {
            out.push(34u8);
            out.push(34u8);
        } else if b == 10 || b == 13 {
            out.push(32u8);
        } else {
            out.push(b);
        }
        proof {
            let t = bs@.subrange(0, i + 1);
            assert(t.drop_last() =~= bs@.subrange(0, i as int));
            assert(t.last() == bs@[i as int]);
            assert(out@ =~= old(out)@ + csv_escaped(t));
        }
        i = i + 1;
    }
    proof {
        assert(bs@.subrange(0, n as int) =~= bs@);
    }
}

/// Appends a quoted, escaped text field.
pub fn push_csv_text_field(out: &mut Vec<u8>, value: &str)
    ensures
        final(out)@ == old(out)@ + csv_field(value.spec_bytes()),
{
    out.push(34u8);
    push_csv_escaped(out, value.as_bytes());
    out.push(34u8);
    proof {
        assert(out@ =~= old(out)@ + csv_field(value.spec_bytes()));
    }
}

// ---- columns ----

/// One dynamic column of a target table.
#[derive(Debug, Clone)]
pub struct ColumnSpec {
    /// Target column name.
    pub name: String,
    /// Source attribute name.
    pub source: String,
    /// Declared data type.
    pub data_type: String,
    /// Whether the departement code is prepended to the value.
    pub prefix_dep: bool,
}

/// One target table.
#[derive(Debug, Clone)]
pub struct TableSpec {
    pub name: String,
    pub columns: Vec<ColumnSpec>,
    /// Whether rows carry a geometry content hash.
    pub hash_geom: bool,
}

/// Per-archive derived attribute values.
#[derive(Debug)]
pub struct ComputedContext {
    /// Cadastral identifier of the archive's commune.
    pub commune_id: String,
    /// Cadastral identifier of the archive's section.
    pub section_id: String,
}

/// Whether a declared type is integral.
pub open spec fn is_int_type(t: Seq<char>) -> bool {
    let l = crate::text::lower_seq(t);
    l == "integer"@ || l == "int"@ || l == "smallint"@ || l == "bigint"@
}

/// Whether a declared type is floating.
pub open spec fn is_float_type(t: Seq<char>) -> bool {
    let l = crate::text::lower_seq(t);
    l == "float"@ || l == "double"@ || l == "double precision"@
}

/// The raw attribute text a column reads: a computed per-archive value
/// for the two derived sources, else the feature's attribute, else
/// empty.
pub open spec fn raw_value(
    source: Seq<char>,
    props: Map<Seq<char>, String>,
    computed_commune: Seq<char>,
    computed_section: Seq<char>,
) -> Seq<char> {
    if source == "IDU_COMMUNE"@ {
        computed_commune
    } else if source == "IDU_SECTION"@ {
        computed_section
    } else if props.contains_key(source) {
        props[source]@
    } else {
        Seq::empty()
    }
}

/// The text a column carries after the optional departement prefix.
pub open spec fn col_value(
    col: ColumnSpec,
    props: Map<Seq<char>, String>,
    dep: Seq<char>,
    computed_commune: Seq<char>,
    computed_section: Seq<char>,
) -> Seq<char> {
    let raw = raw_value(col.source@, props, computed_commune, computed_section);
    if col.prefix_dep && raw.len() > 0 {
        dep + raw
    } else {
        raw
    }
}

/// The bytes one column contributes: numbers normalised per declared
/// type, text quoted.
pub open spec fn col_bytes(
    col: ColumnSpec,
    props: Map<Seq<char>, String>,
    dep: Seq<char>,
    computed_commune: Seq<char>,
    computed_section: Seq<char>,
) -> Seq<u8> {
    let value = col_value(col, props, dep, computed_commune, computed_section);
    if is_int_type(col.data_type@) {
        match crate::numbers::spec_edigeo_number(value) {
            Some(v) => ascii(fixed_trunc_chars(v as int)),
            None => Seq::empty(),
        }
    } else if is_float_type(col.data_type@) {
        match crate::numbers::spec_edigeo_number(value) {
            Some(v) => ascii(fixed_chars(v as int)),
            None => Seq::empty(),
        }
    } else {
        csv_field(vstd::utf8::encode_utf8(value))
    }
}

/// The dynamic columns, each preceded by the field separator.
pub open spec fn dyn_cols_bytes(
    cols: Seq<ColumnSpec>,
    props: Map<Seq<char>, String>,
    dep: Seq<char>,
    computed_commune: Seq<char>,
    computed_section: Seq<char>,
) -> Seq<u8>
    decreases cols.len(),
{
    if cols.len() == 0 {
        Seq::empty()
    } else {
        dyn_cols_bytes(cols.drop_last(), props, dep, computed_commune, computed_section) + seq![
            124u8,
        ] + col_bytes(cols.last(), props, dep, computed_commune, computed_section)
    }
}

/// Hex rendering of a byte sequence, as bytes.
pub open spec fn hex_bytes(bs: Seq<u8>) -> Seq<u8>
    decreases bs.len(),
{
    if bs.len() == 0 {
        Seq::empty()
    } else {
        hex_bytes(bs.drop_last()) + seq![hex_b((bs.last() / 16) as nat), hex_b(
            (bs.last() % 16) as nat,
        )]
    }
}

/// One hex digit as a byte, lower case.
pub open spec fn hex_b(d: nat) -> u8 {
    if d < 10 {
        (d + 48) as u8
    } else {
        (d + 87) as u8
    }
}

/// Appends the hex rendering of a digest.
fn push_hex_bytes(out: &mut Vec<u8>, hash: &[u8; 32])
    ensures
        final(out)@ == old(out)@ + hex_bytes(hash@),
{
    let mut i: usize = 0;
    while i < 32
        invariant
            0 <= i <= 32,
            hash@.len() == 32,
            out@ == old(out)@ + hex_bytes(hash@.subrange(0, i as int)),
        decreases 32 - i,
    {
        let b = hash[i];
        let hi = b / 16;
        let lo = b % 16;
        out.push(
            if hi < 10 {
                hi + 48
            } else {
                hi + 87
            },
        );
        out.push(
            if lo < 10 {
                lo + 48
            } else {
                lo + 87
            },
        );
        proof {
            let t = hash@.subrange(0, i + 1);
            assert(t.drop_last() =~= hash@.subrange(0, i as int));
            assert(t.last() == hash@[i as int]);
            assert(out@ =~= old(out)@ + hex_bytes(t));
        }
        i = i + 1;
    }
    proof {
        assert(hash@.subrange(0, 32) =~= hash@);
    }
}

/// The geometry hash part of a row: empty unless the table hashes.
pub open spec fn hash_part(hash_geom: bool, g: Geometry) -> Seq<u8> {
    if hash_geom {
        seq![92u8, 120u8] + hex_bytes(crate::hash::blake3_of(crate::hash::hash_stream(g)))
    } else {
        Seq::empty()
    }
}

/// The whole row: prefixed identifier, departement, extended
/// well-known text with its SRID, valid-from date, optional geometry
/// hash, then the dynamic columns, separated by pipes and ended by a
/// newline.
pub open spec fn row_bytes(
    id: Seq<char>,
    props: Map<Seq<char>, String>,
    g: Geometry,
    dep: Seq<char>,
    valid_from: Seq<char>,
    srid: u32,
    table_hash_geom: bool,
    cols: Seq<ColumnSpec>,
    computed_commune: Seq<char>,
    computed_section: Seq<char>,
) -> Seq<u8> {
    csv_field(vstd::utf8::encode_utf8(dep) + vstd::utf8::encode_utf8(id)) + seq![124u8] + csv_field(
        vstd::utf8::encode_utf8(dep),
    ) + seq![124u8, 34u8, 83u8, 82u8, 73u8, 68u8, 61u8] + ascii(
        crate::text::dec_digits(srid as nat),
    ) + seq![59u8] + wkt_bytes(g) + seq![34u8, 124u8] + vstd::utf8::encode_utf8(valid_from) + seq![
        124u8,
    ] + hash_part(table_hash_geom, g) + dyn_cols_bytes(
        cols,
        props,
        dep,
        computed_commune,
        computed_section,
    ) + seq![10u8]
}

/// Encodes one feature row, or refuses it when the geometry fails the
/// ingest precondition; a refused row leaves the buffer untouched, so
/// the encoder never emits a row whose geometry the store would not
/// take.
#[verifier::rlimit(100)]
pub fn write_copy_row(
    buf: &mut Vec<u8>,
    feature: &crate::types::Feature,
    geometry: &Geometry,
    departement: &str,
    valid_from: &str,
    srid: u32,
    table: &TableSpec,
    computed: &ComputedContext,
) -> (r: Result<(), crate::errors::EdigeoError>)
    ensures
        (r is Ok) == geometry_ok(*geometry),
        r is Ok ==> final(buf)@ == old(buf)@ + row_bytes(
            feature.id@,
            feature.properties@,
            *geometry,
            departement@,
            valid_from@,
            srid,
            table.hash_geom,
            table.columns@,
            computed.commune_id@,
            computed.section_id@,
        ),
        r is Err ==> final(buf)@ == old(buf)@,
        r matches Err(e) ==> e matches crate::errors::EdigeoError::InvalidGeometry { .. },
{
    if !geometry_ok_for_postgis(geometry) {
        return Err(
            crate::errors::EdigeoError::invalid_geometry(
                feature.id.as_str(),
                "geometry not valid for ingestion (too few points)",
            ),
        );
    }
    // id, prefixed with the departement.
    buf.push(34u8);
    push_csv_escaped(buf, departement.as_bytes());
    push_csv_escaped(buf, feature.id.as_str().as_bytes());
    buf.push(34u8);
    proof {
        lemma_csv_escaped_concat(
            vstd::utf8::encode_utf8(departement@),
            vstd::utf8::encode_utf8(feature.id@),
        );
    }
    buf.push(124u8);
    // departement.
    push_csv_text_field(buf, departement);
    buf.push(124u8);
    // geometry as quoted extended well-known text.
    buf.push(34u8);
    crate::bytes::push_byte_slice(buf, &[83u8, 82u8, 73u8, 68u8, 61u8]);
    let mut srid_chars: Vec<char> = Vec::new();
    crate::text::push_u64_digits(srid as u64, &mut srid_chars);
    push_ascii_chars(buf, &srid_chars);
    buf.push(59u8);
    push_wkt_bytes(buf, geometry);
    buf.push(34u8);
    buf.push(124u8);
    // valid_from, unquoted.
    crate::bytes::push_byte_slice(buf, valid_from.as_bytes());
    buf.push(124u8);
    // geometry hash.
    if table.hash_geom {
        let digest = crate::hash::geometry_hash(geometry);
        buf.push(92u8);
        buf.push(120u8);
        push_hex_bytes(buf, &digest);
    }
    let ghost head = buf@;
    // dynamic columns.
    let n = table.columns.len();
    let mut i: usize = 0;
    while i < n
        invariant
            0 <= i <= n,
            n == table.columns@.len(),
            buf@ == head + dyn_cols_bytes(
                table.columns@.subrange(0, i as int),
                feature.properties@,
                departement@,
                computed.commune_id@,
                computed.section_id@,
            ),
        decreases n - i,
    {
        buf.push(124u8);
        let col = &table.columns[i];
        push_col_bytes(buf, col, feature, departement, computed);
        proof {
            let t = table.columns@.subrange(0, i + 1);
            assert(t.drop_last() =~= table.columns@.subrange(0, i as int));
            assert(t.last() == table.columns@[i as int]);
            assert(buf@ =~= head + dyn_cols_bytes(
                t,
                feature.properties@,
                departement@,
                computed.commune_id@,
                computed.section_id@,
            ));
        }
        i = i + 1;
    }
    buf.push(10u8);
    proof {
        assert(table.columns@.subrange(0, n as int) =~= table.columns@);
        assert(buf@ =~= old(buf)@ + row_bytes(
            feature.id@,
            feature.properties@,
            *geometry,
            departement@,
            valid_from@,
            srid,
            table.hash_geom,
            table.columns@,
            computed.commune_id@,
            computed.section_id@,
        ));
    }
    Ok(())
}

/// Appends one dynamic column's bytes.
fn push_col_bytes(
    buf: &mut Vec<u8>,
    col: &ColumnSpec,
    feature: &crate::types::Feature,
    departement: &str,
    computed: &ComputedContext,
) -> (r: ())
    ensures
        final(buf)@ == old(buf)@ + col_bytes(
            *col,
            feature.properties@,
            departement@,
            computed.commune_id@,
            computed.section_id@,
        ),
{
    proof {
        reveal_strlit("IDU_COMMUNE");
        reveal_strlit("IDU_SECTION");
    }
    // The raw text the column reads.
    let raw: String = if crate::text::str_eq(col.source.as_str(), "IDU_COMMUNE") {
        clone_string(&computed.commune_id)
    } else if crate::text::str_eq(col.source.as_str(), "IDU_SECTION") {
        clone_string(&computed.section_id)
    } else {
        match feature.properties.get(col.source.as_str()) {
            Some(v) => clone_string(v),
            None => String::new(),
        }
    };
    proof {
        assert(raw@ == raw_value(
            col.source@,
            feature.properties@,
            computed.commune_id@,
            computed.section_id@,
        ));
    }
    // Apply the departement prefix where asked.
    let value: String = if col.prefix_dep && !is_empty_str(raw.as_str()) {
        concat_strings(departement, raw.as_str())
    } else {
        raw
    };
    proof {
        assert(value@ == col_value(
            *col,
            feature.properties@,
            departement@,
            computed.commune_id@,
            computed.section_id@,
        ));
    }
    let dt = crate::text::chars_of(col.data_type.as_str());
    let lowered = crate::text::to_lower_chars(dt.as_slice());
    proof {
        reveal_strlit("integer");
        reveal_strlit("int");
        reveal_strlit("smallint");
        reveal_strlit("bigint");
        reveal_strlit("float");
        reveal_strlit("double");
        reveal_strlit("double precision");
    }
    let integer_t = crate::text::chars_of("integer");
    let int_t = crate::text::chars_of("int");
    let smallint_t = crate::text::chars_of("smallint");
    let bigint_t = crate::text::chars_of("bigint");
    let float_t = crate::text::chars_of("float");
    let double_t = crate::text::chars_of("double");
    let doublep_t = crate::text::chars_of("double precision");
    let l = lowered.as_slice();
    let is_int = crate::text::chars_eq(l, integer_t.as_slice()) || crate::text::chars_eq(
        l,
        int_t.as_slice(),
    ) || crate::text::chars_eq(l, smallint_t.as_slice()) || crate::text::chars_eq(
        l,
        bigint_t.as_slice(),
    );
    let is_float = crate::text::chars_eq(l, float_t.as_slice()) || crate::text::chars_eq(
        l,
        double_t.as_slice(),
    ) || crate::text::chars_eq(l, doublep_t.as_slice());
    if is_int {
        match crate::numbers::parse_edigeo_number(value.as_str()) {
            Some(v) => {
                let mut cs: Vec<char> = Vec::new();
                push_fixed_trunc_chars(v, &mut cs);
                push_ascii_chars(buf, &cs);
            },
            None => {},
        }
    } else if is_float {
        match crate::numbers::parse_edigeo_number(value.as_str()) {
            Some(v) => {
                let mut cs: Vec<char> = Vec::new();
                push_fixed_chars(v, &mut cs);
                push_ascii_chars(buf, &cs);
            },
            None => {},
        }
    } else {
        push_csv_text_field(buf, value.as_str());
    }
    proof {
        assert(buf@ =~= old(buf)@ + col_bytes(
            *col,
            feature.properties@,
            departement@,
            computed.commune_id@,
            computed.section_id@,
        ));
    }
}

/// Copies a string.
fn clone_string(s: &String) -> (r: String)
    ensures
        r@ == s@,
{
    s.clone()
}

/// Whether a string slice is empty.
fn is_empty_str(s: &str) -> (r: bool)
    ensures
        r == (s@.len() == 0),
{
    s.is_empty()
}

/// The concatenation of two string slices.
fn concat_strings(a: &str, b: &str) -> (r: String)
    ensures
        r@ == a@ + b@,
{
    let mut r = a.to_owned();
    r.append(b);
    r
}

} // verus!
