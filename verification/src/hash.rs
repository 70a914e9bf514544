//! Stable content hash of a geometry.
//!
//! Vertices are quantised to millionths of a unit, each ring is rotated
//! to start at its lexicographically smallest vertex, and the resulting
//! byte stream is digested; two rings that differ only in their starting
//! vertex therefore hash identically.

use vstd::prelude::*;

use crate::geom::{round_half_away, Coord, Geometry, Polygon};

verus! {

/// Digest of a byte stream as blake3 computes it; the result depends on
/// the bytes alone.
pub uninterp spec fn blake3_of(data: Seq<u8>) -> Seq<u8>;

/// Relies on blake3::hash: a 32-byte digest that is a function of the
/// input bytes alone.
#[verifier::external_body]
pub fn blake3_digest(data: &Vec<u8>) -> (r: [u8; 32])
    ensures
        r@ == blake3_of(data@),
{
    *blake3::hash(data.as_slice()).as_bytes()
}

// ---- quantisation and byte encoding ----

/// A coordinate value in millionths of a unit, rounded half away from
/// zero, then mapped to an even/odd code so it is non-negative.
pub open spec fn quant_code(v: int) -> int {
    let q = round_half_away(v, 1000);
    if q >= 0 {
        2 * q
    } else {
        -2 * q - 1
    }
}

/// Little-endian bytes of a non-negative value below 2^64.
#[verifier::opaque]
pub open spec fn le8(n: int) -> Seq<u8> {
    seq![
        (n % 256) as u8,
        ((n / 256) % 256) as u8,
        ((n / 65536) % 256) as u8,
        ((n / 16777216) % 256) as u8,
        ((n / 4294967296) % 256) as u8,
        ((n / 1099511627776) % 256) as u8,
        ((n / 281474976710656) % 256) as u8,
        ((n / 72057594037927936) % 256) as u8,
    ]
}

/// The eight bytes a coordinate axis contributes to the stream.
pub open spec fn axis_bytes(v: int) -> Seq<u8> {
    le8(quant_code(v))
}

/// The sixteen bytes of one quantised vertex.
pub open spec fn coord_bytes(c: Coord) -> Seq<u8> {
    axis_bytes(c.x as int) + axis_bytes(c.y as int)
}

/// Appends the bytes of one quantised vertex.
fn push_coord_bytes(out: &mut Vec<u8>, c: Coord)
    ensures
        final(out)@ == old(out)@ + coord_bytes(c),
{
    push_axis_bytes(out, c.x);
    push_axis_bytes(out, c.y);
    proof {
        assert(out@ =~= old(out)@ + coord_bytes(c));
    }
}

/// Appends the eight bytes of one quantised axis value.
fn push_axis_bytes(out: &mut Vec<u8>, v: i64)
    ensures
        final(out)@ == old(out)@ + axis_bytes(v as int),
{
    let vi = v as i128;
    let m: i128 = if vi >= 0 {
        vi
    } else {
        -vi
    };
    let mq = (m + 500) / 1000;
    proof {
        assert(0 <= mq <= m) by (nonlinear_arith)
            requires
                0 <= m,
                mq as int == ((m as int) + 500) / 1000,
        ;
    }
    let q: i128 = if vi >= 0 {
        mq
    } else {
        -mq
    };
    proof {
        assert(q == round_half_away(v as int, 1000));
    }
    proof {
        assert(-(m as int) <= q as int <= m as int);
    }
    let code: i128 = if q >= 0 {
        2 * q
    } else {
        (-q) * 2 - 1
    };
    proof {
        assert(code == quant_code(v as int));
        assert(0 <= code < 0x8000_0000_0000_0000);
    }
    proof {
        reveal(le8);
    }
    let b0 = (code % 256) as u8;
    let b1 = ((code / 256) % 256) as u8;
    let b2 = ((code / 65536) % 256) as u8;
    let b3 = ((code / 16777216) % 256) as u8;
    let b4 = ((code / 4294967296) % 256) as u8;
    let b5 = ((code / 1099511627776) % 256) as u8;
    let b6 = ((code / 281474976710656) % 256) as u8;
    let b7 = ((code / 72057594037927936) % 256) as u8;
    out.push(b0);
    out.push(b1);
    out.push(b2);
    out.push(b3);
    out.push(b4);
    out.push(b5);
    out.push(b6);
    out.push(b7);
    proof {
        assert(out@ =~= old(out)@ + axis_bytes(v as int));
    }
}

/// Bytes of a vertex sequence, in order.
pub open spec fn coords_bytes(s: Seq<Coord>) -> Seq<u8>
    decreases s.len(),
{
    if s.len() == 0 {
        Seq::empty()
    } else {
        coords_bytes(s.drop_last()) + coord_bytes(s.last())
    }
}

/// Appends the bytes of every vertex of `s[from..]`, in order.
fn push_coords_bytes(out: &mut Vec<u8>, s: &Vec<Coord>)
    ensures
        final(out)@ == old(out)@ + coords_bytes(s@),
{
    let n = s.len();
    let mut i: usize = 0;
    while i < n
        invariant
            0 <= i <= n,
            n == s@.len(),
            out@ == old(out)@ + coords_bytes(s@.subrange(0, i as int)),
        decreases n - i,
    {
        push_coord_bytes(out, s[i]);
        proof {
            let t = s@.subrange(0, i + 1);
            assert(t.drop_last() =~= s@.subrange(0, i as int));
            assert(t.last() == s@[i as int]);
        }
        i = i + 1;
    }
    proof {
        assert(s@.subrange(0, n as int) =~= s@);
    }
}

// ---- ring normalisation ----

/// Lexicographic order on vertices: by x, then by y.
pub open spec fn lex_le(a: Coord, b: Coord) -> bool {
    a.x < b.x || (a.x == b.x && a.y <= b.y)
}

/// The ring without its closing duplicate vertex, if it has one.
pub open spec fn ring_core(r: Seq<Coord>) -> Seq<Coord> {
    if r.len() > 1 && r.first() == r.last() {
        r.drop_last()
    } else {
        r
    }
}

/// Index of the smallest vertex; when several are equally small, the
/// last of them.
pub open spec fn min_idx(s: Seq<Coord>) -> int
    decreases s.len(),
{
    if s.len() <= 1 {
        0
    } else {
        let m = min_idx(s.drop_last());
        if lex_le(s.last(), s[m]) {
            s.len() - 1
        } else {
            m
        }
    }
}

/// `s` rotated to start at index `k`.
pub open spec fn rotate(s: Seq<Coord>, k: int) -> Seq<Coord> {
    s.subrange(k, s.len() as int) + s.subrange(0, k)
}

/// The normalised vertex list of a ring: the core rotated to start at
/// its smallest vertex.
pub open spec fn norm_ring(r: Seq<Coord>) -> Seq<Coord> {
    let core = ring_core(r);
    if core.len() == 0 {
        core
    } else {
        rotate(core, min_idx(core))
    }
}

/// The bytes a ring contributes to the stream.
pub open spec fn ring_bytes(r: Seq<Coord>) -> Seq<u8> {
    coords_bytes(norm_ring(r))
}

proof fn lemma_coords_bytes_step(s: Seq<Coord>, k: int)
    requires
        0 <= k < s.len(),
    ensures
        coords_bytes(s.subrange(0, k + 1)) == coords_bytes(s.subrange(0, k)) + coord_bytes(s[k]),
{
    let t = s.subrange(0, k + 1);
    assert(t.drop_last() =~= s.subrange(0, k));
    assert(t.last() == s[k]);
}

proof fn lemma_min_idx_props(s: Seq<Coord>)
    requires
        s.len() >= 1,
    ensures
        0 <= min_idx(s) < s.len(),
        forall|i: int| 0 <= i < s.len() ==> lex_le(s[min_idx(s)], #[trigger] s[i]),
    decreases s.len(),
{
    if s.len() == 1 {
    } else {
        let t = s.drop_last();
        lemma_min_idx_props(t);
        let m = min_idx(t);
        assert(forall|i: int| 0 <= i < t.len() ==> t[i] == s[i]);
        if lex_le(s.last(), s[m]) {
            assert forall|i: int| 0 <= i < s.len() implies lex_le(s[min_idx(s)], #[trigger] s[i]) by {
                if i < s.len() - 1 {
                    assert(lex_le(t[m], t[i]));
                }
            }
        } else {
            assert forall|i: int| 0 <= i < s.len() implies lex_le(s[min_idx(s)], #[trigger] s[i]) by {
                if i < s.len() - 1 {
                    assert(lex_le(t[m], t[i]));
                }
            }
        }
    }
}

/// Finds `min_idx` of `s`.
fn find_min_idx(s: &Vec<Coord>, core_len: usize) -> (m: usize)
    requires
        1 <= core_len <= s@.len(),
    ensures
        m as int == min_idx(s@.subrange(0, core_len as int)),
        m < core_len,
{
    let mut m: usize = 0;
    let mut i: usize = 1;
    while i < core_len
        invariant
            1 <= i <= core_len <= s@.len(),
            m < i,
            m as int == min_idx(s@.subrange(0, i as int)),
        decreases core_len - i,
    {
        let c = s[i];
        let best = s[m];
        let le = c.x < best.x || (c.x == best.x && c.y <= best.y);
        proof {
            let t = s@.subrange(0, i + 1);
            assert(t.drop_last() =~= s@.subrange(0, i as int));
            assert(t.last() == s@[i as int]);
            assert(le == lex_le(t.last(), t[min_idx(t.drop_last())]));
        }
        if le {
            m = i;
        }
        i = i + 1;
    }
    m
}

/// Appends the normalised bytes of one ring.
#[verifier::rlimit(50)]
fn push_ring_normalized(out: &mut Vec<u8>, r: &Vec<Coord>)
    ensures
        final(out)@ == old(out)@ + ring_bytes(r@),
{
    let len = r.len();
    let core_len: usize = if len > 1 && {
        let a = r[0];
        let b = r[len - 1];
        a.x == b.x && a.y == b.y
    } {
        len - 1
    } else {
        len
    };
    proof {
        assert(core_len as int == ring_core(r@).len());
        assert(ring_core(r@) =~= r@.subrange(0, core_len as int));
    }
    if core_len == 0 {
        proof {
            assert(coords_bytes(norm_ring(r@)) =~= Seq::<u8>::empty());
            assert(out@ =~= old(out)@ + ring_bytes(r@));
        }
        return ;
    }
    let m = find_min_idx(r, core_len);
    let ghost core = ring_core(r@);
    let ghost normed = rotate(core, m as int);
    proof {
        lemma_min_idx_props(core);
        assert(normed.len() == core.len());
    }
    let mut k: usize = 0;
    while k < core_len
        invariant
            0 <= k <= core_len <= r@.len(),
            m < core_len,
            core == ring_core(r@),
            core == r@.subrange(0, core_len as int),
            core.len() == core_len,
            normed == rotate(core, m as int),
            normed.len() == core_len,
            out@ == old(out)@ + coords_bytes(normed.subrange(0, k as int)),
        decreases core_len - k,
    {
        let idx = if k < core_len - m {
            m + k
        } else {
            k - (core_len - m)
        };
        proof {
            lemma_coords_bytes_step(normed, k as int);
            assert(normed[k as int] == core[idx as int]);
            assert(core[idx as int] == r@[idx as int]);
        }
        push_coord_bytes(out, r[idx]);
        proof {
            assert(out@ =~= old(out)@ + coords_bytes(normed.subrange(0, k + 1)));
        }
        k = k + 1;
    }
    proof {
        assert(normed.subrange(0, core_len as int) =~= normed);
        assert(norm_ring(r@) == normed);
    }
}

// ---- the stream ----

/// Bytes contributed by a polygon: the tagged exterior, then each hole.
pub open spec fn holes_bytes(hs: Seq<Vec<Coord>>) -> Seq<u8>
    decreases hs.len(),
{
    if hs.len() == 0 {
        Seq::empty()
    } else {
        holes_bytes(hs.drop_last()) + seq![73u8, 78u8, 84u8] + ring_bytes(hs.last()@)
    }
}

/// The bytes of one polygon body: `EXT`, the exterior, then `INT` and
/// each hole.
pub open spec fn polygon_bytes(p: Polygon) -> Seq<u8> {
    seq![69u8, 88u8, 84u8] + ring_bytes(p.exterior@) + holes_bytes(p.interiors@)
}

/// Bytes contributed by each polygon of a multi-polygon.
pub open spec fn polygons_bytes(ps: Seq<Polygon>) -> Seq<u8>
    decreases ps.len(),
{
    if ps.len() == 0 {
        Seq::empty()
    } else {
        polygons_bytes(ps.drop_last()) + seq![80u8, 79u8, 76u8, 89u8] + polygon_bytes(ps.last())
    }
}

/// Bytes contributed by each line of a multi-line-string.
pub open spec fn lines_bytes(ls: Seq<Vec<Coord>>) -> Seq<u8>
    decreases ls.len(),
{
    if ls.len() == 0 {
        Seq::empty()
    } else {
        lines_bytes(ls.drop_last()) + seq![76u8, 83u8] + coords_bytes(ls.last()@)
    }
}

/// The whole stream that is digested for a geometry.
pub open spec fn hash_stream(g: Geometry) -> Seq<u8> {
    match g {
        Geometry::Point(c) => seq![80u8, 79u8, 73u8, 78u8, 84u8] + coord_bytes(c),
        Geometry::LineString(v) => seq![76u8, 73u8, 78u8, 69u8, 83u8, 84u8, 82u8, 73u8, 78u8, 71u8]
            + coords_bytes(v@),
        Geometry::Polygon(p) => seq![80u8, 79u8, 76u8, 89u8, 71u8, 79u8, 78u8] + polygon_bytes(p),
        Geometry::MultiPolygon(mp) => seq![
            77u8, 85u8, 76u8, 84u8, 73u8, 80u8, 79u8, 76u8, 89u8, 71u8, 79u8, 78u8,
        ] + polygons_bytes(mp@),
        Geometry::MultiPoint(v) => seq![77u8, 85u8, 76u8, 84u8, 73u8, 80u8, 79u8, 73u8, 78u8, 84u8]
            + coords_bytes(v@),
        Geometry::MultiLineString(ls) => seq![
            77u8, 85u8, 76u8, 84u8, 73u8, 76u8, 73u8, 78u8, 69u8, 83u8, 84u8, 82u8, 73u8, 78u8,
            71u8,
        ] + lines_bytes(ls@),
    }
}

/// Appends the raw bytes of a slice.
fn push_bytes(out: &mut Vec<u8>, bs: &[u8])
    ensures
        final(out)@ == old(out)@ + bs@,
{
    let n = bs.len();
    let mut i: usize = 0;
    while i < n
        invariant
            0 <= i <= n,
            n == bs@.len(),
            out@ == old(out)@ + bs@.subrange(0, i as int),
        decreases n - i,
    {
        out.push(bs[i]);
        proof {
            assert(out@ =~= old(out)@ + bs@.subrange(0, i + 1));
        }
        i = i + 1;
    }
    proof {
        assert(bs@.subrange(0, n as int) =~= bs@);
    }
}

/// Appends one polygon body (`EXT` + exterior + holes).
fn push_polygon_bytes(out: &mut Vec<u8>, p: &Polygon)
    ensures
        final(out)@ == old(out)@ + polygon_bytes(*p),
{
    push_bytes(out, &[69u8, 88u8, 84u8]);
    proof {
        assert([69u8, 88u8, 84u8]@ =~= seq![69u8, 88u8, 84u8]);
    }
    push_ring_normalized(out, &p.exterior);
    let n = p.interiors.len();
    let mut i: usize = 0;
    while i < n
        invariant
            0 <= i <= n,
            n == p.interiors@.len(),
            out@ == old(out)@ + seq![69u8, 88u8, 84u8] + ring_bytes(p.exterior@) + holes_bytes(
                p.interiors@.subrange(0, i as int),
            ),
        decreases n - i,
    {
        push_bytes(out, &[73u8, 78u8, 84u8]);
        proof {
            assert([73u8, 78u8, 84u8]@ =~= seq![73u8, 78u8, 84u8]);
        }
        push_ring_normalized(out, &p.interiors[i]);
        proof {
            let t = p.interiors@.subrange(0, i + 1);
            assert(t.drop_last() =~= p.interiors@.subrange(0, i as int));
            assert(t.last() == p.interiors@[i as int]);
            assert(out@ =~= old(out)@ + seq![69u8, 88u8, 84u8] + ring_bytes(p.exterior@)
                + holes_bytes(t));
        }
        i = i + 1;
    }
    proof {
        assert(p.interiors@.subrange(0, n as int) =~= p.interiors@);
        assert(out@ =~= old(out)@ + polygon_bytes(*p));
    }
}

/// The stream for a geometry, as a byte vector.
fn stream_of(g: &Geometry) -> (out: Vec<u8>)
    ensures
        out@ == hash_stream(*g),
{
    let mut out: Vec<u8> = Vec::new();
    match g {
        Geometry::Point(c) => {
            push_bytes(&mut out, &[80u8, 79u8, 73u8, 78u8, 84u8]);
            push_coord_bytes(&mut out, *c);
            proof {
                assert(out@ =~= hash_stream(*g));
            }
        },
        Geometry::LineString(v) => {
            push_bytes(&mut out, &[76u8, 73u8, 78u8, 69u8, 83u8, 84u8, 82u8, 73u8, 78u8, 71u8]);
            push_coords_bytes(&mut out, v);
            proof {
                assert(out@ =~= hash_stream(*g));
            }
        },
        Geometry::MultiPoint(v) => {
            push_bytes(&mut out, &[77u8, 85u8, 76u8, 84u8, 73u8, 80u8, 79u8, 73u8, 78u8, 84u8]);
            push_coords_bytes(&mut out, v);
            proof {
                assert(out@ =~= hash_stream(*g));
            }
        },
        Geometry::MultiLineString(ls) => {
            push_bytes(
                &mut out,
                &[
                    77u8, 85u8, 76u8, 84u8, 73u8, 76u8, 73u8, 78u8, 69u8, 83u8, 84u8, 82u8, 73u8,
                    78u8, 71u8,
                ],
            );
            let ghost tag = out@;
            let n = ls.len();
            let mut i: usize = 0;
            while i < n
                invariant
                    0 <= i <= n,
                    n == ls@.len(),
                    out@ == tag + lines_bytes(ls@.subrange(0, i as int)),
                decreases n - i,
            {
                push_bytes(&mut out, &[76u8, 83u8]);
                proof {
                    assert([76u8, 83u8]@ =~= seq![76u8, 83u8]);
                }
                push_coords_bytes(&mut out, &ls[i]);
                proof {
                    let t = ls@.subrange(0, i + 1);
                    assert(t.drop_last() =~= ls@.subrange(0, i as int));
                    assert(t.last() == ls@[i as int]);
                    assert(out@ =~= tag + lines_bytes(t));
                }
                i = i + 1;
            }
            proof {
                assert(ls@.subrange(0, n as int) =~= ls@);
                assert(out@ =~= hash_stream(*g));
            }
        },
        Geometry::Polygon(p) => {
            push_bytes(&mut out, &[80u8, 79u8, 76u8, 89u8, 71u8, 79u8, 78u8]);
            push_polygon_bytes(&mut out, p);
            proof {
                assert(out@ =~= hash_stream(*g));
            }
        },
        Geometry::MultiPolygon(mp) => {
            push_bytes(
                &mut out,
                &[77u8, 85u8, 76u8, 84u8, 73u8, 80u8, 79u8, 76u8, 89u8, 71u8, 79u8, 78u8],
            );
            let ghost tag = out@;
            let n = mp.len();
            let mut i: usize = 0;
            while i < n
                invariant
                    0 <= i <= n,
                    n == mp@.len(),
                    out@ == tag + polygons_bytes(mp@.subrange(0, i as int)),
                decreases n - i,
            {
                push_bytes(&mut out, &[80u8, 79u8, 76u8, 89u8]);
                proof {
                    assert([80u8, 79u8, 76u8, 89u8]@ =~= seq![80u8, 79u8, 76u8, 89u8]);
                }
                push_polygon_bytes(&mut out, &mp[i]);
                proof {
                    let t = mp@.subrange(0, i + 1);
                    assert(t.drop_last() =~= mp@.subrange(0, i as int));
                    assert(t.last() == mp@[i as int]);
                    assert(out@ =~= tag + polygons_bytes(t));
                }
                i = i + 1;
            }
            proof {
                assert(mp@.subrange(0, n as int) =~= mp@);
                assert(out@ =~= hash_stream(*g));
            }
        },
    }
    out
}

/// The 32-byte content digest of a geometry: blake3 over the normalised
/// stream, so two geometries with the same normalised stream always
/// compare equal byte for byte.
pub fn geometry_hash(g: &Geometry) -> (r: [u8; 32])
    ensures
        r@ == blake3_of(hash_stream(*g)),
{
    let stream = stream_of(g);
    blake3_digest(&stream)
}

// ---- rotation invariance ----

/// No vertex occurs twice.
pub open spec fn distinct_coords(s: Seq<Coord>) -> bool {
    forall|i: int, j: int| 0 <= i < j < s.len() ==> s[i] != s[j]
}

/// The closed ring obtained by starting `r` at vertex `k` of its core.
pub open spec fn rotated_ring(r: Seq<Coord>, k: int) -> Seq<Coord> {
    let t = rotate(ring_core(r), k);
    t.push(t.first())
}

proof fn lemma_min_idx_unique(s: Seq<Coord>, m: int)
    requires
        s.len() >= 1,
        0 <= m < s.len(),
        forall|i: int| 0 <= i < s.len() ==> lex_le(s[m], #[trigger] s[i]),
        forall|i: int| 0 <= i < s.len() && i != m ==> #[trigger] s[i] != s[m],
    ensures
        min_idx(s) == m,
{
    lemma_min_idx_props(s);
    let mi = min_idx(s);
    if mi != m {
        assert(lex_le(s[mi], s[m]));
        assert(lex_le(s[m], s[mi]));
        assert(s[mi].x == s[m].x && s[mi].y == s[m].y);
        assert(s[mi] == Coord { x: s[m].x, y: s[m].y });
        assert(s[m] == Coord { x: s[m].x, y: s[m].y });
        assert(false);
    }
}

proof fn lemma_rotate_index(s: Seq<Coord>, k: int)
    requires
        0 <= k < s.len(),
    ensures
        rotate(s, k).len() == s.len(),
        forall|i: int|
            0 <= i < s.len() ==> #[trigger] rotate(s, k)[i] == (if i + k < s.len() {
                s[i + k]
            } else {
                s[i + k - s.len()]
            }),
{
}

proof fn lemma_rotate_min(s: Seq<Coord>, k: int)
    requires
        s.len() >= 1,
        0 <= k < s.len(),
        distinct_coords(s),
    ensures
        min_idx(rotate(s, k)) == (if min_idx(s) >= k {
            min_idx(s) - k
        } else {
            min_idx(s) + s.len() - k
        }),
{
    let t = rotate(s, k);
    let n = s.len() as int;
    let m = min_idx(s);
    lemma_min_idx_props(s);
    lemma_rotate_index(s, k);
    let m2: int = if m >= k {
        m - k
    } else {
        m + n - k
    };
    assert(t[m2] == s[m]);
    assert forall|i: int| 0 <= i < n implies lex_le(t[m2], #[trigger] t[i]) by {
        if i + k < n {
            assert(t[i] == s[i + k]);
        } else {
            assert(t[i] == s[i + k - n]);
        }
    }
    assert forall|i: int| 0 <= i < n && i != m2 implies #[trigger] t[i] != t[m2] by {
        let src: int = if i + k < n {
            i + k
        } else {
            i + k - n
        };
        assert(t[i] == s[src]);
        assert(src != m);
        if src < m {
            assert(s[src] != s[m]);
        } else {
            assert(s[m] != s[src]);
        }
    }
    lemma_min_idx_unique(t, m2);
}

proof fn lemma_rotate_rotate(s: Seq<Coord>, k: int, j: int)
    requires
        0 <= k < s.len(),
        0 <= j < s.len(),
    ensures
        rotate(rotate(s, k), j) == rotate(
            s,
            if k + j < s.len() {
                k + j
            } else {
                k + j - s.len()
            },
        ),
{
    let n = s.len() as int;
    let kj: int = if k + j < n {
        k + j
    } else {
        k + j - n
    };
    lemma_rotate_index(s, k);
    lemma_rotate_index(rotate(s, k), j);
    lemma_rotate_index(s, kj);
    assert forall|i: int| 0 <= i < n implies rotate(rotate(s, k), j)[i] == rotate(s, kj)[i] by {
        let t = rotate(s, k);
        let mid: int = if i + j < n {
            i + j
        } else {
            i + j - n
        };
        assert(rotate(t, j)[i] == t[mid]);
        if mid + k < n {
            assert(t[mid] == s[mid + k]);
        } else {
            assert(t[mid] == s[mid + k - n]);
        }
    }
    assert(rotate(rotate(s, k), j) =~= rotate(s, kj));
}

/// Law: a closed ring whose vertices are pairwise distinct contributes
/// the same bytes to the digest wherever its vertex list starts; with
/// the digest a function of the stream alone, the two digests are then
/// byte-identical.
pub proof fn lemma_ring_rotation_hash(r: Seq<Coord>, k: int)
    requires
        r.len() >= 2,
        r.first() == r.last(),
        distinct_coords(ring_core(r)),
        0 <= k < r.len() - 1,
    ensures
        ring_bytes(rotated_ring(r, k)) == ring_bytes(r),
{
    let core = ring_core(r);
    let n = core.len() as int;
    assert(n == r.len() - 1);
    let t = rotate(core, k);
    lemma_rotate_index(core, k);
    let r2 = rotated_ring(r, k);
    assert(r2 == t.push(t.first()));
    assert(r2.len() == n + 1);
    assert(r2.first() == r2.last());
    assert(ring_core(r2) =~= t);
    let m = min_idx(core);
    lemma_min_idx_props(core);
    lemma_rotate_min(core, k);
    let m2: int = if m >= k {
        m - k
    } else {
        m + n - k
    };
    assert(min_idx(t) == m2);
    lemma_rotate_rotate(core, k, m2);
    let kj: int = if k + m2 < n {
        k + m2
    } else {
        k + m2 - n
    };
    assert(kj == m);
    assert(norm_ring(r2) == rotate(core, m));
    assert(norm_ring(r) == rotate(core, m));
}

/// Law: rotating where a polygon's ring starts leaves the whole digest
/// stream unchanged.
pub proof fn lemma_polygon_hash_rotation(p: Polygon, q: Polygon, k: int)
    requires
        p.exterior@.len() >= 2,
        p.exterior@.first() == p.exterior@.last(),
        distinct_coords(ring_core(p.exterior@)),
        0 <= k < p.exterior@.len() - 1,
        q.exterior@ == rotated_ring(p.exterior@, k),
        q.interiors@ == p.interiors@,
    ensures
        hash_stream(Geometry::Polygon(q)) == hash_stream(Geometry::Polygon(p)),
{
    lemma_ring_rotation_hash(p.exterior@, k);
}

/// Law: moving a point by less than half a quantum (five ten-millionths
/// of a unit) does not change its digest stream, provided the point lies
/// on the quantisation grid.
pub proof fn lemma_point_hash_quantum(x: i64, y: i64, dx: i64, dy: i64)
    requires
        x as int % 1000 == 0,
        y as int % 1000 == 0,
        -500 < dx < 500,
        -500 < dy < 500,
        -crate::geom::COORD_LIMIT <= x <= crate::geom::COORD_LIMIT,
        -crate::geom::COORD_LIMIT <= y <= crate::geom::COORD_LIMIT,
    ensures
        hash_stream(Geometry::Point(Coord { x: (x + dx) as i64, y: (y + dy) as i64 }))
            == hash_stream(Geometry::Point(Coord { x, y })),
{
    lemma_quant_shift(x as int, dx as int);
    lemma_quant_shift(y as int, dy as int);
}

proof fn lemma_quant_shift(v: int, d: int)
    requires
        v % 1000 == 0,
        -500 < d < 500,
    ensures
        quant_code(v + d) == quant_code(v),
{
    let t = v / 1000;
    assert(1000 * t == v) by (nonlinear_arith)
        requires
            v % 1000 == 0,
            t == v / 1000,
    ;
    if v > 0 {
        assert(t >= 1) by (nonlinear_arith)
            requires
                1000 * t == v,
                v > 0,
        ;
        assert(v + d > 0);
        assert((v + d + 500) / 1000 == t) by (nonlinear_arith)
            requires
                1000 * t == v,
                -500 < d < 500,
        ;
        assert((v + 500) / 1000 == t) by (nonlinear_arith)
            requires
                1000 * t == v,
        ;
    } else if v == 0 {
        assert(t == 0) by (nonlinear_arith)
            requires
                1000 * t == v,
                v == 0,
        ;
        if d >= 0 {
            assert((d + 500) / 1000 == 0) by (nonlinear_arith)
                requires
                    -500 < d < 500,
                    d >= 0,
            ;
        } else {
            assert(((-d) + 500) / 1000 == 0) by (nonlinear_arith)
                requires
                    -500 < d < 500,
                    d < 0,
            ;
        }
        assert((0 + 500) / 1000 == 0) by (nonlinear_arith);
    } else {
        assert(t <= -1) by (nonlinear_arith)
            requires
                1000 * t == v,
                v < 0,
        ;
        assert(v + d < 0);
        assert(((-(v + d)) + 500) / 1000 == -t) by (nonlinear_arith)
            requires
                1000 * t == v,
                -500 < d < 500,
                v < 0,
        ;
        assert(((-v) + 500) / 1000 == -t) by (nonlinear_arith)
            requires
                1000 * t == v,
                v < 0,
        ;
    }
}

// ---- hex rendering ----

/// The character for one hex digit, lower case.
pub open spec fn hex_char(d: nat) -> char {
    if d < 10 {
        ((d + 48) as u8) as char
    } else {
        ((d + 87) as u8) as char
    }
}

/// Lower-case hex rendering of a byte sequence, two digits per byte.
pub open spec fn hex_of(bs: Seq<u8>) -> Seq<char>
    decreases bs.len(),
{
    if bs.len() == 0 {
        Seq::empty()
    } else {
        hex_of(bs.drop_last()) + seq![
            hex_char((bs.last() / 16) as nat),
            hex_char((bs.last() % 16) as nat),
        ]
    }
}

/// Renders a digest as lower-case hex.
pub fn hash_to_hex(hash: &[u8; 32]) -> (s: String)
    ensures
        s@ == hex_of(hash@),
{
    let mut v: Vec<char> = Vec::new();
    let mut i: usize = 0;
    while i < 32
        invariant
            0 <= i <= 32,
            hash@.len() == 32,
            v@ == hex_of(hash@.subrange(0, i as int)),
        decreases 32 - i,
    {
        let b = hash[i];
        let hi = b / 16;
        let lo = b % 16;
        v.push(
            if hi < 10 {
                ((hi + 48) as u8) as char
            } else {
                ((hi + 87) as u8) as char
            },
        );
        v.push(
            if lo < 10 {
                ((lo + 48) as u8) as char
            } else {
                ((lo + 87) as u8) as char
            },
        );
        proof {
            let t = hash@.subrange(0, i + 1);
            assert(t.drop_last() =~= hash@.subrange(0, i as int));
            assert(t.last() == hash@[i as int]);
            assert(v@ =~= hex_of(t));
        }
        i = i + 1;
    }
    proof {
        assert(hash@.subrange(0, 32) =~= hash@);
    }
    crate::text::string_of_chars(v.as_slice())
}

} // verus!
