//! The topology and feature payload: a line-oriented record format,
//! split into blocks at the record sentinel and read line by line.

use vstd::prelude::*;

use crate::geom::{coord_bounded, Coord};
use crate::numbers::parse_fixed;
use crate::str_map::StrMap;
use crate::text::{
    chars_of, chars_range, find_char, find_sub, spec_find_char, spec_find_sub, string_of_chars,
    string_of_range,
};

verus! {

/// A reference to another record: subsystem, group, record kind and
/// record identifier.
#[derive(Debug)]
pub struct Reference {
    pub sid: String,
    pub gid: String,
    pub rty: String,
    pub rid: String,
}

/// The four fields of a reference as character sequences.
pub open spec fn ref_view(r: Reference) -> (Seq<char>, Seq<char>, Seq<char>, Seq<char>) {
    (r.sid@, r.gid@, r.rty@, r.rid@)
}

/// Splits a reference payload on its semicolons: the first four
/// fields, each empty when missing.
pub open spec fn spec_reference(v: Seq<char>) -> (Seq<char>, Seq<char>, Seq<char>, Seq<char>) {
    let (sid, rest1) = spec_split_first(v);
    let (gid, rest2) = spec_split_first(rest1);
    let (rty, rest3) = spec_split_first(rest2);
    let (rid, _) = spec_split_first(rest3);
    (sid, gid, rty, rid)
}

/// The text before the first semicolon, and everything after it.
pub open spec fn spec_split_first(v: Seq<char>) -> (Seq<char>, Seq<char>) {
    match spec_find_char(v, ';', 0) {
        Some(i) => (v.subrange(0, i), v.subrange(i + 1, v.len() as int)),
        None => (v, Seq::empty()),
    }
}

/// The text before the first semicolon at or after `from`, and the
/// index just past that semicolon (or the end).
fn split_first_exec(v: &[char], from: usize) -> (r: (Vec<char>, usize))
    requires
        from <= v@.len(),
    ensures
        r.0@ == spec_split_first(v@.subrange(from as int, v@.len() as int)).0,
        from <= r.1 <= v@.len(),
        v@.subrange(r.1 as int, v@.len() as int) == spec_split_first(
            v@.subrange(from as int, v@.len() as int),
        ).1,
{
    let t = chars_range(v, from, v.len());
    match find_char(t.as_slice(), ';', 0) {
        Some(i) => {
            let piece = chars_range(t.as_slice(), 0, i);
            proof {
                assert(t@.subrange(0, i as int) =~= spec_split_first(t@).0);
                assert(v@.subrange(from + i + 1, v@.len() as int) =~= t@.subrange(
                    i + 1,
                    t@.len() as int,
                ));
            }
            (piece, from + i + 1)
        },
        None => {
            proof {
                assert(v@.subrange(v@.len() as int, v@.len() as int) =~= Seq::<char>::empty());
            }
            (t, v.len())
        },
    }
}

/// Reads a reference payload `SID;GID;RTY;RID`.
pub fn parse_reference(value: &str) -> (r: Reference)
    ensures
        ref_view(r) == spec_reference(value@),
{
    let cs = chars_of(value);
    let v = cs.as_slice();
    let (sid, p1) = split_first_exec(v, 0);
    let (gid, p2) = split_first_exec(v, p1);
    let (rty, p3) = split_first_exec(v, p2);
    let (rid, _p4) = split_first_exec(v, p3);
    proof {
        assert(cs@.subrange(0, cs@.len() as int) =~= cs@);
    }
    Reference {
        sid: string_of_chars(sid.as_slice()),
        gid: string_of_chars(gid.as_slice()),
        rty: string_of_chars(rty.as_slice()),
        rid: string_of_chars(rid.as_slice()),
    }
}

/// The coordinate pair a `COR` payload carries: `+X;+Y[;…]`, leading
/// plus signs kept for the number reader, within range.
pub open spec fn spec_coords(v: Seq<char>) -> Option<Coord> {
    match spec_find_char(v, ';', 0) {
        Some(i) => {
            let xs = trimmed_axis(v.subrange(0, i));
            let rest = v.subrange(i + 1, v.len() as int);
            let ye = match spec_find_char(rest, ';', 0) {
                Some(j) => j,
                None => rest.len() as int,
            };
            let ys = trimmed_axis(rest.subrange(0, ye));
            match (parse_fixed(xs), parse_fixed(ys)) {
                (Some(x), Some(y)) => Some(Coord { x, y }),
                _ => None,
            }
        },
        None => None,
    }
}

/// An axis field cleaned for the number reader: whitespace trimmed,
/// leading plus signs dropped.
pub open spec fn trimmed_axis(v: Seq<char>) -> Seq<char> {
    crate::numbers::strip_plus(
        crate::numbers::trim_end_ws(crate::numbers::trim_start_ws(v)),
    )
}

/// Cleans an axis field.
fn trim_axis_exec(v: &[char], from: usize, to: usize) -> (r: Vec<char>)
    requires
        from <= to <= v@.len(),
    ensures
        r@ == trimmed_axis(v@.subrange(from as int, to as int)),
{
    let mut lo = from;
    while lo < to && crate::numbers::is_ws_char(v[lo])
        invariant
            from <= lo <= to <= v@.len(),
            forall|j: int| from <= j < lo ==> crate::numbers::is_ws(#[trigger] v@[j]),
        decreases to - lo,
    {
        lo = lo + 1;
    }
    let mut hi = to;
    while hi > lo && crate::numbers::is_ws_char(v[hi - 1])
        invariant
            lo <= hi <= to,
            to <= v@.len(),
            forall|j: int| from <= j < lo ==> crate::numbers::is_ws(#[trigger] v@[j]),
            forall|j: int| hi <= j < to ==> crate::numbers::is_ws(#[trigger] v@[j]),
        decreases hi,
    {
        hi = hi - 1;
    }
    let mut p = lo;
    while p < hi && v[p] == '+'
        invariant
            lo <= p <= hi,
            hi <= v@.len(),
            forall|j: int| lo <= j < p ==> #[trigger] v@[j] == '+',
        decreases hi - p,
    {
        p = p + 1;
    }
    let r = chars_range(v, p, hi);
    proof {
        let s = v@.subrange(from as int, to as int);
        crate::numbers::lemma_trim_start_skip(s, lo - from);
        let t1 = s.subrange(lo - from, s.len() as int);
        assert(t1 =~= v@.subrange(lo as int, to as int));
        if t1.len() > 0 {
            assert(t1[0] == v@[lo as int]);
        }
        assert(crate::numbers::trim_start_ws(t1) == t1);
        assert forall|j: int| hi - lo <= j < t1.len() implies crate::numbers::is_ws(
            #[trigger] t1[j],
        ) by {
            assert(t1[j] == v@[lo + j]);
        }
        crate::numbers::lemma_trim_end_skip(t1, hi - lo);
        let t2 = t1.subrange(0, hi - lo);
        assert(t2 =~= v@.subrange(lo as int, hi as int));
        if t2.len() > 0 {
            assert(t2.last() == v@[hi - 1]);
        }
        assert(crate::numbers::trim_end_ws(t2) == t2);
        assert forall|j: int| 0 <= j < p - lo implies #[trigger] t2[j] == '+' by {
            assert(t2[j] == v@[lo + j]);
        }
        crate::numbers::lemma_strip_plus_skip(t2, p - lo);
        let t3 = t2.subrange(p - lo, t2.len() as int);
        assert(t3 =~= v@.subrange(p as int, hi as int));
        if t3.len() > 0 {
            assert(t3.first() == v@[p as int]);
        }
        assert(crate::numbers::strip_plus(t3) == t3);
        assert(r@ == trimmed_axis(s));
    }
    r
}

/// Reads a coordinate payload.
pub fn parse_coords(value: &str) -> (r: Option<Coord>)
    ensures
        r == spec_coords(value@),
        r matches Some(c) ==> coord_bounded(c),
{
    let cs = chars_of(value);
    let v = cs.as_slice();
    let n = cs.len();
    let semi = match find_char(v, ';', 0) {
        Some(i) => i,
        None => {
            return None;
        },
    };
    let xs = trim_axis_exec(v, 0, semi);
    let rest_from = semi + 1;
    let ye = match find_char(v, ';', rest_from) {
        Some(j) => j,
        None => n,
    };
    let ys = trim_axis_exec(v, rest_from, ye);
    proof {
        let rest = cs@.subrange(rest_from as int, n as int);
        match spec_find_char(cs@, ';', rest_from as int) {
            Some(j) => {
                lemma_find_shift(cs@, rest_from as int, j);
                assert(rest.subrange(0, j - rest_from) =~= cs@.subrange(rest_from as int, j));
            },
            None => {
                lemma_find_shift_none(cs@, rest_from as int);
                assert(rest.subrange(0, rest.len() as int) =~= rest);
            },
        }
    }
    let x = match crate::numbers::parse_fixed_chars(xs.as_slice()) {
        Some(x) => x,
        None => {
            return None;
        },
    };
    let y = match crate::numbers::parse_fixed_chars(ys.as_slice()) {
        Some(y) => y,
        None => {
            return None;
        },
    };
    proof {
        crate::numbers::lemma_parse_fixed_bounded(trimmed_axis(cs@.subrange(0, semi as int)));
        let rest = cs@.subrange(rest_from as int, n as int);
        let ye_s: int = match spec_find_char(rest, ';', 0) {
            Some(j) => j,
            None => rest.len() as int,
        };
        crate::numbers::lemma_parse_fixed_bounded(trimmed_axis(rest.subrange(0, ye_s)));
    }
    Some(Coord { x, y })
}

proof fn lemma_find_shift(s: Seq<char>, from: int, j: int)
    requires
        0 <= from <= s.len(),
        spec_find_char(s, ';', from) == Some(j),
    ensures
        from <= j < s.len(),
        spec_find_char(s.subrange(from, s.len() as int), ';', 0) == Some(j - from),
    decreases s.len() - from,
{
    lemma_find_char_range(s, ';', from);
    lemma_find_shift_gen(s, from, from);
}

proof fn lemma_find_char_range(s: Seq<char>, c: char, from: int)
    requires
        0 <= from <= s.len(),
        spec_find_char(s, c, from) is Some,
    ensures
        from <= spec_find_char(s, c, from).unwrap() < s.len(),
    decreases s.len() - from,
{
    if from < s.len() && s[from] != c {
        lemma_find_char_range(s, c, from + 1);
    }
}

proof fn lemma_find_shift_none(s: Seq<char>, from: int)
    requires
        0 <= from <= s.len(),
        spec_find_char(s, ';', from) is None,
    ensures
        spec_find_char(s.subrange(from, s.len() as int), ';', 0) is None,
{
    lemma_find_shift_gen(s, from, from);
}

proof fn lemma_find_shift_gen(s: Seq<char>, base: int, from: int)
    requires
        0 <= base <= from <= s.len(),
    ensures
        spec_find_char(s, ';', from) == (match spec_find_char(
            s.subrange(base, s.len() as int),
            ';',
            from - base,
        ) {
            Some(i) => Some(i + base),
            None => None,
        }),
    decreases s.len() - from,
{
    let t = s.subrange(base, s.len() as int);
    if from < s.len() {
        assert(t[from - base] == s[from]);
        if s[from] != ';' {
            lemma_find_shift_gen(s, base, from + 1);
        }
    }
}

// ---- lines ----

/// The three-letter family key of a line.
pub open spec fn line_key(l: Seq<char>) -> Seq<char> {
    if l.len() >= 3 {
        l.subrange(0, 3)
    } else {
        l
    }
}

/// The payload of a line: what follows the first colon, whitespace
/// trimmed; a line without a colon has none.
pub open spec fn line_value(l: Seq<char>) -> Option<Seq<char>> {
    match spec_find_char(l, ':', 0) {
        Some(i) => Some(trim_ws(l.subrange(i + 1, l.len() as int))),
        None => None,
    }
}

/// Whitespace trimmed at both ends.
pub open spec fn trim_ws(s: Seq<char>) -> Seq<char> {
    crate::numbers::trim_end_ws(crate::numbers::trim_start_ws(s))
}

/// The key of a line.
pub fn extract_key(line: &str) -> (r: String)
    ensures
        r@ == line_key(line@),
{
    let cs = chars_of(line);
    if cs.len() >= 3 {
        string_of_range(cs.as_slice(), 0, 3)
    } else {
        string_of_chars(cs.as_slice())
    }
}

/// Trims whitespace from a character range.
fn trim_ws_exec(v: &[char], from: usize, to: usize) -> (r: Vec<char>)
    requires
        from <= to <= v@.len(),
    ensures
        r@ == trim_ws(v@.subrange(from as int, to as int)),
{
    let mut lo = from;
    while lo < to && crate::numbers::is_ws_char(v[lo])
        invariant
            from <= lo <= to <= v@.len(),
            forall|j: int| from <= j < lo ==> crate::numbers::is_ws(#[trigger] v@[j]),
        decreases to - lo,
    {
        lo = lo + 1;
    }
    let mut hi = to;
    while hi > lo && crate::numbers::is_ws_char(v[hi - 1])
        invariant
            lo <= hi <= to,
            to <= v@.len(),
            forall|j: int| from <= j < lo ==> crate::numbers::is_ws(#[trigger] v@[j]),
            forall|j: int| hi <= j < to ==> crate::numbers::is_ws(#[trigger] v@[j]),
        decreases hi,
    {
        hi = hi - 1;
    }
    let r = chars_range(v, lo, hi);
    proof {
        let s = v@.subrange(from as int, to as int);
        crate::numbers::lemma_trim_start_skip(s, lo - from);
        let t1 = s.subrange(lo - from, s.len() as int);
        assert(t1 =~= v@.subrange(lo as int, to as int));
        if t1.len() > 0 {
            assert(t1[0] == v@[lo as int]);
        }
        assert(crate::numbers::trim_start_ws(t1) == t1);
        assert forall|j: int| hi - lo <= j < t1.len() implies crate::numbers::is_ws(
            #[trigger] t1[j],
        ) by {
            assert(t1[j] == v@[lo + j]);
        }
        crate::numbers::lemma_trim_end_skip(t1, hi - lo);
        let t2 = t1.subrange(0, hi - lo);
        assert(t2 =~= v@.subrange(lo as int, hi as int));
        if t2.len() > 0 {
            assert(t2.last() == v@[hi - 1]);
        }
        assert(crate::numbers::trim_end_ws(t2) == t2);
        assert(r@ == trim_ws(s));
    }
    r
}

/// The payload of a line.
pub fn extract_value(line: &str) -> (r: Option<String>)
    ensures
        match r {
            Some(v) => line_value(line@) == Some(v@),
            None => line_value(line@) is None,
        },
{
    let cs = chars_of(line);
    let n = cs.len();
    match find_char(cs.as_slice(), ':', 0) {
        Some(i) => {
            let t = trim_ws_exec(cs.as_slice(), i + 1, n);
            proof {
                assert(cs@.subrange(i + 1, cs@.len() as int) == line@.subrange(
                    i + 1,
                    line@.len() as int,
                ));
            }
            Some(string_of_chars(t.as_slice()))
        },
        None => None,
    }
}

/// Whether a line starts with the given prefix.
fn starts_with_chars(l: &[char], p: &[char]) -> (r: bool)
    ensures
        r == crate::text::match_at(l@, p@, 0),
{
    crate::text::matches_at(l, p, 0)
}

/// The record identifier of a block: the payload of the first line
/// after the head that starts `RIDSA` or `RID`, trimmed; empty when
/// none does.
pub open spec fn spec_extract_id(lines: Seq<Seq<char>>, k: int) -> Seq<char>
    decreases lines.len() - k,
{
    if k < 1 || k >= lines.len() {
        Seq::empty()
    } else if crate::text::match_at(lines[k], "RID"@, 0) {
        match spec_find_char(lines[k], ':', 0) {
            Some(i) => trim_ws(lines[k].subrange(i + 1, lines[k].len() as int)),
            None => spec_extract_id(lines, k + 1),
        }
    } else {
        spec_extract_id(lines, k + 1)
    }
}

/// The views of a line list.
pub open spec fn line_views(lines: Seq<String>) -> Seq<Seq<char>> {
    lines.map(|i: int, s: String| s@)
}

/// Reads the record identifier of a block.
pub fn extract_id(lines: &Vec<String>) -> (r: String)
    ensures
        r@ == spec_extract_id(line_views(lines@), 1),
{
    proof {
        reveal_strlit("RID");
    }
    let rid = chars_of("RID");
    let n = lines.len();
    let mut k: usize = 1;
    while k < n
        invariant
            1 <= k <= n || (n == 0 && k == 1),
            n == lines@.len(),
            rid@ == "RID"@,
            spec_extract_id(line_views(lines@), 1) == spec_extract_id(line_views(lines@), k as int),
        decreases n - k,
    {
        let lc = chars_of(lines[k].as_str());
        let lcn = lc.len();
        proof {
            assert(line_views(lines@)[k as int] == lines@[k as int]@);
        }
        if starts_with_chars(lc.as_slice(), rid.as_slice()) {
            match find_char(lc.as_slice(), ':', 0) {
                Some(i) => {
                    let t = trim_ws_exec(lc.as_slice(), i + 1, lcn);
                    proof {
                        assert(lc@.subrange(i + 1, lc@.len() as int) == lines@[k as int]@.subrange(
                            i + 1,
                            lines@[k as int]@.len() as int,
                        ));
                    }
                    return string_of_chars(t.as_slice());
                },
                None => {},
            }
        }
        k = k + 1;
    }
    proof {
        assert(spec_extract_id(line_views(lines@), k as int) =~= Seq::<char>::empty());
    }
    String::new()
}

// ---- blocks ----

/// A node record: identifier, coordinate list, class reference.
#[derive(Debug)]
pub struct Point {
    pub id: String,
    pub coords: Vec<Coord>,
    pub scp: Option<Reference>,
}

/// An arc record: identifier, ordered polyline, class reference.
#[derive(Debug)]
pub struct Arc {
    pub id: String,
    pub coords: Vec<Coord>,
    pub scp: Option<Reference>,
}

/// A face record: identifier, class reference, and the arcs attached
/// to it by the relation records.
#[derive(Debug)]
pub struct Face {
    pub id: String,
    pub scp: Option<Reference>,
    pub arcs: Vec<Arc>,
}

/// A business feature record: identifier, class reference, attribute
/// map and quality reference.
#[derive(Debug)]
pub struct Feature {
    pub id: String,
    pub scp: Option<Reference>,
    pub attributes: StrMap<String>,
    pub qap: Option<String>,
}

/// A relation record: identifier, class reference, and the references
/// it ties together.
#[derive(Debug)]
pub struct Link {
    pub id: String,
    pub scp: Option<Reference>,
    pub ftp: Vec<Reference>,
}

/// The view of an optional reference.
pub open spec fn opt_ref_view(o: Option<Reference>) -> Option<
    (Seq<char>, Seq<char>, Seq<char>, Seq<char>),
> {
    match o {
        Some(r) => Some(ref_view(r)),
        None => None,
    }
}

/// The node fold: what the coordinate list and class reference are
/// after the first `k` body lines.
pub open spec fn pno_fold(lines: Seq<Seq<char>>, k: int) -> (
    Seq<Coord>,
    Option<(Seq<char>, Seq<char>, Seq<char>, Seq<char>)>,
)
    decreases k,
{
    if k <= 1 {
        (Seq::empty(), None)
    } else {
        let st = pno_fold(lines, k - 1);
        let l = lines[k - 1];
        if l.len() == 0 {
            st
        } else {
            match line_value(l) {
                None => st,
                Some(v) => {
                    if line_key(l) == "SCP"@ {
                        (st.0, Some(spec_reference(v)))
                    } else if line_key(l) == "COR"@ {
                        match spec_coords(v) {
                            Some(c) => (st.0.push(c), st.1),
                            None => st,
                        }
                    } else {
                        st
                    }
                },
            }
        }
    }
}

/// Reads a node block.
pub fn parse_pno(lines: &Vec<String>, id: &str) -> (r: Point)
    ensures
        r.id@ == id@,
        r.coords@ == pno_fold(line_views(lines@), lines@.len() as int).0,
        opt_ref_view(r.scp) == pno_fold(line_views(lines@), lines@.len() as int).1,
        forall|i: int| 0 <= i < r.coords@.len() ==> coord_bounded(#[trigger] r.coords@[i]),
{
    proof {
        reveal_strlit("SCP");
        reveal_strlit("COR");
    }
    let scp_key = chars_of("SCP");
    let cor_key = chars_of("COR");
    let mut coords: Vec<Coord> = Vec::new();
    let mut scp: Option<Reference> = None;
    let n = lines.len();
    let mut k: usize = 1;
    while k < n
        invariant
            1 <= k <= n || (n == 0 && k == 1),
            n == lines@.len(),
            scp_key@ == "SCP"@,
            cor_key@ == "COR"@,
            coords@ == pno_fold(line_views(lines@), k as int).0,
            opt_ref_view(scp) == pno_fold(line_views(lines@), k as int).1,
            forall|i: int| 0 <= i < coords@.len() ==> coord_bounded(#[trigger] coords@[i]),
        decreases n - k,
    {
        let line = &lines[k];
        proof {
            reveal_strlit("SCP");
            reveal_strlit("COR");
            assert(line_views(lines@)[k as int] == lines@[k as int]@);
        }
        let lc = chars_of(line.as_str());
        if lc.len() > 0 {
            match extract_value(line.as_str()) {
                Some(v) => {
                    if starts_with_chars(lc.as_slice(), scp_key.as_slice()) {
                        scp = Some(parse_reference(v.as_str()));
                    } else if starts_with_chars(lc.as_slice(), cor_key.as_slice()) {
                        match parse_coords(v.as_str()) {
                            Some(c) => {
                                coords.push(c);
                            },
                            None => {},
                        }
                    }
                },
                None => {},
            }
        }
        proof {
            assert(coords@ == pno_fold(line_views(lines@), k + 1).0);
            assert(opt_ref_view(scp) == pno_fold(line_views(lines@), k + 1).1);
        }
        k = k + 1;
    }
    Point { id: id.to_owned(), coords, scp }
}

/// The arc fold is the node fold: polyline and class reference.
pub fn parse_par(lines: &Vec<String>, id: &str) -> (r: Arc)
    ensures
        r.id@ == id@,
        r.coords@ == pno_fold(line_views(lines@), lines@.len() as int).0,
        opt_ref_view(r.scp) == pno_fold(line_views(lines@), lines@.len() as int).1,
        forall|i: int| 0 <= i < r.coords@.len() ==> coord_bounded(#[trigger] r.coords@[i]),
{
    let p = parse_pno(lines, id);
    Arc { id: p.id, coords: p.coords, scp: p.scp }
}

/// The face fold: the class reference after the first `k` body lines.
pub open spec fn pfe_fold(lines: Seq<Seq<char>>, k: int) -> Option<
    (Seq<char>, Seq<char>, Seq<char>, Seq<char>),
>
    decreases k,
{
    if k <= 1 {
        None
    } else {
        let st = pfe_fold(lines, k - 1);
        let l = lines[k - 1];
        if l.len() == 0 {
            st
        } else {
            match line_value(l) {
                None => st,
                Some(v) => {
                    if line_key(l) == "SCP"@ {
                        Some(spec_reference(v))
                    } else {
                        st
                    }
                },
            }
        }
    }
}

/// Reads a face block; its arcs are attached later, from the relation
/// records.
pub fn parse_pfe(lines: &Vec<String>, id: &str) -> (r: Face)
    ensures
        r.id@ == id@,
        opt_ref_view(r.scp) == pfe_fold(line_views(lines@), lines@.len() as int),
        r.arcs@.len() == 0,
{
    proof {
        reveal_strlit("SCP");
    }
    let scp_key = chars_of("SCP");
    let mut scp: Option<Reference> = None;
    let n = lines.len();
    let mut k: usize = 1;
    while k < n
        invariant
            1 <= k <= n || (n == 0 && k == 1),
            n == lines@.len(),
            scp_key@ == "SCP"@,
            opt_ref_view(scp) == pfe_fold(line_views(lines@), k as int),
        decreases n - k,
    {
        let line = &lines[k];
        proof {
            reveal_strlit("SCP");
            assert(line_views(lines@)[k as int] == lines@[k as int]@);
        }
        let lc = chars_of(line.as_str());
        if lc.len() > 0 {
            match extract_value(line.as_str()) {
                Some(v) => {
                    if starts_with_chars(lc.as_slice(), scp_key.as_slice()) {
                        scp = Some(parse_reference(v.as_str()));
                    }
                },
                None => {},
            }
        }
        proof {
            assert(opt_ref_view(scp) == pfe_fold(line_views(lines@), k + 1));
        }
        k = k + 1;
    }
    Face { id: id.to_owned(), scp, arcs: Vec::new() }
}

/// Whether two string maps hold the same keys with the same character
/// content.
pub open spec fn attrs_match(m: Map<Seq<char>, String>, a: Map<Seq<char>, Seq<char>>) -> bool {
    &&& m.dom() =~= a.dom()
    &&& forall|k: Seq<char>| a.contains_key(k) ==> (#[trigger] m[k])@ == a[k]
}

/// The feature fold: attribute map, pending attribute name, class and
/// quality references after the first `k` body lines.
pub open spec fn fea_fold(lines: Seq<Seq<char>>, k: int) -> (
    Map<Seq<char>, Seq<char>>,
    Option<Seq<char>>,
    Option<(Seq<char>, Seq<char>, Seq<char>, Seq<char>)>,
    Option<Seq<char>>,
)
    decreases k,
{
    if k <= 1 {
        (Map::empty(), None, None, None)
    } else {
        let st = fea_fold(lines, k - 1);
        let l = lines[k - 1];
        if l.len() == 0 {
            st
        } else {
            match line_value(l) {
                None => st,
                Some(v) => {
                    if line_key(l) == "SCP"@ {
                        (st.0, st.1, Some(spec_reference(v)), st.3)
                    } else if line_key(l) == "ATP"@ {
                        (st.0, Some(attr_name(spec_reference(v).3)), st.2, st.3)
                    } else if line_key(l) == "ATV"@ {
                        match st.1 {
                            Some(name) => (st.0.insert(name, v), None, st.2, st.3),
                            None => st,
                        }
                    } else if line_key(l) == "QAP"@ {
                        (st.0, st.1, st.2, Some(spec_reference(v).3))
                    } else {
                        st
                    }
                },
            }
        }
    }
}

/// An attribute name: the reference identifier with a trailing `_id`
/// dropped.
pub open spec fn attr_name(rid: Seq<char>) -> Seq<char> {
    if crate::archive::ends_with(rid, "_id"@) {
        rid.subrange(0, rid.len() - "_id"@.len())
    } else {
        rid
    }
}

/// Reads a feature block: an `ATP` line names the next attribute, the
/// following `ATV` line supplies its value; a `TEX` line in between
/// changes nothing.
#[verifier::rlimit(60)]
pub fn parse_fea(lines: &Vec<String>, id: &str) -> (r: Feature)
    ensures
        r.id@ == id@,
        attrs_match(r.attributes@, fea_fold(line_views(lines@), lines@.len() as int).0),
        opt_ref_view(r.scp) == fea_fold(line_views(lines@), lines@.len() as int).2,
        (match r.qap {
            Some(q) => fea_fold(line_views(lines@), lines@.len() as int).3 == Some(q@),
            None => fea_fold(line_views(lines@), lines@.len() as int).3 is None,
        }),
{
    proof {
        reveal_strlit("SCP");
        reveal_strlit("ATP");
        reveal_strlit("ATV");
        reveal_strlit("QAP");
        reveal_strlit("_id");
    }
    let scp_key = chars_of("SCP");
    let atp_key = chars_of("ATP");
    let atv_key = chars_of("ATV");
    let qap_key = chars_of("QAP");
    let idsuf = chars_of("_id");
    let mut attributes: StrMap<String> = StrMap::new();
    let mut pending: Option<String> = None;
    let mut scp: Option<Reference> = None;
    let mut qap: Option<String> = None;
    let n = lines.len();
    let mut k: usize = 1;
    while k < n
        invariant
            1 <= k <= n || (n == 0 && k == 1),
            n == lines@.len(),
            scp_key@ == "SCP"@,
            atp_key@ == "ATP"@,
            atv_key@ == "ATV"@,
            qap_key@ == "QAP"@,
            idsuf@ == "_id"@,
            attrs_match(attributes@, fea_fold(line_views(lines@), k as int).0),
            (match pending {
                Some(p) => fea_fold(line_views(lines@), k as int).1 == Some(p@),
                None => fea_fold(line_views(lines@), k as int).1 is None,
            }),
            opt_ref_view(scp) == fea_fold(line_views(lines@), k as int).2,
            (match qap {
                Some(q) => fea_fold(line_views(lines@), k as int).3 == Some(q@),
                None => fea_fold(line_views(lines@), k as int).3 is None,
            }),
        decreases n - k,
    {
        let line = &lines[k];
        proof {
            reveal_strlit("SCP");
            reveal_strlit("ATP");
            reveal_strlit("ATV");
            reveal_strlit("QAP");
            reveal_strlit("_id");
            assert(line_views(lines@)[k as int] == lines@[k as int]@);
        }
        let lc = chars_of(line.as_str());
        if lc.len() > 0 {
            match extract_value(line.as_str()) {
                Some(v) => {
                    if starts_with_chars(lc.as_slice(), scp_key.as_slice()) {
                        scp = Some(parse_reference(v.as_str()));
                    } else if starts_with_chars(lc.as_slice(), atp_key.as_slice()) {
                        let rf = parse_reference(v.as_str());
                        let rc = chars_of(rf.rid.as_str());
                        let name = if rc.len() >= 3 && crate::text::matches_at(
                            rc.as_slice(),
                            idsuf.as_slice(),
                            rc.len() - 3,
                        ) {
                            string_of_range(rc.as_slice(), 0, rc.len() - 3)
                        } else {
                            rf.rid
                        };
                        proof {
                            assert(name@ == attr_name(spec_reference(v@).3));
                        }
                        pending = Some(name);
                    } else if starts_with_chars(lc.as_slice(), atv_key.as_slice()) {
                        let mut taken: Option<String> = None;
                        core::mem::swap(&mut pending, &mut taken);
                        match taken {
                            Some(name) => {
                                let ghost pre = attributes@;
                                attributes.insert(name, v);
                                proof {
                                    assert(attributes@.dom() =~= fea_fold(
                                        line_views(lines@),
                                        k + 1,
                                    ).0.dom());
                                }
                            },
                            None => {},
                        }
                    } else if starts_with_chars(lc.as_slice(), qap_key.as_slice()) {
                        let rf = parse_reference(v.as_str());
                        qap = Some(rf.rid);
                    }
                },
                None => {},
            }
        }
        proof {
            assert(attrs_match(attributes@, fea_fold(line_views(lines@), k + 1).0));
            assert(opt_ref_view(scp) == fea_fold(line_views(lines@), k + 1).2);
        }
        k = k + 1;
    }
    Feature { id: id.to_owned(), scp, attributes, qap }
}

/// The relation fold: class reference and tied references after the
/// first `k` body lines.
pub open spec fn lnk_fold(lines: Seq<Seq<char>>, k: int) -> (
    Option<(Seq<char>, Seq<char>, Seq<char>, Seq<char>)>,
    Seq<(Seq<char>, Seq<char>, Seq<char>, Seq<char>)>,
)
    decreases k,
{
    if k <= 1 {
        (None, Seq::empty())
    } else {
        let st = lnk_fold(lines, k - 1);
        let l = lines[k - 1];
        if l.len() == 0 {
            st
        } else {
            match line_value(l) {
                None => st,
                Some(v) => {
                    if line_key(l) == "SCP"@ {
                        (Some(spec_reference(v)), st.1)
                    } else if line_key(l) == "FTP"@ {
                        (st.0, st.1.push(spec_reference(v)))
                    } else {
                        st
                    }
                },
            }
        }
    }
}

/// Reads a relation block.
pub fn parse_lnk(lines: &Vec<String>, id: &str) -> (r: Link)
    ensures
        r.id@ == id@,
        opt_ref_view(r.scp) == lnk_fold(line_views(lines@), lines@.len() as int).0,
        r.ftp@.map(|i: int, f: Reference| ref_view(f)) == lnk_fold(
            line_views(lines@),
            lines@.len() as int,
        ).1,
{
    proof {
        reveal_strlit("SCP");
        reveal_strlit("FTP");
    }
    let scp_key = chars_of("SCP");
    let ftp_key = chars_of("FTP");
    let mut scp: Option<Reference> = None;
    let mut ftp: Vec<Reference> = Vec::new();
    let n = lines.len();
    let mut k: usize = 1;
    while k < n
        invariant
            1 <= k <= n || (n == 0 && k == 1),
            n == lines@.len(),
            scp_key@ == "SCP"@,
            ftp_key@ == "FTP"@,
            opt_ref_view(scp) == lnk_fold(line_views(lines@), k as int).0,
            ftp@.map(|i: int, f: Reference| ref_view(f)) == lnk_fold(
                line_views(lines@),
                k as int,
            ).1,
        decreases n - k,
    {
        let line = &lines[k];
        proof {
            reveal_strlit("SCP");
            reveal_strlit("FTP");
            assert(line_views(lines@)[k as int] == lines@[k as int]@);
        }
        let lc = chars_of(line.as_str());
        if lc.len() > 0 {
            match extract_value(line.as_str()) {
                Some(v) => {
                    if starts_with_chars(lc.as_slice(), scp_key.as_slice()) {
                        scp = Some(parse_reference(v.as_str()));
                    } else if starts_with_chars(lc.as_slice(), ftp_key.as_slice()) {
                        ftp.push(parse_reference(v.as_str()));
                        proof {
                            assert(ftp@.map(|i: int, f: Reference| ref_view(f)) =~= lnk_fold(
                                line_views(lines@),
                                k + 1,
                            ).1);
                        }
                    }
                },
                None => {},
            }
        }
        proof {
            assert(ftp@.map(|i: int, f: Reference| ref_view(f)) =~= lnk_fold(
                line_views(lines@),
                k + 1,
            ).1);
        }
        k = k + 1;
    }
    Link { id: id.to_owned(), scp, ftp }
}

proof fn lemma_find_sub_in_range(hay: Seq<char>, needle: Seq<char>, from: int)
    requires
        0 <= from,
        spec_find_sub(hay, needle, from) is Some,
    ensures
        from <= spec_find_sub(hay, needle, from).unwrap(),
        spec_find_sub(hay, needle, from).unwrap() + needle.len() <= hay.len(),
    decreases hay.len() - from,
{
    if !(from < 0 || from >= hay.len() || from + needle.len() > hay.len()) {
        if !crate::text::match_at(hay, needle, from) {
            lemma_find_sub_in_range(hay, needle, from + 1);
        }
    }
}

/// The start position of each block's content: one past each sentinel
/// occurrence, scanning from `from`.
pub open spec fn sub_starts(s: Seq<char>, sent: Seq<char>, from: int) -> Seq<int>
    decreases s.len() - from
        when 0 <= from <= s.len() && sent.len() > 0
        via sub_starts_dec
{
    match spec_find_sub(s, sent, from) {
        Some(i) => seq![i + sent.len() as int] + sub_starts(s, sent, i + sent.len() as int),
        None => Seq::empty(),
    }
}

#[via_fn]
proof fn sub_starts_dec(s: Seq<char>, sent: Seq<char>, from: int) {
    match spec_find_sub(s, sent, from) {
        Some(i) => {
            lemma_find_sub_in_range(s, sent, from);
        },
        None => {},
    }
}

/// A line with its trailing carriage return dropped.
pub open spec fn strip_cr(l: Seq<char>) -> Seq<char> {
    if l.len() > 0 && l.last() == '\r' {
        l.drop_last()
    } else {
        l
    }
}

proof fn lemma_find_char_in_range(s: Seq<char>, c: char, from: int)
    requires
        0 <= from,
        spec_find_char(s, c, from) is Some,
    ensures
        from <= spec_find_char(s, c, from).unwrap() < s.len(),
    decreases s.len() - from,
{
    if !(from < 0 || from >= s.len()) && s[from] != c {
        lemma_find_char_in_range(s, c, from + 1);
    }
}

/// The lines of `v[from..to]`: split at line feeds, each line's
/// trailing carriage return dropped; the final segment counts only
/// when it is non-empty.
pub open spec fn spec_lines(v: Seq<char>, from: int, to: int) -> Seq<Seq<char>>
    decreases to - from
        when 0 <= from <= to <= v.len()
        via spec_lines_dec
{
    if from >= to {
        Seq::empty()
    } else {
        match spec_find_char(v, '\n', from) {
            Some(i) => if i < to {
                seq![strip_cr(v.subrange(from, i))] + spec_lines(v, i + 1, to)
            } else {
                seq![strip_cr(v.subrange(from, to))]
            },
            None => seq![strip_cr(v.subrange(from, to))],
        }
    }
}

#[via_fn]
proof fn spec_lines_dec(v: Seq<char>, from: int, to: int) {
    if from < to {
        match spec_find_char(v, '\n', from) {
            Some(i) => {
                lemma_find_char_in_range(v, '\n', from);
                assert(v[spec_find_char(v, '\n', from).unwrap()] == '\n') by {
                    lemma_find_char_at(v, '\n', from);
                }
            },
            None => {},
        }
    }
}

proof fn lemma_find_char_at(s: Seq<char>, c: char, from: int)
    requires
        0 <= from,
        spec_find_char(s, c, from) is Some,
    ensures
        s[spec_find_char(s, c, from).unwrap()] == c,
    decreases s.len() - from,
{
    if !(from < 0 || from >= s.len()) && s[from] != c {
        lemma_find_char_at(s, c, from + 1);
    }
}

proof fn lemma_lines_head(v: Seq<char>, from: int, to: int, i: int)
    requires
        0 <= from <= i < to <= v.len(),
        v[i] == '\n',
        forall|j: int| from <= j < i ==> v[j] != '\n',
    ensures
        spec_lines(v, from, to) == seq![strip_cr(v.subrange(from, i))] + spec_lines(v, i + 1, to),
{
    lemma_find_char_skip_local(v, '\n', from, i);
    assert(spec_find_char(v, '\n', i) == Some(i));
    assert(spec_find_char(v, '\n', from) == Some(i));
}

proof fn lemma_find_char_skip_local(s: Seq<char>, c: char, from: int, upto: int)
    requires
        0 <= from <= upto <= s.len(),
        forall|j: int| from <= j < upto ==> s[j] != c,
    ensures
        spec_find_char(s, c, from) == spec_find_char(s, c, upto),
    decreases upto - from,
{
    if from < upto {
        lemma_find_char_skip_local(s, c, from + 1, upto);
    }
}

proof fn lemma_lines_tail(v: Seq<char>, from: int, to: int)
    requires
        0 <= from < to <= v.len(),
        forall|j: int| from <= j < to ==> v[j] != '\n',
    ensures
        spec_lines(v, from, to) == seq![strip_cr(v.subrange(from, to))],
{
    lemma_find_char_skip_local(v, '\n', from, to);
    match spec_find_char(v, '\n', to) {
        Some(i) => {
            lemma_find_char_in_range(v, '\n', to);
        },
        None => {},
    }
}

/// One reference as four character sequences.
pub open spec fn block_start_at(s: Seq<char>, k: int) -> int {
    sub_starts(s, "RTYSA03:"@, 0)[k]
}

/// Where block `k`'s content ends: just before the next sentinel, or
/// at the end of the text.
pub open spec fn block_end_at(s: Seq<char>, k: int) -> int {
    let starts = sub_starts(s, "RTYSA03:"@, 0);
    if k + 1 < starts.len() {
        starts[k + 1] - "RTYSA03:"@.len()
    } else {
        s.len() as int
    }
}

/// The lines of block `k`.
pub open spec fn block_lines_at(s: Seq<char>, k: int) -> Seq<Seq<char>> {
    spec_lines(s, block_start_at(s, k), block_end_at(s, k))
}

/// Whether a block is kept under the given kind: its head line trims
/// to the kind and it carries a non-empty record identifier.
pub open spec fn block_kept(bl: Seq<Seq<char>>, kind: Seq<char>) -> bool {
    bl.len() > 0 && trim_ws(bl[0]) == kind && spec_extract_id(bl, 1).len() > 0
}

/// The node records of the first `k` blocks, keyed by identifier,
/// later blocks winning: coordinate list and class reference.
pub open spec fn pno_records(s: Seq<char>, k: int) -> Map<
    Seq<char>,
    (Seq<Coord>, Option<(Seq<char>, Seq<char>, Seq<char>, Seq<char>)>),
>
    decreases k,
{
    if k <= 0 {
        Map::empty()
    } else {
        let m = pno_records(s, k - 1);
        let bl = block_lines_at(s, k - 1);
        if block_kept(bl, "PNO"@) {
            m.insert(
                spec_extract_id(bl, 1),
                (pno_fold(bl, bl.len() as int).0, pno_fold(bl, bl.len() as int).1),
            )
        } else {
            m
        }
    }
}

/// The arc records of the first `k` blocks.
pub open spec fn par_records(s: Seq<char>, k: int) -> Map<
    Seq<char>,
    (Seq<Coord>, Option<(Seq<char>, Seq<char>, Seq<char>, Seq<char>)>),
>
    decreases k,
{
    if k <= 0 {
        Map::empty()
    } else {
        let m = par_records(s, k - 1);
        let bl = block_lines_at(s, k - 1);
        if block_kept(bl, "PAR"@) {
            m.insert(
                spec_extract_id(bl, 1),
                (pno_fold(bl, bl.len() as int).0, pno_fold(bl, bl.len() as int).1),
            )
        } else {
            m
        }
    }
}

/// The face records of the first `k` blocks: the class reference.
pub open spec fn pfe_records(s: Seq<char>, k: int) -> Map<
    Seq<char>,
    Option<(Seq<char>, Seq<char>, Seq<char>, Seq<char>)>,
>
    decreases k,
{
    if k <= 0 {
        Map::empty()
    } else {
        let m = pfe_records(s, k - 1);
        let bl = block_lines_at(s, k - 1);
        if block_kept(bl, "PFE"@) {
            m.insert(spec_extract_id(bl, 1), pfe_fold(bl, bl.len() as int))
        } else {
            m
        }
    }
}

/// The business-feature records of the first `k` blocks: attributes,
/// class reference and quality reference.
pub open spec fn fea_records(s: Seq<char>, k: int) -> Map<
    Seq<char>,
    (
        Map<Seq<char>, Seq<char>>,
        Option<(Seq<char>, Seq<char>, Seq<char>, Seq<char>)>,
        Option<Seq<char>>,
    ),
>
    decreases k,
{
    if k <= 0 {
        Map::empty()
    } else {
        let m = fea_records(s, k - 1);
        let bl = block_lines_at(s, k - 1);
        if block_kept(bl, "FEA"@) {
            m.insert(
                spec_extract_id(bl, 1),
                (
                    fea_fold(bl, bl.len() as int).0,
                    fea_fold(bl, bl.len() as int).2,
                    fea_fold(bl, bl.len() as int).3,
                ),
            )
        } else {
            m
        }
    }
}

/// The relation records of the first `k` blocks: class reference and
/// tied references.
pub open spec fn lnk_records(s: Seq<char>, k: int) -> Map<
    Seq<char>,
    (
        Option<(Seq<char>, Seq<char>, Seq<char>, Seq<char>)>,
        Seq<(Seq<char>, Seq<char>, Seq<char>, Seq<char>)>,
    ),
>
    decreases k,
{
    if k <= 0 {
        Map::empty()
    } else {
        let m = lnk_records(s, k - 1);
        let bl = block_lines_at(s, k - 1);
        if block_kept(bl, "LNK"@) {
            m.insert(
                spec_extract_id(bl, 1),
                (lnk_fold(bl, bl.len() as int).0, lnk_fold(bl, bl.len() as int).1),
            )
        } else {
            m
        }
    }
}

/// How the node map relates to the node records: same keys, and each
/// record's identifier, coordinates and class reference tied to its
/// winning block.
pub open spec fn pno_rel(
    m: Map<Seq<char>, Point>,
    r: Map<Seq<char>, (Seq<Coord>, Option<(Seq<char>, Seq<char>, Seq<char>, Seq<char>)>)>,
) -> bool {
    &&& m.dom() =~= r.dom()
    &&& forall|id: Seq<char>|
        #![trigger m[id]]
        r.contains_key(id) ==> m[id].id@ == id && m[id].coords@ == r[id].0 && opt_ref_view(
            m[id].scp,
        ) == r[id].1
}

/// The arc map against the arc records.
pub open spec fn par_rel(
    m: Map<Seq<char>, Arc>,
    r: Map<Seq<char>, (Seq<Coord>, Option<(Seq<char>, Seq<char>, Seq<char>, Seq<char>)>)>,
) -> bool {
    &&& m.dom() =~= r.dom()
    &&& forall|id: Seq<char>|
        #![trigger m[id]]
        r.contains_key(id) ==> m[id].id@ == id && m[id].coords@ == r[id].0 && opt_ref_view(
            m[id].scp,
        ) == r[id].1
}

/// The face map against the face records: identifier and class
/// reference; the attached arcs come from the relation pass.
pub open spec fn pfe_rel(
    m: Map<Seq<char>, Face>,
    r: Map<Seq<char>, Option<(Seq<char>, Seq<char>, Seq<char>, Seq<char>)>>,
) -> bool {
    &&& m.dom() =~= r.dom()
    &&& forall|id: Seq<char>|
        #![trigger m[id]]
        r.contains_key(id) ==> m[id].id@ == id && opt_ref_view(m[id].scp) == r[id]
}

/// The feature map against the feature records.
pub open spec fn fea_rel(
    m: Map<Seq<char>, Feature>,
    r: Map<
        Seq<char>,
        (
            Map<Seq<char>, Seq<char>>,
            Option<(Seq<char>, Seq<char>, Seq<char>, Seq<char>)>,
            Option<Seq<char>>,
        ),
    >,
) -> bool {
    &&& m.dom() =~= r.dom()
    &&& forall|id: Seq<char>|
        #![trigger m[id]]
        r.contains_key(id) ==> m[id].id@ == id && attrs_match(m[id].attributes@, r[id].0)
            && opt_ref_view(m[id].scp) == r[id].1 && (match m[id].qap {
            Some(q) => r[id].2 == Some(q@),
            None => r[id].2 is None,
        })
}

/// The relation map against the relation records.
pub open spec fn lnk_rel(
    m: Map<Seq<char>, Link>,
    r: Map<
        Seq<char>,
        (
            Option<(Seq<char>, Seq<char>, Seq<char>, Seq<char>)>,
            Seq<(Seq<char>, Seq<char>, Seq<char>, Seq<char>)>,
        ),
    >,
) -> bool {
    &&& m.dom() =~= r.dom()
    &&& forall|id: Seq<char>|
        #![trigger m[id]]
        r.contains_key(id) ==> m[id].id@ == id && opt_ref_view(m[id].scp) == r[id].0 && m[
            id
        ].ftp@.map(|i: int, f: Reference| ref_view(f)) == r[id].1
}

/// Everything one payload file decodes to: the five record maps.
#[derive(Debug)]
pub struct ParsedVec {
    pub pno: StrMap<Point>,
    pub par: StrMap<Arc>,
    pub pfe: StrMap<Face>,
    pub fea: StrMap<Feature>,
    pub lnk: StrMap<Link>,
}

/// Splits a block into its lines, line terminators dropped.
pub fn split_block_lines(v: &[char], from: usize, to: usize) -> (r: Vec<String>)
    requires
        from <= to <= v@.len(),
    ensures
        line_views(r@) == spec_lines(v@, from as int, to as int),
{
    let mut lines: Vec<String> = Vec::new();
    let mut start = from;
    let mut i = from;
    while i < to
        invariant
            from <= start <= i <= to <= v@.len(),
            forall|j: int| start <= j < i ==> v@[j] != '\n',
            spec_lines(v@, from as int, to as int) == line_views(lines@) + spec_lines(
                v@,
                start as int,
                to as int,
            ),
        decreases to - i,
    {
        let c = v[i];
        if c == '\n' {
            let mut end = i;
            if end > start && v[end - 1] == '\r' {
                end = end - 1;
            }
            lines.push(string_of_range(v, start, end));
            proof {
                lemma_lines_head(v@, start as int, to as int, i as int);
                assert(strip_cr(v@.subrange(start as int, i as int)) == v@.subrange(
                    start as int,
                    end as int,
                )) by {
                    if i > start && v@[i - 1] == '\r' {
                        assert(v@.subrange(start as int, i as int).drop_last() =~= v@.subrange(
                            start as int,
                            i - 1,
                        ));
                    }
                }
                assert(spec_lines(v@, from as int, to as int) =~= line_views(lines@) + spec_lines(
                    v@,
                    i + 1,
                    to as int,
                ));
            }
            start = i + 1;
        }
        i = i + 1;
    }
    if start < to {
        let mut end = to;
        if end > start && v[end - 1] == '\r' {
            end = end - 1;
        }
        lines.push(string_of_range(v, start, end));
        proof {
            lemma_lines_tail(v@, start as int, to as int);
            assert(strip_cr(v@.subrange(start as int, to as int)) == v@.subrange(
                start as int,
                end as int,
            )) by {
                if to > start && v@[to - 1] == '\r' {
                    assert(v@.subrange(start as int, to as int).drop_last() =~= v@.subrange(
                        start as int,
                        end as int,
                    ));
                }
            }
            assert(spec_lines(v@, from as int, to as int) =~= line_views(lines@));
        }
    } else {
        proof {
            assert(spec_lines(v@, from as int, to as int) =~= line_views(lines@));
        }
    }
    lines
}

/// Copies a reference.
fn copy_reference(r: &Reference) -> (c: Reference)
    ensures
        ref_view(c) == ref_view(*r),
{
    Reference {
        sid: r.sid.clone(),
        gid: r.gid.clone(),
        rty: r.rty.clone(),
        rid: r.rid.clone(),
    }
}

/// Copies an arc record.
fn copy_arc(a: &Arc) -> (c: Arc)
    ensures
        c.id@ == a.id@,
        c.coords@ == a.coords@,
        opt_ref_view(c.scp) == opt_ref_view(a.scp),
{
    let scp = match &a.scp {
        Some(r) => Some(copy_reference(r)),
        None => None,
    };
    Arc { id: a.id.clone(), coords: crate::repair::copy_coords(&a.coords), scp }
}

/// Reads one payload file: splits it at the record sentinel, reads
/// each block by its three-letter kind, then attaches arcs to the
/// faces their relation records name.
pub fn parse(content: &str) -> (r: Result<ParsedVec, crate::errors::EdigeoError>)
    ensures
        r is Ok,
        content@.len() == 0 ==> (r matches Ok(p) && p.pno@ == Map::<Seq<char>, Point>::empty()
            && p.par@ == Map::<Seq<char>, Arc>::empty() && p.pfe@ =~= Map::<Seq<char>,
        Face>::empty() && p.fea@ == Map::<Seq<char>, Feature>::empty() && p.lnk@ == Map::<
            Seq<char>,
            Link,
        >::empty()),
        r matches Ok(p) && {
            let nb = sub_starts(content@, "RTYSA03:"@, 0).len() as int;
            &&& pno_rel(p.pno@, pno_records(content@, nb))
            &&& par_rel(p.par@, par_records(content@, nb))
            &&& pfe_rel(p.pfe@, pfe_records(content@, nb))
            &&& fea_rel(p.fea@, fea_records(content@, nb))
            &&& lnk_rel(p.lnk@, lnk_records(content@, nb))
        },
{
    proof {
        reveal_strlit("RTYSA03:");
        reveal_strlit("PNO");
        reveal_strlit("PAR");
        reveal_strlit("PFE");
        reveal_strlit("FEA");
        reveal_strlit("LNK");
    }
    let sentinel = chars_of("RTYSA03:");
    let pno_t = chars_of("PNO");
    let par_t = chars_of("PAR");
    let pfe_t = chars_of("PFE");
    let fea_t = chars_of("FEA");
    let lnk_t = chars_of("LNK");
    let cs = chars_of(content);
    let v = cs.as_slice();
    let n = cs.len();
    let ghost starts = sub_starts(cs@, "RTYSA03:"@, 0);
    let ghost bk: int = 0;
    let mut result = ParsedVec {
        pno: StrMap::new(),
        par: StrMap::new(),
        pfe: StrMap::new(),
        fea: StrMap::new(),
        lnk: StrMap::new(),
    };
    // Block starts: each sentinel occurrence.
    let mut cur: Option<usize> = match find_sub(v, sentinel.as_slice(), 0) {
        Some(i) => Some(i + 8),
        None => None,
    };
    proof {
        match spec_find_sub(cs@, "RTYSA03:"@, 0) {
            Some(i) => {
                assert(starts =~= seq![i + 8] + sub_starts(cs@, "RTYSA03:"@, i + 8));
            },
            None => {
                assert(starts =~= Seq::<int>::empty());
            },
        }
        if cur is Some {
            assert(sub_starts(cs@, "RTYSA03:"@, starts[0]) =~= starts.subrange(
                1,
                starts.len() as int,
            ));
        }
    }
    loop
        invariant
            n == cs@.len(),
            v@ == cs@,
            cs@ == content@,
            sentinel@ == "RTYSA03:"@,
            sentinel@.len() == 8,
            pno_t@ == "PNO"@,
            par_t@ == "PAR"@,
            pfe_t@ == "PFE"@,
            fea_t@ == "FEA"@,
            lnk_t@ == "LNK"@,
            starts == sub_starts(cs@, "RTYSA03:"@, 0),
            0 <= bk <= starts.len(),
            (match cur {
                Some(c) => bk < starts.len() && c as int == starts[bk] && c <= n && sub_starts(
                    cs@,
                    "RTYSA03:"@,
                    c as int,
                ) == starts.subrange(bk + 1, starts.len() as int),
                None => bk == starts.len(),
            }),
            pno_rel(result.pno@, pno_records(cs@, bk)),
            par_rel(result.par@, par_records(cs@, bk)),
            pfe_rel(result.pfe@, pfe_records(cs@, bk)),
            fea_rel(result.fea@, fea_records(cs@, bk)),
            lnk_rel(result.lnk@, lnk_records(cs@, bk)),
            content@.len() == 0 ==> cur is None,
            content@.len() == 0 ==> (result.pno@ == Map::<Seq<char>, Point>::empty()
                && result.par@ == Map::<Seq<char>, Arc>::empty() && result.pfe@ == Map::<
                Seq<char>,
                Face,
            >::empty() && result.fea@ == Map::<Seq<char>, Feature>::empty() && result.lnk@
                == Map::<Seq<char>, Link>::empty()),
        ensures
            bk == starts.len(),
            starts == sub_starts(cs@, "RTYSA03:"@, 0),
            cs@ == content@,
            pno_rel(result.pno@, pno_records(cs@, bk)),
            par_rel(result.par@, par_records(cs@, bk)),
            pfe_rel(result.pfe@, pfe_records(cs@, bk)),
            fea_rel(result.fea@, fea_records(cs@, bk)),
            lnk_rel(result.lnk@, lnk_records(cs@, bk)),
            content@.len() == 0 ==> (result.pno@ == Map::<Seq<char>, Point>::empty()
                && result.par@ == Map::<Seq<char>, Arc>::empty() && result.pfe@ == Map::<
                Seq<char>,
                Face,
            >::empty() && result.fea@ == Map::<Seq<char>, Feature>::empty() && result.lnk@
                == Map::<Seq<char>, Link>::empty()),
        decreases n + 1 - (match cur {
            Some(c) => c as int,
            None => n + 1,
        }),
    {
        let start = match cur {
            Some(c) => c,
            None => {
                break ;
            },
        };
        let next = if start < n {
            find_sub(v, sentinel.as_slice(), start)
        } else {
            None
        };
        proof {
            if start >= n {
                assert(spec_find_sub(cs@, "RTYSA03:"@, start as int) is None);
            }
            match next {
                Some(i) => {
                    assert(spec_find_sub(cs@, "RTYSA03:"@, start as int) == Some(i as int));
                    assert(sub_starts(cs@, "RTYSA03:"@, start as int) =~= seq![i + 8]
                        + sub_starts(cs@, "RTYSA03:"@, i + 8));
                    assert(starts.subrange(bk + 1, starts.len() as int)[0] == i + 8);
                    assert(starts[bk + 1] == i + 8);
                    assert forall|t: int|
                        0 <= t < sub_starts(cs@, "RTYSA03:"@, i + 8).len() implies #[trigger]
                    sub_starts(cs@, "RTYSA03:"@, i + 8)[t] == starts[bk + 2 + t] by {
                        assert(starts.subrange(bk + 1, starts.len() as int)[t + 1] == (seq![
                            (i + 8) as int,
                        ] + sub_starts(cs@, "RTYSA03:"@, i + 8))[t + 1]);
                    }
                    assert(sub_starts(cs@, "RTYSA03:"@, i + 8) =~= starts.subrange(
                        bk + 2,
                        starts.len() as int,
                    ));
                },
                None => {
                    assert(sub_starts(cs@, "RTYSA03:"@, start as int) =~= Seq::<int>::empty());
                    assert(starts.subrange(bk + 1, starts.len() as int).len() == 0);
                    assert(bk + 1 == starts.len());
                },
            }
        }
        let block_end = match next {
            Some(i) => i,
            None => n,
        };
        proof {
            assert(block_end >= start);
            assert(block_end as int == block_end_at(cs@, bk));
            assert(start as int == block_start_at(cs@, bk));
        }
        let lines = split_block_lines(v, start, block_end);
        let ghost bl = block_lines_at(cs@, bk);
        proof {
            reveal_strlit("PNO");
            reveal_strlit("PAR");
            reveal_strlit("PFE");
            reveal_strlit("FEA");
            reveal_strlit("LNK");
            assert(line_views(lines@) == bl);
            assert("PNO"@[0] == 'P' && "PAR"@[0] == 'P' && "PFE"@[0] == 'P' && "FEA"@[0] == 'F'
                && "LNK"@[0] == 'L' && "PNO"@[1] == 'N' && "PAR"@[1] == 'A' && "PFE"@[1] == 'F');
        }
        if lines.len() > 0 {
            let head = chars_of(lines[0].as_str());
            let hn = head.len();
            let head_trimmed = trim_ws_exec(head.as_slice(), 0, hn);
            proof {
                assert(head@ == lines@[0]@);
                assert(head@.subrange(0, hn as int) =~= head@);
                assert(head_trimmed@ == trim_ws(bl[0]));
            }
            let id = extract_id(&lines);
            proof {
                assert(id@ == spec_extract_id(bl, 1));
            }
            if !id.as_str().is_empty() {
                if crate::text::chars_eq(head_trimmed.as_slice(), pno_t.as_slice()) {
                    proof {
                        assert(block_kept(bl, "PNO"@));
                    }
                    let p = parse_pno(&lines, id.as_str());
                    let ghost pre = result.pno@;
                    result.pno.insert(id, p);
                    proof {
                        assert(pno_records(cs@, bk + 1) == pno_records(cs@, bk).insert(
                            spec_extract_id(bl, 1),
                            (pno_fold(bl, bl.len() as int).0, pno_fold(bl, bl.len() as int).1),
                        ));
                        assert(result.pno@.dom() =~= pno_records(cs@, bk + 1).dom());
                        assert(pno_rel(result.pno@, pno_records(cs@, bk + 1)));
                    }
                } else if crate::text::chars_eq(head_trimmed.as_slice(), par_t.as_slice()) {
                    proof {
                        assert(block_kept(bl, "PAR"@));
                    }
                    let p = parse_par(&lines, id.as_str());
                    result.par.insert(id, p);
                    proof {
                        assert(par_records(cs@, bk + 1) == par_records(cs@, bk).insert(
                            spec_extract_id(bl, 1),
                            (pno_fold(bl, bl.len() as int).0, pno_fold(bl, bl.len() as int).1),
                        ));
                        assert(result.par@.dom() =~= par_records(cs@, bk + 1).dom());
                        assert(par_rel(result.par@, par_records(cs@, bk + 1)));
                    }
                } else if crate::text::chars_eq(head_trimmed.as_slice(), pfe_t.as_slice()) {
                    proof {
                        assert(block_kept(bl, "PFE"@));
                    }
                    let p = parse_pfe(&lines, id.as_str());
                    result.pfe.insert(id, p);
                    proof {
                        assert(pfe_records(cs@, bk + 1) == pfe_records(cs@, bk).insert(
                            spec_extract_id(bl, 1),
                            pfe_fold(bl, bl.len() as int),
                        ));
                        assert(result.pfe@.dom() =~= pfe_records(cs@, bk + 1).dom());
                        assert(pfe_rel(result.pfe@, pfe_records(cs@, bk + 1)));
                    }
                } else if crate::text::chars_eq(head_trimmed.as_slice(), fea_t.as_slice()) {
                    proof {
                        assert(block_kept(bl, "FEA"@));
                    }
                    let p = parse_fea(&lines, id.as_str());
                    result.fea.insert(id, p);
                    proof {
                        assert(fea_records(cs@, bk + 1) == fea_records(cs@, bk).insert(
                            spec_extract_id(bl, 1),
                            (
                                fea_fold(bl, bl.len() as int).0,
                                fea_fold(bl, bl.len() as int).2,
                                fea_fold(bl, bl.len() as int).3,
                            ),
                        ));
                        assert(result.fea@.dom() =~= fea_records(cs@, bk + 1).dom());
                        assert(fea_rel(result.fea@, fea_records(cs@, bk + 1)));
                    }
                } else if crate::text::chars_eq(head_trimmed.as_slice(), lnk_t.as_slice()) {
                    proof {
                        assert(block_kept(bl, "LNK"@));
                    }
                    let p = parse_lnk(&lines, id.as_str());
                    result.lnk.insert(id, p);
                    proof {
                        assert(lnk_records(cs@, bk + 1) == lnk_records(cs@, bk).insert(
                            spec_extract_id(bl, 1),
                            (lnk_fold(bl, bl.len() as int).0, lnk_fold(bl, bl.len() as int).1),
                        ));
                        assert(result.lnk@.dom() =~= lnk_records(cs@, bk + 1).dom());
                        assert(lnk_rel(result.lnk@, lnk_records(cs@, bk + 1)));
                    }
                }
            }
        }
        proof {
            assert(pno_rel(result.pno@, pno_records(cs@, bk + 1)));
            assert(par_rel(result.par@, par_records(cs@, bk + 1)));
            assert(pfe_rel(result.pfe@, pfe_records(cs@, bk + 1)));
            assert(fea_rel(result.fea@, fea_records(cs@, bk + 1)));
            assert(lnk_rel(result.lnk@, lnk_records(cs@, bk + 1)));
        }
        cur = match next {
            Some(i) => {
                proof {
                    assert(i >= start);
                    assert(i + 8 <= n);
                }
                Some(i + 8)
            },
            None => None,
        };
        proof {
            bk = bk + 1;
        }
    }
    let ghost before_assoc = result.pfe@;
    associate_arcs_to_faces(&mut result);
    proof {
        if content@.len() == 0 {
            assert(result.pfe@.dom() =~= Map::<Seq<char>, Face>::empty().dom());
            assert(result.pfe@ =~= Map::<Seq<char>, Face>::empty());
        }
        let nb = sub_starts(content@, "RTYSA03:"@, 0).len() as int;
        assert(pfe_rel(result.pfe@, pfe_records(cs@, nb))) by {
            assert(result.pfe@.dom() =~= pfe_records(cs@, nb).dom());
            assert forall|id: Seq<char>|
                #![trigger result.pfe@[id]]
                pfe_records(cs@, nb).contains_key(id) implies result.pfe@[id].id@ == id
                && opt_ref_view(result.pfe@[id].scp) == pfe_records(cs@, nb)[id] by {
                assert(before_assoc.contains_key(id));
                assert(result.pfe@[id].id == before_assoc[id].id);
                assert(opt_ref_view(result.pfe@[id].scp) == opt_ref_view(before_assoc[id].scp));
            }
        }
    }
    Ok(result)
}

/// Attaches each arc to the face its composition relation names: a
/// relation whose class identifier holds `RCO_FAC` binds the arc
/// reference in its list to the face reference in the same list.
pub fn associate_arcs_to_faces(result: &mut ParsedVec)
    ensures
        final(result).pno == old(result).pno,
        final(result).par == old(result).par,
        final(result).fea == old(result).fea,
        final(result).lnk == old(result).lnk,
        final(result).pfe@.dom() == old(result).pfe@.dom(),
        forall|id: Seq<char>|
            #![trigger final(result).pfe@[id]]
            old(result).pfe@.contains_key(id) ==> final(result).pfe@[id].id == old(
                result,
            ).pfe@[id].id && opt_ref_view(final(result).pfe@[id].scp) == opt_ref_view(
                old(result).pfe@[id].scp,
            ),
{
    proof {
        reveal_strlit("RCO_FAC");
        reveal_strlit("PAR");
        reveal_strlit("PFE");
    }
    let rco = chars_of("RCO_FAC");
    let mut pairs: Vec<(String, String)> = Vec::new();
    let links = result.lnk.entries();
    let ln = links.len();
    let mut i: usize = 0;
    while i < ln
        invariant
            0 <= i <= ln,
            ln == links@.len(),
            rco@.len() > 0,
        decreases ln - i,
    {
        let lnk = &links[i].1;
        match &lnk.scp {
            Some(scp) => {
                let rc = chars_of(scp.rid.as_str());
                let is_rco = match find_sub(rc.as_slice(), rco.as_slice(), 0) {
                    Some(_) => true,
                    None => false,
                };
                if is_rco {
                    let mut arc_id: Option<String> = None;
                    let mut face_id: Option<String> = None;
                    let fn_ = lnk.ftp.len();
                    let mut k: usize = 0;
                    while k < fn_
                        invariant
                            0 <= k <= fn_,
                            fn_ == lnk.ftp@.len(),
                        decreases fn_ - k,
                    {
                        let rf = &lnk.ftp[k];
                        if arc_id.is_none() && crate::text::str_eq(rf.rty.as_str(), "PAR") {
                            arc_id = Some(rf.rid.clone());
                        } else if face_id.is_none() && crate::text::str_eq(rf.rty.as_str(), "PFE") {
                            face_id = Some(rf.rid.clone());
                        }
                        k = k + 1;
                    }
                    match (arc_id, face_id) {
                        (Some(a), Some(f)) => {
                            pairs.push((f, a));
                        },
                        _ => {},
                    }
                }
            },
            None => {},
        }
        i = i + 1;
    }
    let pn = pairs.len();
    let ghost dom0 = result.pfe@.dom();
    let mut p: usize = 0;
    while p < pn
        invariant
            0 <= p <= pn,
            pn == pairs@.len(),
            result.pno == old(result).pno,
            result.par == old(result).par,
            result.fea == old(result).fea,
            result.lnk == old(result).lnk,
            dom0 == old(result).pfe@.dom(),
            result.pfe@.dom() =~= dom0,
            forall|id: Seq<char>|
                #![trigger result.pfe@[id]]
                old(result).pfe@.contains_key(id) ==> result.pfe@[id].id == old(
                    result,
                ).pfe@[id].id && opt_ref_view(result.pfe@[id].scp) == opt_ref_view(
                    old(result).pfe@[id].scp,
                ),
        decreases pn - p,
    {
        let face_id = &pairs[p].0;
        let arc_id = &pairs[p].1;
        let arc_copy: Option<Arc> = match result.par.get(arc_id.as_str()) {
            Some(a) => Some(copy_arc(a)),
            None => None,
        };
        match arc_copy {
            Some(a) => {
                let ghost before = result.pfe@;
                match result.pfe.remove(face_id.as_str()) {
                    Some(mut face) => {
                        face.arcs.push(a);
                        result.pfe.insert(face_id.clone(), face);
                        proof {
                            assert(result.pfe@.dom() =~= before.dom());
                        }
                    },
                    None => {
                        proof {
                            assert(result.pfe@.dom() =~= before.dom());
                        }
                    },
                }
            },
            None => {},
        }
        p = p + 1;
    }
}

/// Trims whitespace from both ends of a character slice.
pub fn trim_ws_chars(v: &[char]) -> (r: Vec<char>)
    ensures
        r@ == trim_ws(v@),
{
    let r = trim_ws_exec(v, 0, v.len());
    proof {
        assert(v@.subrange(0, v@.len() as int) =~= v@);
    }
    r
}

/// Trims whitespace from both ends of a character range.
pub fn trim_ws_chars_range(v: &[char], from: usize, to: usize) -> (r: Vec<char>)
    requires
        from <= to <= v@.len(),
    ensures
        r@ == trim_ws(v@.subrange(from as int, to as int)),
{
    trim_ws_exec(v, from, to)
}

} // verus!
