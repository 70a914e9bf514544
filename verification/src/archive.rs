//! Sorting the files of one archive into the four logical slots, and
//! what an archive's name tells about it.

use vstd::prelude::*;

use crate::errors::EdigeoError;
use crate::text::{
    chars_of, find_sub, is_digit, is_digit_char, spec_find_sub, string_of_range, to_upper_chars,
    upper_seq,
};

verus! {

/// The four logical files of one archive, as raw bytes.
#[derive(Debug)]
pub struct EdigeoArchive {
    /// Header and metadata.
    pub thf: Vec<u8>,
    /// Projection description.
    pub geo: Vec<u8>,
    /// Lineage and quality; empty when the archive carries none.
    pub qal: Vec<u8>,
    /// Topology and feature payloads, one per sheet.
    pub vec_files: Vec<Vec<u8>>,
}

/// The ASCII-upper-cased extension of a file name: what follows the
/// last dot, or the whole name if it has none.
pub open spec fn spec_ext_of(name: Seq<char>) -> Seq<char> {
    spec_ext_rec(upper_seq(name), upper_seq(name).len() as int)
}

/// Helper: the suffix after the last '.' before position `upto`.
pub open spec fn spec_ext_rec(s: Seq<char>, upto: int) -> Seq<char>
    decreases upto,
{
    if upto <= 0 {
        s.subrange(0, s.len() as int)
    } else if s[upto - 1] == '.' {
        s.subrange(upto, s.len() as int)
    } else {
        spec_ext_rec(s, upto - 1)
    }
}

/// The upper-cased extension of a name.
fn ext_of(name: &[char]) -> (r: Vec<char>)
    ensures
        r@ == spec_ext_of(name@),
{
    let u = to_upper_chars(name);
    let n = u.len();
    let mut upto: usize = n;
    loop
        invariant
            0 <= upto <= n,
            n == u@.len(),
            u@ == upper_seq(name@),
            spec_ext_rec(u@, upto as int) == spec_ext_of(name@),
        decreases upto,
    {
        if upto == 0 {
            let r = string_range_chars(&u, 0, n);
            proof {
                assert(u@.subrange(0, u@.len() as int) =~= spec_ext_of(name@));
            }
            return r;
        }
        if u[upto - 1] == '.' {
            return string_range_chars(&u, upto, n);
        }
        upto = upto - 1;
    }
}

/// Copies `v[start..end]` into a fresh vector.
fn string_range_chars(v: &Vec<char>, start: usize, end: usize) -> (r: Vec<char>)
    requires
        start <= end <= v@.len(),
    ensures
        r@ == v@.subrange(start as int, end as int),
{
    let mut r: Vec<char> = Vec::new();
    let mut i: usize = start;
    while i < end
        invariant
            start <= i <= end <= v@.len(),
            r@ == v@.subrange(start as int, i as int),
        decreases end - i,
    {
        r.push(v[i]);
        proof {
            assert(r@ =~= v@.subrange(start as int, i + 1));
        }
        i = i + 1;
    }
    r
}

/// Whether the file name carries the given upper-cased extension.
pub open spec fn has_ext(name: Seq<char>, ext: Seq<char>) -> bool {
    spec_ext_of(name) == ext
}

/// Content of the last entry with extension `ext`, if any.
pub open spec fn last_with_ext(entries: Seq<(String, Vec<u8>)>, ext: Seq<char>) -> Option<Seq<u8>>
    decreases entries.len(),
{
    if entries.len() == 0 {
        None
    } else if has_ext(entries.last().0@, ext) {
        Some(entries.last().1@)
    } else {
        last_with_ext(entries.drop_last(), ext)
    }
}

/// Contents of all entries with extension `ext`, in order.
pub open spec fn all_with_ext(entries: Seq<(String, Vec<u8>)>, ext: Seq<char>) -> Seq<Seq<u8>>
    decreases entries.len(),
{
    if entries.len() == 0 {
        Seq::empty()
    } else if has_ext(entries.last().0@, ext) {
        all_with_ext(entries.drop_last(), ext).push(entries.last().1@)
    } else {
        all_with_ext(entries.drop_last(), ext)
    }
}

/// Copies a byte vector.
fn clone_bytes(v: &Vec<u8>) -> (r: Vec<u8>)
    ensures
        r@ == v@,
{
    let mut r: Vec<u8> = Vec::new();
    let n = v.len();
    let mut i: usize = 0;
    while i < n
        invariant
            0 <= i <= n,
            n == v@.len(),
            r@ == v@.subrange(0, i as int),
        decreases n - i,
    {
        r.push(v[i]);
        proof {
            assert(r@ =~= v@.subrange(0, i + 1));
        }
        i = i + 1;
    }
    proof {
        assert(v@.subrange(0, n as int) =~= v@);
    }
    r
}

/// Sorts the files of one archive into the four logical slots: the last
/// header, projection and quality file win; every payload file is kept
/// in order; a missing header, projection or payload file is an error
/// naming the missing slot, checked in that order.
pub fn collect_archive_files(entries: &Vec<(String, Vec<u8>)>) -> (r: Result<
    EdigeoArchive,
    EdigeoError,
>)
    ensures
        match r {
            Ok(a) => {
                &&& Some(a.thf@) == last_with_ext(entries@, "THF"@)
                &&& Some(a.geo@) == last_with_ext(entries@, "GEO"@)
                &&& (match last_with_ext(entries@, "QAL"@) {
                    Some(q) => a.qal@ == q,
                    None => a.qal@ == Seq::<u8>::empty(),
                })
                &&& a.vec_files@.map(|i: int, v: Vec<u8>| v@) == all_with_ext(entries@, "VEC"@)
                &&& all_with_ext(entries@, "VEC"@).len() > 0
            },
            Err(e) => {
                &&& (e matches EdigeoError::MissingFile { .. })
                &&& (e matches EdigeoError::MissingFile(f) ==> (if last_with_ext(entries@, "THF"@)
                    is None {
                    f@ == "THF"@
                } else if last_with_ext(entries@, "GEO"@) is None {
                    f@ == "GEO"@
                } else {
                    f@ == "VEC"@ && all_with_ext(entries@, "VEC"@).len() == 0
                }))
                &&& (last_with_ext(entries@, "THF"@) is None || last_with_ext(entries@, "GEO"@)
                    is None || all_with_ext(entries@, "VEC"@).len() == 0)
            },
        },
{
    proof {
        reveal_strlit("THF");
        reveal_strlit("GEO");
        reveal_strlit("QAL");
        reveal_strlit("VEC");
    }
    let thf_ext = chars_of("THF");
    let geo_ext = chars_of("GEO");
    let qal_ext = chars_of("QAL");
    let vec_ext = chars_of("VEC");
    let mut thf: Option<Vec<u8>> = None;
    let mut geo: Option<Vec<u8>> = None;
    let mut qal: Option<Vec<u8>> = None;
    let mut payloads: Vec<Vec<u8>> = Vec::new();
    let n = entries.len();
    let mut i: usize = 0;
    while i < n
        invariant
            0 <= i <= n,
            n == entries@.len(),
            thf_ext@ == "THF"@,
            geo_ext@ == "GEO"@,
            qal_ext@ == "QAL"@,
            vec_ext@ == "VEC"@,
            (match thf {
                Some(v) => Some(v@) == last_with_ext(entries@.subrange(0, i as int), "THF"@),
                None => last_with_ext(entries@.subrange(0, i as int), "THF"@) is None,
            }),
            (match geo {
                Some(v) => Some(v@) == last_with_ext(entries@.subrange(0, i as int), "GEO"@),
                None => last_with_ext(entries@.subrange(0, i as int), "GEO"@) is None,
            }),
            (match qal {
                Some(v) => Some(v@) == last_with_ext(entries@.subrange(0, i as int), "QAL"@),
                None => last_with_ext(entries@.subrange(0, i as int), "QAL"@) is None,
            }),
            payloads@.map(|k: int, v: Vec<u8>| v@) == all_with_ext(
                entries@.subrange(0, i as int),
                "VEC"@,
            ),
        decreases n - i,
    {
        let entry = &entries[i];
        let name_chars = chars_of(entry.0.as_str());
        let ext = ext_of(name_chars.as_slice());
        let content = clone_bytes(&entry.1);
        proof {
            reveal_strlit("THF");
            reveal_strlit("GEO");
            reveal_strlit("QAL");
            reveal_strlit("VEC");
            assert("THF"@[0] == 'T' && "GEO"@[0] == 'G' && "QAL"@[0] == 'Q' && "VEC"@[0] == 'V');
            assert("THF"@ != "GEO"@ && "THF"@ != "QAL"@ && "THF"@ != "VEC"@ && "GEO"@ != "QAL"@
                && "GEO"@ != "VEC"@ && "QAL"@ != "VEC"@);
            let t = entries@.subrange(0, i + 1);
            assert(t.drop_last() =~= entries@.subrange(0, i as int));
            assert(t.last() == entries@[i as int]);
        }
        if crate::text::chars_eq(ext.as_slice(), thf_ext.as_slice()) {
            thf = Some(content);
        } else if crate::text::chars_eq(ext.as_slice(), geo_ext.as_slice()) {
            geo = Some(content);
        } else if crate::text::chars_eq(ext.as_slice(), qal_ext.as_slice()) {
            qal = Some(content);
        } else if crate::text::chars_eq(ext.as_slice(), vec_ext.as_slice()) {
            payloads.push(content);
            proof {
                assert(payloads@.map(|k: int, v: Vec<u8>| v@) =~= all_with_ext(
                    entries@.subrange(0, i + 1),
                    "VEC"@,
                ));
            }
        } else {
            proof {
                assert(payloads@.map(|k: int, v: Vec<u8>| v@) =~= all_with_ext(
                    entries@.subrange(0, i + 1),
                    "VEC"@,
                ));
            }
        }
        i = i + 1;
    }
    proof {
        assert(entries@.subrange(0, n as int) =~= entries@);
    }
    let thf = match thf {
        Some(v) => v,
        None => {
            return Err(EdigeoError::MissingFile("THF".to_owned()));
        },
    };
    let geo = match geo {
        Some(v) => v,
        None => {
            return Err(EdigeoError::MissingFile("GEO".to_owned()));
        },
    };
    let qal = match qal {
        Some(v) => v,
        None => Vec::new(),
    };
    if payloads.len() == 0 {
        return Err(EdigeoError::MissingFile("VEC".to_owned()));
    }
    Ok(EdigeoArchive { thf, geo, qal, vec_files: payloads })
}

// ---- names ----

/// Whether `s` ends with the `n`-character suffix `t` (`n` is `t`'s
/// length, passed separately so the spec needs no literal lengths).
pub open spec fn ends_with(s: Seq<char>, t: Seq<char>) -> bool {
    s.len() >= t.len() && s.subrange(s.len() - t.len(), s.len() as int) == t
}

/// The archive base name: the name with `.tar.bz2`, else `.bz2`, else
/// `.tar` stripped, in that order of precedence.
pub open spec fn spec_archive_basename(s: Seq<char>) -> Seq<char> {
    if ends_with(s, ".tar.bz2"@) {
        s.subrange(0, s.len() - ".tar.bz2"@.len())
    } else if ends_with(s, ".bz2"@) {
        s.subrange(0, s.len() - ".bz2"@.len())
    } else if ends_with(s, ".tar"@) {
        s.subrange(0, s.len() - ".tar"@.len())
    } else {
        s
    }
}

/// Whether `s` ends with `t`.
fn ends_with_chars(s: &[char], t: &[char]) -> (r: bool)
    ensures
        r == ends_with(s@, t@),
{
    if s.len() < t.len() {
        return false;
    }
    crate::text::matches_at(s, t, s.len() - t.len())
}

/// Strips the archive container suffix from a file name: `.tar.bz2`,
/// else `.bz2`, else `.tar`; anything else is returned unchanged.
pub fn get_archive_basename(name: &str) -> (r: String)
    ensures
        r@ == spec_archive_basename(name@),
{
    let cs = chars_of(name);
    let tarbz2 = chars_of(".tar.bz2");
    let bz2 = chars_of(".bz2");
    let tar = chars_of(".tar");
    if ends_with_chars(cs.as_slice(), tarbz2.as_slice()) {
        string_of_range(cs.as_slice(), 0, cs.len() - tarbz2.len())
    } else if ends_with_chars(cs.as_slice(), bz2.as_slice()) {
        string_of_range(cs.as_slice(), 0, cs.len() - bz2.len())
    } else if ends_with_chars(cs.as_slice(), tar.as_slice()) {
        string_of_range(cs.as_slice(), 0, cs.len() - tar.len())
    } else {
        crate::text::string_of_chars(cs.as_slice())
    }
}

/// The file stem: the name up to its last dot; a name whose only dot
/// leads it, or that has none, is kept whole.
pub open spec fn spec_stem(s: Seq<char>) -> Seq<char> {
    spec_stem_rec(s, s.len() as int)
}

/// Helper: searches the last dot before `upto`.
pub open spec fn spec_stem_rec(s: Seq<char>, upto: int) -> Seq<char>
    decreases upto,
{
    if upto <= 1 {
        s
    } else if s[upto - 1] == '.' {
        s.subrange(0, upto - 1)
    } else {
        spec_stem_rec(s, upto - 1)
    }
}

/// Repeatedly strips a trailing `.tar`.
pub open spec fn spec_trim_tar(s: Seq<char>) -> Seq<char>
    decreases s.len(),
{
    if s.len() >= 4 && s.subrange(s.len() - 4, s.len() as int) == ".tar"@ {
        spec_trim_tar(s.subrange(0, s.len() - 4))
    } else {
        s
    }
}

/// The departement code a file name shows: the two characters after
/// `EDIGEO-` in the trimmed stem; else, after the first dash, two
/// digits or the Corsican codes `2A`/`2B`; else nothing.
pub open spec fn spec_extract_departement(name: Seq<char>) -> Option<Seq<char>> {
    let base = spec_trim_tar(spec_stem(name));
    match spec_find_sub(base, "EDIGEO-"@, 0) {
        Some(pos) => if base.len() - (pos + "EDIGEO-"@.len()) >= 2 {
            Some(base.subrange(pos + "EDIGEO-"@.len(), pos + "EDIGEO-"@.len() + 2))
        } else {
            spec_dep_after_dash(base)
        },
        None => spec_dep_after_dash(base),
    }
}

/// Fallback: the two characters after the first dash, when they look
/// like a departement code.
pub open spec fn spec_dep_after_dash(base: Seq<char>) -> Option<Seq<char>> {
    match crate::text::spec_find_char(base, '-', 0) {
        Some(d) => if base.len() - (d + 1) >= 2 && ((is_digit(base[d + 1]) && is_digit(
            base[d + 2],
        )) || (base[d + 1] == '2' && (base[d + 2] == 'A' || base[d + 2] == 'B'))) {
            Some(base.subrange(d + 1, d + 3))
        } else {
            None
        },
        None => None,
    }
}

/// The file stem of a name, as characters.
fn stem_chars(cs: &Vec<char>) -> (r: Vec<char>)
    ensures
        r@ == spec_stem(cs@),
{
    let n = cs.len();
    let mut upto: usize = n;
    loop
        invariant
            0 <= upto <= n,
            n == cs@.len(),
            spec_stem_rec(cs@, upto as int) == spec_stem(cs@),
        decreases upto,
    {
        if upto <= 1 {
            let r = string_range_chars(cs, 0, n);
            proof {
                assert(cs@.subrange(0, n as int) =~= cs@);
            }
            return r;
        }
        if cs[upto - 1] == '.' {
            return string_range_chars(cs, 0, upto - 1);
        }
        upto = upto - 1;
    }
}

/// Strips trailing `.tar` suffixes.
fn trim_tar_chars(cs: Vec<char>) -> (r: Vec<char>)
    ensures
        r@ == spec_trim_tar(cs@),
    decreases cs@.len(),
{
    proof {
        reveal_strlit(".tar");
    }
    let tar = chars_of(".tar");
    if cs.len() >= 4 && crate::text::matches_at(cs.as_slice(), tar.as_slice(), cs.len() - 4) {
        let shorter = string_range_chars(&cs, 0, cs.len() - 4);
        trim_tar_chars(shorter)
    } else {
        cs
    }
}

/// Reads the departement code off an archive file name, preferring the
/// two characters after `EDIGEO-`.
pub fn extract_departement(file_name: &str) -> (r: Option<String>)
    ensures
        match r {
            Some(s) => spec_extract_departement(file_name@) == Some(s@),
            None => spec_extract_departement(file_name@) is None,
        },
{
    proof {
        reveal_strlit("EDIGEO-");
    }
    let cs = chars_of(file_name);
    let stem = stem_chars(&cs);
    let base = trim_tar_chars(stem);
    let needle = chars_of("EDIGEO-");
    let mut from_prefix: Option<usize> = None;
    if base.len() > 0 {
        from_prefix = find_sub(base.as_slice(), needle.as_slice(), 0);
    }
    match from_prefix {
        Some(pos) if base.len() - pos >= 9 => {
            return Some(string_of_range(base.as_slice(), pos + 7, pos + 9));
        },
        _ => {},
    }
    proof {
        if base@.len() == 0 {
            assert(crate::text::spec_find_sub(base@, "EDIGEO-"@, 0) is None);
        }
    }
    let dash = crate::text::find_char(base.as_slice(), '-', 0);
    match dash {
        Some(d) => {
            if base.len() - (d + 1) >= 2 {
                let c1 = base[d + 1];
                let c2 = base[d + 2];
                if (is_digit_char(c1) && is_digit_char(c2)) || (c1 == '2' && (c2 == 'A' || c2
                    == 'B')) {
                    return Some(string_of_range(base.as_slice(), d + 1, d + 3));
                }
            }
            None
        },
        None => None,
    }
}

/// The departement code per the bulk-download naming scheme: after the
/// `edigeo-` prefix, two digits, `2A`/`2B`, or three digits for the
/// overseas codes starting `97`/`98`.
pub open spec fn spec_derive_dep(name: Seq<char>) -> Option<Seq<char>> {
    if !(name.len() >= "edigeo-"@.len() && name.subrange(0, "edigeo-"@.len() as int) == "edigeo-"@) {
        None
    } else {
        let rest = name.subrange("edigeo-"@.len() as int, name.len() as int);
        if rest.len() >= 2 && is_digit(rest[0]) && is_digit(rest[1]) {
            if rest[0] == '9' && (rest[1] == '7' || rest[1] == '8') && rest.len() >= 3 && is_digit(
                rest[2],
            ) {
                Some(rest.subrange(0, 3))
            } else {
                Some(rest.subrange(0, 2))
            }
        } else if rest.len() >= 2 && rest[0] == '2' && (rest[1] == 'A' || rest[1] == 'B') {
            Some(rest.subrange(0, 2))
        } else {
            None
        }
    }
}

/// Reads the departement code off a lower-case bulk-download file name.
pub fn derive_dep_from_archive(file_name: &str) -> (r: Option<String>)
    ensures
        match r {
            Some(s) => spec_derive_dep(file_name@) == Some(s@),
            None => spec_derive_dep(file_name@) is None,
        },
{
    proof {
        reveal_strlit("edigeo-");
    }
    let cs = chars_of(file_name);
    let prefix = chars_of("edigeo-");
    if !crate::text::matches_at(cs.as_slice(), prefix.as_slice(), 0) {
        proof {
            assert(!(cs@.len() >= "edigeo-"@.len() && cs@.subrange(0, "edigeo-"@.len() as int)
                == "edigeo-"@));
        }
        return None;
    }
    let rest = string_range_chars(&cs, 7, cs.len());
    proof {
        assert(rest@ == cs@.subrange("edigeo-"@.len() as int, cs@.len() as int));
    }
    if rest.len() >= 2 && is_digit_char(rest[0]) && is_digit_char(rest[1]) {
        if rest[0] == '9' && (rest[1] == '7' || rest[1] == '8') && rest.len() >= 3 && is_digit_char(
            rest[2],
        ) {
            Some(string_of_range(rest.as_slice(), 0, 3))
        } else {
            Some(string_of_range(rest.as_slice(), 0, 2))
        }
    } else if rest.len() >= 2 && rest[0] == '2' && (rest[1] == 'A' || rest[1] == 'B') {
        Some(string_of_range(rest.as_slice(), 0, 2))
    } else {
        None
    }
}

} // verus!
