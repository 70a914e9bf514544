//! The projection file: one recognised projection code, or a fatal
//! error for the archive.

use vstd::prelude::*;

use crate::bytes::{find_byte, find_bytes, find_eol, lossy_chars, lossy_chars_of_range,
    spec_find_byte, spec_find_bytes, spec_find_eol};
use crate::errors::EdigeoError;
use crate::text::{chars_of, eq_ignore_ascii_case, upper_seq};
use crate::types::Projection;

verus! {

/// The projection code the file declares: the text between the colon
/// after the first `RELSA` marker and the end of that line, trimmed.
pub open spec fn spec_proj_code(data: Seq<u8>) -> Option<Seq<char>> {
    match spec_find_bytes(data, "RELSA"@.map(|i: int, c: char| c as u8), 0) {
        Some(pos) => match spec_find_byte(data, 58, pos + 5) {
            Some(c) => {
                let vend = match spec_find_eol(data, c + 1) {
                    Some(e) => e,
                    None => data.len() as int,
                };
                Some(crate::parser::vec_records::trim_ws(lossy_chars(data.subrange(c + 1, vend))))
            },
            None => None,
        },
        None => None,
    }
}

/// The EPSG code a recognised projection name carries, matched
/// case-insensitively; an unrecognised name carries none.
pub open spec fn spec_epsg_of(code: Seq<char>) -> Option<u32> {
    let u = upper_seq(code);
    if u == upper_seq("LAMB93"@) {
        Some(2154u32)
    } else if u == upper_seq("RGF93CC42"@) {
        Some(3942u32)
    } else if u == upper_seq("RGF93CC43"@) {
        Some(3943u32)
    } else if u == upper_seq("RGF93CC44"@) {
        Some(3944u32)
    } else if u == upper_seq("RGF93CC45"@) {
        Some(3945u32)
    } else if u == upper_seq("RGF93CC46"@) {
        Some(3946u32)
    } else if u == upper_seq("RGF93CC47"@) {
        Some(3947u32)
    } else if u == upper_seq("RGF93CC48"@) {
        Some(3948u32)
    } else if u == upper_seq("RGF93CC49"@) {
        Some(3949u32)
    } else if u == upper_seq("RGF93CC50"@) {
        Some(3950u32)
    } else if u == upper_seq("GUAD48UTM20"@) {
        Some(2970u32)
    } else if u == upper_seq("MART38UTM20"@) {
        Some(2973u32)
    } else if u == upper_seq("RGFG95UTM22"@) {
        Some(2972u32)
    } else if u == upper_seq("RGR92UTM"@) {
        Some(2975u32)
    } else if u == upper_seq("RGM04"@) {
        Some(32738u32)
    } else {
        None
    }
}

/// The canonical name a recognised projection code carries.
pub open spec fn spec_name_of(code: Seq<char>) -> Seq<char> {
    let u = upper_seq(code);
    if u == upper_seq("LAMB93"@) {
        "LAMB93"@
    } else if u == upper_seq("RGF93CC42"@) {
        "RGF93CC42"@
    } else if u == upper_seq("RGF93CC43"@) {
        "RGF93CC43"@
    } else if u == upper_seq("RGF93CC44"@) {
        "RGF93CC44"@
    } else if u == upper_seq("RGF93CC45"@) {
        "RGF93CC45"@
    } else if u == upper_seq("RGF93CC46"@) {
        "RGF93CC46"@
    } else if u == upper_seq("RGF93CC47"@) {
        "RGF93CC47"@
    } else if u == upper_seq("RGF93CC48"@) {
        "RGF93CC48"@
    } else if u == upper_seq("RGF93CC49"@) {
        "RGF93CC49"@
    } else if u == upper_seq("RGF93CC50"@) {
        "RGF93CC50"@
    } else if u == upper_seq("GUAD48UTM20"@) {
        "GUAD48UTM20"@
    } else if u == upper_seq("MART38UTM20"@) {
        "MART38UTM20"@
    } else if u == upper_seq("RGFG95UTM22"@) {
        "RGFG95UTM22"@
    } else if u == upper_seq("RGR92UTM"@) {
        "RGR92UTM"@
    } else if u == upper_seq("RGM04"@) {
        "RGM04"@
    } else {
        Seq::empty()
    }
}

/// Reads the projection file: the declared code must be one of the
/// recognised names; anything else fails the archive with the
/// offending code, and a file without a code fails it too.
pub fn parse(data: &[u8]) -> (r: Result<Projection, EdigeoError>)
    ensures
        match r {
            Ok(p) => spec_proj_code(data@) matches Some(code) && spec_epsg_of(code) == Some(p.epsg)
                && spec_name_of(code) == p.name@,
            Err(e) => {
                &&& (e matches EdigeoError::UnknownProjection { .. })
                &&& (match spec_proj_code(data@) {
                    Some(code) => spec_epsg_of(code) is None && (e matches
                        EdigeoError::UnknownProjection(m) && m@ == code),
                    None => true,
                })
            },
        },
{
    proof {
        reveal_strlit("RELSA");
    }
    let marker: [u8; 5] = [82u8, 69u8, 76u8, 83u8, 65u8];
    proof {
        assert(marker@ =~= "RELSA"@.map(|i: int, c: char| c as u8));
    }
    let dn = data.len();
    let pos = match find_bytes(data, marker.as_slice(), 0) {
        Some(p) => p,
        None => {
            return Err(
                EdigeoError::UnknownProjection("No projection found in GEO file".to_owned()),
            );
        },
    };
    proof {
        assert(pos + 5 <= dn);
    }
    let c = match find_byte(data, 58, pos + 5) {
        Some(c) => c,
        None => {
            return Err(
                EdigeoError::UnknownProjection("No projection found in GEO file".to_owned()),
            );
        },
    };
    proof {
        assert(c < dn);
    }
    let vend = match find_eol(data, c + 1) {
        Some(e) => e,
        None => data.len(),
    };
    let raw = lossy_chars_of_range(data, c + 1, vend);
    let code = crate::parser::vec_records::trim_ws_chars(raw.as_slice());
    let cd = code.as_slice();
    let lamb93 = chars_of("LAMB93");
    if eq_ignore_ascii_case(cd, lamb93.as_slice()) {
        return Ok(Projection { epsg: 2154, name: "LAMB93" });
    }
    let n42 = chars_of("RGF93CC42");
    if eq_ignore_ascii_case(cd, n42.as_slice()) {
        return Ok(Projection { epsg: 3942, name: "RGF93CC42" });
    }
    let n43 = chars_of("RGF93CC43");
    if eq_ignore_ascii_case(cd, n43.as_slice()) {
        return Ok(Projection { epsg: 3943, name: "RGF93CC43" });
    }
    let n44 = chars_of("RGF93CC44");
    if eq_ignore_ascii_case(cd, n44.as_slice()) {
        return Ok(Projection { epsg: 3944, name: "RGF93CC44" });
    }
    let n45 = chars_of("RGF93CC45");
    if eq_ignore_ascii_case(cd, n45.as_slice()) {
        return Ok(Projection { epsg: 3945, name: "RGF93CC45" });
    }
    let n46 = chars_of("RGF93CC46");
    if eq_ignore_ascii_case(cd, n46.as_slice()) {
        return Ok(Projection { epsg: 3946, name: "RGF93CC46" });
    }
    let n47 = chars_of("RGF93CC47");
    if eq_ignore_ascii_case(cd, n47.as_slice()) {
        return Ok(Projection { epsg: 3947, name: "RGF93CC47" });
    }
    let n48 = chars_of("RGF93CC48");
    if eq_ignore_ascii_case(cd, n48.as_slice()) {
        return Ok(Projection { epsg: 3948, name: "RGF93CC48" });
    }
    let n49 = chars_of("RGF93CC49");
    if eq_ignore_ascii_case(cd, n49.as_slice()) {
        return Ok(Projection { epsg: 3949, name: "RGF93CC49" });
    }
    let n50 = chars_of("RGF93CC50");
    if eq_ignore_ascii_case(cd, n50.as_slice()) {
        return Ok(Projection { epsg: 3950, name: "RGF93CC50" });
    }
    let guad = chars_of("GUAD48UTM20");
    if eq_ignore_ascii_case(cd, guad.as_slice()) {
        return Ok(Projection { epsg: 2970, name: "GUAD48UTM20" });
    }
    let mart = chars_of("MART38UTM20");
    if eq_ignore_ascii_case(cd, mart.as_slice()) {
        return Ok(Projection { epsg: 2973, name: "MART38UTM20" });
    }
    let rgfg = chars_of("RGFG95UTM22");
    if eq_ignore_ascii_case(cd, rgfg.as_slice()) {
        return Ok(Projection { epsg: 2972, name: "RGFG95UTM22" });
    }
    let rgr = chars_of("RGR92UTM");
    if eq_ignore_ascii_case(cd, rgr.as_slice()) {
        return Ok(Projection { epsg: 2975, name: "RGR92UTM" });
    }
    let rgm = chars_of("RGM04");
    if eq_ignore_ascii_case(cd, rgm.as_slice()) {
        return Ok(Projection { epsg: 32738, name: "RGM04" });
    }
    Err(EdigeoError::UnknownProjection(crate::text::string_of_chars(cd)))
}

} // verus!
