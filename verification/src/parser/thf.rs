//! The header file: text encoding and vintage year.

use vstd::prelude::*;

use crate::bytes::{find_byte, find_bytes, find_eol, lossy_chars, lossy_chars_of_range,
    spec_find_byte, spec_find_bytes, spec_find_eol};
use crate::dates::dec_value;
use crate::errors::EdigeoError;
use crate::text::{chars_of, eq_ignore_ascii_case, is_digit, upper_seq};
use crate::types::{TextEncoding, ThfData};

verus! {

/// The field payload after a marker: the text between the first colon
/// after the first occurrence of `marker` and the end of that line,
/// read byte for byte.
pub open spec fn field_after(data: Seq<u8>, marker: Seq<u8>) -> Option<Seq<char>> {
    match spec_find_bytes(data, marker, 0) {
        Some(pos) => match spec_find_byte(data, 58, pos + marker.len()) {
            Some(c) => {
                let vend = match spec_find_eol(data, c + 1) {
                    Some(e) => e,
                    None => data.len() as int,
                };
                Some(crate::parser::vec_records::trim_ws(lossy_chars(data.subrange(c + 1, vend))))
            },
            None => None,
        },
        None => None,
    }
}

/// Reads the field after a marker.
fn read_field_after(data: &[u8], marker: &[u8]) -> (r: Option<Vec<char>>)
    requires
        marker@.len() > 0,
    ensures
        match r {
            Some(v) => field_after(data@, marker@) == Some(v@),
            None => field_after(data@, marker@) is None,
        },
{
    let dn = data.len();
    let pos = match find_bytes(data, marker, 0) {
        Some(p) => p,
        None => {
            return None;
        },
    };
    proof {
        assert(pos + marker@.len() <= dn);
    }
    let c = match find_byte(data, 58, pos + marker.len()) {
        Some(c) => c,
        None => {
            return None;
        },
    };
    proof {
        assert(c < dn);
    }
    let vend = match find_eol(data, c + 1) {
        Some(e) => e,
        None => data.len(),
    };
    let chars = lossy_chars_of_range(data, c + 1, vend);
    let trimmed = crate::parser::vec_records::trim_ws_chars(chars.as_slice());
    Some(trimmed)
}

/// The encoding a header code names: the Latin-9 default for the
/// French codes and anything unrecognised, the respective Latin part
/// otherwise.
pub open spec fn spec_cset(code: Seq<char>) -> TextEncoding {
    let u = upper_seq(code);
    if u == upper_seq("IRV"@) || u == upper_seq("646-FRANCE"@) || u == upper_seq("8859-1"@) {
        TextEncoding::Latin9
    } else if u == upper_seq("8859-2"@) {
        TextEncoding::Iso8859_2
    } else if u == upper_seq("8859-3"@) {
        TextEncoding::Iso8859_3
    } else if u == upper_seq("8859-4"@) {
        TextEncoding::Iso8859_4
    } else if u == upper_seq("8859-5"@) {
        TextEncoding::Iso8859_5
    } else if u == upper_seq("8859-6"@) {
        TextEncoding::Iso8859_6
    } else if u == upper_seq("8859-7"@) {
        TextEncoding::Iso8859_7
    } else if u == upper_seq("8859-8"@) {
        TextEncoding::Iso8859_8
    } else if u == upper_seq("8859-9"@) {
        TextEncoding::Windows1254
    } else if u == upper_seq("8859-15"@) {
        TextEncoding::Latin9
    } else {
        TextEncoding::Latin9
    }
}

/// Maps a header code to its encoding.
pub fn cset_to_encoding(cset: &str) -> (r: TextEncoding)
    ensures
        r == spec_cset(cset@),
{
    let cs = chars_of(cset);
    let c = cs.as_slice();
    let irv = chars_of("IRV");
    let france = chars_of("646-FRANCE");
    let l1 = chars_of("8859-1");
    let l2 = chars_of("8859-2");
    let l3 = chars_of("8859-3");
    let l4 = chars_of("8859-4");
    let l5 = chars_of("8859-5");
    let l6 = chars_of("8859-6");
    let l7 = chars_of("8859-7");
    let l8 = chars_of("8859-8");
    let l9 = chars_of("8859-9");
    let l15 = chars_of("8859-15");
    if eq_ignore_ascii_case(c, irv.as_slice()) || eq_ignore_ascii_case(c, france.as_slice())
        || eq_ignore_ascii_case(c, l1.as_slice()) {
        TextEncoding::Latin9
    } else if eq_ignore_ascii_case(c, l2.as_slice()) {
        TextEncoding::Iso8859_2
    } else if eq_ignore_ascii_case(c, l3.as_slice()) {
        TextEncoding::Iso8859_3
    } else if eq_ignore_ascii_case(c, l4.as_slice()) {
        TextEncoding::Iso8859_4
    } else if eq_ignore_ascii_case(c, l5.as_slice()) {
        TextEncoding::Iso8859_5
    } else if eq_ignore_ascii_case(c, l6.as_slice()) {
        TextEncoding::Iso8859_6
    } else if eq_ignore_ascii_case(c, l7.as_slice()) {
        TextEncoding::Iso8859_7
    } else if eq_ignore_ascii_case(c, l8.as_slice()) {
        TextEncoding::Iso8859_8
    } else if eq_ignore_ascii_case(c, l9.as_slice()) {
        TextEncoding::Windows1254
    } else if eq_ignore_ascii_case(c, l15.as_slice()) {
        TextEncoding::Latin9
    } else {
        TextEncoding::Latin9
    }
}

/// The encoding the header declares: from its `CSET` field, Latin-9
/// when the field is absent.
pub open spec fn spec_encoding(data: Seq<u8>) -> TextEncoding {
    match field_after(data, "CSET"@.map(|i: int, c: char| c as u8)) {
        Some(code) => spec_cset(code),
        None => TextEncoding::Latin9,
    }
}

/// Reads the declared encoding.
pub fn parse_encoding(data: &[u8]) -> (r: Result<TextEncoding, EdigeoError>)
    ensures
        r matches Ok(e) && e == spec_encoding(data@),
{
    proof {
        reveal_strlit("CSET");
    }
    let marker: [u8; 4] = [67u8, 83u8, 69u8, 84u8];
    proof {
        assert(marker@ =~= "CSET"@.map(|i: int, c: char| c as u8));
    }
    match read_field_after(data, marker.as_slice()) {
        Some(code) => {
            let code_str = crate::text::string_of_chars(code.as_slice());
            Ok(cset_to_encoding(code_str.as_str()))
        },
        None => Ok(TextEncoding::Latin9),
    }
}

/// The vintage year the header declares: the first four characters of
/// the `TDASD` field when they are digits, else a fixed fallback year.
pub open spec fn spec_year(data: Seq<u8>) -> u16 {
    match spec_find_bytes(data, "TDASD"@.map(|i: int, c: char| c as u8), 0) {
        Some(pos) => match spec_find_byte(data, 58, pos + 5) {
            Some(c) => {
                if c + 5 <= data.len() && four_digits(lossy_chars(data.subrange(c + 1, c + 5))) {
                    dec_value(lossy_chars(data.subrange(c + 1, c + 5))) as u16
                } else {
                    2020
                }
            },
            None => 2020,
        },
        None => 2020,
    }
}

/// Whether a four-character field is all digits.
pub open spec fn four_digits(s: Seq<char>) -> bool {
    s.len() == 4 && is_digit(s[0]) && is_digit(s[1]) && is_digit(s[2]) && is_digit(s[3])
}

/// Reads the vintage year.
pub fn parse_year(data: &[u8]) -> (r: Result<u16, EdigeoError>)
    ensures
        r matches Ok(y) && y == spec_year(data@),
{
    proof {
        reveal_strlit("TDASD");
    }
    let marker: [u8; 5] = [84u8, 68u8, 65u8, 83u8, 68u8];
    proof {
        assert(marker@ =~= "TDASD"@.map(|i: int, c: char| c as u8));
    }
    let dn = data.len();
    let pos = match find_bytes(data, marker.as_slice(), 0) {
        Some(p) => p,
        None => {
            return Ok(2020);
        },
    };
    proof {
        assert(pos + 5 <= dn);
    }
    let c = match find_byte(data, 58, pos + 5) {
        Some(c) => c,
        None => {
            return Ok(2020);
        },
    };
    proof {
        assert(c < dn);
    }
    if dn - c <= 4 {
        return Ok(2020);
    }
    let chars = lossy_chars_of_range(data, c + 1, c + 5);
    let d0 = chars[0];
    let d1 = chars[1];
    let d2 = chars[2];
    let d3 = chars[3];
    if !(crate::text::is_digit_char(d0) && crate::text::is_digit_char(d1)
        && crate::text::is_digit_char(d2) && crate::text::is_digit_char(d3)) {
        return Ok(2020);
    }
    let year: u32 = (d0 as u32 - 48) * 1000 + (d1 as u32 - 48) * 100 + (d2 as u32 - 48) * 10 + (
    d3 as u32 - 48);
    proof {
        let s = lossy_chars(data@.subrange(c + 1, c + 5));
        assert(s.subrange(0, 1).drop_last() =~= s.subrange(0, 0));
        assert(s.subrange(0, 2).drop_last() =~= s.subrange(0, 1));
        assert(s.subrange(0, 3).drop_last() =~= s.subrange(0, 2));
        assert(s.subrange(0, 4).drop_last() =~= s.subrange(0, 3));
        assert(s.subrange(0, 4) =~= s);
        assert(dec_value(s.subrange(0, 0)) == 0);
        assert(dec_value(s.subrange(0, 1)) == crate::text::digit_val(s[0]));
        assert(dec_value(s.subrange(0, 2)) == dec_value(s.subrange(0, 1)) * 10
            + crate::text::digit_val(s[1]));
        assert(dec_value(s.subrange(0, 3)) == dec_value(s.subrange(0, 2)) * 10
            + crate::text::digit_val(s[2]));
        assert(dec_value(s.subrange(0, 4)) == dec_value(s.subrange(0, 3)) * 10
            + crate::text::digit_val(s[3]));
        assert(year as nat == dec_value(s));
    }
    Ok(year as u16)
}

/// Reads the header file.
pub fn parse(data: &[u8]) -> (r: Result<ThfData, EdigeoError>)
    ensures
        r matches Ok(t) && t.encoding == spec_encoding(data@) && t.year == spec_year(data@),
{
    let encoding = match parse_encoding(data) {
        Ok(e) => e,
        Err(e) => {
            return Err(e);
        },
    };
    let year = match parse_year(data) {
        Ok(y) => y,
        Err(e) => {
            return Err(e);
        },
    };
    Ok(ThfData { encoding, year })
}

} // verus!
