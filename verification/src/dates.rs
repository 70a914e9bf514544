//! The vintage date: a `YYYY-MM` string, validated strictly.

use vstd::prelude::*;

use crate::text::{chars_of, digit_val, is_digit, is_digit_char, push_char, string_of_chars};

verus! {

/// Decimal value of a digit string.
pub open spec fn dec_value(s: Seq<char>) -> nat
    decreases s.len(),
{
    if s.len() == 0 {
        0
    } else {
        dec_value(s.drop_last()) * 10 + digit_val(s.last())
    }
}

/// A valid vintage string: exactly `YYYY-MM` with four digits, a dash,
/// two digits, the year within 1900 to 2100 and the month within
/// 01 to 12.
pub open spec fn valid_vintage(s: Seq<char>) -> bool {
    &&& s.len() == 7
    &&& s[4] == '-'
    &&& is_digit(s[0]) && is_digit(s[1]) && is_digit(s[2]) && is_digit(s[3])
    &&& is_digit(s[5]) && is_digit(s[6])
    &&& 1900 <= dec_value(s.subrange(0, 4)) <= 2100
    &&& 1 <= dec_value(s.subrange(5, 7)) <= 12
}

/// Accepts exactly the strings `valid_vintage` describes.
pub fn validate_date_format(date: &str) -> (r: Result<(), String>)
    ensures
        (r is Ok) == valid_vintage(date@),
{
    let cs = chars_of(date);
    if cs.len() != 7 {
        return Err("invalid date format: expected YYYY-MM".to_owned());
    }
    if cs[4] != '-' {
        return Err("invalid date format: expected YYYY-MM".to_owned());
    }
    if !(is_digit_char(cs[0]) && is_digit_char(cs[1]) && is_digit_char(cs[2]) && is_digit_char(
        cs[3],
    ) && is_digit_char(cs[5]) && is_digit_char(cs[6])) {
        return Err("invalid date format: digits expected".to_owned());
    }
    let year: u32 = (cs[0] as u32 - 48) * 1000 + (cs[1] as u32 - 48) * 100 + (cs[2] as u32 - 48)
        * 10 + (cs[3] as u32 - 48);
    let month: u32 = (cs[5] as u32 - 48) * 10 + (cs[6] as u32 - 48);
    proof {
        let s = date@;
        assert(s.subrange(0, 1).drop_last() =~= s.subrange(0, 0));
        assert(s.subrange(0, 2).drop_last() =~= s.subrange(0, 1));
        assert(s.subrange(0, 3).drop_last() =~= s.subrange(0, 2));
        assert(s.subrange(0, 4).drop_last() =~= s.subrange(0, 3));
        assert(dec_value(s.subrange(0, 0)) == 0);
        assert(dec_value(s.subrange(0, 1)) == digit_val(s[0]));
        assert(dec_value(s.subrange(0, 2)) == dec_value(s.subrange(0, 1)) * 10 + digit_val(s[1]));
        assert(dec_value(s.subrange(0, 3)) == dec_value(s.subrange(0, 2)) * 10 + digit_val(s[2]));
        assert(dec_value(s.subrange(0, 4)) == dec_value(s.subrange(0, 3)) * 10 + digit_val(s[3]));
        assert(year as nat == dec_value(s.subrange(0, 4)));
        assert(s.subrange(5, 6).drop_last() =~= s.subrange(5, 5));
        assert(s.subrange(5, 7).drop_last() =~= s.subrange(5, 6));
        assert(dec_value(s.subrange(5, 5)) == 0);
        assert(dec_value(s.subrange(5, 6)) == digit_val(s[5]));
        assert(dec_value(s.subrange(5, 7)) == dec_value(s.subrange(5, 6)) * 10 + digit_val(s[6]));
        assert(month as nat == dec_value(s.subrange(5, 7)));
    }
    if year < 1900 || year > 2100 {
        return Err("year out of range".to_owned());
    }
    if month < 1 || month > 12 {
        return Err("month must be 01-12".to_owned());
    }
    Ok(())
}

/// The first day of the vintage month: the date string with `-01`
/// appended.
pub fn valid_from_of(date: &str) -> (r: String)
    ensures
        r@ == date@ + "-01"@,
{
    proof {
        reveal_strlit("-01");
    }
    let mut cs = chars_of(date);
    cs.push('-');
    cs.push('0');
    cs.push('1');
    let s = string_of_chars(cs.as_slice());
    proof {
        assert(s@ =~= date@ + "-01"@);
    }
    s
}

} // verus!
