//! Fixed-point numbers: parsing decimal text into billionths and
//! rendering billionths back as minimal decimal text.

use vstd::prelude::*;

use crate::dates::dec_value;
use crate::geom::COORD_LIMIT;
use crate::text::{
    chars_range, digit_char, digit_val, find_char, is_digit, is_digit_char, spec_find_char,
};

verus! {

/// Whether every character is an ASCII digit.
pub open spec fn all_digits(s: Seq<char>) -> bool {
    forall|i: int| 0 <= i < s.len() ==> is_digit(#[trigger] s[i])
}

/// Ten to the `n`.
pub open spec fn pow10(n: nat) -> nat
    decreases n,
{
    if n == 0 {
        1
    } else {
        10 * pow10((n - 1) as nat)
    }
}

proof fn lemma_pow10_values()
    ensures
        pow10(0) == 1,
        pow10(1) == 10,
        pow10(2) == 100,
        pow10(3) == 1000,
        pow10(4) == 10000,
        pow10(5) == 100000,
        pow10(6) == 1000000,
        pow10(7) == 10000000,
        pow10(8) == 100000000,
        pow10(9) == 1000000000,
{
    assert(pow10(0) == 1);
    assert(pow10(1) == 10);
    assert(pow10(2) == 100);
    assert(pow10(3) == 1000);
    assert(pow10(4) == 10000);
    assert(pow10(5) == 100000);
    assert(pow10(6) == 1000000);
    assert(pow10(7) == 10000000);
    assert(pow10(8) == 100000000);
    assert(pow10(9) == 1000000000);
}

proof fn lemma_dec_value_prefix(s: Seq<char>, k: int)
    requires
        0 <= k <= s.len(),
    ensures
        dec_value(s) >= dec_value(s.subrange(0, k)),
    decreases s.len() - k,
{
    if k < s.len() {
        lemma_dec_value_prefix(s, k + 1);
        let t = s.subrange(0, k + 1);
        assert(t.drop_last() =~= s.subrange(0, k));
        assert(dec_value(t) == dec_value(s.subrange(0, k)) * 10 + digit_val(t.last()));
        assert(dec_value(s.subrange(0, k)) * 10 >= dec_value(s.subrange(0, k)))
            by (nonlinear_arith);
    } else {
        assert(s.subrange(0, k) =~= s);
    }
}

proof fn lemma_dec_value_bound(s: Seq<char>)
    requires
        all_digits(s),
    ensures
        dec_value(s) < pow10(s.len()),
    decreases s.len(),
{
    if s.len() > 0 {
        let t = s.drop_last();
        assert(all_digits(t)) by {
            assert(forall|i: int| 0 <= i < t.len() ==> t[i] == s[i]);
        }
        lemma_dec_value_bound(t);
        assert(digit_val(s.last()) <= 9);
        assert(dec_value(t) * 10 + 9 < pow10(t.len()) * 10) by (nonlinear_arith)
            requires
                dec_value(t) < pow10(t.len()),
        ;
        assert(pow10(s.len()) == 10 * pow10(t.len()));
    }
}

/// The value of the fractional digits, in billionths: the first nine
/// digits scaled up, rounded up by one when the tenth digit is five or
/// more.
pub open spec fn frac_nano(f: Seq<char>) -> nat {
    if f.len() <= 9 {
        dec_value(f) * pow10((9 - f.len()) as nat)
    } else {
        dec_value(f.subrange(0, 9)) + (if digit_val(f[9]) >= 5 {
            1nat
        } else {
            0nat
        })
    }
}

/// Combines sign, integer digits and fraction digits, when in range.
pub open spec fn fixed_of(neg: bool, ip: Seq<char>, fp: Seq<char>) -> Option<i64> {
    let mag = dec_value(ip) * 1_000_000_000 + frac_nano(fp);
    if mag <= COORD_LIMIT as nat {
        if neg {
            Some((-(mag as int)) as i64)
        } else {
            Some(mag as i64)
        }
    } else {
        None
    }
}

/// The fixed-point value of a cleaned decimal literal: an optional
/// minus sign, integer digits, and an optional fraction after one dot,
/// with at least one digit in all; out-of-range or malformed text has
/// no value.
pub open spec fn parse_fixed(s: Seq<char>) -> Option<i64> {
    let neg = s.len() > 0 && s[0] == '-';
    let body = if neg {
        s.subrange(1, s.len() as int)
    } else {
        s
    };
    match spec_find_char(body, '.', 0) {
        Some(d) => {
            let ip = body.subrange(0, d);
            let fp = body.subrange(d + 1, body.len() as int);
            if all_digits(ip) && all_digits(fp) && ip.len() + fp.len() > 0 {
                fixed_of(neg, ip, fp)
            } else {
                None
            }
        },
        None => {
            if all_digits(body) && body.len() > 0 {
                fixed_of(neg, body, Seq::empty())
            } else {
                None
            }
        },
    }
}

/// Whether `v[from..to]` is all digits.
fn all_digits_range(v: &[char], from: usize, to: usize) -> (r: bool)
    requires
        from <= to <= v@.len(),
    ensures
        r == all_digits(v@.subrange(from as int, to as int)),
{
    let mut i: usize = from;
    while i < to
        invariant
            from <= i <= to <= v@.len(),
            forall|k: int| from <= k < i ==> is_digit(#[trigger] v@[k]),
        decreases to - i,
    {
        if !is_digit_char(v[i]) {
            proof {
                assert(v@.subrange(from as int, to as int)[i - from] == v@[i as int]);
            }
            return false;
        }
        i = i + 1;
    }
    proof {
        assert forall|k: int|
            0 <= k < v@.subrange(from as int, to as int).len() implies is_digit(
            #[trigger] v@.subrange(from as int, to as int)[k],
        ) by {
            assert(v@.subrange(from as int, to as int)[k] == v@[from + k]);
        }
    }
    true
}

/// Reads the decimal value of the all-digit range `v[from..to]`,
/// refusing values above `cap`.
fn dec_value_range(v: &[char], from: usize, to: usize, cap: u64) -> (r: Option<u64>)
    requires
        from <= to <= v@.len(),
        all_digits(v@.subrange(from as int, to as int)),
        cap <= 1_000_000_000_000_000_000,
    ensures
        match r {
            Some(x) => x as nat == dec_value(v@.subrange(from as int, to as int)) && x <= cap,
            None => dec_value(v@.subrange(from as int, to as int)) > cap,
        },
{
    let mut acc: u64 = 0;
    let mut i: usize = from;
    while i < to
        invariant
            from <= i <= to <= v@.len(),
            all_digits(v@.subrange(from as int, to as int)),
            cap <= 1_000_000_000_000_000_000,
            acc as nat == dec_value(v@.subrange(from as int, i as int)),
            acc <= cap,
        decreases to - i,
    {
        let c = v[i];
        proof {
            assert(v@.subrange(from as int, to as int)[i - from] == v@[i as int]);
        }
        let d = (c as u32 - 48) as u64;
        let next: u64 = acc * 10 + d;
        proof {
            let t = v@.subrange(from as int, i + 1);
            assert(t.drop_last() =~= v@.subrange(from as int, i as int));
            assert(t.last() == v@[i as int]);
        }
        if next > cap {
            proof {
                let whole = v@.subrange(from as int, to as int);
                lemma_dec_value_prefix(whole, i + 1 - from);
                assert(whole.subrange(0, i + 1 - from) =~= v@.subrange(from as int, i + 1));
            }
            return None;
        }
        acc = next;
        i = i + 1;
    }
    proof {
        assert(v@.subrange(from as int, i as int) =~= v@.subrange(from as int, to as int));
    }
    Some(acc)
}

/// Parses a cleaned decimal literal into billionths.
pub fn parse_fixed_chars(s: &[char]) -> (r: Option<i64>)
    ensures
        r == parse_fixed(s@),
{
    let n = s.len();
    let neg = n > 0 && s[0] == '-';
    let start: usize = if neg {
        1
    } else {
        0
    };
    let body = chars_range(s, start, n);
    proof {
        if !neg {
            assert(body@ =~= s@);
        }
    }
    let bn = body.len();
    let dot = find_char(body.as_slice(), '.', 0);
    let (ip_from, ip_to, fp_from, fp_to): (usize, usize, usize, usize) = match dot {
        Some(d) => (0, d, d + 1, bn),
        None => (0, bn, bn, bn),
    };
    if !all_digits_range(body.as_slice(), ip_from, ip_to) {
        return None;
    }
    if !all_digits_range(body.as_slice(), fp_from, fp_to) {
        return None;
    }
    if ip_to == ip_from && fp_to == fp_from {
        return None;
    }
    proof {
        if dot is None {
            assert(body@.subrange(0, bn as int) =~= body@);
        }
        if dot is Some {
            assert(body@.subrange(fp_from as int, fp_to as int) =~= body@.subrange(
                fp_from as int,
                body@.len() as int,
            ));
        }
    }
    let ip_val = match dec_value_range(body.as_slice(), ip_from, ip_to, 2_000_000_000u64) {
        Some(x) => x,
        None => {
            return None;
        },
    };
    let fp_len = fp_to - fp_from;
    let take: usize = if fp_len > 9 {
        9
    } else {
        fp_len
    };
    proof {
        lemma_pow10_values();
        let fpr = body@.subrange(fp_from as int, fp_from + take);
        assert(all_digits(fpr)) by {
            assert(forall|k: int|
                0 <= k < fpr.len() ==> fpr[k] == body@.subrange(fp_from as int, fp_to as int)[k]);
        }
        lemma_dec_value_bound(fpr);
    }
    let f9 = match dec_value_range(body.as_slice(), fp_from, fp_from + take, 999_999_999u64) {
        Some(x) => x,
        None => {
            proof {
                assert(false);
            }
            return None;
        },
    };
    let mut frac: u64 = f9;
    let mut scale: usize = take;
    proof {
        lemma_pow10_values();
        assert((f9 as nat) * pow10(0) == f9 as nat) by (nonlinear_arith)
            requires
                pow10(0) == 1,
        ;
        assert(999_999_999 * pow10(0) == 999_999_999) by (nonlinear_arith)
            requires
                pow10(0) == 1,
        ;
    }
    while scale < 9
        invariant
            take <= scale <= 9,
            f9 <= 999_999_999,
            frac as nat == (f9 as nat) * pow10((scale - take) as nat),
            frac as nat <= 999_999_999 * pow10((scale - take) as nat),
            pow10((scale - take) as nat) <= 1_000_000_000,
        decreases 9 - scale,
    {
        proof {
            lemma_pow10_values();
            lemma_pow10_le((scale - take) as nat, (scale + 1 - take) as nat);
            lemma_pow10_le((scale + 1 - take) as nat, 9);
            assert((f9 as nat) * pow10((scale + 1 - take) as nat) == ((f9 as nat) * pow10(
                (scale - take) as nat,
            )) * 10) by (nonlinear_arith)
                requires
                    pow10((scale + 1 - take) as nat) == 10 * pow10((scale - take) as nat),
            ;
            assert(999_999_999 * pow10((scale + 1 - take) as nat) <= 999_999_999 * 1_000_000_000)
                by (nonlinear_arith)
                requires
                    pow10((scale + 1 - take) as nat) <= 1_000_000_000,
            ;
            assert((f9 as nat) * pow10((scale + 1 - take) as nat) <= 999_999_999 * pow10(
                (scale + 1 - take) as nat,
            )) by (nonlinear_arith)
                requires
                    f9 as nat <= 999_999_999,
            ;
        }
        frac = frac * 10;
        scale = scale + 1;
    }
    if fp_len > 9 {
        let tenth = body[fp_from + 9];
        proof {
            assert(body@.subrange(fp_from as int, fp_to as int)[9] == body@[fp_from + 9]);
        }
        if (tenth as u32) >= 53 {
            frac = frac + 1;
        }
    }
    proof {
        lemma_pow10_values();
        lemma_pow10_le((9 - take) as nat, 9);
        let fps = body@.subrange(fp_from as int, fp_to as int);
        if fp_len <= 9 {
            assert(body@.subrange(fp_from as int, fp_from + take) =~= fps);
            assert(frac as nat == frac_nano(fps));
        } else {
            assert(fps.subrange(0, 9) =~= body@.subrange(fp_from as int, fp_from + 9));
            assert(frac as nat == frac_nano(fps));
        }
        assert(frac as nat <= 1_000_000_000_000_000_000);
    }
    let mag: i64 = (ip_val as i64) * 1_000_000_000 + (frac as i64);
    if mag > COORD_LIMIT {
        return None;
    }
    proof {
        let ips = body@.subrange(ip_from as int, ip_to as int);
        let fps = body@.subrange(fp_from as int, fp_to as int);
        assert(mag as nat == dec_value(ips) * 1_000_000_000 + frac_nano(fps));
    }
    if neg {
        Some(-mag)
    } else {
        Some(mag)
    }
}

proof fn lemma_pow10_le(a: nat, b: nat)
    requires
        a <= b,
    ensures
        pow10(a) <= pow10(b),
    decreases b,
{
    if a < b {
        lemma_pow10_le(a, (b - 1) as nat);
        assert(pow10(b) == 10 * pow10((b - 1) as nat));
        assert(pow10((b - 1) as nat) <= 10 * pow10((b - 1) as nat)) by (nonlinear_arith)
            requires
                pow10((b - 1) as nat) >= 0,
        ;
    }
}

// ---- the EDIGEO flavour ----

/// ASCII whitespace.
pub open spec fn is_ws(c: char) -> bool {
    c == ' ' || c == '\t' || c == '\r' || c == '\n'
}

/// Leading whitespace dropped.
pub open spec fn trim_start_ws(s: Seq<char>) -> Seq<char>
    decreases s.len(),
{
    if s.len() > 0 && is_ws(s.first()) {
        trim_start_ws(s.drop_first())
    } else {
        s
    }
}

/// Trailing whitespace dropped.
pub open spec fn trim_end_ws(s: Seq<char>) -> Seq<char>
    decreases s.len(),
{
    if s.len() > 0 && is_ws(s.last()) {
        trim_end_ws(s.drop_last())
    } else {
        s
    }
}

/// Leading plus signs dropped.
pub open spec fn strip_plus(s: Seq<char>) -> Seq<char>
    decreases s.len(),
{
    if s.len() > 0 && s.first() == '+' {
        strip_plus(s.drop_first())
    } else {
        s
    }
}

/// One trailing orphan dot dropped, unless an exponent marker shows
/// the dot is meaningful.
pub open spec fn drop_orphan_dot(s: Seq<char>) -> Seq<char> {
    if s.len() > 0 && s.last() == '.' && spec_find_char(s, 'e', 0) is None {
        s.drop_last()
    } else {
        s
    }
}

/// The value of a number as the records write it: whitespace trimmed,
/// leading plus signs and a trailing orphan dot dropped, then read as
/// a plain decimal.
pub open spec fn spec_edigeo_number(raw: Seq<char>) -> Option<i64> {
    parse_fixed(drop_orphan_dot(strip_plus(trim_end_ws(trim_start_ws(raw)))))
}

pub proof fn lemma_trim_start_skip(s: Seq<char>, k: int)
    requires
        0 <= k <= s.len(),
        forall|j: int| 0 <= j < k ==> is_ws(#[trigger] s[j]),
    ensures
        trim_start_ws(s) == trim_start_ws(s.subrange(k, s.len() as int)),
    decreases k,
{
    if k > 0 {
        assert(s.len() > 0 && is_ws(s.first()));
        let t = s.drop_first();
        assert(t =~= s.subrange(1, s.len() as int));
        lemma_trim_start_skip(t, k - 1);
        assert(t.subrange(k - 1, t.len() as int) =~= s.subrange(k, s.len() as int));
    } else {
        assert(s.subrange(0, s.len() as int) =~= s);
    }
}

proof fn lemma_trim_start_done(s: Seq<char>)
    requires
        s.len() == 0 || !is_ws(s.first()),
    ensures
        trim_start_ws(s) == s,
{
}

pub proof fn lemma_trim_end_skip(s: Seq<char>, k: int)
    requires
        0 <= k <= s.len(),
        forall|j: int| k <= j < s.len() ==> is_ws(#[trigger] s[j]),
    ensures
        trim_end_ws(s) == trim_end_ws(s.subrange(0, k)),
    decreases s.len() - k,
{
    if k < s.len() {
        assert(s.len() > 0 && is_ws(s.last()));
        let t = s.drop_last();
        assert(t =~= s.subrange(0, s.len() - 1));
        lemma_trim_end_skip(t, k);
        assert(t.subrange(0, k) =~= s.subrange(0, k));
    } else {
        assert(s.subrange(0, k) =~= s);
    }
}

pub proof fn lemma_strip_plus_skip(s: Seq<char>, k: int)
    requires
        0 <= k <= s.len(),
        forall|j: int| 0 <= j < k ==> #[trigger] s[j] == '+',
    ensures
        strip_plus(s) == strip_plus(s.subrange(k, s.len() as int)),
    decreases k,
{
    if k > 0 {
        assert(s.len() > 0 && s.first() == '+');
        let t = s.drop_first();
        assert(t =~= s.subrange(1, s.len() as int));
        lemma_strip_plus_skip(t, k - 1);
        assert(t.subrange(k - 1, t.len() as int) =~= s.subrange(k, s.len() as int));
    } else {
        assert(s.subrange(0, s.len() as int) =~= s);
    }
}

/// Exec test of `is_ws`.
pub fn is_ws_char(c: char) -> (r: bool)
    ensures
        r == is_ws(c),
{
    c == ' ' || c == '\t' || c == '\r' || c == '\n'
}

/// Reads a number as the records write it.
pub fn parse_edigeo_number(raw: &str) -> (r: Option<i64>)
    ensures
        r == spec_edigeo_number(raw@),
{
    let cs = crate::text::chars_of(raw);
    let n = cs.len();
    // Trim whitespace.
    let mut lo: usize = 0;
    while lo < n && is_ws_char(cs[lo])
        invariant
            0 <= lo <= n,
            n == cs@.len(),
            forall|j: int| 0 <= j < lo ==> is_ws(#[trigger] cs@[j]),
        decreases n - lo,
    {
        lo = lo + 1;
    }
    let mut hi: usize = n;
    while hi > lo && is_ws_char(cs[hi - 1])
        invariant
            lo <= hi <= n,
            n == cs@.len(),
            forall|j: int| 0 <= j < lo ==> is_ws(#[trigger] cs@[j]),
            forall|j: int| hi <= j < n ==> is_ws(#[trigger] cs@[j]),
        decreases hi,
    {
        hi = hi - 1;
    }
    proof {
        lemma_trim_start_skip(cs@, lo as int);
        let t1 = cs@.subrange(lo as int, n as int);
        lemma_trim_start_done(t1);
        assert forall|j: int| hi - lo <= j < t1.len() implies is_ws(#[trigger] t1[j]) by {
            assert(t1[j] == cs@[lo + j]);
        }
        lemma_trim_end_skip(t1, hi - lo);
        assert(t1.subrange(0, hi - lo) =~= cs@.subrange(lo as int, hi as int));
        assert(trim_end_ws(trim_start_ws(cs@)) == trim_end_ws(cs@.subrange(lo as int, hi as int)));
        let t2 = cs@.subrange(lo as int, hi as int);
        if hi > lo {
            assert(!is_ws(t2.last()));
        }
        assert(trim_end_ws(t2) == t2);
    }
    // Strip leading plus signs.
    let mut p: usize = lo;
    while p < hi && cs[p] == '+'
        invariant
            lo <= p <= hi,
            hi <= n,
            n == cs@.len(),
            forall|j: int| lo <= j < p ==> #[trigger] cs@[j] == '+',
        decreases hi - p,
    {
        p = p + 1;
    }
    proof {
        let t2 = cs@.subrange(lo as int, hi as int);
        assert forall|j: int| 0 <= j < p - lo implies #[trigger] t2[j] == '+' by {
            assert(t2[j] == cs@[lo + j]);
        }
        lemma_strip_plus_skip(t2, p - lo);
        assert(t2.subrange(p - lo, t2.len() as int) =~= cs@.subrange(p as int, hi as int));
        let t3 = cs@.subrange(p as int, hi as int);
        if p < hi {
            assert(t3.first() != '+');
        }
        assert(strip_plus(t3) == t3);
    }
    // Drop a trailing orphan dot.
    let body = chars_range(cs.as_slice(), p, hi);
    let has_e = match find_char(body.as_slice(), 'e', 0) {
        Some(_) => true,
        None => false,
    };
    let end: usize = if body.len() > 0 && !has_e && body[body.len() - 1] == '.' {
        body.len() - 1
    } else {
        body.len()
    };
    let cleaned = chars_range(body.as_slice(), 0, end);
    proof {
        if body@.len() > 0 && !has_e && body@.last() == '.' {
            assert(cleaned@ =~= body@.drop_last());
        } else {
            assert(cleaned@ =~= body@);
        }
        assert(cleaned@ == drop_orphan_dot(body@));
    }
    parse_fixed_chars(cleaned.as_slice())
}

// ---- rendering ----

/// `w` decimal digits of `f`, zero padded at the front.
pub open spec fn pad_digits(f: nat, w: nat) -> Seq<char>
    decreases w,
{
    if w == 0 {
        Seq::empty()
    } else {
        pad_digits(f / 10, (w - 1) as nat).push(digit_char(f % 10))
    }
}

/// Trailing zero digits dropped.
pub open spec fn trim_zeros(s: Seq<char>) -> Seq<char>
    decreases s.len(),
{
    if s.len() > 0 && s.last() == '0' {
        trim_zeros(s.drop_last())
    } else {
        s
    }
}

/// The minimal decimal text of a fixed-point value: sign, whole part,
/// and the fraction with trailing zeros dropped when it is not zero.
pub open spec fn fixed_chars(v: int) -> Seq<char> {
    let mag = if v < 0 {
        -v
    } else {
        v
    };
    let whole = (mag / 1_000_000_000) as nat;
    let frac = (mag % 1_000_000_000) as nat;
    (if v < 0 {
        seq!['-']
    } else {
        Seq::empty()
    }) + crate::text::dec_digits(whole) + (if frac != 0 {
        seq!['.'] + trim_zeros(pad_digits(frac, 9))
    } else {
        Seq::empty()
    })
}

proof fn lemma_pad_index(f: nat, w: nat)
    ensures
        pad_digits(f, w).len() == w,
        forall|k: int|
            0 <= k < w ==> #[trigger] pad_digits(f, w)[k] == digit_char(
                (f / pow10((w - 1 - k) as nat)) % 10,
            ),
    decreases w,
{
    if w > 0 {
        lemma_pad_index(f / 10, (w - 1) as nat);
        assert forall|k: int|
            0 <= k < w implies #[trigger] pad_digits(f, w)[k] == digit_char(
            (f / pow10((w - 1 - k) as nat)) % 10,
        ) by {
            if k == w - 1 {
                assert(pow10(0) == 1);
                assert(f / 1 == f);
            } else {
                assert(pad_digits(f, w)[k] == pad_digits(f / 10, (w - 1) as nat)[k]);
                assert(pad_digits(f / 10, (w - 1) as nat)[k] == digit_char(((f / 10) / pow10(
                    (w - 2 - k) as nat,
                )) % 10));
                assert(pow10((w - 2 - k) as nat) >= 1) by {
                    lemma_pow10_le(0, (w - 2 - k) as nat);
                }
                assert((f / 10) / pow10((w - 2 - k) as nat) == f / (10 * pow10((w - 2 - k) as nat)))
                    by (nonlinear_arith)
                    requires
                        pow10((w - 2 - k) as nat) >= 1,
                ;
                assert(pow10((w - 1 - k) as nat) == 10 * pow10((w - 2 - k) as nat));
            }
        }
    }
}

proof fn lemma_pad_all_zero(f: nat, w: nat)
    requires
        forall|j: int| 0 <= j < w ==> #[trigger] pad_digits(f, w)[j] == '0',
    ensures
        f % pow10(w) == 0,
    decreases w,
{
    if w == 0 {
        assert(pow10(0) == 1);
        assert(f % 1 == 0) by (nonlinear_arith);
    } else {
        let prev = pad_digits(f / 10, (w - 1) as nat);
        lemma_pad_index(f / 10, (w - 1) as nat);
        assert(pad_digits(f, w) == prev.push(digit_char(f % 10)));
        assert forall|j: int| 0 <= j < w - 1 implies #[trigger] prev[j] == '0' by {
            assert(pad_digits(f, w)[j] == prev[j]);
        }
        lemma_pad_all_zero(f / 10, (w - 1) as nat);
        assert(pad_digits(f, w)[w - 1] == digit_char(f % 10));
        assert(digit_char(f % 10) == '0' ==> f % 10 == 0) by {
            let d = f % 10;
            assert(d < 10);
            assert((((d + 48) as u8) as char) as u32 == (d + 48) as u32);
            assert(('0') as u32 == 48);
        }
        assert(f % 10 == 0);
        assert(pow10((w - 1) as nat) >= 1) by {
            lemma_pow10_le(0, (w - 1) as nat);
        }
        let p = pow10((w - 1) as nat);
        let q = (f / 10) / p;
        assert(f / 10 == p * q) by (nonlinear_arith)
            requires
                (f / 10) % p == 0,
                q == (f / 10) / p,
                p >= 1,
        ;
        assert(f == (10 * p) * q) by (nonlinear_arith)
            requires
                f % 10 == 0,
                f / 10 == p * q,
        ;
        assert(f % (10 * p) == 0) by (nonlinear_arith)
            requires
                f == (10 * p) * q,
                p >= 1,
        ;
        assert(pow10(w) == 10 * p);
    }
}

proof fn lemma_trim_upto(s: Seq<char>, k: int)
    requires
        0 <= k < s.len(),
        s[k] != '0',
        forall|j: int| k < j < s.len() ==> #[trigger] s[j] == '0',
    ensures
        trim_zeros(s) == s.subrange(0, k + 1),
    decreases s.len(),
{
    if k == s.len() - 1 {
        assert(s.subrange(0, k + 1) =~= s);
    } else {
        assert(s.last() == '0');
        let t = s.drop_last();
        assert(t =~= s.subrange(0, s.len() - 1));
        lemma_trim_upto(t, k);
        assert(t.subrange(0, k + 1) =~= s.subrange(0, k + 1));
    }
}

/// Appends the minimal decimal text of `v`.
#[verifier::rlimit(60)]
pub fn push_fixed_chars(v: i64, out: &mut Vec<char>)
    ensures
        final(out)@ == old(out)@ + fixed_chars(v as int),
{
    proof {
        lemma_pow10_values();
    }
    let vi = v as i128;
    let mag: i128 = if vi < 0 {
        -vi
    } else {
        vi
    };
    if v < 0 {
        out.push('-');
    }
    let whole: u64 = (mag / 1_000_000_000) as u64;
    let frac: u64 = (mag % 1_000_000_000) as u64;
    crate::text::push_u64_digits(whole, out);
    if frac != 0 {
        out.push('.');
        let ghost pad = pad_digits(frac as nat, 9);
        proof {
            lemma_pad_index(frac as nat, 9);
        }
        let pows: [u64; 9] = [
            100000000,
            10000000,
            1000000,
            100000,
            10000,
            1000,
            100,
            10,
            1,
        ];
        proof {
            assert forall|t: int| 0 <= t < 9 implies pows@[t] as nat == pow10((8 - t) as nat) by {
                lemma_pow10_values();
            }
        }
        // Find the last non-zero digit.
        let mut last: usize = 0;
        let mut seen = false;
        let mut k: usize = 0;
        while k < 9
            invariant
                0 <= k <= 9,
                frac < 1_000_000_000,
                frac != 0,
                last < 9,
                pad == pad_digits(frac as nat, 9),
                pad.len() == 9,
                forall|j: int|
                    0 <= j < 9 ==> #[trigger] pad[j] == digit_char(
                        ((frac as nat) / pow10((8 - j) as nat)) % 10,
                    ),
                pows@ =~= seq![
                    100000000u64, 10000000u64, 1000000u64, 100000u64, 10000u64, 1000u64, 100u64,
                    10u64, 1u64,
                ],
                forall|t: int| 0 <= t < 9 ==> pows@[t] as nat == pow10((8 - t) as nat),
                !seen ==> last == 0 && (forall|j: int| 0 <= j < k ==> #[trigger] pad[j] == '0'),
                seen ==> last < k && pad[last as int] != '0' && (forall|j: int|
                    last < j < k ==> #[trigger] pad[j] == '0'),
            decreases 9 - k,
        {
            let d = ((frac / pows[k]) % 10) as u8;
            proof {
                assert(pows@[k as int] == pows[k as int]);
                assert(d as nat == ((frac as nat) / pow10((8 - k) as nat)) % 10);
                assert(pad[k as int] == digit_char(d as nat));
                if d == 0 {
                    assert(digit_char(0) == '0');
                } else {
                    assert(digit_char(d as nat) != '0') by {
                        assert(48 < d + 48 < 128);
                        assert((((d + 48) as u8) as char) as u32 == (d + 48) as u32);
                        assert(('0') as u32 == 48);
                    }
                }
            }
            if d != 0 {
                last = k;
                seen = true;
            }
            k = k + 1;
        }
        proof {
            if !seen {
                lemma_pad_all_zero(frac as nat, 9);
                lemma_pow10_values();
                assert((frac as nat) % pow10(9) == frac as nat);
                assert(false);
            }
            assert(out@ =~= old(out)@ + fixed_sign_whole(v as int) + seq!['.'] + pad.subrange(
                0,
                0,
            ));
        }
        let mut k2: usize = 0;
        while k2 <= last
            invariant
                0 <= k2 <= last + 1,
                last < 9,
                frac < 1_000_000_000,
                pad == pad_digits(frac as nat, 9),
                pad.len() == 9,
                forall|j: int|
                    0 <= j < 9 ==> #[trigger] pad[j] == digit_char(
                        ((frac as nat) / pow10((8 - j) as nat)) % 10,
                    ),
                pows@ =~= seq![
                    100000000u64, 10000000u64, 1000000u64, 100000u64, 10000u64, 1000u64, 100u64,
                    10u64, 1u64,
                ],
                forall|t: int| 0 <= t < 9 ==> pows@[t] as nat == pow10((8 - t) as nat),
                out@ == old(out)@ + fixed_sign_whole(v as int) + seq!['.'] + pad.subrange(
                    0,
                    k2 as int,
                ),
            decreases last + 1 - k2,
        {
            let d = ((frac / pows[k2]) % 10) as u8;
            out.push((d + 48) as char);
            proof {
                assert(pows@[k2 as int] == pows[k2 as int]);
                assert(d as nat == ((frac as nat) / pow10((8 - k2) as nat)) % 10);
                assert(pad[k2 as int] == digit_char(d as nat));
                assert(((d + 48) as u8) as char == digit_char(d as nat));
                assert(out@ =~= old(out)@ + fixed_sign_whole(v as int) + seq!['.'] + pad.subrange(
                    0,
                    k2 + 1,
                ));
            }
            k2 = k2 + 1;
        }
        proof {
            assert(pad[last as int] != '0');
            assert(forall|j: int| last < j < 9 ==> #[trigger] pad[j] == '0');
            lemma_trim_upto(pad, last as int);
            assert(out@ =~= old(out)@ + fixed_chars(v as int));
        }
    } else {
        proof {
            assert(out@ =~= old(out)@ + fixed_chars(v as int));
        }
    }
}

/// The sign and whole part of the text of `v`.
pub open spec fn fixed_sign_whole(v: int) -> Seq<char> {
    let mag = if v < 0 {
        -v
    } else {
        v
    };
    (if v < 0 {
        seq!['-']
    } else {
        Seq::empty()
    }) + crate::text::dec_digits((mag / 1_000_000_000) as nat)
}

/// The sign and truncated whole part of the text of `v`: what an
/// integral column receives.
pub open spec fn fixed_trunc_chars(v: int) -> Seq<char> {
    fixed_sign_whole(v)
}

/// Appends the truncated whole-part text of `v`.
pub fn push_fixed_trunc_chars(v: i64, out: &mut Vec<char>)
    ensures
        final(out)@ == old(out)@ + fixed_trunc_chars(v as int),
{
    let vi = v as i128;
    let mag: i128 = if vi < 0 {
        -vi
    } else {
        vi
    };
    if v < 0 {
        out.push('-');
    }
    let whole: u64 = (mag / 1_000_000_000) as u64;
    crate::text::push_u64_digits(whole, out);
    proof {
        assert(out@ =~= old(out)@ + fixed_trunc_chars(v as int));
    }
}

/// A parsed value lies within the supported coordinate range.
pub proof fn lemma_parse_fixed_bounded(s: Seq<char>)
    requires
        parse_fixed(s) is Some,
    ensures
        -COORD_LIMIT <= parse_fixed(s).unwrap() <= COORD_LIMIT,
{
}

} // verus!
