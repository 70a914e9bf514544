//! Character-level helpers shared by the record parsers and encoders.
//!
//! Parsing works over `Vec<char>` so that every position and slice is a
//! plain value; the few places that need a `String` back build one
//! character by character.

use vstd::prelude::*;

verus! {

/// Relies on String::push: appends exactly one character to the string.
#[verifier::external_body]
pub fn push_char(s: &mut String, c: char)
    ensures
        final(s)@ == old(s)@.push(c),
{
    s.push(c);
}

/// The characters of a string slice, in order.
pub fn chars_of(s: &str) -> (v: Vec<char>)
    ensures
        v@ == s@,
{
    broadcast use vstd::string::axiom_spec_iter;

    let mut v: Vec<char> = Vec::new();
    for c in it: s.chars()
        invariant
            it.seq() == s@,
            v@ == it.history(),
    {
        v.push(c);
    }
    proof {
        assert(v@ =~= s@);
    }
    v
}

/// Builds the string holding `v[start..end]`.
pub fn string_of_range(v: &[char], start: usize, end: usize) -> (s: String)
    requires
        start <= end <= v@.len(),
    ensures
        s@ == v@.subrange(start as int, end as int),
{
    let mut s = String::new();
    let mut i: usize = start;
    while i < end
        invariant
            start <= i <= end <= v@.len(),
            s@ == v@.subrange(start as int, i as int),
        decreases end - i,
    {
        push_char(&mut s, v[i]);
        proof {
            assert(v@.subrange(start as int, i as int).push(v@[i as int]) =~= v@.subrange(
                start as int,
                i + 1,
            ));
        }
        i = i + 1;
    }
    s
}

/// Builds the string holding all of `v`.
pub fn string_of_chars(v: &[char]) -> (s: String)
    ensures
        s@ == v@,
{
    let s = string_of_range(v, 0, v.len());
    proof {
        assert(v@.subrange(0, v@.len() as int) =~= v@);
    }
    s
}

/// Character-wise equality of two string slices.
pub fn str_eq(a: &str, b: &str) -> (r: bool)
    ensures
        r == (a@ == b@),
{
    let av = chars_of(a);
    let bv = chars_of(b);
    chars_eq(av.as_slice(), bv.as_slice())
}

/// Element-wise equality of two character slices.
pub fn chars_eq(a: &[char], b: &[char]) -> (r: bool)
    ensures
        r == (a@ == b@),
{
    if a.len() != b.len() {
        proof {
            assert(a@ != b@);
        }
        return false;
    }
    let n = a.len();
    let mut i: usize = 0;
    while i < n
        invariant
            0 <= i <= n,
            n == a@.len() == b@.len(),
            forall|j: int| 0 <= j < i ==> a@[j] == b@[j],
        decreases n - i,
    {
        if a[i] != b[i] {
            proof {
                assert(a@[i as int] != b@[i as int]);
            }
            return false;
        }
        i = i + 1;
    }
    proof {
        assert(a@ =~= b@);
    }
    true
}

// ---- decimal digits ----

/// The character for one decimal digit.
pub open spec fn digit_char(d: nat) -> char {
    ((d + 48) as u8) as char
}

/// Decimal digits of `n`, most significant first, no leading zeros.
pub open spec fn dec_digits(n: nat) -> Seq<char>
    decreases n,
{
    if n < 10 {
        seq![digit_char(n)]
    } else {
        dec_digits(n / 10).push(digit_char(n % 10))
    }
}

/// Appends the decimal digits of `n` to `out`.
pub fn push_u64_digits(n: u64, out: &mut Vec<char>)
    ensures
        final(out)@ == old(out)@ + dec_digits(n as nat),
    decreases n,
{
    if n < 10 {
        out.push(((n as u8) + 48) as char);
    } else {
        push_u64_digits(n / 10, out);
        let d = n % 10;
        out.push(((d as u8) + 48) as char);
        proof {
            assert(out@ =~= old(out)@ + dec_digits(n as nat));
        }
    }
}

/// The decimal representation of `n` as a string.
pub fn u64_to_string(n: u64) -> (s: String)
    ensures
        s@ == dec_digits(n as nat),
{
    let mut v: Vec<char> = Vec::new();
    push_u64_digits(n, &mut v);
    string_of_chars(v.as_slice())
}

/// Signed decimal representation: a leading '-' for negative values.
pub open spec fn dec_digits_signed(v: int) -> Seq<char> {
    if v < 0 {
        seq!['-'] + dec_digits((-v) as nat)
    } else {
        dec_digits(v as nat)
    }
}

/// Appends the signed decimal digits of `v` to `out`.
pub fn push_i64_digits(v: i64, out: &mut Vec<char>)
    ensures
        final(out)@ == old(out)@ + dec_digits_signed(v as int),
{
    if v < 0 {
        out.push('-');
        let m: u64 = ((-(v as i128)) as u64);
        proof {
            assert(m as nat == (-(v as int)) as nat);
        }
        push_u64_digits(m, out);
        proof {
            assert(out@ =~= old(out)@ + dec_digits_signed(v as int));
        }
    } else {
        push_u64_digits(v as u64, out);
    }
}

// ---- ASCII classification and case ----

/// Whether `c` is an ASCII decimal digit.
pub open spec fn is_digit(c: char) -> bool {
    48 <= c as u32 <= 57
}

/// The numeric value of an ASCII digit.
pub open spec fn digit_val(c: char) -> nat {
    (c as u32 - 48) as nat
}

/// Exec test for an ASCII digit.
pub fn is_digit_char(c: char) -> (r: bool)
    ensures
        r == is_digit(c),
{
    let u = c as u32;
    48 <= u && u <= 57
}

/// ASCII upper-casing of one character; anything else is unchanged.
pub open spec fn upper_char(c: char) -> char {
    if 97 <= c as u32 <= 122 {
        ((c as u32 - 32) as u8) as char
    } else {
        c
    }
}

/// Exec ASCII upper-casing.
pub fn to_upper_char(c: char) -> (r: char)
    ensures
        r == upper_char(c),
{
    let u = c as u32;
    if 97 <= u && u <= 122 {
        ((u - 32) as u8) as char
    } else {
        c
    }
}

/// ASCII upper-casing of a character sequence.
pub open spec fn upper_seq(s: Seq<char>) -> Seq<char> {
    s.map(|i: int, c: char| upper_char(c))
}

/// ASCII upper-casing of a character slice.
pub fn to_upper_chars(s: &[char]) -> (r: Vec<char>)
    ensures
        r@ == upper_seq(s@),
{
    let mut r: Vec<char> = Vec::new();
    let n = s.len();
    let mut i: usize = 0;
    while i < n
        invariant
            0 <= i <= n,
            n == s@.len(),
            r@ == upper_seq(s@.subrange(0, i as int)),
        decreases n - i,
    {
        r.push(to_upper_char(s[i]));
        proof {
            assert(r@ =~= upper_seq(s@.subrange(0, i + 1)));
        }
        i = i + 1;
    }
    proof {
        assert(s@.subrange(0, n as int) =~= s@);
    }
    r
}

/// Case-insensitive (ASCII) equality of two character slices.
pub fn eq_ignore_ascii_case(a: &[char], b: &[char]) -> (r: bool)
    ensures
        r == (upper_seq(a@) == upper_seq(b@)),
{
    let ua = to_upper_chars(a);
    let ub = to_upper_chars(b);
    chars_eq(ua.as_slice(), ub.as_slice())
}

// ---- searching ----

/// Index of the first occurrence of `c` in `s` at or after `from`.
pub open spec fn spec_find_char(s: Seq<char>, c: char, from: int) -> Option<int>
    decreases s.len() - from,
{
    if from < 0 || from >= s.len() {
        None
    } else if s[from] == c {
        Some(from)
    } else {
        spec_find_char(s, c, from + 1)
    }
}

proof fn lemma_find_char_skip(s: Seq<char>, c: char, from: int, upto: int)
    requires
        0 <= from <= upto <= s.len(),
        forall|j: int| from <= j < upto ==> s[j] != c,
    ensures
        spec_find_char(s, c, from) == spec_find_char(s, c, upto),
    decreases upto - from,
{
    if from < upto {
        lemma_find_char_skip(s, c, from + 1, upto);
    }
}

/// Exec search for the first occurrence of `c` in `s` at or after `from`.
pub fn find_char(s: &[char], c: char, from: usize) -> (r: Option<usize>)
    requires
        from <= s@.len(),
    ensures
        match r {
            Some(i) => from <= i < s@.len() && s@[i as int] == c && forall|j: int|
                from <= j < i ==> s@[j] != c,
            None => forall|j: int| from <= j < s@.len() ==> s@[j] != c,
        },
        match r {
            Some(i) => spec_find_char(s@, c, from as int) == Some(i as int),
            None => spec_find_char(s@, c, from as int) is None,
        },
{
    proof {
        lemma_find_char_skip(s@, c, from as int, from as int);
    }
    let n = s.len();
    let mut i: usize = from;
    while i < n
        invariant
            from <= i <= n,
            n == s@.len(),
            forall|j: int| from <= j < i ==> s@[j] != c,
        decreases n - i,
    {
        if s[i] == c {
            proof {
                lemma_find_char_skip(s@, c, from as int, i as int);
            }
            return Some(i);
        }
        i = i + 1;
    }
    proof {
        lemma_find_char_skip(s@, c, from as int, n as int);
    }
    None
}

/// Whether `needle` occurs in `hay` starting at index `i`.
pub open spec fn match_at(hay: Seq<char>, needle: Seq<char>, i: int) -> bool {
    &&& 0 <= i
    &&& i + needle.len() <= hay.len()
    &&& hay.subrange(i, i + needle.len()) == needle
}

/// Exec test of `match_at`.
pub fn matches_at(hay: &[char], needle: &[char], i: usize) -> (r: bool)
    ensures
        r == match_at(hay@, needle@, i as int),
{
    if hay.len() < needle.len() || i > hay.len() - needle.len() {
        proof {
            assert(!match_at(hay@, needle@, i as int));
        }
        return false;
    }
    let n = needle.len();
    let hn = hay.len();
    let mut k: usize = 0;
    while k < n
        invariant
            0 <= k <= n,
            n == needle@.len(),
            hn == hay@.len(),
            i + n <= hn,
            forall|j: int| 0 <= j < k ==> hay@[i + j] == needle@[j],
        decreases n - k,
    {
        if hay[i + k] != needle[k] {
            proof {
                assert(hay@.subrange(i as int, i + needle@.len())[k as int] == hay@[i + k]);
            }
            return false;
        }
        k = k + 1;
    }
    proof {
        assert(hay@.subrange(i as int, i + needle@.len()) =~= needle@);
    }
    true
}

/// Index of the first occurrence of `needle` in `hay` at or after `from`.
pub open spec fn spec_find_sub(hay: Seq<char>, needle: Seq<char>, from: int) -> Option<int>
    decreases hay.len() - from,
{
    if from < 0 || from >= hay.len() || from + needle.len() > hay.len() {
        None
    } else if match_at(hay, needle, from) {
        Some(from)
    } else {
        spec_find_sub(hay, needle, from + 1)
    }
}

proof fn lemma_find_sub_skip(hay: Seq<char>, needle: Seq<char>, from: int, upto: int)
    requires
        0 <= from <= upto <= hay.len(),
        forall|j: int| from <= j < upto ==> !match_at(hay, needle, j),
    ensures
        spec_find_sub(hay, needle, from) == spec_find_sub(hay, needle, upto),
    decreases upto - from,
{
    if from < upto {
        lemma_find_sub_skip(hay, needle, from + 1, upto);
    }
}

/// First index at or after `from` where `needle` occurs in `hay`.
pub fn find_sub(hay: &[char], needle: &[char], from: usize) -> (r: Option<usize>)
    requires
        from <= hay@.len(),
        needle@.len() > 0,
    ensures
        match r {
            Some(i) => from <= i && match_at(hay@, needle@, i as int) && forall|j: int|
                from <= j < i ==> !match_at(hay@, needle@, j),
            None => forall|j: int| from <= j ==> !match_at(hay@, needle@, j),
        },
        match r {
            Some(i) => spec_find_sub(hay@, needle@, from as int) == Some(i as int),
            None => spec_find_sub(hay@, needle@, from as int) is None,
        },
{
    let n = hay.len();
    let mut i: usize = from;
    while i < n
        invariant
            from <= i <= n,
            n == hay@.len(),
            forall|j: int| from <= j < i ==> !match_at(hay@, needle@, j),
        decreases n - i,
    {
        if matches_at(hay, needle, i) {
            proof {
                lemma_find_sub_skip(hay@, needle@, from as int, i as int);
            }
            return Some(i);
        }
        i = i + 1;
    }
    proof {
        lemma_find_sub_skip(hay@, needle@, from as int, n as int);
        assert(spec_find_sub(hay@, needle@, n as int) is None);
    }
    None
}

/// Copies `v[from..to]` into a fresh vector.
pub fn chars_range(v: &[char], from: usize, to: usize) -> (r: Vec<char>)
    requires
        from <= to <= v@.len(),
    ensures
        r@ == v@.subrange(from as int, to as int),
{
    let mut r: Vec<char> = Vec::new();
    let mut i: usize = from;
    while i < to
        invariant
            from <= i <= to <= v@.len(),
            r@ == v@.subrange(from as int, i as int),
        decreases to - i,
    {
        r.push(v[i]);
        proof {
            assert(r@ =~= v@.subrange(from as int, i + 1));
        }
        i = i + 1;
    }
    r
}

/// ASCII lower-casing of one character; anything else is unchanged.
pub open spec fn lower_char(c: char) -> char {
    if 65 <= c as u32 <= 90 {
        ((c as u32 + 32) as u8) as char
    } else {
        c
    }
}

/// ASCII lower-casing of a character sequence.
pub open spec fn lower_seq(s: Seq<char>) -> Seq<char> {
    s.map(|i: int, c: char| lower_char(c))
}

/// ASCII lower-casing of a character slice.
pub fn to_lower_chars(s: &[char]) -> (r: Vec<char>)
    ensures
        r@ == lower_seq(s@),
{
    let mut r: Vec<char> = Vec::new();
    let n = s.len();
    let mut i: usize = 0;
    while i < n
        invariant
            0 <= i <= n,
            n == s@.len(),
            r@ == lower_seq(s@.subrange(0, i as int)),
        decreases n - i,
    {
        let c = s[i];
        let u = c as u32;
        if 65 <= u && u <= 90 {
            r.push(((u + 32) as u8) as char);
        } else {
            r.push(c);
        }
        proof {
            assert(r@ =~= lower_seq(s@.subrange(0, i + 1)));
        }
        i = i + 1;
    }
    proof {
        assert(s@.subrange(0, n as int) =~= s@);
    }
    r
}

} // verus!
