//! Byte-level helpers for the header files, which are scanned before
//! any text decoding happens.

use vstd::prelude::*;

verus! {

/// Whether `needle` occurs in `hay` starting at index `i`.
pub open spec fn bytes_match_at(hay: Seq<u8>, needle: Seq<u8>, i: int) -> bool {
    &&& 0 <= i
    &&& i + needle.len() <= hay.len()
    &&& hay.subrange(i, i + needle.len()) == needle
}

/// Index of the first occurrence of `needle` in `hay` at or after `from`.
pub open spec fn spec_find_bytes(hay: Seq<u8>, needle: Seq<u8>, from: int) -> Option<int>
    decreases hay.len() - from,
{
    if from < 0 || from >= hay.len() || from + needle.len() > hay.len() {
        None
    } else if bytes_match_at(hay, needle, from) {
        Some(from)
    } else {
        spec_find_bytes(hay, needle, from + 1)
    }
}

proof fn lemma_find_bytes_skip(hay: Seq<u8>, needle: Seq<u8>, from: int, upto: int)
    requires
        0 <= from <= upto <= hay.len(),
        forall|j: int| from <= j < upto ==> !bytes_match_at(hay, needle, j),
    ensures
        spec_find_bytes(hay, needle, from) == spec_find_bytes(hay, needle, upto),
    decreases upto - from,
{
    if from < upto {
        lemma_find_bytes_skip(hay, needle, from + 1, upto);
    }
}

/// Exec test of `bytes_match_at`.
pub fn bytes_matches_at(hay: &[u8], needle: &[u8], i: usize) -> (r: bool)
    ensures
        r == bytes_match_at(hay@, needle@, i as int),
{
    if hay.len() < needle.len() || i > hay.len() - needle.len() {
        proof {
            assert(!bytes_match_at(hay@, needle@, i as int));
        }
        return false;
    }
    let n = needle.len();
    let hn = hay.len();
    let mut k: usize = 0;
    while k < n
        invariant
            0 <= k <= n,
            n == needle@.len(),
            hn == hay@.len(),
            i + n <= hn,
            forall|j: int| 0 <= j < k ==> hay@[i + j] == needle@[j],
        decreases n - k,
    {
        if hay[i + k] != needle[k] {
            proof {
                assert(hay@.subrange(i as int, i + needle@.len())[k as int] == hay@[i + k]);
            }
            return false;
        }
        k = k + 1;
    }
    proof {
        assert(hay@.subrange(i as int, i + needle@.len()) =~= needle@);
    }
    true
}

/// First index at or after `from` where `needle` occurs in `hay`.
pub fn find_bytes(hay: &[u8], needle: &[u8], from: usize) -> (r: Option<usize>)
    requires
        from <= hay@.len(),
        needle@.len() > 0,
    ensures
        match r {
            Some(i) => from <= i && bytes_match_at(hay@, needle@, i as int)
                && spec_find_bytes(hay@, needle@, from as int) == Some(i as int),
            None => spec_find_bytes(hay@, needle@, from as int) is None,
        },
{
    let n = hay.len();
    let mut i: usize = from;
    while i < n
        invariant
            from <= i <= n,
            n == hay@.len(),
            forall|j: int| from <= j < i ==> !bytes_match_at(hay@, needle@, j),
        decreases n - i,
    {
        if bytes_matches_at(hay, needle, i) {
            proof {
                lemma_find_bytes_skip(hay@, needle@, from as int, i as int);
            }
            return Some(i);
        }
        i = i + 1;
    }
    proof {
        lemma_find_bytes_skip(hay@, needle@, from as int, n as int);
    }
    None
}

/// Index of the first byte at or after `from` that satisfies one of the
/// line-terminator bytes (carriage return or line feed).
pub open spec fn spec_find_eol(s: Seq<u8>, from: int) -> Option<int>
    decreases s.len() - from,
{
    if from < 0 || from >= s.len() {
        None
    } else if s[from] == 13 || s[from] == 10 {
        Some(from)
    } else {
        spec_find_eol(s, from + 1)
    }
}

proof fn lemma_find_eol_skip(s: Seq<u8>, from: int, upto: int)
    requires
        0 <= from <= upto <= s.len(),
        forall|j: int| from <= j < upto ==> s[j] != 13 && s[j] != 10,
    ensures
        spec_find_eol(s, from) == spec_find_eol(s, upto),
    decreases upto - from,
{
    if from < upto {
        lemma_find_eol_skip(s, from + 1, upto);
    }
}

/// First line-terminator byte at or after `from`.
pub fn find_eol(s: &[u8], from: usize) -> (r: Option<usize>)
    requires
        from <= s@.len(),
    ensures
        match r {
            Some(i) => from <= i < s@.len() && (s@[i as int] == 13 || s@[i as int] == 10)
                && spec_find_eol(s@, from as int) == Some(i as int),
            None => spec_find_eol(s@, from as int) is None,
        },
{
    let n = s.len();
    let mut i: usize = from;
    while i < n
        invariant
            from <= i <= n,
            n == s@.len(),
            forall|j: int| from <= j < i ==> s@[j] != 13 && s@[j] != 10,
        decreases n - i,
    {
        let b = s[i];
        if b == 13 || b == 10 {
            proof {
                lemma_find_eol_skip(s@, from as int, i as int);
            }
            return Some(i);
        }
        i = i + 1;
    }
    proof {
        lemma_find_eol_skip(s@, from as int, n as int);
    }
    None
}

/// Index of the first byte equal to `b` at or after `from`.
pub open spec fn spec_find_byte(s: Seq<u8>, b: u8, from: int) -> Option<int>
    decreases s.len() - from,
{
    if from < 0 || from >= s.len() {
        None
    } else if s[from] == b {
        Some(from)
    } else {
        spec_find_byte(s, b, from + 1)
    }
}

proof fn lemma_find_byte_skip(s: Seq<u8>, b: u8, from: int, upto: int)
    requires
        0 <= from <= upto <= s.len(),
        forall|j: int| from <= j < upto ==> s[j] != b,
    ensures
        spec_find_byte(s, b, from) == spec_find_byte(s, b, upto),
    decreases upto - from,
{
    if from < upto {
        lemma_find_byte_skip(s, b, from + 1, upto);
    }
}

/// First occurrence of byte `b` at or after `from`.
pub fn find_byte(s: &[u8], b: u8, from: usize) -> (r: Option<usize>)
    requires
        from <= s@.len(),
    ensures
        match r {
            Some(i) => from <= i < s@.len() && s@[i as int] == b && spec_find_byte(
                s@,
                b,
                from as int,
            ) == Some(i as int),
            None => spec_find_byte(s@, b, from as int) is None,
        },
{
    let n = s.len();
    let mut i: usize = from;
    while i < n
        invariant
            from <= i <= n,
            n == s@.len(),
            forall|j: int| from <= j < i ==> s@[j] != b,
        decreases n - i,
    {
        if s[i] == b {
            proof {
                lemma_find_byte_skip(s@, b, from as int, i as int);
            }
            return Some(i);
        }
        i = i + 1;
    }
    proof {
        lemma_find_byte_skip(s@, b, from as int, n as int);
    }
    None
}

/// One byte read as a character: plain ASCII for bytes below 128, the
/// replacement character otherwise.
pub open spec fn lossy_char(b: u8) -> char {
    if b < 128 {
        b as char
    } else {
        '\u{fffd}'
    }
}

/// The characters a byte sequence reads as, byte for byte.
pub open spec fn lossy_chars(s: Seq<u8>) -> Seq<char> {
    s.map(|i: int, b: u8| lossy_char(b))
}

/// Reads a byte range as characters, byte for byte.
pub fn lossy_chars_of_range(s: &[u8], start: usize, end: usize) -> (r: Vec<char>)
    requires
        start <= end <= s@.len(),
    ensures
        r@ == lossy_chars(s@.subrange(start as int, end as int)),
{
    let mut r: Vec<char> = Vec::new();
    let mut i: usize = start;
    while i < end
        invariant
            start <= i <= end <= s@.len(),
            r@ == lossy_chars(s@.subrange(start as int, i as int)),
        decreases end - i,
    {
        let b = s[i];
        if b < 128 {
            r.push(b as char);
        } else {
            r.push('\u{fffd}');
        }
        proof {
            assert(r@ =~= lossy_chars(s@.subrange(start as int, i + 1)));
        }
        i = i + 1;
    }
    r
}

/// ASCII upper-casing of one byte.
pub open spec fn upper_byte(b: u8) -> u8 {
    if 97 <= b <= 122 {
        (b - 32) as u8
    } else {
        b
    }
}

/// ASCII upper-casing of a byte sequence.
pub open spec fn upper_bytes(s: Seq<u8>) -> Seq<u8> {
    s.map(|i: int, b: u8| upper_byte(b))
}

/// Case-insensitive (ASCII) equality of two byte slices.
pub fn bytes_eq_ignore_case(a: &[u8], b: &[u8]) -> (r: bool)
    ensures
        r == (upper_bytes(a@) == upper_bytes(b@)),
{
    if a.len() != b.len() {
        proof {
            assert(upper_bytes(a@).len() != upper_bytes(b@).len());
        }
        return false;
    }
    let n = a.len();
    let mut i: usize = 0;
    while i < n
        invariant
            0 <= i <= n,
            n == a@.len() == b@.len(),
            forall|j: int| 0 <= j < i ==> upper_byte(a@[j]) == upper_byte(b@[j]),
        decreases n - i,
    {
        let ua = if 97 <= a[i] && a[i] <= 122 {
            a[i] - 32
        } else {
            a[i]
        };
        let ub = if 97 <= b[i] && b[i] <= 122 {
            b[i] - 32
        } else {
            b[i]
        };
        if ua != ub {
            proof {
                assert(upper_bytes(a@)[i as int] != upper_bytes(b@)[i as int]);
            }
            return false;
        }
        i = i + 1;
    }
    proof {
        assert(upper_bytes(a@) =~= upper_bytes(b@));
    }
    true
}

/// Appends the raw bytes of a slice.
pub fn push_byte_slice(out: &mut Vec<u8>, bs: &[u8])
    ensures
        final(out)@ == old(out)@ + bs@,
{
    let n = bs.len();
    let mut i: usize = 0;
    while i < n
        invariant
            0 <= i <= n,
            n == bs@.len(),
            out@ == old(out)@ + bs@.subrange(0, i as int),
        decreases n - i,
    {
        out.push(bs[i]);
        proof {
            assert(out@ =~= old(out)@ + bs@.subrange(0, i + 1));
        }
        i = i + 1;
    }
    proof {
        assert(bs@.subrange(0, n as int) =~= bs@);
    }
}

} // verus!
