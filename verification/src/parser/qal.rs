//! The quality file: per-object creation and update dates.

use vstd::prelude::*;

use crate::errors::EdigeoError;
use crate::parser::vec_records::{
    block_end_at, block_lines_at, block_start_at, split_block_lines, spec_extract_id, sub_starts,
    line_views, trim_ws, trim_ws_chars_range,
};
use crate::str_map::StrMap;
use crate::text::{chars_of, find_sub, match_at, spec_find_char, spec_find_sub, string_of_chars};
use crate::types::Quality;

verus! {

/// The dates of one actuality block: creation date, update date and
/// update kind after the first `k` body lines, from the `ODA`, `UDA`
/// and `UTY` lines, each line's payload following its first colon,
/// trimmed.
pub open spec fn qal_fold(lines: Seq<Seq<char>>, k: int) -> (
    Option<Seq<char>>,
    Option<Seq<char>>,
    Option<Seq<char>>,
)
    decreases k,
{
    if k <= 2 {
        (None, None, None)
    } else {
        let st = qal_fold(lines, k - 1);
        let l = lines[k - 1];
        match spec_find_char(l, ':', 0) {
            Some(vi) => {
                let val = trim_ws(l.subrange(vi + 1, l.len() as int));
                if match_at(l, "ODA"@, 0) {
                    (Some(val), st.1, st.2)
                } else if match_at(l, "UDA"@, 0) {
                    (st.0, Some(val), st.2)
                } else if match_at(l, "UTY"@, 0) {
                    (st.0, st.1, Some(val))
                } else {
                    st
                }
            },
            None => st,
        }
    }
}

/// The object identifier of an actuality block: the payload of its
/// second line, trimmed.
pub open spec fn qal_block_id(bl: Seq<Seq<char>>) -> Seq<char> {
    if bl.len() >= 2 {
        match spec_find_char(bl[1], ':', 0) {
            Some(ci) => trim_ws(bl[1].subrange(ci + 1, bl[1].len() as int)),
            None => Seq::empty(),
        }
    } else {
        Seq::empty()
    }
}

/// Whether block `k` contributes: its content starts with the
/// actuality kind and its identifier is non-empty.
pub open spec fn qal_block_kept(s: Seq<char>, k: int) -> bool {
    &&& match_at(s, "QUP"@, block_start_at(s, k))
    &&& qal_block_id(block_lines_at(s, k)).len() > 0
}

/// The quality records of the first `k` blocks, keyed by identifier,
/// later blocks winning.
pub open spec fn qal_records(s: Seq<char>, k: int) -> Map<
    Seq<char>,
    (Option<Seq<char>>, Option<Seq<char>>, Option<Seq<char>>),
>
    decreases k,
{
    if k <= 0 {
        Map::empty()
    } else {
        let m = qal_records(s, k - 1);
        let bl = block_lines_at(s, k - 1);
        if qal_block_kept(s, k - 1) {
            m.insert(qal_block_id(bl), qal_fold(bl, bl.len() as int))
        } else {
            m
        }
    }
}

/// How the quality map relates to the records: same keys, each value's
/// three fields carrying its winning block's dates.
pub open spec fn qal_rel(
    m: Map<Seq<char>, Quality>,
    r: Map<Seq<char>, (Option<Seq<char>>, Option<Seq<char>>, Option<Seq<char>>)>,
) -> bool {
    &&& m.dom() =~= r.dom()
    &&& forall|id: Seq<char>|
        #![trigger m[id]]
        r.contains_key(id) ==> (match m[id].create_date {
            Some(d) => r[id].0 == Some(d@),
            None => r[id].0 is None,
        }) && (match m[id].update_date {
            Some(d) => r[id].1 == Some(d@),
            None => r[id].1 is None,
        }) && (match m[id].update_type {
            Some(d) => r[id].2 == Some(d@),
            None => r[id].2 is None,
        })
}

/// Reads the quality file: blocks at the record sentinel whose kind
/// is `QUP` yield a quality record under their object identifier,
/// with creation date, update date and update kind from the `ODA`,
/// `UDA` and `UTY` lines, exactly as `qal_records` describes over the
/// byte-for-byte character reading of the input.
#[verifier::rlimit(100)]
pub fn parse(data: &[u8]) -> (r: Result<StrMap<Quality>, EdigeoError>)
    ensures
        r is Ok,
        data@.len() == 0 ==> (r matches Ok(m) && m@ == Map::<Seq<char>, Quality>::empty()),
        r matches Ok(m) && {
            let s = crate::bytes::lossy_chars(data@);
            qal_rel(m@, qal_records(s, sub_starts(s, "RTYSA03:"@, 0).len() as int))
        },
{
    proof {
        reveal_strlit("RTYSA03:");
        reveal_strlit("QUP");
        reveal_strlit("ODA");
        reveal_strlit("UDA");
        reveal_strlit("UTY");
    }
    let mut qualities: StrMap<Quality> = StrMap::new();
    if data.len() == 0 {
        proof {
            assert(crate::bytes::lossy_chars(data@) =~= Seq::<char>::empty());
            assert(sub_starts(crate::bytes::lossy_chars(data@), "RTYSA03:"@, 0)
                =~= Seq::<int>::empty());
        }
        return Ok(qualities);
    }
    let chars = crate::bytes::lossy_chars_of_range(data, 0, data.len());
    proof {
        assert(data@.subrange(0, data@.len() as int) =~= data@);
    }
    let v = chars.as_slice();
    let n = chars.len();
    let sentinel = chars_of("RTYSA03:");
    let qup = chars_of("QUP");
    let oda = chars_of("ODA");
    let uda = chars_of("UDA");
    let uty = chars_of("UTY");
    let ghost starts = sub_starts(chars@, "RTYSA03:"@, 0);
    let ghost bk: int = 0;
    let mut cur: Option<usize> = match find_sub(v, sentinel.as_slice(), 0) {
        Some(i) => Some(i + 8),
        None => None,
    };
    proof {
        match spec_find_sub(chars@, "RTYSA03:"@, 0) {
            Some(i) => {
                assert(starts =~= seq![i + 8] + sub_starts(chars@, "RTYSA03:"@, i + 8));
            },
            None => {
                assert(starts =~= Seq::<int>::empty());
            },
        }
        if cur is Some {
            assert(sub_starts(chars@, "RTYSA03:"@, starts[0]) =~= starts.subrange(
                1,
                starts.len() as int,
            ));
        }
    }
    loop
        invariant
            n == chars@.len(),
            v@ == chars@,
            chars@ == crate::bytes::lossy_chars(data@),
            sentinel@ == "RTYSA03:"@,
            sentinel@.len() == 8,
            qup@ == "QUP"@,
            oda@ == "ODA"@,
            uda@ == "UDA"@,
            uty@ == "UTY"@,
            starts == sub_starts(chars@, "RTYSA03:"@, 0),
            0 <= bk <= starts.len(),
            (match cur {
                Some(c) => bk < starts.len() && c as int == starts[bk] && c <= n && sub_starts(
                    chars@,
                    "RTYSA03:"@,
                    c as int,
                ) == starts.subrange(bk + 1, starts.len() as int),
                None => bk == starts.len(),
            }),
            qal_rel(qualities@, qal_records(chars@, bk)),
        ensures
            bk == starts.len(),
            qal_rel(qualities@, qal_records(chars@, bk)),
        decreases n + 1 - (match cur {
            Some(c) => c as int,
            None => n + 1,
        }),
    {
        let start = match cur {
            Some(c) => c,
            None => {
                break ;
            },
        };
        let next = if start < n {
            find_sub(v, sentinel.as_slice(), start)
        } else {
            None
        };
        proof {
            if start >= n {
                assert(spec_find_sub(chars@, "RTYSA03:"@, start as int) is None);
            }
            match next {
                Some(i) => {
                    assert(spec_find_sub(chars@, "RTYSA03:"@, start as int) == Some(i as int));
                    assert(sub_starts(chars@, "RTYSA03:"@, start as int) =~= seq![i + 8]
                        + sub_starts(chars@, "RTYSA03:"@, i + 8));
                    assert(starts.subrange(bk + 1, starts.len() as int)[0] == i + 8);
                    assert(starts[bk + 1] == i + 8);
                    assert forall|t: int|
                        0 <= t < sub_starts(chars@, "RTYSA03:"@, i + 8).len() implies #[trigger]
                    sub_starts(chars@, "RTYSA03:"@, i + 8)[t] == starts[bk + 2 + t] by {
                        assert(starts.subrange(bk + 1, starts.len() as int)[t + 1] == (seq![
                            (i + 8) as int,
                        ] + sub_starts(chars@, "RTYSA03:"@, i + 8))[t + 1]);
                    }
                    assert(sub_starts(chars@, "RTYSA03:"@, i + 8) =~= starts.subrange(
                        bk + 2,
                        starts.len() as int,
                    ));
                },
                None => {
                    assert(sub_starts(chars@, "RTYSA03:"@, start as int) =~= Seq::<int>::empty());
                    assert(starts.subrange(bk + 1, starts.len() as int).len() == 0);
                    assert(bk + 1 == starts.len());
                },
            }
        }
        let block_end = match next {
            Some(i) => i,
            None => n,
        };
        proof {
            assert(block_end >= start);
            assert(block_end as int == block_end_at(chars@, bk));
            assert(start as int == block_start_at(chars@, bk));
        }
        // Only actuality blocks are kept.
        if crate::text::matches_at(v, qup.as_slice(), start) {
            let lines = split_block_lines(v, start, block_end);
            let ghost bl = block_lines_at(chars@, bk);
            proof {
                reveal_strlit("ODA");
                reveal_strlit("UDA");
                reveal_strlit("UTY");
                assert(line_views(lines@) == bl);
                assert("ODA"@[0] == 'O' && "UDA"@[0] == 'U' && "UTY"@[0] == 'U' && "UDA"@[1]
                    == 'D' && "UTY"@[1] == 'T');
            }
            if lines.len() >= 2 {
                // The object identifier is the payload of the second line.
                let idc = chars_of(lines[1].as_str());
                let idn = idc.len();
                proof {
                    assert(idc@ == bl[1]);
                }
                match crate::text::find_char(idc.as_slice(), ':', 0) {
                    Some(ci) => {
                        proof {
                            assert(ci < idn);
                        }
                        let idt = trim_ws_chars_range(idc.as_slice(), ci + 1, idn);
                        proof {
                            assert(idc@.subrange(ci + 1, idn as int) == bl[1].subrange(
                                ci + 1,
                                bl[1].len() as int,
                            ));
                            assert(idt@ == qal_block_id(bl));
                        }
                        if idt.len() > 0 {
                            let mut q = Quality::empty();
                            let ln = lines.len();
                            let mut k: usize = 2;
                            while k < ln
                                invariant
                                    2 <= k <= ln || (ln < 2 && k == 2),
                                    ln == lines@.len(),
                                    bl == line_views(lines@),
                                    oda@ == "ODA"@,
                                    uda@ == "UDA"@,
                                    uty@ == "UTY"@,
                                    (match q.create_date {
                                        Some(d) => qal_fold(bl, k as int).0 == Some(d@),
                                        None => qal_fold(bl, k as int).0 is None,
                                    }),
                                    (match q.update_date {
                                        Some(d) => qal_fold(bl, k as int).1 == Some(d@),
                                        None => qal_fold(bl, k as int).1 is None,
                                    }),
                                    (match q.update_type {
                                        Some(d) => qal_fold(bl, k as int).2 == Some(d@),
                                        None => qal_fold(bl, k as int).2 is None,
                                    }),
                                decreases ln - k,
                            {
                                proof {
                                    reveal_strlit("ODA");
                                    reveal_strlit("UDA");
                                    reveal_strlit("UTY");
                                    assert("ODA"@[0] == 'O' && "UDA"@[0] == 'U' && "UTY"@[0] == 'U'
                                        && "UDA"@[1] == 'D' && "UTY"@[1] == 'T');
                                    assert(line_views(lines@)[k as int] == lines@[k as int]@);
                                }
                                let lc = chars_of(lines[k].as_str());
                                let lcn = lc.len();
                                match crate::text::find_char(lc.as_slice(), ':', 0) {
                                    Some(vi) => {
                                        proof {
                                            assert(vi < lcn);
                                        }
                                        let val = trim_ws_chars_range(lc.as_slice(), vi + 1, lcn);
                                        proof {
                                            assert(lc@.subrange(vi + 1, lcn as int) == bl[
                                                k as int
                                            ].subrange(vi + 1, bl[k as int].len() as int));
                                        }
                                        if crate::text::matches_at(lc.as_slice(), oda.as_slice(), 0)
                                        {
                                            q.create_date = Some(
                                                string_of_chars(val.as_slice()),
                                            );
                                        } else if crate::text::matches_at(
                                            lc.as_slice(),
                                            uda.as_slice(),
                                            0,
                                        ) {
                                            q.update_date = Some(
                                                string_of_chars(val.as_slice()),
                                            );
                                        } else if crate::text::matches_at(
                                            lc.as_slice(),
                                            uty.as_slice(),
                                            0,
                                        ) {
                                            q.update_type = Some(
                                                string_of_chars(val.as_slice()),
                                            );
                                        }
                                    },
                                    None => {},
                                }
                                k = k + 1;
                            }
                            proof {
                                assert(qal_block_kept(chars@, bk));
                            }
                            let key = string_of_chars(idt.as_slice());
                            qualities.insert(key, q);
                            proof {
                                assert(qal_records(chars@, bk + 1) == qal_records(
                                    chars@,
                                    bk,
                                ).insert(qal_block_id(bl), qal_fold(bl, bl.len() as int)));
                                assert(qualities@.dom() =~= qal_records(chars@, bk + 1).dom());
                                assert(qal_rel(qualities@, qal_records(chars@, bk + 1)));
                            }
                        } else {
                            proof {
                                assert(!qal_block_kept(chars@, bk));
                            }
                        }
                    },
                    None => {
                        proof {
                            assert(qal_block_id(bl) =~= Seq::<char>::empty());
                            assert(!qal_block_kept(chars@, bk));
                        }
                    },
                }
            } else {
                proof {
                    assert(!qal_block_kept(chars@, bk));
                }
            }
        } else {
            proof {
                assert(!qal_block_kept(chars@, bk));
            }
        }
        proof {
            assert(qal_rel(qualities@, qal_records(chars@, bk + 1)));
        }
        cur = match next {
            Some(i) => {
                proof {
                    assert(i >= start);
                    assert(i + 8 <= n);
                }
                Some(i + 8)
            },
            None => None,
        };
        proof {
            bk = bk + 1;
        }
    }
    Ok(qualities)
}

} // verus!
