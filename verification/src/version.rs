//! Release version parsing: "major.minor.patch-pre", every piece optional.
//!
//! The text before the first `-` is split on dots; the first three pieces
//! are read as numbers (a missing or unreadable piece gives `None`), and
//! whatever follows the first `-` is the pre-release label.

use vstd::prelude::*;

use crate::tree::opt_text_view;
use crate::ts_str::{
    all_digits, dec_val, find_char, find_char_in, lemma_find_char, parse_u64_spec, to_number,
};

verus! {

/// What 32-bit parsing accepts here: an optional leading `+`, then one or
/// more digits, value within range.  (A version piece never contains `-`,
/// since the pre-release label was already split off.)
pub open spec fn parse_i32_spec(s: Seq<char>) -> Option<i32> {
    let body = if s.len() > 0 && s[0] == '+' {
        s.drop_first()
    } else {
        s
    };
    if body.len() == 0 || !all_digits(body) {
        None
    } else if dec_val(body) > i32::MAX {
        None
    } else {
        Some(dec_val(body) as i32)
    }
}

/// The dotted part of a version: the text before the first `-`.
pub open spec fn ver_main(s: Seq<char>) -> Seq<char> {
    s.subrange(0, find_char(s, '-'))
}

/// The pre-release label: the text after the first `-`, if any.
pub open spec fn ver_pre(s: Seq<char>) -> Option<Seq<char>> {
    if find_char(s, '-') == s.len() {
        None
    } else {
        Some(s.subrange(find_char(s, '-') + 1, s.len() as int))
    }
}

pub open spec fn ver_major(s: Seq<char>) -> Option<i32> {
    let m = ver_main(s);
    parse_i32_spec(m.subrange(0, find_char(m, '.')))
}

pub open spec fn ver_minor(s: Seq<char>) -> Option<i32> {
    let m = ver_main(s);
    if find_char(m, '.') == m.len() {
        None
    } else {
        let r1 = m.subrange(find_char(m, '.') + 1, m.len() as int);
        parse_i32_spec(r1.subrange(0, find_char(r1, '.')))
    }
}

pub open spec fn ver_patch(s: Seq<char>) -> Option<i32> {
    let m = ver_main(s);
    if find_char(m, '.') == m.len() {
        None
    } else {
        let r1 = m.subrange(find_char(m, '.') + 1, m.len() as int);
        if find_char(r1, '.') == r1.len() {
            None
        } else {
            let r2 = r1.subrange(find_char(r1, '.') + 1, r1.len() as int);
            parse_i32_spec(r2.subrange(0, find_char(r2, '.')))
        }
    }
}

/// Reads one non-negative number piece.
fn parse_i32(s: &str) -> (r: Option<i32>)
    ensures
        r == parse_i32_spec(s@),
{
    match to_number(s) {
        Some(v) => {
            if v <= 0x7fff_ffff {
                Some(v as i32)
            } else {
                proof {
                    assert(parse_u64_spec(s@) == Some(v));
                }
                None
            }
        },
        None => {
            proof {
                let body = if s@.len() > 0 && s@[0] == '+' {
                    s@.drop_first()
                } else {
                    s@
                };
                if body.len() > 0 && all_digits(body) {
                    assert(dec_val(body) > u64::MAX);
                }
            }
            None
        },
    }
}

/// Splits a version into its numbered pieces and pre-release label.
pub fn parse_version(version: &str) -> (r: (Option<i32>, Option<i32>, Option<i32>, Option<
    String,
>))
    ensures
        r.0 == ver_major(version@),
        r.1 == ver_minor(version@),
        r.2 == ver_patch(version@),
        opt_text_view(r.3) == ver_pre(version@),
{
    proof {
        lemma_find_char(version@, '-');
    }
    let len = version.unicode_len();
    let dash = find_char_in(version, '-');
    let main_part = version.substring_char(0, dash);
    let pre: Option<String> = if dash == len {
        None
    } else {
        Some(version.substring_char(dash + 1, len).to_owned())
    };

    proof {
        assert(main_part@ == ver_main(version@));
        lemma_find_char(main_part@, '.');
    }
    let ml = main_part.unicode_len();
    let d1 = find_char_in(main_part, '.');
    let major = parse_i32(main_part.substring_char(0, d1));
    let (minor, patch) = if d1 == ml {
        (None, None)
    } else {
        let rest1 = main_part.substring_char(d1 + 1, ml);
        proof {
            lemma_find_char(rest1@, '.');
        }
        let r1l = rest1.unicode_len();
        let d2 = find_char_in(rest1, '.');
        let minor = parse_i32(rest1.substring_char(0, d2));
        let patch = if d2 == r1l {
            None
        } else {
            let rest2 = rest1.substring_char(d2 + 1, r1l);
            proof {
                lemma_find_char(rest2@, '.');
            }
            let d3 = find_char_in(rest2, '.');
            parse_i32(rest2.substring_char(0, d3))
        };
        (minor, patch)
    };
    (major, minor, patch, pre)
}

} // verus!
