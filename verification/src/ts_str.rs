//! Decimal text for 64-bit identifiers.
//!
//! Ids are serialized as decimal strings so that clients with limited
//! numeric precision can hold them; `to_str` and `to_number` are exact
//! inverses (`lemma_dec_round_trip`), so ids round-trip losslessly.

use vstd::prelude::*;

verus! {

/// The decimal digit character for a value below ten.
pub open spec fn digit_char(d: int) -> char {
    if d == 0 {
        '0'
    } else if d == 1 {
        '1'
    } else if d == 2 {
        '2'
    } else if d == 3 {
        '3'
    } else if d == 4 {
        '4'
    } else if d == 5 {
        '5'
    } else if d == 6 {
        '6'
    } else if d == 7 {
        '7'
    } else if d == 8 {
        '8'
    } else {
        '9'
    }
}

pub open spec fn is_digit_char(c: char) -> bool {
    48 <= (c as u32) <= 57
}

pub open spec fn digit_val(c: char) -> nat {
    ((c as u32) - 48) as nat
}

pub open spec fn all_digits(s: Seq<char>) -> bool {
    forall|i: int| 0 <= i < s.len() ==> is_digit_char(#[trigger] s[i])
}

/// The ten digit characters decode to their values.
proof fn lemma_digit_char_val(d: int)
    requires
        0 <= d <= 9,
    ensures
        digit_val(digit_char(d)) == d,
        is_digit_char(digit_char(d)),
        digit_char(d) != '+',
{
    assert('0' as u32 == 48);
    assert('1' as u32 == 49);
    assert('2' as u32 == 50);
    assert('3' as u32 == 51);
    assert('4' as u32 == 52);
    assert('5' as u32 == 53);
    assert('6' as u32 == 54);
    assert('7' as u32 == 55);
    assert('8' as u32 == 56);
    assert('9' as u32 == 57);
}

/// The decimal notation of a number: no sign, no leading zero (except for
/// zero itself).
pub open spec fn dec_digits(n: nat) -> Seq<char>
    decreases n,
{
    if n < 10 {
        seq![digit_char(n as int)]
    } else {
        dec_digits(n / 10).push(digit_char((n % 10) as int))
    }
}

/// The value of a digit string, most significant digit first.
pub open spec fn dec_val(s: Seq<char>) -> nat
    decreases s.len(),
{
    if s.len() == 0 {
        0
    } else {
        dec_val(s.drop_last()) * 10 + digit_val(s.last())
    }
}

/// What 64-bit parsing accepts: an optional leading `+`, then one or more
/// digits, value within range.
pub open spec fn parse_u64_spec(s: Seq<char>) -> Option<u64> {
    let body = if s.len() > 0 && s[0] == '+' {
        s.drop_first()
    } else {
        s
    };
    if body.len() == 0 || !all_digits(body) {
        None
    } else if dec_val(body) > u64::MAX {
        None
    } else {
        Some(dec_val(body) as u64)
    }
}

// ------------------------------------------------------------------
// Properties.
// ------------------------------------------------------------------

/// Reading the decimal notation back yields the number; the notation is
/// nonempty and all digits.
pub proof fn lemma_dec_digits_val(n: nat)
    ensures
        dec_val(dec_digits(n)) == n,
        all_digits(dec_digits(n)),
        dec_digits(n).len() >= 1,
    decreases n,
{
    if n < 10 {
        lemma_digit_char_val(n as int);
        assert(dec_digits(n) =~= seq![digit_char(n as int)]);
        assert(dec_digits(n).drop_last() =~= Seq::<char>::empty());
        assert(dec_val(Seq::<char>::empty()) == 0);
        assert(dec_digits(n).last() == digit_char(n as int));
        assert(dec_val(dec_digits(n)) == dec_val(Seq::<char>::empty()) * 10 + digit_val(
            digit_char(n as int),
        ));
    } else {
        lemma_dec_digits_val(n / 10);
        lemma_digit_char_val((n % 10) as int);
        let d = dec_digits(n / 10);
        assert(d.push(digit_char((n % 10) as int)).drop_last() =~= d);
        assert(dec_val(dec_digits(n)) == dec_val(d) * 10 + digit_val(digit_char((n % 10) as int)));
        assert(forall|i: int|
            0 <= i < d.len() ==> #[trigger] dec_digits(n)[i] == d[i]);
    }
}

/// The decimal round trip: parsing the notation of any 64-bit value gives
/// exactly that value back.
pub proof fn lemma_dec_round_trip(n: u64)
    ensures
        parse_u64_spec(dec_digits(n as nat)) == Some(n),
{
    lemma_dec_digits_val(n as nat);
    let s = dec_digits(n as nat);
    assert(is_digit_char(s[0]));
    assert('+' as u32 == 43);
    assert(s[0] != '+');
}

/// A digit string's prefixes never exceed its value.
proof fn lemma_dec_val_prefix_le(s: Seq<char>, k: int)
    requires
        0 <= k <= s.len(),
    ensures
        dec_val(s.subrange(0, k)) <= dec_val(s),
    decreases s.len() - k,
{
    if k == s.len() {
        assert(s.subrange(0, k) =~= s);
    } else {
        assert(s.subrange(0, k + 1).drop_last() =~= s.subrange(0, k));
        assert(s.subrange(0, k + 1).last() == s[k]);
        assert(dec_val(s.subrange(0, k + 1)) == dec_val(s.subrange(0, k)) * 10 + digit_val(s[k]));
        lemma_dec_val_prefix_le(s, k + 1);
    }
}

// ------------------------------------------------------------------
// Executable codec.
// ------------------------------------------------------------------

/// Appends one decimal digit character.
fn push_digit(s: &mut String, d: u64)
    requires
        d < 10,
    ensures
        final(s)@ == old(s)@.push(digit_char(d as int)),
{
    let lit: &str = if d == 0 {
        "0"
    } else if d == 1 {
        "1"
    } else if d == 2 {
        "2"
    } else if d == 3 {
        "3"
    } else if d == 4 {
        "4"
    } else if d == 5 {
        "5"
    } else if d == 6 {
        "6"
    } else if d == 7 {
        "7"
    } else if d == 8 {
        "8"
    } else {
        "9"
    };
    proof {
        reveal_strlit("0");
        reveal_strlit("1");
        reveal_strlit("2");
        reveal_strlit("3");
        reveal_strlit("4");
        reveal_strlit("5");
        reveal_strlit("6");
        reveal_strlit("7");
        reveal_strlit("8");
        reveal_strlit("9");
        assert(lit@ =~= seq![digit_char(d as int)]);
    }
    s.append(lit);
    proof {
        assert(old(s)@ + lit@ =~= old(s)@.push(digit_char(d as int)));
    }
}

/// Writes a 64-bit value in decimal.
pub fn to_str(n: u64) -> (r: String)
    ensures
        r@ == dec_digits(n as nat),
{
    // Low-order digits first ...
    let mut rev: Vec<u64> = Vec::new();
    let mut m = n;
    loop
        invariant_except_break
            dec_digits(n as nat) =~= dec_digits(m as nat) + Seq::new(rev@.len(), |i: int|
            digit_char(rev@[rev@.len() - 1 - i] as int)),
        invariant
            forall|i: int| 0 <= i < rev@.len() ==> #[trigger] rev@[i] < 10,
        ensures
            dec_digits(n as nat) =~= Seq::new(rev@.len(), |i: int| digit_char(
                rev@[rev@.len() - 1 - i] as int,
            )),
            forall|i: int| 0 <= i < rev@.len() ==> #[trigger] rev@[i] < 10,
        decreases m,
    {
        let ghost rev0 = rev@;
        let ghost m0 = m;
        let d = m % 10;
        let m2 = m / 10;
        rev.push(d);
        proof {
            let tail = Seq::new(rev@.len(), |i: int| digit_char(rev@[rev@.len() - 1 - i] as int));
            let tail0 = Seq::new(rev0.len(), |i: int| digit_char(rev0[rev0.len() - 1 - i] as int));
            assert(tail =~= seq![digit_char(d as int)] + tail0);
            if m0 < 10 {
                assert(dec_digits(m0 as nat) =~= seq![digit_char(d as int)]);
                assert(dec_digits(n as nat) =~= tail);
            } else {
                assert(dec_digits(m0 as nat) =~= dec_digits(m2 as nat).push(digit_char(d as int)));
                assert(dec_digits(m2 as nat).push(digit_char(d as int)) + tail0 =~= dec_digits(
                    m2 as nat,
                ) + tail);
                assert(dec_digits(n as nat) =~= dec_digits(m2 as nat) + tail);
            }
        }
        m = m2;
        if m == 0 {
            proof {
                assert(m0 < 10);
            }
            break;
        }
    }

    // ... then written out from the high end.
    let mut out = String::new();
    let mut j = rev.len();
    proof {
        assert(out@ =~= Seq::<char>::empty());
    }
    while j > 0
        invariant
            j <= rev@.len(),
            forall|i: int| 0 <= i < rev@.len() ==> #[trigger] rev@[i] < 10,
            dec_digits(n as nat) =~= Seq::new(rev@.len(), |i: int| digit_char(
                rev@[rev@.len() - 1 - i] as int,
            )),
            out@ =~= Seq::new(
                (rev@.len() - j) as nat,
                |i: int| digit_char(rev@[rev@.len() - 1 - i] as int),
            ),
        decreases j,
    {
        push_digit(&mut out, rev[j - 1]);
        j = j - 1;
    }
    proof {
        assert(out@ =~= dec_digits(n as nat));
    }
    out
}

/// Reads a 64-bit value from decimal text: an optional leading `+`, then
/// one or more digits; rejects anything else and values out of range,
/// exactly as `parse_u64_spec` says.
pub fn to_number(s: &str) -> (r: Option<u64>)
    ensures
        r == parse_u64_spec(s@),
{
    let len = s.unicode_len();
    let start: usize = if len > 0 && s.get_char(0) == '+' {
        1
    } else {
        0
    };
    let ghost body = if s@.len() > 0 && s@[0] == '+' {
        s@.drop_first()
    } else {
        s@
    };
    proof {
        assert(body =~= s@.subrange(start as int, len as int));
    }
    if start == len {
        return None;
    }
    let mut val: u64 = 0;
    let mut i = start;
    while i < len
        invariant
            start <= i <= len,
            len == s@.len(),
            body == s@.subrange(start as int, len as int),
            body == (if s@.len() > 0 && s@[0] == '+' {
                s@.drop_first()
            } else {
                s@
            }),
            start == 0 || (s@.len() > 0 && s@[0] == '+' && start == 1),
            start == 0 ==> !(s@.len() > 0 && s@[0] == '+'),
            all_digits(s@.subrange(start as int, i as int)),
            val == dec_val(s@.subrange(start as int, i as int)),
        decreases len - i,
    {
        let c = s.get_char(i);
        let u = c as u32;
        if u < 48 || u > 57 {
            proof {
                assert(body[i - start] == s@[i as int]);
                assert(!is_digit_char(body[i - start]));
            }
            return None;
        }
        let d = (u - 48) as u64;
        let ghost prefix = s@.subrange(start as int, i as int);
        proof {
            assert(s@.subrange(start as int, i + 1).drop_last() =~= prefix);
            assert(s@.subrange(start as int, i + 1).last() == s@[i as int]);
        }
        proof {
            assert(digit_val(s@[i as int]) == d);
            assert(dec_val(s@.subrange(start as int, i + 1)) == dec_val(prefix) * 10 + d);
        }
        let step = val.checked_mul(10);
        let next = match step {
            None => None,
            Some(v) => v.checked_add(d),
        };
        match next {
            None => {
                proof {
                    // The prefix alone is already too large, so the whole
                    // body is out of range.
                    assert(dec_val(prefix) * 10 + d > u64::MAX);
                    assert(s@.subrange(start as int, i + 1) =~= body.subrange(0, i + 1 - start));
                    lemma_dec_val_prefix_le(body, i + 1 - start);
                    assert(dec_val(body) > u64::MAX);
                }
                return None;
            },
            Some(v) => {
                val = v;
            },
        }
        proof {
            assert(val == dec_val(s@.subrange(start as int, i + 1)));
        }
        i = i + 1;
    }
    proof {
        assert(s@.subrange(start as int, len as int) =~= body);
        assert(all_digits(body));
        assert(val == dec_val(body));
        assert(body.len() > 0);
    }
    Some(val)
}


// ------------------------------------------------------------------
// Character search and id lists.
// ------------------------------------------------------------------

/// Index of the first occurrence of a character; the length when absent.
pub open spec fn find_char(s: Seq<char>, c: char) -> int
    decreases s.len(),
{
    if s.len() == 0 {
        0
    } else if s[0] == c {
        0
    } else {
        1 + find_char(s.drop_first(), c)
    }
}

/// What `find_char` returns.
pub proof fn lemma_find_char(s: Seq<char>, c: char)
    ensures
        0 <= find_char(s, c) <= s.len(),
        find_char(s, c) < s.len() ==> s[find_char(s, c)] == c,
        forall|j: int| 0 <= j < find_char(s, c) ==> s[j] != c,
    decreases s.len(),
{
    if s.len() > 0 && s[0] != c {
        lemma_find_char(s.drop_first(), c);
        assert(forall|i: int|
            0 <= i < s.drop_first().len() ==> #[trigger] s.drop_first()[i] == s[i + 1]);
        let r = find_char(s, c);
        assert forall|j: int| 0 <= j < r implies s[j] != c by {
            if j > 0 {
                assert(s.drop_first()[j - 1] == s[j]);
            }
        }
    }
}

/// Finds the first occurrence of a character, if any.
pub fn find_char_in(s: &str, c: char) -> (k: usize)
    ensures
        k as int == find_char(s@, c),
{
    proof {
        lemma_find_char(s@, c);
    }
    let len = s.unicode_len();
    let mut i: usize = 0;
    while i < len
        invariant
            i <= len,
            len == s@.len(),
            forall|j: int| 0 <= j < i ==> s@[j] != c,
        decreases len - i,
    {
        if s.get_char(i) == c {
            proof {
                lemma_find_char(s@, c);
                let r = find_char(s@, c);
                if r < i {
                    assert(s@[r] == c);
                    assert(false);
                }
                assert(r == i);
            }
            return i;
        }
        i = i + 1;
    }
    proof {
        lemma_find_char(s@, c);
        let r = find_char(s@, c);
        if r < s@.len() {
            assert(s@[r] == c);
            assert(false);
        }
    }
    len
}

pub open spec fn opt_id(o: Option<u64>) -> Seq<u64> {
    match o {
        Some(v) => seq![v],
        None => Seq::empty(),
    }
}

/// The ids held in a comma-separated list: each segment read as decimal,
/// unreadable segments skipped.
pub open spec fn parse_id_list_spec(s: Seq<char>) -> Seq<u64>
    decreases s.len(),
{
    let k = find_char(s, ',');
    if 0 <= k < s.len() {
        opt_id(parse_u64_spec(s.subrange(0, k))) + parse_id_list_spec(
            s.subrange(k + 1, s.len() as int),
        )
    } else {
        opt_id(parse_u64_spec(s))
    }
}

/// Reads a comma-separated id list, skipping unreadable segments: the
/// form tag assignments are stored in on an app row.
pub fn parse_id_list(s: &str) -> (r: Vec<u64>)
    ensures
        r@ == parse_id_list_spec(s@),
    decreases s@.len(),
{
    proof {
        lemma_find_char(s@, ',');
    }
    let len = s.unicode_len();
    let k = find_char_in(s, ',');
    if k == len {
        match to_number(s) {
            Some(v) => {
                let mut out: Vec<u64> = Vec::new();
                out.push(v);
                proof {
                    assert(out@ =~= parse_id_list_spec(s@));
                }
                out
            },
            None => {
                let out: Vec<u64> = Vec::new();
                proof {
                    assert(out@ =~= parse_id_list_spec(s@));
                }
                out
            },
        }
    } else {
        let seg = s.substring_char(0, k);
        let rest = s.substring_char(k + 1, len);
        let mut out: Vec<u64> = Vec::new();
        match to_number(seg) {
            Some(v) => {
                out.push(v);
            },
            None => {},
        }
        let mut tail = parse_id_list(rest);
        out.append(&mut tail);
        proof {
            assert(out@ =~= parse_id_list_spec(s@));
        }
        out
    }
}

} // verus!
