//! Text helpers for the bulk tile loaders: blank stripping and hexadecimal
//! decoding.

use vstd::prelude::*;

verus! {

/// Whether `c` is one of the blank characters the loaders ignore.
pub open spec fn is_blank_char(c: char) -> bool {
    c == ' ' || c == '\t' || c == '\n' || c == '\r'
}

/// `s` with every blank character removed, order kept.
pub open spec fn strip_blanks(s: Seq<char>) -> Seq<char>
    decreases s.len(),
{
    if s.len() == 0 {
        Seq::empty()
    } else if is_blank_char(s.last()) {
        strip_blanks(s.drop_last())
    } else {
        strip_blanks(s.drop_last()).push(s.last())
    }
}

/// Stripping blanks never lengthens a string.
pub proof fn lemma_strip_blanks_len(s: Seq<char>)
    ensures
        strip_blanks(s).len() <= s.len(),
    decreases s.len(),
{
    if s.len() > 0 {
        lemma_strip_blanks_len(s.drop_last());
    }
}

/// Whether `c` is a hexadecimal digit (`0-9`, `a-f`, `A-F`).
pub open spec fn is_hex_digit(c: char) -> bool {
    (48 <= c as int && c as int <= 57) || (97 <= c as int && c as int <= 102) || (65 <= c as int
        && c as int <= 70)
}

/// The numeric value of a hexadecimal digit.
pub open spec fn hex_digit_value(c: char) -> int {
    if 48 <= c as int && c as int <= 57 {
        c as int - 48
    } else if 97 <= c as int && c as int <= 102 {
        c as int - 87
    } else {
        c as int - 55
    }
}

/// Whether every character of `s` is a hexadecimal digit.
pub open spec fn all_hex(s: Seq<char>) -> bool {
    forall|k: int| 0 <= k < s.len() ==> is_hex_digit(#[trigger] s[k])
}

/// The value of the 4-digit hexadecimal group `s`.
pub open spec fn group_value(s: Seq<char>) -> u32
    recommends
        s.len() == 4,
        all_hex(s),
{
    (hex_digit_value(s[0]) * 4096 + hex_digit_value(s[1]) * 256 + hex_digit_value(s[2]) * 16
        + hex_digit_value(s[3])) as u32
}

/// Removes the blank characters of `s`, keeping everything else in order.
pub fn simplify_string(s: &str) -> (r: Vec<char>)
    ensures
        r@ == strip_blanks(s@),
{
    let n = s.unicode_len();
    let mut r: Vec<char> = Vec::new();
    let mut k: usize = 0;
    while k < n
        invariant
            k <= n,
            n == s@.len(),
            r@ == strip_blanks(s@.subrange(0, k as int)),
        decreases n - k,
    {
        let c = s.get_char(k);
        if !(c == ' ' || c == '\t' || c == '\n' || c == '\r') {
            r.push(c);
        }
        proof {
            assert(s@.subrange(0, k + 1).drop_last() =~= s@.subrange(0, k as int));
            assert(s@.subrange(0, k + 1).last() == s@[k as int]);
        }
        k = k + 1;
    }
    proof {
        assert(s@.subrange(0, s@.len() as int) =~= s@);
    }
    r
}

/// Classifies `c` as a hexadecimal digit, yielding its value.
pub fn hex_digit(c: char) -> (r: Option<u8>)
    ensures
        r is Some <==> is_hex_digit(c),
        r is Some ==> r.unwrap() as int == hex_digit_value(c) && r.unwrap() < 16,
{
    let n = c as u32;
    if 48 <= n && n <= 57 {
        Option::Some((n - 48) as u8)
    } else if 97 <= n && n <= 102 {
        Option::Some((n - 87) as u8)
    } else if 65 <= n && n <= 70 {
        Option::Some((n - 55) as u8)
    } else {
        Option::None
    }
}

/// Parses the 4-character group of `chars` starting at `start` as
/// hexadecimal; fails exactly when one of the four characters is not a
/// hexadecimal digit.
pub fn parse_hex_group(chars: &Vec<char>, start: usize) -> (r: Option<u32>)
    requires
        start + 4 <= chars@.len(),
    ensures
        r is Some <==> all_hex(chars@.subrange(start as int, start as int + 4)),
        r is Some ==> r.unwrap() == group_value(chars@.subrange(start as int, start as int + 4)),
{
    let ghost grp = chars@.subrange(start as int, start as int + 4);
    let n: usize = chars.len();
    proof {
        assert(start + 4 <= n);
    }
    let d0 = hex_digit(chars[start]);
    let d1 = hex_digit(chars[start + 1]);
    let d2 = hex_digit(chars[start + 2]);
    let d3 = hex_digit(chars[start + 3]);
    match (d0, d1, d2, d3) {
        (Option::Some(a), Option::Some(b), Option::Some(c), Option::Some(d)) => {
            let v: u32 = a as u32 * 4096 + b as u32 * 256 + c as u32 * 16 + d as u32;
            proof {
                assert forall|k: int| 0 <= k < grp.len() implies is_hex_digit(#[trigger] grp[k])
                by {
                    assert(grp[k] == chars@[start + k]);
                }
            }
            Option::Some(v)
        },
        _ => {
            proof {
                assert(grp[0] == chars@[start as int]);
                assert(grp[1] == chars@[start + 1]);
                assert(grp[2] == chars@[start + 2]);
                assert(grp[3] == chars@[start + 3]);
            }
            Option::None
        },
    }
}

} // verus!
