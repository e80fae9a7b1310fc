//! Reading and writing decimal numbers.
//!
//! `parse_u32` accepts exactly what Rust's `str::parse::<u32>` accepts: an
//! optional leading `+`, then one or more ASCII digits, with the value
//! fitting in a `u32`.  `usize_to_string` renders a number for the error
//! messages.

use vstd::prelude::*;

verus! {

pub open spec fn is_digit(c: char) -> bool {
    '0' <= c && c <= '9'
}

pub open spec fn digit_value(c: char) -> int {
    c as int - '0' as int
}

/// A non-empty text of ASCII digits only.
pub open spec fn all_digits(s: Seq<char>) -> bool {
    s.len() > 0 && forall|i: int| 0 <= i < s.len() ==> is_digit(s[i])
}

/// The number the digit text denotes.
pub open spec fn digits_value(s: Seq<char>) -> int
    decreases s.len(),
{
    if s.len() == 0 {
        0
    } else {
        digits_value(s.drop_last()) * 10 + digit_value(s.last())
    }
}

/// The digit part of a number text: a single leading `+` is allowed and
/// ignored.
pub open spec fn number_digits(s: Seq<char>) -> Seq<char> {
    if s.len() > 0 && s[0] == '+' {
        s.skip(1)
    } else {
        s
    }
}

/// Whether the text is accepted by `str::parse::<u32>`.
pub open spec fn parses_as_u32(s: Seq<char>) -> bool {
    all_digits(number_digits(s)) && digits_value(number_digits(s)) <= u32::MAX
}

/// The value of a text accepted by `str::parse::<u32>`.
pub open spec fn u32_value(s: Seq<char>) -> int {
    digits_value(number_digits(s))
}

pub proof fn lemma_digits_value_nonneg(s: Seq<char>)
    requires
        forall|i: int| 0 <= i < s.len() ==> is_digit(s[i]),
    ensures
        digits_value(s) >= 0,
    decreases s.len(),
{
    if s.len() > 0 {
        lemma_digits_value_nonneg(s.drop_last());
    }
}

/// A digit text is worth at least any of its prefixes.
pub proof fn lemma_digits_value_prefix(s: Seq<char>, k: int)
    requires
        forall|i: int| 0 <= i < s.len() ==> is_digit(s[i]),
        0 <= k <= s.len(),
    ensures
        digits_value(s) >= digits_value(s.take(k)),
    decreases s.len(),
{
    if k == s.len() {
        assert(s.take(k) =~= s);
    } else {
        let d = s.drop_last();
        assert(forall|i: int| 0 <= i < d.len() ==> d[i] == s[i] && is_digit(d[i]));
        lemma_digits_value_prefix(d, k);
        assert(d.take(k) =~= s.take(k));
        lemma_digits_value_nonneg(d);
        assert(digits_value(s) == digits_value(d) * 10 + digit_value(s.last()));
        assert(digits_value(d) * 10 >= digits_value(d)) by {
            assert(digits_value(d) >= 0);
        }
    }
}

/// Parses a `u32` exactly as `str::parse::<u32>` does, `None` where it
/// would fail.
pub fn parse_u32(s: &str) -> (r: Option<u32>)
    ensures
        match r {
            Some(v) => parses_as_u32(s@) && v as int == u32_value(s@),
            None => !parses_as_u32(s@),
        },
{
    let n = s.unicode_len();
    let start: usize = if n > 0 && s.get_char(0) == '+' {
        1
    } else {
        0
    };
    let ghost d = number_digits(s@);
    proof {
        assert(d =~= s@.skip(start as int));
    }
    if start >= n {
        // no digits at all
        return None;
    }
    let mut val: u64 = 0;
    let mut i: usize = start;
    proof {
        assert(d.take(0) =~= Seq::<char>::empty());
    }
    while i < n
        invariant
            start <= i <= n,
            n == s@.len(),
            start <= 1,
            d == s@.skip(start as int),
            d == number_digits(s@),
            forall|j: int| 0 <= j < i - start ==> is_digit(d[j]),
            val as int == digits_value(d.take(i - start)),
            val <= u32::MAX,
        decreases n - i,
    {
        let c = s.get_char(i);
        proof {
            assert(d[i - start] == s@[i as int]);
        }
        if c < '0' || c > '9' {
            proof {
                assert(!is_digit(d[i - start]));
                assert(!all_digits(d));
            }
            return None;
        }
        let dv = (c as u32 - 48) as u64;
        proof {
            assert('0' as int == 48);
            assert(is_digit(d[i - start]));
            assert(dv as int == digit_value(d[i - start]));
            assert(d.take(i - start + 1).drop_last() =~= d.take(i - start));
            assert(d.take(i - start + 1).last() == d[i - start]);
        }
        val = val * 10 + dv;
        i += 1;
        if val > 0xFFFF_FFFF {
            proof {
                assert(val as int == digits_value(d.take(i - start)));
                if all_digits(d) {
                    lemma_digits_value_prefix(d, i - start);
                    assert(digits_value(d) > u32::MAX);
                }
                assert(!parses_as_u32(s@));
            }
            return None;
        }
    }
    proof {
        assert(d.take(n - start) =~= d);
    }
    Some(val as u32)
}

/// The character for one decimal digit.
pub open spec fn digit_char(v: int) -> char {
    if v == 0 {
        '0'
    } else if v == 1 {
        '1'
    } else if v == 2 {
        '2'
    } else if v == 3 {
        '3'
    } else if v == 4 {
        '4'
    } else if v == 5 {
        '5'
    } else if v == 6 {
        '6'
    } else if v == 7 {
        '7'
    } else if v == 8 {
        '8'
    } else {
        '9'
    }
}

/// The shortest decimal rendering of a number, as `format!` writes it.
pub open spec fn dec_str(v: nat) -> Seq<char>
    decreases v,
{
    if v < 10 {
        seq![digit_char(v as int)]
    } else {
        dec_str(v / 10).push(digit_char((v % 10) as int))
    }
}

fn digit_literal(v: u8) -> (r: &'static str)
    requires
        v <= 9,
    ensures
        r@ == seq![digit_char(v as int)],
{
    proof {
        reveal_strlit("0");
        reveal_strlit("1");
        reveal_strlit("2");
        reveal_strlit("3");
        reveal_strlit("4");
        reveal_strlit("5");
        reveal_strlit("6");
        reveal_strlit("7");
        reveal_strlit("8");
        reveal_strlit("9");
    }
    match v {
        0 => "0",
        1 => "1",
        2 => "2",
        3 => "3",
        4 => "4",
        5 => "5",
        6 => "6",
        7 => "7",
        8 => "8",
        _ => "9",
    }
}

/// Renders a number in decimal, as `format!("{}", n)` does.
pub fn usize_to_string(n: usize) -> (r: String)
    ensures
        r@ == dec_str(n as nat),
{
    if n == 0 {
        let r = String::from_str(digit_literal(0));
        return r;
    }
    let mut digits: Vec<u8> = Vec::new();
    let mut m: usize = n;
    while m > 0
        invariant
            forall|j: int| 0 <= j < digits@.len() ==> digits@[j] <= 9,
            dec_str(n as nat) == (if m > 0 {
                dec_str(m as nat)
            } else {
                Seq::<char>::empty()
            }) + Seq::new(digits@.len(), |j: int| digit_char(digits@[digits@.len() - 1 - j] as int)),
        decreases m,
    {
        let ghost old_digits = digits@;
        let ghost old_m = m;
        digits.push((m % 10) as u8);
        m = m / 10;
        proof {
            let tail = Seq::new(
                digits@.len(),
                |j: int| digit_char(digits@[digits@.len() - 1 - j] as int),
            );
            let old_tail = Seq::new(
                old_digits.len(),
                |j: int| digit_char(old_digits[old_digits.len() - 1 - j] as int),
            );
            if m > 0 {
                assert(old_m >= 10);
                assert(dec_str(old_m as nat) == dec_str(m as nat).push(
                    digit_char((old_m % 10) as int),
                ));
                assert(dec_str(m as nat).push(digit_char((old_m % 10) as int)) + old_tail
                    =~= dec_str(m as nat) + tail);
            } else {
                assert(old_m < 10);
                assert(dec_str(old_m as nat) == seq![digit_char(old_m as int)]);
                assert(seq![digit_char((old_m % 10) as int)] + old_tail =~= tail);
            }
        }
    }
    let mut r = String::new();
    let mut j = digits.len();
    while j > 0
        invariant
            j <= digits@.len(),
            forall|k: int| 0 <= k < digits@.len() ==> digits@[k] <= 9,
            dec_str(n as nat) == Seq::new(
                digits@.len(),
                |k: int| digit_char(digits@[digits@.len() - 1 - k] as int),
            ),
            r@ =~= Seq::new(
                (digits@.len() - j) as nat,
                |k: int| digit_char(digits@[digits@.len() - 1 - k] as int),
            ),
        decreases j,
    {
        j -= 1;
        let piece = digit_literal(digits[j]);
        r.append(piece);
    }
    proof {
        assert(r@ =~= dec_str(n as nat));
    }
    r
}

} // verus!
