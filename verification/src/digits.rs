//! Decimal text for the integer fields of a task: formatting and parsing,
//! with round-trip proofs.

use vstd::prelude::*;

verus! {

/// The decimal digit character for `d` (meaningful for `0 <= d <= 9`).
pub open spec fn digit_of(d: int) -> char {
    if d == 0 {
        '0'
    } else if d == 1 {
        '1'
    } else if d == 2 {
        '2'
    } else if d == 3 {
        '3'
    } else if d == 4 {
        '4'
    } else if d == 5 {
        '5'
    } else if d == 6 {
        '6'
    } else if d == 7 {
        '7'
    } else if d == 8 {
        '8'
    } else {
        '9'
    }
}

/// The value of a decimal digit character; 10 marks a non-digit.
pub open spec fn digit_val(c: char) -> int {
    if c == '0' {
        0
    } else if c == '1' {
        1
    } else if c == '2' {
        2
    } else if c == '3' {
        3
    } else if c == '4' {
        4
    } else if c == '5' {
        5
    } else if c == '6' {
        6
    } else if c == '7' {
        7
    } else if c == '8' {
        8
    } else if c == '9' {
        9
    } else {
        10
    }
}

pub open spec fn is_digit(c: char) -> bool {
    digit_val(c) <= 9
}

pub open spec fn all_digits(s: Seq<char>) -> bool {
    forall|i: int| 0 <= i < s.len() ==> is_digit(#[trigger] s[i])
}

/// The shortest decimal form of `n` (so `0` is "0", with no leading zeroes
/// anywhere else).
pub open spec fn dec_digits(n: nat) -> Seq<char>
    decreases n,
{
    if n < 10 {
        seq![digit_of(n as int)]
    } else {
        dec_digits(n / 10).push(digit_of((n % 10) as int))
    }
}

/// The numeric value of a digit string (meaningful when `all_digits(s)`).
pub open spec fn dec_value(s: Seq<char>) -> nat
    decreases s.len(),
{
    if s.len() == 0 {
        0
    } else {
        (dec_value(s.drop_last()) * 10 + digit_val(s.last())) as nat
    }
}

/// What parsing an unsigned decimal field yields: the text must be one or
/// more digits, with a value that fits in a `u64`.
pub open spec fn parse_u64_spec(s: Seq<char>) -> Option<u64> {
    if s.len() > 0 && all_digits(s) && dec_value(s) <= u64::MAX {
        Some(dec_value(s) as u64)
    } else {
        None
    }
}

/// The decimal form of a signed integer: a minus sign for negatives.
pub open spec fn dec_digits_signed(n: int) -> Seq<char> {
    if n < 0 {
        seq!['-'] + dec_digits((-n) as nat)
    } else {
        dec_digits(n as nat)
    }
}

/// What parsing a signed decimal field yields.
pub open spec fn parse_i64_spec(s: Seq<char>) -> Option<i64> {
    if s.len() >= 2 && s[0] == '-' {
        let mag = s.subrange(1, s.len() as int);
        if all_digits(mag) && dec_value(mag) <= 0x8000_0000_0000_0000 {
            Some((-(dec_value(mag) as int)) as i64)
        } else {
            None
        }
    } else if s.len() > 0 && all_digits(s) && dec_value(s) <= i64::MAX {
        Some(dec_value(s) as i64)
    } else {
        None
    }
}

pub proof fn lemma_dec_digits_round_trip(n: nat)
    ensures
        dec_digits(n).len() >= 1,
        all_digits(dec_digits(n)),
        dec_value(dec_digits(n)) == n,
    decreases n,
{
    if n < 10 {
        let s = dec_digits(n);
        assert(s.drop_last() =~= Seq::<char>::empty());
        assert(s.last() == digit_of(n as int));
        assert(dec_value(Seq::<char>::empty()) == 0);
        assert(dec_value(s) == digit_val(digit_of(n as int)));
        assert(digit_val(digit_of(n as int)) == n);
    } else {
        lemma_dec_digits_round_trip(n / 10);
        let s = dec_digits(n / 10).push(digit_of((n % 10) as int));
        assert(s.drop_last() =~= dec_digits(n / 10));
        assert(dec_value(s) == (n / 10) * 10 + n % 10);
        assert((n / 10) * 10 + n % 10 == n) by {
            vstd::arithmetic::div_mod::lemma_fundamental_div_mod(n as int, 10);
        }
    }
}

/// A digit string's value only grows as more digits follow.
pub proof fn lemma_dec_value_prefix(s: Seq<char>, i: int)
    requires
        0 <= i <= s.len(),
    ensures
        dec_value(s.subrange(0, i)) <= dec_value(s),
    decreases s.len() - i,
{
    if i == s.len() {
        assert(s.subrange(0, i) =~= s);
    } else {
        let t = s.subrange(0, i + 1);
        assert(t.drop_last() =~= s.subrange(0, i));
        assert(dec_value(t) == dec_value(s.subrange(0, i)) * 10 + digit_val(t.last()));
        assert(dec_value(s.subrange(0, i)) <= dec_value(t));
        lemma_dec_value_prefix(s, i + 1);
        assert(s.subrange(0, i + 1) =~= t);
    }
}

/// The one-character string for a decimal digit.
pub fn digit_str(d: u32) -> (s: &'static str)
    requires
        d <= 9,
    ensures
        s@ =~= seq![digit_of(d as int)],
{
    proof {
        reveal_strlit("0");
        reveal_strlit("1");
        reveal_strlit("2");
        reveal_strlit("3");
        reveal_strlit("4");
        reveal_strlit("5");
        reveal_strlit("6");
        reveal_strlit("7");
        reveal_strlit("8");
        reveal_strlit("9");
    }
    match d {
        0 => "0",
        1 => "1",
        2 => "2",
        3 => "3",
        4 => "4",
        5 => "5",
        6 => "6",
        7 => "7",
        8 => "8",
        _ => "9",
    }
}

/// The value of a digit character; 10 for any non-digit.
pub fn digit_value(c: char) -> (d: u32)
    ensures
        d == digit_val(c),
{
    if c == '0' {
        0
    } else if c == '1' {
        1
    } else if c == '2' {
        2
    } else if c == '3' {
        3
    } else if c == '4' {
        4
    } else if c == '5' {
        5
    } else if c == '6' {
        6
    } else if c == '7' {
        7
    } else if c == '8' {
        8
    } else if c == '9' {
        9
    } else {
        10
    }
}

/// Formats `n` in decimal.
pub fn format_u64(n: u64) -> (r: String)
    ensures
        r@ == dec_digits(n as nat),
{
    let mut rev: Vec<u32> = Vec::new();
    let mut m: u64 = n;
    loop
        invariant_except_break
            rev.len() == 0 ==> m == n,
            rev.len() >= 1 ==> m > 0 && dec_digits(n as nat) == dec_digits(m as nat) + Seq::new(
                rev.len() as nat,
                |i: int| digit_of(rev@[rev.len() - 1 - i] as int),
            ),
            forall|i: int| 0 <= i < rev.len() ==> #[trigger] rev@[i] <= 9,
        ensures
            forall|i: int| 0 <= i < rev.len() ==> #[trigger] rev@[i] <= 9,
            dec_digits(n as nat) == Seq::new(
                rev.len() as nat,
                |i: int| digit_of(rev@[rev.len() - 1 - i] as int),
            ),
        decreases m,
    {
        let ghost old_rev = rev@;
        let ghost old_m = m;
        let d: u32 = (m % 10) as u32;
        rev.push(d);
        m = m / 10;
        proof {
            let chars = Seq::new(rev.len() as nat, |i: int| digit_of(rev@[rev.len() - 1 - i] as int));
            let old_chars = Seq::new(old_rev.len(), |i: int| digit_of(old_rev[old_rev.len() - 1 - i] as int));
            assert(chars =~= seq![digit_of(d as int)] + old_chars);
            if m > 0 {
                assert(old_m >= 10);
                assert(dec_digits(old_m as nat) == dec_digits(m as nat).push(digit_of(d as int)));
                assert(dec_digits(m as nat) + chars =~= (dec_digits(m as nat).push(digit_of(d as int))) + old_chars);
            } else {
                assert(old_m < 10);
                assert(dec_digits(old_m as nat) =~= seq![digit_of(d as int)]);
                assert(chars =~= dec_digits(old_m as nat) + old_chars);
            }
            if old_rev.len() == 0 {
                assert(dec_digits(n as nat) + old_chars =~= dec_digits(n as nat));
            } else {
                assert(dec_digits(n as nat) == dec_digits(old_m as nat) + old_chars);
            }
        }
        if m == 0 {
            break;
        }
    }
    let mut s = String::new();
    let mut i: usize = 0;
    let ghost chars = Seq::new(rev.len() as nat, |k: int| digit_of(rev@[rev.len() - 1 - k] as int));
    while i < rev.len()
        invariant
            i <= rev.len(),
            forall|k: int| 0 <= k < rev.len() ==> #[trigger] rev@[k] <= 9,
            chars == Seq::new(rev.len() as nat, |k: int| digit_of(rev@[rev.len() - 1 - k] as int)),
            dec_digits(n as nat) == chars,
            s@ == chars.subrange(0, i as int),
        decreases rev.len() - i,
    {
        let d = rev[rev.len() - 1 - i];
        s.append(digit_str(d));
        i = i + 1;
        proof {
            assert(s@ =~= chars.subrange(0, i as int));
        }
    }
    proof {
        assert(s@ =~= chars);
    }
    s
}

/// Formats `n` in decimal, with a leading minus sign when negative.
pub fn format_i64(n: i64) -> (r: String)
    ensures
        r@ == dec_digits_signed(n as int),
{
    if n >= 0 {
        format_u64(n as u64)
    } else {
        let mag: u64 = if n == i64::MIN {
            9223372036854775808u64
        } else {
            (-n) as u64
        };
        let mut s = String::new();
        proof {
            reveal_strlit("-");
        }
        s.append("-");
        let digits = format_u64(mag);
        s.append(digits.as_str());
        proof {
            assert(s@ =~= seq!['-'] + dec_digits(mag as nat));
        }
        s
    }
}

/// Parses one or more decimal digits as a `u64`; `None` on any other text
/// and on overflow.
pub fn parse_u64(s: &str) -> (r: Option<u64>)
    ensures
        r == parse_u64_spec(s@),
{
    let len = s.unicode_len();
    if len == 0 {
        return None;
    }
    let mut acc: u64 = 0;
    let mut i: usize = 0;
    while i < len
        invariant
            0 < len == s@.len(),
            i <= len,
            all_digits(s@.subrange(0, i as int)),
            acc == dec_value(s@.subrange(0, i as int)),
        decreases len - i,
    {
        let c = s.get_char(i);
        let d = digit_value(c);
        if d > 9 {
            assert(!is_digit(s@[i as int]));
            return None;
        }
        if acc > (u64::MAX - (d as u64)) / 10 {
            proof {
                let pre = s@.subrange(0, i as int);
                let ext = s@.subrange(0, i as int + 1);
                assert(ext.drop_last() =~= pre);
                assert(dec_value(ext) == dec_value(pre) * 10 + d);
                assert(dec_value(pre) >= (u64::MAX - (d as u64)) / 10 + 1);
                assert(dec_value(pre) * 10 >= ((u64::MAX - (d as u64)) / 10 + 1) * 10) by (nonlinear_arith)
                    requires dec_value(pre) >= (u64::MAX - (d as u64)) / 10 + 1,
                ;
                assert(((u64::MAX - (d as u64)) / 10) * 10 + (u64::MAX - (d as u64)) % 10 == u64::MAX - (d as u64)) by {
                    vstd::arithmetic::div_mod::lemma_fundamental_div_mod((u64::MAX - (d as u64)) as int, 10);
                }
                assert(dec_value(ext) > u64::MAX);
                lemma_dec_value_prefix(s@, i as int + 1);
                assert(dec_value(s@) > u64::MAX);
            }
            return None;
        }
        proof {
            let pre = s@.subrange(0, i as int);
            let ext = s@.subrange(0, i as int + 1);
            assert(ext.drop_last() =~= pre);
            assert(ext.last() == s@[i as int]);
            assert(acc <= (u64::MAX - (d as u64)) / 10);
            assert(acc * 10 <= ((u64::MAX - (d as u64)) / 10) * 10) by (nonlinear_arith)
                requires acc <= (u64::MAX - (d as u64)) / 10,
            ;
            assert(((u64::MAX - (d as u64)) / 10) * 10 <= u64::MAX - (d as u64)) by {
                vstd::arithmetic::div_mod::lemma_fundamental_div_mod((u64::MAX - (d as u64)) as int, 10);
            }
        }
        acc = acc * 10 + (d as u64);
        i = i + 1;
    }
    proof {
        assert(s@.subrange(0, len as int) =~= s@);
    }
    Some(acc)
}

/// Parses an optionally minus-signed decimal as an `i64`.
pub fn parse_i64(s: &str) -> (r: Option<i64>)
    ensures
        r == parse_i64_spec(s@),
{
    let len = s.unicode_len();
    if len >= 2 && s.get_char(0) == '-' {
        let mag = s.substring_char(1, len);
        proof {
            assert(mag@ =~= s@.subrange(1, s@.len() as int));
        }
        match parse_u64(mag) {
            Some(v) => {
                if v <= 9223372036854775808u64 {
                    if v == 9223372036854775808u64 {
                        Some(i64::MIN)
                    } else {
                        Some(-(v as i64))
                    }
                } else {
                    None
                }
            },
            None => {
                proof {
                    let m = s@.subrange(1, s@.len() as int);
                    if all_digits(m) && dec_value(m) <= 0x8000_0000_0000_0000 {
                        assert(parse_u64_spec(m) is Some);
                    }
                }
                None
            },
        }
    } else {
        match parse_u64(s) {
            Some(v) => {
                if v <= i64::MAX as u64 {
                    Some(v as i64)
                } else {
                    None
                }
            },
            None => None,
        }
    }
}

pub proof fn lemma_u64_text_round_trip(n: u64)
    ensures
        parse_u64_spec(dec_digits(n as nat)) == Some(n),
{
    lemma_dec_digits_round_trip(n as nat);
}

pub proof fn lemma_i64_text_round_trip(n: i64)
    ensures
        parse_i64_spec(dec_digits_signed(n as int)) == Some(n),
{
    if n >= 0 {
        lemma_dec_digits_round_trip(n as nat);
        let s = dec_digits_signed(n as int);
        assert(s[0] != '-') by {
            lemma_dec_digits_round_trip(n as nat);
            assert(is_digit(s[0]));
        }
    } else {
        let mag = (-(n as int)) as nat;
        lemma_dec_digits_round_trip(mag);
        let s = dec_digits_signed(n as int);
        assert(s.subrange(1, s.len() as int) =~= dec_digits(mag));
        assert(s[0] == '-');
        assert(parse_i64_spec(s) == Some(n));
    }
}

} // verus!
