//! Decimal text for the integer and boolean column values.
//!
//! `dec_digits_of` is the canonical decimal rendering of a non-negative
//! integer; `dec_val` reads a digit run back. The parsers accept an optional
//! sign (`+` for the unsigned types, `+` or `-` for the signed ones) followed
//! by at least one digit, and reject anything else or any value out of the
//! type's range.

use vstd::prelude::*;
use vstd::arithmetic::div_mod::lemma_fundamental_div_mod;
use crate::text::chars_to_string;

verus! {

pub open spec fn is_dec_digit(c: char) -> bool {
    '0' <= c && c <= '9'
}

pub open spec fn digit_val(c: char) -> int {
    c as int - '0' as int
}

pub open spec fn digit_char(d: int) -> char {
    if d == 0 {
        '0'
    } else if d == 1 {
        '1'
    } else if d == 2 {
        '2'
    } else if d == 3 {
        '3'
    } else if d == 4 {
        '4'
    } else if d == 5 {
        '5'
    } else if d == 6 {
        '6'
    } else if d == 7 {
        '7'
    } else if d == 8 {
        '8'
    } else {
        '9'
    }
}

pub open spec fn all_dec_digits(s: Seq<char>) -> bool {
    forall|i: int| 0 <= i < s.len() ==> is_dec_digit(#[trigger] s[i])
}

/// The number read from a run of digits, most significant first.
pub open spec fn dec_val(s: Seq<char>) -> int
    decreases s.len(),
{
    if s.len() == 0 {
        0
    } else {
        dec_val(s.drop_last()) * 10 + digit_val(s.last())
    }
}

/// The canonical decimal rendering of `n >= 0`: no sign, no leading zero.
pub open spec fn dec_digits_of(n: int) -> Seq<char>
    decreases n,
{
    if n < 10 {
        seq![digit_char(n)]
    } else {
        dec_digits_of(n / 10).push(digit_char(n % 10))
    }
}

/// A digit run that is the canonical rendering of its value: non-empty and
/// without a leading zero (except for `0` itself).
pub open spec fn canonical_dec(s: Seq<char>) -> bool {
    &&& all_dec_digits(s)
    &&& s.len() >= 1
    &&& (s.len() == 1 || s[0] != '0')
}

/// The rendering of a possibly negative integer: a `-` before the digits.
pub open spec fn int_text(v: int) -> Seq<char> {
    if v < 0 {
        seq!['-'] + dec_digits_of(-v)
    } else {
        dec_digits_of(v)
    }
}

pub open spec fn bool_text(b: bool) -> Seq<char> {
    if b {
        seq!['t', 'r', 'u', 'e']
    } else {
        seq!['f', 'a', 'l', 's', 'e']
    }
}

/// The value of an unsigned decimal text: an optional `+`, then digits.
pub open spec fn uint_text_val(s: Seq<char>) -> Option<int> {
    let ds = if s.len() >= 1 && s[0] == '+' {
        s.subrange(1, s.len() as int)
    } else {
        s
    };
    if ds.len() >= 1 && all_dec_digits(ds) {
        Some(dec_val(ds))
    } else {
        None
    }
}

/// The value of a signed decimal text: an optional `+` or `-`, then digits.
pub open spec fn sint_text_val(s: Seq<char>) -> Option<int> {
    if s.len() >= 1 && s[0] == '-' {
        let ds = s.subrange(1, s.len() as int);
        if ds.len() >= 1 && all_dec_digits(ds) {
            Some(-dec_val(ds))
        } else {
            None
        }
    } else {
        uint_text_val(s)
    }
}

pub open spec fn parse_u64_text(s: Seq<char>) -> Option<u64> {
    match uint_text_val(s) {
        Some(n) => if n <= u64::MAX {
            Some(n as u64)
        } else {
            None
        },
        None => None,
    }
}

pub open spec fn parse_u32_text(s: Seq<char>) -> Option<u32> {
    match uint_text_val(s) {
        Some(n) => if n <= u32::MAX {
            Some(n as u32)
        } else {
            None
        },
        None => None,
    }
}

pub open spec fn parse_i64_text(s: Seq<char>) -> Option<i64> {
    match sint_text_val(s) {
        Some(n) => if i64::MIN <= n <= i64::MAX {
            Some(n as i64)
        } else {
            None
        },
        None => None,
    }
}

pub open spec fn parse_i32_text(s: Seq<char>) -> Option<i32> {
    match sint_text_val(s) {
        Some(n) => if i32::MIN <= n <= i32::MAX {
            Some(n as i32)
        } else {
            None
        },
        None => None,
    }
}

pub proof fn lemma_dec_val_nonneg(s: Seq<char>)
    requires
        all_dec_digits(s),
    ensures
        dec_val(s) >= 0,
    decreases s.len(),
{
    if s.len() > 0 {
        assert(all_dec_digits(s.drop_last())) by {
            assert(forall|i: int|
                0 <= i < s.len() - 1 ==> s.drop_last()[i] == #[trigger] s[i]);
        }
        lemma_dec_val_nonneg(s.drop_last());
    }
}

/// A digit run whose first digit is not zero reads as at least one.
pub proof fn lemma_dec_val_ge_one(s: Seq<char>)
    requires
        all_dec_digits(s),
        s.len() >= 1,
        s[0] != '0',
    ensures
        dec_val(s) >= 1,
    decreases s.len(),
{
    assert(is_dec_digit(s[0]));
    if s.len() == 1 {
        assert(s.drop_last() =~= Seq::<char>::empty());
        assert(dec_val(s.drop_last()) == 0);
        assert(s.last() == s[0]);
        assert(digit_val(s[0]) >= 1);
    } else {
        assert(all_dec_digits(s.drop_last())) by {
            assert(forall|i: int|
                0 <= i < s.len() - 1 ==> s.drop_last()[i] == #[trigger] s[i]);
        }
        lemma_dec_val_ge_one(s.drop_last());
    }
}

/// A prefix of a digit run never reads as more than the whole run.
pub proof fn lemma_dec_val_prefix_le(s: Seq<char>, k: int)
    requires
        all_dec_digits(s),
        0 <= k <= s.len(),
    ensures
        dec_val(s.take(k)) <= dec_val(s),
    decreases s.len(),
{
    if k == s.len() {
        assert(s.take(k) =~= s);
    } else {
        let p = s.drop_last();
        assert(all_dec_digits(p)) by {
            assert(forall|i: int| 0 <= i < s.len() - 1 ==> p[i] == #[trigger] s[i]);
        }
        assert(s.take(k) =~= p.take(k));
        lemma_dec_val_prefix_le(p, k);
        lemma_dec_val_nonneg(p);
        assert(is_dec_digit(s.last()));
    }
}

/// The canonical rendering of `n` is canonical and reads back as `n`.
pub proof fn lemma_dec_digits_of_val(n: int)
    requires
        n >= 0,
    ensures
        canonical_dec(dec_digits_of(n)),
        dec_val(dec_digits_of(n)) == n,
    decreases n,
{
    if n < 10 {
        let s = dec_digits_of(n);
        assert(s =~= seq![digit_char(n)]);
        assert(s[0] == digit_char(n) && s.last() == digit_char(n));
        assert(is_dec_digit(digit_char(n)));
        assert(s.drop_last() =~= Seq::<char>::empty());
        assert(dec_val(s.drop_last()) == 0);
        assert(digit_val(digit_char(n)) == n);
        assert(all_dec_digits(s)) by {
            assert(forall|i: int| 0 <= i < s.len() ==> #[trigger] s[i] == digit_char(n));
        }
    } else {
        lemma_dec_digits_of_val(n / 10);
        let p = dec_digits_of(n / 10);
        let c = digit_char(n % 10);
        let s = p.push(c);
        assert(s.drop_last() =~= p);
        assert(s.last() == c);
        assert(digit_val(c) == n % 10);
        lemma_fundamental_div_mod(n, 10);
        assert(s[0] == p[0]);
        assert(all_dec_digits(s)) by {
            assert(forall|i: int| 0 <= i < p.len() ==> #[trigger] s[i] == p[i]);
            assert(s[s.len() - 1] == c && is_dec_digit(c));
        }
        assert(p[0] != '0') by {
            assert(n / 10 >= 1) by (nonlinear_arith)
                requires
                    n >= 10,
            ;
            if n / 10 < 10 {
                assert(p =~= seq![digit_char(n / 10)]);
                assert(p[0] == digit_char(n / 10));
            } else {
                assert(p == dec_digits_of(n / 10 / 10).push(digit_char(n / 10 % 10)));
                assert(p.len() >= 2);
            }
        }
    }
}

/// Reading a canonical digit run and rendering the value gives the run back.
pub proof fn lemma_dec_val_round_trip(s: Seq<char>)
    requires
        canonical_dec(s),
    ensures
        dec_val(s) >= 0,
        dec_digits_of(dec_val(s)) == s,
    decreases s.len(),
{
    lemma_dec_val_nonneg(s);
    if s.len() == 1 {
        assert(is_dec_digit(s[0]));
        assert(s.drop_last() =~= Seq::<char>::empty());
        assert(dec_val(s.drop_last()) == 0);
        assert(s.last() == s[0]);
        let n = dec_val(s);
        assert(n == digit_val(s[0]));
        assert(digit_char(digit_val(s[0])) == s[0]);
        assert(dec_digits_of(n) =~= s);
    } else {
        let p = s.drop_last();
        let d = digit_val(s.last());
        assert(all_dec_digits(p) && p[0] == s[0]) by {
            assert(forall|i: int| 0 <= i < s.len() - 1 ==> p[i] == #[trigger] s[i]);
        }
        assert(canonical_dec(p));
        lemma_dec_val_round_trip(p);
        lemma_dec_val_ge_one(p);
        let vp = dec_val(p);
        let n = dec_val(s);
        assert(n == vp * 10 + d);
        assert(is_dec_digit(s.last()));
        assert(n / 10 == vp && n % 10 == d) by {
            lemma_fundamental_div_mod(n, 10);
            assert(vp * 10 + d == 10 * vp + d) by (nonlinear_arith);
            vstd::arithmetic::div_mod::lemma_fundamental_div_mod_converse(n, 10, vp, d);
        }
        assert(n >= 10) by {
            assert(vp >= 1);
            assert(vp * 10 >= 10) by (nonlinear_arith)
                requires
                    vp >= 1,
            ;
        }
        assert(dec_digits_of(n) == dec_digits_of(vp).push(digit_char(d)));
        assert(digit_char(d) == s.last());
        assert(p.push(s.last()) =~= s);
    }
}

/// An unsigned decimal text never reads as a negative value.
pub proof fn lemma_uint_text_val_nonneg(s: Seq<char>)
    ensures
        uint_text_val(s) matches Some(n) ==> n >= 0,
{
    let ds = if s.len() >= 1 && s[0] == '+' {
        s.subrange(1, s.len() as int)
    } else {
        s
    };
    if ds.len() >= 1 && all_dec_digits(ds) {
        lemma_dec_val_nonneg(ds);
    }
}

/// Which digit a character is, if any.
pub fn char_digit(c: char) -> (r: Option<u8>)
    ensures
        r is Some <==> is_dec_digit(c),
        r matches Some(d) ==> d < 10 && d as int == digit_val(c),
{
    match c {
        '0' => Some(0),
        '1' => Some(1),
        '2' => Some(2),
        '3' => Some(3),
        '4' => Some(4),
        '5' => Some(5),
        '6' => Some(6),
        '7' => Some(7),
        '8' => Some(8),
        '9' => Some(9),
        _ => None,
    }
}

pub fn digit_to_char(d: u8) -> (c: char)
    requires
        d < 10,
    ensures
        c == digit_char(d as int),
{
    match d {
        0 => '0',
        1 => '1',
        2 => '2',
        3 => '3',
        4 => '4',
        5 => '5',
        6 => '6',
        7 => '7',
        8 => '8',
        _ => '9',
    }
}

/// Read the digit run `s[start..]` as a `u64`; `None` when it is empty, holds
/// a non-digit, or overflows.
pub fn parse_dec_u64(s: &[char], start: usize) -> (r: Option<u64>)
    requires
        start <= s@.len(),
    ensures
        ({
            let ds = s@.subrange(start as int, s@.len() as int);
            match r {
                Some(v) => ds.len() >= 1 && all_dec_digits(ds) && v as int == dec_val(ds),
                None => !(ds.len() >= 1 && all_dec_digits(ds) && dec_val(ds) <= u64::MAX),
            }
        }),
{
    let ghost ds = s@.subrange(start as int, s@.len() as int);
    let n: usize = s.len();
    if start == n {
        return None;
    }
    let mut acc: u64 = 0;
    let mut i: usize = start;
    while i < n
        invariant
            start <= i <= n,
            n == s@.len(),
            ds == s@.subrange(start as int, n as int),
            all_dec_digits(s@.subrange(start as int, i as int)),
            acc as int == dec_val(s@.subrange(start as int, i as int)),
        decreases n - i,
    {
        let ghost pre = s@.subrange(start as int, i as int);
        let ghost cur = s@.subrange(start as int, i as int + 1);
        proof {
            assert(cur.drop_last() =~= pre);
            assert(cur.last() == s@[i as int]);
        }
        match char_digit(s[i]) {
            None => {
                proof {
                    assert(ds[i - start] == s@[i as int]);
                    assert(!all_dec_digits(ds));
                }
                return None;
            },
            Some(d) => {
                proof {
                    assert(all_dec_digits(cur)) by {
                        assert(forall|k: int|
                            0 <= k < pre.len() ==> cur[k] == #[trigger] pre[k]);
                    }
                }
                let m = match acc.checked_mul(10) {
                    Some(m) => m,
                    None => {
                        proof {
                            lemma_overflow_means_too_big(s@, start as int, i as int, acc as int, d as int);
                        }
                        return None;
                    },
                };
                let a = match m.checked_add(d as u64) {
                    Some(a) => a,
                    None => {
                        proof {
                            lemma_overflow_means_too_big(s@, start as int, i as int, acc as int, d as int);
                        }
                        return None;
                    },
                };
                acc = a;
                i = i + 1;
            },
        }
    }
    proof {
        assert(s@.subrange(start as int, i as int) =~= ds);
    }
    Some(acc)
}

/// When the accumulated value would pass `u64::MAX`, the whole digit run is
/// out of range.
proof fn lemma_overflow_means_too_big(s: Seq<char>, start: int, i: int, acc: int, d: int)
    requires
        0 <= start <= i < s.len(),
        all_dec_digits(s.subrange(start, i)),
        acc == dec_val(s.subrange(start, i)),
        is_dec_digit(s[i]),
        d == digit_val(s[i]),
        acc * 10 + d > u64::MAX,
    ensures
        all_dec_digits(s.subrange(start, s.len() as int)) ==> dec_val(
            s.subrange(start, s.len() as int),
        ) > u64::MAX,
{
    let ds = s.subrange(start, s.len() as int);
    if all_dec_digits(ds) {
        let cur = s.subrange(start, i + 1);
        assert(cur.drop_last() =~= s.subrange(start, i));
        assert(cur.last() == s[i]);
        assert(dec_val(cur) == acc * 10 + d);
        assert(cur =~= ds.take(i + 1 - start));
        lemma_dec_val_prefix_le(ds, i + 1 - start);
    }
}

pub fn parse_u64_chars(s: &[char]) -> (r: Option<u64>)
    ensures
        r == parse_u64_text(s@),
{
    let start: usize = if s.len() >= 1 && s[0] == '+' {
        1
    } else {
        0
    };
    proof {
        if !(s@.len() >= 1 && s@[0] == '+') {
            assert(s@.subrange(0, s@.len() as int) =~= s@);
        }
    }
    parse_dec_u64(s, start)
}

pub fn parse_u32_chars(s: &[char]) -> (r: Option<u32>)
    ensures
        r == parse_u32_text(s@),
{
    proof {
        lemma_uint_text_val_nonneg(s@);
    }
    match parse_u64_chars(s) {
        Some(v) => if v <= u32::MAX as u64 {
            Some(v as u32)
        } else {
            None
        },
        None => None,
    }
}

pub fn parse_i64_chars(s: &[char]) -> (r: Option<i64>)
    ensures
        r == parse_i64_text(s@),
{
    proof {
        lemma_uint_text_val_nonneg(s@);
    }
    if s.len() >= 1 && s[0] == '-' {
        match parse_dec_u64(s, 1) {
            Some(m) => {
                if m <= 9223372036854775808u64 {
                    if m == 9223372036854775808u64 {
                        Some(i64::MIN)
                    } else {
                        Some(-(m as i64))
                    }
                } else {
                    None
                }
            },
            None => None,
        }
    } else {
        match parse_u64_chars(s) {
            Some(v) => if v <= i64::MAX as u64 {
                Some(v as i64)
            } else {
                None
            },
            None => None,
        }
    }
}

pub fn parse_i32_chars(s: &[char]) -> (r: Option<i32>)
    ensures
        r == parse_i32_text(s@),
{
    proof {
        lemma_uint_text_val_nonneg(s@);
    }
    if s.len() >= 1 && s[0] == '-' {
        match parse_dec_u64(s, 1) {
            Some(m) => {
                if m <= 2147483648u64 {
                    if m == 2147483648u64 {
                        Some(i32::MIN)
                    } else {
                        Some(-(m as i32))
                    }
                } else {
                    None
                }
            },
            None => None,
        }
    } else {
        match parse_u64_chars(s) {
            Some(v) => if v <= i32::MAX as u64 {
                Some(v as i32)
            } else {
                None
            },
            None => None,
        }
    }
}

/// Append the canonical decimal rendering of `n` to `out`.
pub fn push_dec_digits(n: u64, out: &mut Vec<char>)
    ensures
        final(out)@ == old(out)@ + dec_digits_of(n as int),
    decreases n,
{
    if n >= 10 {
        push_dec_digits(n / 10, out);
        out.push(digit_to_char((n % 10) as u8));
        assert(out@ =~= old(out)@ + dec_digits_of(n as int));
    } else {
        out.push(digit_to_char(n as u8));
        assert(out@ =~= old(out)@ + dec_digits_of(n as int));
    }
}

pub fn u64_dec_string(n: u64) -> (r: String)
    ensures
        r@ == dec_digits_of(n as int),
{
    let mut v: Vec<char> = Vec::new();
    push_dec_digits(n, &mut v);
    assert(v@ =~= dec_digits_of(n as int));
    chars_to_string(v.as_slice())
}

pub fn i64_dec_string(n: i64) -> (r: String)
    ensures
        r@ == int_text(n as int),
{
    if n >= 0 {
        u64_dec_string(n as u64)
    } else {
        let mag: u64 = if n == i64::MIN {
            9223372036854775808u64
        } else {
            (-n) as u64
        };
        assert(mag as int == -(n as int));
        let mut v: Vec<char> = Vec::new();
        v.push('-');
        push_dec_digits(mag, &mut v);
        assert(v@ =~= int_text(n as int));
        chars_to_string(v.as_slice())
    }
}

pub fn i32_dec_string(n: i32) -> (r: String)
    ensures
        r@ == int_text(n as int),
{
    i64_dec_string(n as i64)
}

pub fn bool_string(b: bool) -> (r: String)
    ensures
        r@ == bool_text(b),
{
    let mut v: Vec<char> = Vec::new();
    if b {
        v.push('t');
        v.push('r');
        v.push('u');
        v.push('e');
    } else {
        v.push('f');
        v.push('a');
        v.push('l');
        v.push('s');
        v.push('e');
    }
    assert(v@ =~= bool_text(b));
    chars_to_string(v.as_slice())
}

/// Whether `s` is exactly the text `true` or exactly `false`.
pub fn match_bool_chars(s: &[char]) -> (r: Option<bool>)
    ensures
        s@ == bool_text(true) ==> r == Some(true),
        s@ == bool_text(false) ==> r == Some(false),
        r matches Some(b) ==> s@ == bool_text(b),
{
    if s.len() == 4 && s[0] == 't' && s[1] == 'r' && s[2] == 'u' && s[3] == 'e' {
        proof {
            assert(s@ =~= bool_text(true));
        }
        Some(true)
    } else if s.len() == 5 && s[0] == 'f' && s[1] == 'a' && s[2] == 'l' && s[3] == 's' && s[4]
        == 'e' {
        proof {
            assert(s@ =~= bool_text(false));
        }
        Some(false)
    } else {
        None
    }
}

} // verus!
