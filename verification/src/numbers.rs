//! Decimal integers in text: reading them the way `str::parse` does for the
//! integer types, and writing them the way `Display` does.
use vstd::prelude::*;
use crate::text::{is_digit, digit_char};

verus! {

pub open spec fn digit_value(c: char) -> int {
    c as int - '0' as int
}

pub open spec fn all_digits(s: Seq<char>) -> bool {
    forall|i: int| 0 <= i < s.len() ==> is_digit(#[trigger] s[i])
}

/// The number a run of decimal digits denotes.
pub open spec fn digits_value(s: Seq<char>) -> int
    decreases s.len(),
{
    if s.len() == 0 {
        0
    } else {
        digits_value(s.drop_last()) * 10 + digit_value(s.last())
    }
}

/// The magnitude of an unsigned decimal: at least one digit and nothing else.
pub open spec fn unsigned_decimal(d: Seq<char>) -> Option<int> {
    if d.len() > 0 && all_digits(d) {
        Some(digits_value(d))
    } else {
        None
    }
}

/// What `FromStr` for an integer type reads before its range check: an
/// optional `+` (or `-`, for a signed type) followed by at least one ASCII digit.
pub open spec fn decimal(s: Seq<char>, signed: bool) -> Option<int> {
    if s.len() > 0 && s[0] == '+' {
        unsigned_decimal(s.drop_first())
    } else if s.len() > 0 && s[0] == '-' {
        if signed {
            match unsigned_decimal(s.drop_first()) {
                Some(v) => Some(-v),
                None => None,
            }
        } else {
            None
        }
    } else {
        unsigned_decimal(s)
    }
}

/// `str::parse::<i64>`.
pub open spec fn parse_i64_spec(s: Seq<char>) -> Option<i64> {
    match decimal(s, true) {
        Some(v) => if i64::MIN <= v <= i64::MAX { Some(v as i64) } else { None },
        None => None,
    }
}

/// `str::parse::<i32>`.
pub open spec fn parse_i32_spec(s: Seq<char>) -> Option<i32> {
    match decimal(s, true) {
        Some(v) => if i32::MIN <= v <= i32::MAX { Some(v as i32) } else { None },
        None => None,
    }
}

/// `str::parse::<u16>`.
pub open spec fn parse_u16_spec(s: Seq<char>) -> Option<u16> {
    match decimal(s, false) {
        Some(v) => if v <= u16::MAX { Some(v as u16) } else { None },
        None => None,
    }
}

/// `str::parse::<u32>`.
pub open spec fn parse_u32_spec(s: Seq<char>) -> Option<u32> {
    match decimal(s, false) {
        Some(v) => if v <= u32::MAX { Some(v as u32) } else { None },
        None => None,
    }
}

/// `str::parse::<u64>`.
pub open spec fn parse_u64_spec(s: Seq<char>) -> Option<u64> {
    match decimal(s, false) {
        Some(v) => if v <= u64::MAX { Some(v as u64) } else { None },
        None => None,
    }
}

pub proof fn lemma_digits_nonneg(s: Seq<char>)
    requires
        all_digits(s),
    ensures
        digits_value(s) >= 0,
    decreases s.len(),
{
    if s.len() > 0 {
        assert(is_digit(s[s.len() - 1]));
        lemma_digits_nonneg(s.drop_last());
    }
}

/// A longer run of digits is worth at least as much as its prefix.
pub proof fn lemma_digits_prefix(s: Seq<char>, i: int)
    requires
        all_digits(s),
        0 <= i <= s.len(),
    ensures
        digits_value(s.take(i)) <= digits_value(s),
    decreases s.len() - i,
{
    if i < s.len() {
        let t = s.drop_last();
        assert(t.take(i) =~= s.take(i));
        lemma_digits_prefix(t, i);
        assert(is_digit(s[s.len() - 1]));
        lemma_digits_nonneg(t);
    } else {
        assert(s.take(i) =~= s);
    }
}

/// The value of the digit run `d`, when it is one and does not exceed `limit`.
pub fn magnitude(d: &[char], limit: u64) -> (r: Option<u64>)
    requires
        limit >= 9,
    ensures
        match r {
            Some(m) => d@.len() > 0 && all_digits(d@) && digits_value(d@) == m as int && m <= limit,
            None => !(d@.len() > 0 && all_digits(d@) && digits_value(d@) <= limit),
        },
{
    if d.len() == 0 {
        return None;
    }
    let mut v: u64 = 0;
    let mut i: usize = 0;
    while i < d.len()
        invariant
            i <= d@.len(),
            all_digits(d@.take(i as int)),
            v == digits_value(d@.take(i as int)),
            v <= limit,
            limit >= 9,
        decreases d.len() - i,
    {
        let c = d[i];
        assert(d@.take(i + 1).drop_last() =~= d@.take(i as int));
        if !digit_char(c) {
            assert(!is_digit(d@[i as int]));
            return None;
        }
        let k: u64 = (c as u32 - '0' as u32) as u64;
        assert(k as int == digit_value(d@[i as int]));
        assert(k <= 9);
        if v > (limit - k) / 10 {
            proof {
                assert(v * 10 + k > limit) by (nonlinear_arith)
                    requires
                        v > (limit - k) / 10,
                        k <= limit,
                ;
                if all_digits(d@) {
                    lemma_digits_prefix(d@, i + 1);
                }
                assert(all_digits(d@.take(i + 1)));
            }
            return None;
        }
        proof {
            assert(v * 10 + k <= limit) by (nonlinear_arith)
                requires
                    v <= (limit - k) / 10,
                    k <= limit,
            ;
        }
        v = v * 10 + k;
        i += 1;
    }
    assert(d@.take(d@.len() as int) =~= d@);
    Some(v)
}

pub open spec fn signed_value(p: (bool, u64)) -> int {
    if p.0 {
        -(p.1 as int)
    } else {
        p.1 as int
    }
}

pub open spec fn within(v: int, limit_pos: u64, limit_neg: u64) -> bool {
    (v >= 0 && v <= limit_pos) || (v < 0 && -v <= limit_neg)
}

/// Reads a signed or unsigned decimal the way `str::parse` does, as a sign and
/// a magnitude, when the magnitude stays within the limit for its sign.
pub fn parse_decimal(s: &[char], signed: bool, limit_pos: u64, limit_neg: u64) -> (r: Option<(bool, u64)>)
    requires
        limit_pos >= 9,
        limit_neg >= 9,
    ensures
        match r {
            Some(p) => decimal(s@, signed) == Some(signed_value(p)) && within(
                signed_value(p),
                limit_pos,
                limit_neg,
            ),
            None => !(decimal(s@, signed) matches Some(v) && within(v, limit_pos, limit_neg)),
        },
{
    if s.len() > 0 && s[0] == '+' {
        let d = crate::words::slice_vec(s, 1, s.len());
        assert(d@ =~= s@.drop_first());
        match magnitude(d.as_slice(), limit_pos) {
            Some(m) => {
                assert(decimal(s@, signed) == unsigned_decimal(d@));
                Some((false, m))
            },
            None => {
                proof {
                    if d@.len() > 0 && all_digits(d@) {
                        lemma_digits_nonneg(d@);
                    }
                }
                None
            },
        }
    } else if s.len() > 0 && s[0] == '-' {
        if !signed {
            return None;
        }
        let d = crate::words::slice_vec(s, 1, s.len());
        assert(d@ =~= s@.drop_first());
        match magnitude(d.as_slice(), limit_neg) {
            Some(m) => {
                assert(s@[0] == '-');
                assert(s@[0] != '+');
                assert(unsigned_decimal(d@) == Some(m as int));
                assert(unsigned_decimal(s@.drop_first()) == Some(m as int));
                assert(decimal(s@, signed) == Some(-(m as int)));
                if m == 0 {
                    Some((false, 0))
                } else {
                    Some((true, m))
                }
            },
            None => {
                proof {
                    if d@.len() > 0 && all_digits(d@) {
                        lemma_digits_nonneg(d@);
                    }
                }
                None
            },
        }
    } else {
        match magnitude(s, limit_pos) {
            Some(m) => Some((false, m)),
            None => {
                proof {
                    if s@.len() > 0 && all_digits(s@) {
                        lemma_digits_nonneg(s@);
                    }
                }
                None
            },
        }
    }
}

/// `str::parse::<i32>`.
pub fn parse_i32(s: &[char]) -> (r: Option<i32>)
    ensures
        r == parse_i32_spec(s@),
{
    match parse_decimal(s, true, 2147483647, 2147483648) {
        Some((neg, m)) => {
            if neg {
                assert(m <= 2147483648);
                Some((-(m as i64)) as i32)
            } else {
                Some(m as i32)
            }
        },
        None => None,
    }
}

/// `str::parse::<i64>`.
pub fn parse_i64(s: &[char]) -> (r: Option<i64>)
    ensures
        r == parse_i64_spec(s@),
{
    match parse_decimal(s, true, 9223372036854775807, 9223372036854775808) {
        Some((neg, m)) => {
            if neg {
                if m == 9223372036854775808 {
                    Some(i64::MIN)
                } else {
                    Some(-(m as i64))
                }
            } else {
                Some(m as i64)
            }
        },
        None => None,
    }
}

pub proof fn lemma_unsigned_nonneg(s: Seq<char>)
    ensures
        decimal(s, false) matches Some(v) ==> v >= 0,
{
    if s.len() > 0 && s[0] == '+' {
        if s.drop_first().len() > 0 && all_digits(s.drop_first()) {
            lemma_digits_nonneg(s.drop_first());
        }
    } else if s.len() > 0 && all_digits(s) {
        lemma_digits_nonneg(s);
    }
}

/// `str::parse::<u16>`.
pub fn parse_u16(s: &[char]) -> (r: Option<u16>)
    ensures
        r == parse_u16_spec(s@),
{
    proof {
        lemma_unsigned_nonneg(s@);
    }
    match parse_decimal(s, false, 65535, 9) {
        Some((_, m)) => Some(m as u16),
        None => None,
    }
}

/// `str::parse::<u32>`.
pub fn parse_u32(s: &[char]) -> (r: Option<u32>)
    ensures
        r == parse_u32_spec(s@),
{
    proof {
        lemma_unsigned_nonneg(s@);
    }
    match parse_decimal(s, false, 4294967295, 9) {
        Some((_, m)) => Some(m as u32),
        None => None,
    }
}

/// `str::parse::<u64>`.
pub fn parse_u64(s: &[char]) -> (r: Option<u64>)
    ensures
        r == parse_u64_spec(s@),
{
    proof {
        lemma_unsigned_nonneg(s@);
    }
    match parse_decimal(s, false, 18446744073709551615, 9) {
        Some((_, m)) => Some(m),
        None => None,
    }
}

// ---------------------------------------------------------------- writing

/// The ASCII digit for a value below ten.
pub open spec fn digit_of(d: int) -> char {
    if d == 0 {
        '0'
    } else if d == 1 {
        '1'
    } else if d == 2 {
        '2'
    } else if d == 3 {
        '3'
    } else if d == 4 {
        '4'
    } else if d == 5 {
        '5'
    } else if d == 6 {
        '6'
    } else if d == 7 {
        '7'
    } else if d == 8 {
        '8'
    } else {
        '9'
    }
}

/// How `Display` writes a natural number.
pub open spec fn nat_text(n: nat) -> Seq<char>
    decreases n,
{
    if n < 10 {
        seq![digit_of(n as int)]
    } else {
        nat_text(n / 10).push(digit_of((n % 10) as int))
    }
}

/// How `Display` writes an integer.
pub open spec fn int_text(n: int) -> Seq<char> {
    if n < 0 {
        seq!['-'] + nat_text((-n) as nat)
    } else {
        nat_text(n as nat)
    }
}

fn digit_exec(d: u64) -> (c: char)
    requires
        d < 10,
    ensures
        c == digit_of(d as int),
{
    if d == 0 {
        '0'
    } else if d == 1 {
        '1'
    } else if d == 2 {
        '2'
    } else if d == 3 {
        '3'
    } else if d == 4 {
        '4'
    } else if d == 5 {
        '5'
    } else if d == 6 {
        '6'
    } else if d == 7 {
        '7'
    } else if d == 8 {
        '8'
    } else {
        '9'
    }
}

/// Appends the decimal text of `n`.
pub fn push_nat(v: &mut Vec<char>, n: u64)
    ensures
        final(v)@ == old(v)@ + nat_text(n as nat),
    decreases n,
{
    if n >= 10 {
        push_nat(v, n / 10);
    }
    let c = digit_exec(n % 10);
    v.push(c);
    proof {
        if n >= 10 {
            assert(nat_text(n as nat) == nat_text((n / 10) as nat).push(digit_of((n % 10) as int)));
        }
    }
    assert(final(v)@ =~= old(v)@ + nat_text(n as nat));
}

/// Appends the decimal text of `n`, with a minus sign when it is negative.
pub fn push_int(v: &mut Vec<char>, n: i64)
    ensures
        final(v)@ == old(v)@ + int_text(n as int),
{
    if n < 0 {
        v.push('-');
        let m: u64 = if n == i64::MIN {
            9223372036854775808u64
        } else {
            (-n) as u64
        };
        push_nat(v, m);
        assert(final(v)@ =~= old(v)@ + int_text(n as int));
    } else {
        push_nat(v, n as u64);
    }
}

/// How `{:o}` writes a natural number: in octal, without a prefix.
pub open spec fn oct_text(n: nat) -> Seq<char>
    decreases n,
{
    if n < 8 {
        seq![digit_of(n as int)]
    } else {
        oct_text(n / 8).push(digit_of((n % 8) as int))
    }
}

/// Appends the octal text of `n`.
pub fn push_oct(v: &mut Vec<char>, n: u64)
    ensures
        final(v)@ == old(v)@ + oct_text(n as nat),
    decreases n,
{
    if n >= 8 {
        push_oct(v, n / 8);
    }
    let c = digit_exec(n % 8);
    v.push(c);
    proof {
        if n >= 8 {
            assert(oct_text(n as nat) == oct_text((n / 8) as nat).push(digit_of((n % 8) as int)));
        }
    }
    assert(final(v)@ =~= old(v)@ + oct_text(n as nat));
}

/// The decimal text of a natural number.
pub fn nat_chars(n: u64) -> (r: Vec<char>)
    ensures
        r@ == nat_text(n as nat),
{
    let mut v = Vec::new();
    push_nat(&mut v, n);
    assert(v@ =~= nat_text(n as nat));
    v
}

/// The decimal text of an integer.
pub fn int_chars(n: i64) -> (r: Vec<char>)
    ensures
        r@ == int_text(n as int),
{
    let mut v = Vec::new();
    push_int(&mut v, n);
    assert(v@ =~= int_text(n as int));
    v
}

pub proof fn lemma_digit_of(d: int)
    requires
        0 <= d < 10,
    ensures
        is_digit(digit_of(d)),
        digit_value(digit_of(d)) == d,
{
}

/// The text `Display` writes for a natural number is all digits, never empty,
/// and reads back as that number.
pub proof fn lemma_nat_text(n: nat)
    ensures
        nat_text(n).len() >= 1,
        all_digits(nat_text(n)),
        digits_value(nat_text(n)) == n,
    decreases n,
{
    if n < 10 {
        lemma_digit_of(n as int);
        let t = seq![digit_of(n as int)];
        assert(t.drop_last() =~= Seq::<char>::empty());
        assert(digits_value(t) == digits_value(t.drop_last()) * 10 + digit_value(t.last()));
        assert(digits_value(Seq::<char>::empty()) == 0);
    } else {
        lemma_nat_text(n / 10);
        lemma_digit_of((n % 10) as int);
        let t = nat_text(n / 10).push(digit_of((n % 10) as int));
        assert(t == nat_text(n));
        assert(t.drop_last() =~= nat_text(n / 10));
        assert(t.last() == digit_of((n % 10) as int));
        assert(digits_value(t) == digits_value(nat_text(n / 10)) * 10 + (n % 10));
        assert(all_digits(t)) by {
            assert forall|i: int| 0 <= i < t.len() implies is_digit(#[trigger] t[i]) by {
                if i < t.len() - 1 {
                    assert(t[i] == nat_text(n / 10)[i]);
                }
            }
        }
    }
}

/// Reading back what `Display` wrote gives the same integer.
pub proof fn lemma_int_text_parses(n: int)
    ensures
        decimal(int_text(n), true) == Some(n),
{
    if n < 0 {
        lemma_nat_text((-n) as nat);
        let t = int_text(n);
        assert(t.drop_first() =~= nat_text((-n) as nat));
        assert(t[0] == '-');
    } else {
        lemma_nat_text(n as nat);
        let t = nat_text(n as nat);
        assert(is_digit(t[0]));
    }
}

/// Reading back what `Display` wrote for a natural number gives that number.
pub proof fn lemma_nat_text_parses(n: nat)
    ensures
        decimal(nat_text(n), false) == Some(n as int),
{
    lemma_nat_text(n);
    assert(is_digit(nat_text(n)[0]));
}

} // verus!
