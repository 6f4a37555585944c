//! Decimal text of integers, and the integer and float grammars of `str::parse`.
use vstd::prelude::*;
use crate::text::{ascii_digit, digit_char, digit_value, is_digit, lower, lowercase, slice_chars};

verus! {

/// The decimal digits of a natural number, most significant first, without leading zeros.
pub open spec fn decimal(n: nat) -> Seq<char>
    decreases n,
{
    if n < 10 {
        seq![digit_char(n)]
    } else {
        decimal(n / 10).push(digit_char(n % 10))
    }
}

/// The decimal text of a signed integer, with a leading `-` when negative.
pub open spec fn signed_decimal(n: int) -> Seq<char> {
    if n < 0 {
        seq!['-'] + decimal((-n) as nat)
    } else {
        decimal(n as nat)
    }
}

/// Every character is an ASCII digit.
pub open spec fn all_digits(s: Seq<char>) -> bool {
    forall|i: int| 0 <= i < s.len() ==> is_digit(#[trigger] s[i])
}

/// The value of a run of decimal digits.
pub open spec fn digits_value(s: Seq<char>) -> nat
    decreases s.len(),
{
    if s.len() == 0 {
        0
    } else {
        digits_value(s.drop_last()) * 10 + digit_value(s.last())
    }
}

pub proof fn lemma_decimal_digits(n: nat)
    ensures
        decimal(n).len() >= 1,
        all_digits(decimal(n)),
        digits_value(decimal(n)) == n,
        n > 0 ==> decimal(n)[0] != '0',
    decreases n,
{
    lemma_digit_char_value(n % 10);
    if n >= 10 {
        lemma_decimal_digits(n / 10);
        assert(decimal(n).drop_last() =~= decimal(n / 10));
        assert(decimal(n).last() == digit_char(n % 10));
        assert(digits_value(decimal(n)) == digits_value(decimal(n / 10)) * 10 + n % 10);
        assert((n / 10) * 10 + n % 10 == n);
    } else {
        assert(decimal(n).drop_last() =~= Seq::<char>::empty());
        assert(digits_value(Seq::<char>::empty()) == 0);
    }
}

pub proof fn lemma_digit_char_value(d: nat)
    requires
        d < 10,
    ensures
        digit_value(digit_char(d)) == d,
        is_digit(digit_char(d)),
        d > 0 ==> digit_char(d) != '0',
{
}

fn digit_of(d: u64) -> (c: char)
    requires
        d < 10,
    ensures
        c == digit_char(d as nat),
{
    let b: u8 = (d as u8) + 48;
    let c = b as char;
    assert(c as u32 == d + 48);
    c
}

/// The decimal digits of `n` (`u64::to_string`).
pub fn decimal_chars(n: u64) -> (r: Vec<char>)
    ensures
        r@ == decimal(n as nat),
{
    let mut m = n;
    let mut acc: Vec<char> = Vec::new();
    loop
        invariant_except_break
            decimal(n as nat) == decimal(m as nat) + acc@,
        ensures
            decimal(n as nat) == acc@,
        decreases m,
    {
        if m < 10 {
            let ghost before = acc@;
            acc.insert(0, digit_of(m));
            assert(decimal(m as nat) + before =~= acc@);
            break;
        }
        let d = digit_of(m % 10);
        let ghost before = acc@;
        acc.insert(0, d);
        assert(decimal(m as nat) + before =~= decimal((m / 10) as nat) + acc@);
        m = m / 10;
    }
    acc
}

/// The decimal text of a signed integer (`i64::to_string`).
pub fn signed_decimal_chars(n: i64) -> (r: Vec<char>)
    ensures
        r@ == signed_decimal(n as int),
{
    if n < 0 {
        let magnitude: u64 = if n == i64::MIN {
            9223372036854775808u64
        } else {
            (-n) as u64
        };
        let digits = decimal_chars(magnitude);
        let mut r: Vec<char> = Vec::new();
        r.push('-');
        for i in 0..digits.len()
            invariant
                r@ == seq!['-'] + digits@.take(i as int),
        {
            r.push(digits[i]);
            assert(seq!['-'] + digits@.take(i + 1) =~= (seq!['-'] + digits@.take(i as int)).push(
                digits@[i as int],
            ));
        }
        assert(digits@.take(digits.len() as int) =~= digits@);
        r
    } else {
        decimal_chars(n as u64)
    }
}

pub proof fn lemma_digits_value_monotone(s: Seq<char>, i: int)
    requires
        0 <= i <= s.len(),
        all_digits(s),
    ensures
        digits_value(s.take(i)) <= digits_value(s),
    decreases s.len() - i,
{
    if i < s.len() {
        lemma_digits_value_monotone(s, i + 1);
        assert(s.take(i + 1).drop_last() =~= s.take(i));
    } else {
        assert(s.take(i) =~= s);
    }
}

/// The value of a non-empty run of digits, when it is at most `max`.
pub open spec fn digits_within(s: Seq<char>, max: nat) -> Option<nat> {
    if s.len() > 0 && all_digits(s) && digits_value(s) <= max {
        Some(digits_value(s))
    } else {
        None
    }
}

/// The value of `v` read as decimal digits, if all are digits, there is at least one,
/// and the value is at most `max`.
pub fn parse_digits(v: &Vec<char>, max: u64) -> (r: Option<u64>)
    ensures
        r matches Some(x) ==> digits_within(v@, max as nat) == Some(x as nat),
        r is None ==> digits_within(v@, max as nat) is None,
{
    if v.len() == 0 {
        return None;
    }
    let mut acc: u128 = 0;
    let mut i: usize = 0;
    while i < v.len()
        invariant
            i <= v.len(),
            all_digits(v@.take(i as int)),
            acc == digits_value(v@.take(i as int)),
            acc <= max,
        decreases v.len() - i,
    {
        let c = v[i];
        assert(v@.take(i + 1).drop_last() =~= v@.take(i as int));
        if !ascii_digit(c) {
            return None;
        }
        let d: u32 = (c as u32) - 48;
        acc = acc * 10 + (d as u128);
        assert(all_digits(v@.take(i + 1)));
        if acc > max as u128 {
            proof {
                if all_digits(v@) {
                    lemma_digits_value_monotone(v@, i + 1);
                }
            }
            return None;
        }
        i = i + 1;
    }
    assert(v@.take(v.len() as int) =~= v@);
    Some(acc as u64)
}

/// `str::parse::<u64>` (and the other unsigned types, with their maximum): an optional `+`,
/// then one or more digits, of value at most `max`.
pub open spec fn parse_unsigned(s: Seq<char>, max: nat) -> Option<nat> {
    if s.len() > 0 && s[0] == '+' {
        digits_within(s.drop_first(), max)
    } else {
        digits_within(s, max)
    }
}

/// `str::parse::<i64>`: an optional sign, then one or more digits, within `i64`'s range.
pub open spec fn parse_signed(s: Seq<char>) -> Option<int> {
    if s.len() > 0 && s[0] == '-' {
        match digits_within(s.drop_first(), 0x8000_0000_0000_0000) {
            Some(v) => Some(-v),
            None => None,
        }
    } else {
        match parse_unsigned(s, 0x7fff_ffff_ffff_ffff) {
            Some(v) => Some(v as int),
            None => None,
        }
    }
}

pub fn parse_u64(v: &Vec<char>) -> (r: Option<u64>)
    ensures
        r matches Some(x) ==> parse_unsigned(v@, u64::MAX as nat) == Some(x as nat),
        r is None ==> parse_unsigned(v@, u64::MAX as nat) is None,
{
    if v.len() > 0 && v[0] == '+' {
        let rest = slice_chars(v, 1, v.len());
        assert(rest@ =~= v@.drop_first());
        parse_digits(&rest, u64::MAX)
    } else {
        parse_digits(v, u64::MAX)
    }
}

pub fn parse_i64(v: &Vec<char>) -> (r: Option<i64>)
    ensures
        r matches Some(x) ==> parse_signed(v@) == Some(x as int),
        r is None ==> parse_signed(v@) is None,
{
    if v.len() > 0 && v[0] == '-' {
        let rest = slice_chars(v, 1, v.len());
        assert(rest@ =~= v@.drop_first());
        match parse_digits(&rest, 0x8000_0000_0000_0000u64) {
            Some(m) => {
                if m == 0x8000_0000_0000_0000u64 {
                    Some(i64::MIN)
                } else {
                    Some(-(m as i64))
                }
            },
            None => None,
        }
    } else {
        let rest = if v.len() > 0 && v[0] == '+' {
            slice_chars(v, 1, v.len())
        } else {
            slice_chars(v, 0, v.len())
        };
        assert(v.len() > 0 && v@[0] == '+' ==> rest@ =~= v@.drop_first());
        assert(!(v.len() > 0 && v@[0] == '+') ==> rest@ =~= v@);
        match parse_digits(&rest, 0x7fff_ffff_ffff_ffffu64) {
            Some(m) => Some(m as i64),
            None => None,
        }
    }
}


/// The sequence with one leading `+` or `-` removed, if it has one.
pub open spec fn unsign(s: Seq<char>) -> Seq<char> {
    if s.len() > 0 && (s[0] == '+' || s[0] == '-') {
        s.drop_first()
    } else {
        s
    }
}

/// `Digit+ | Digit+ '.' Digit* | Digit* '.' Digit+`.
pub open spec fn is_mantissa(m: Seq<char>) -> bool {
    ||| m.len() > 0 && all_digits(m)
    ||| exists|k: int|
        #![trigger m[k]]
        0 <= k < m.len() && m[k] == '.' && all_digits(m.take(k)) && all_digits(m.skip(k + 1))
            && m.len() >= 2
}

/// `Sign? Digit+`.
pub open spec fn is_exponent(x: Seq<char>) -> bool {
    unsign(x).len() > 0 && all_digits(unsign(x))
}

/// `Mantissa ('e' Exponent)?`.
pub open spec fn is_decimal_number(u: Seq<char>) -> bool {
    ||| is_mantissa(u)
    ||| exists|k: int|
        #![trigger u[k]]
        0 <= k < u.len() && u[k] == 'e' && is_mantissa(u.take(k)) && is_exponent(u.skip(k + 1))
}

/// The strings that `str::parse::<f64>` accepts: once lowercased, an optional sign followed by
/// `inf`, `infinity`, `nan` or a decimal number with an optional exponent.
pub open spec fn is_float_literal(s: Seq<char>) -> bool {
    let u = unsign(lower(s));
    ||| u == seq!['i', 'n', 'f']
    ||| u == seq!['i', 'n', 'f', 'i', 'n', 'i', 't', 'y']
    ||| u == seq!['n', 'a', 'n']
    ||| is_decimal_number(u)
}

proof fn lemma_not_mantissa(m: Seq<char>, i: int)
    requires
        0 <= i < m.len(),
        !is_digit(m[i]),
        m[i] != '.',
    ensures
        !is_mantissa(m),
{
    assert(!all_digits(m));
    assert forall|k: int|
        0 <= k < m.len() && m[k] == '.' implies !(all_digits(m.take(k)) && all_digits(
        m.skip(k + 1),
    )) by {
        if i < k {
            assert(m.take(k)[i] == m[i]);
        } else {
            assert(m.skip(k + 1)[i - k - 1] == m[i]);
        }
    }
}

fn digits_between(v: &Vec<char>, from: usize, to: usize) -> (r: bool)
    requires
        from <= to <= v.len(),
    ensures
        r == all_digits(v@.subrange(from as int, to as int)),
{
    let mut i = from;
    while i < to
        invariant
            from <= i <= to <= v.len(),
            all_digits(v@.subrange(from as int, i as int)),
        decreases to - i,
    {
        if !ascii_digit(v[i]) {
            assert(v@.subrange(from as int, to as int)[i - from] == v@[i as int]);
            return false;
        }
        assert(all_digits(v@.subrange(from as int, i + 1))) by {
            assert forall|j: int| 0 <= j < i + 1 - from implies is_digit(
                #[trigger] v@.subrange(from as int, i + 1)[j],
            ) by {
                if j < i - from {
                    assert(v@.subrange(from as int, i + 1)[j] == v@.subrange(
                        from as int,
                        i as int,
                    )[j]);
                }
            }
        }
        i = i + 1;
    }
    true
}

/// The first index in `v[from..]` holding `c`, or `v.len()`.
fn find_char(v: &Vec<char>, from: usize, c: char) -> (r: usize)
    requires
        from <= v.len(),
    ensures
        from <= r <= v.len(),
        r < v.len() ==> v@[r as int] == c,
        forall|j: int| from <= j < r ==> v@[j] != c,
{
    let mut i = from;
    while i < v.len() && v[i] != c
        invariant
            from <= i <= v.len(),
            forall|j: int| from <= j < i ==> v@[j] != c,
        decreases v.len() - i,
    {
        i = i + 1;
    }
    i
}

fn mantissa_ok(v: &Vec<char>) -> (r: bool)
    ensures
        r == is_mantissa(v@),
{
    let k = find_char(v, 0, '.');
    if k == v.len() {
        let r = v.len() > 0 && digits_between(v, 0, v.len());
        assert(v@.subrange(0, v@.len() as int) =~= v@);
        return r;
    }
    let before = digits_between(v, 0, k);
    let after = digits_between(v, k + 1, v.len());
    assert(v@.subrange(0, k as int) =~= v@.take(k as int));
    assert(v@.subrange(k + 1, v@.len() as int) =~= v@.skip(k + 1));
    proof {
        assert(!all_digits(v@)) by {
            assert(!is_digit(v@[k as int]));
        }
        if !(before && after && v.len() >= 2) {
            assert forall|k2: int|
                0 <= k2 < v@.len() && v@[k2] == '.' implies !(all_digits(v@.take(k2))
                && all_digits(v@.skip(k2 + 1)) && v@.len() >= 2) by {
                if k2 > k {
                    assert(v@.take(k2)[k as int] == '.');
                }
            }
        }
    }
    before && after && v.len() >= 2
}

fn exponent_ok(v: &Vec<char>) -> (r: bool)
    ensures
        r == is_exponent(v@),
{
    let start: usize = if v.len() > 0 && (v[0] == '+' || v[0] == '-') {
        1
    } else {
        0
    };
    assert(v@.subrange(start as int, v@.len() as int) =~= unsign(v@));
    v.len() > start && digits_between(v, start, v.len())
}

fn decimal_number_ok(u: &Vec<char>) -> (r: bool)
    ensures
        r == is_decimal_number(u@),
{
    let k = find_char(u, 0, 'e');
    if k == u.len() {
        let r = mantissa_ok(u);
        return r;
    }
    let m = slice_chars(u, 0, k);
    let x = slice_chars(u, k + 1, u.len());
    assert(m@ =~= u@.take(k as int));
    assert(x@ =~= u@.skip(k + 1));
    let r = mantissa_ok(&m) && exponent_ok(&x);
    proof {
        lemma_not_mantissa(u@, k as int);
        if !r {
            assert forall|k2: int|
                0 <= k2 < u@.len() && u@[k2] == 'e' implies !(is_mantissa(u@.take(k2))
                && is_exponent(u@.skip(k2 + 1))) by {
                if k2 > k {
                    lemma_not_mantissa(u@.take(k2), k as int);
                }
            }
        }
    }
    r
}

/// Whether `str::parse::<f64>` accepts the text.
pub fn float_literal(v: &Vec<char>) -> (r: bool)
    ensures
        r == is_float_literal(v@),
{
    let low = lowercase(v);
    let start: usize = if low.len() > 0 && (low[0] == '+' || low[0] == '-') {
        1
    } else {
        0
    };
    let u = slice_chars(&low, start, low.len());
    assert(u@ =~= unsign(lower(v@)));
    let inf: Vec<char> = vec!['i', 'n', 'f'];
    let infinity: Vec<char> = vec!['i', 'n', 'f', 'i', 'n', 'i', 't', 'y'];
    let nan: Vec<char> = vec!['n', 'a', 'n'];
    assert(inf@ =~= seq!['i', 'n', 'f']);
    assert(infinity@ =~= seq!['i', 'n', 'f', 'i', 'n', 'i', 't', 'y']);
    assert(nan@ =~= seq!['n', 'a', 'n']);
    crate::text::chars_equal(&u, &inf) || crate::text::chars_equal(&u, &infinity)
        || crate::text::chars_equal(&u, &nan) || decimal_number_ok(&u)
}

} // verus!
