//! Numbers as the vendor writes them, and numbers as the report shows them.
//!
//! A quantity arrives as decimal text such as `100`, `100.0`, `-35.50` or
//! `1.5e3`. Only its whole part counts: the value is cut off toward zero and
//! kept within the range of `i64`. A total leaves as plain decimal text with a
//! leading `-` where it is negative.

use vstd::prelude::*;
use vstd::string::*;
use crate::text::chars_of;

verus! {

/// The largest magnitude an `i64` can hold, that of `i64::MIN`.
pub const MAGNITUDE_CAP: u128 = 0x8000_0000_0000_0000;

/// The largest exponent that is told apart from larger ones: beyond it every
/// number is zero or out of the range of `i64`.
pub const EXPONENT_CAP: u128 = 0x40_0000_0000_0000_0000;

/// The ten digits `0` to `9`.
pub open spec fn is_digit(c: char) -> bool {
    0x30 <= c as u32 <= 0x39
}

/// The number that a digit writes.
pub open spec fn digit_value(c: char) -> int {
    c as u32 - 0x30
}

/// The number of digits at the start of `s`.
pub open spec fn digit_run(s: Seq<char>) -> int
    decreases s.len(),
{
    if s.len() > 0 && is_digit(s[0]) {
        1 + digit_run(s.skip(1))
    } else {
        0
    }
}

/// The number that a sequence of digits writes in base ten.
pub open spec fn decimal_value(s: Seq<char>) -> int
    decreases s.len(),
{
    if s.len() == 0 {
        0
    } else {
        10 * decimal_value(s.drop_last()) + digit_value(s.last())
    }
}

/// Ten to the power of `k`.
pub open spec fn pow10(k: nat) -> int
    decreases k,
{
    if k == 0 {
        1
    } else {
        10 * pow10((k - 1) as nat)
    }
}

/// The whole part of the number whose digits are `digits`, the first `point`
/// of them standing before the decimal point. With `point` beyond the digits
/// the number ends in zeros; with no digit before the point it is a fraction,
/// and its whole part is zero.
pub open spec fn whole_part(digits: Seq<char>, point: int) -> int {
    if point <= 0 {
        0
    } else if point <= digits.len() {
        decimal_value(digits.take(point))
    } else {
        decimal_value(digits) * pow10((point - digits.len()) as nat)
    }
}

/// The exponent that the end of a number writes: zero where nothing is
/// written, else `e` or `E`, an optional sign, and at least one digit.
/// `None` for any other text.
pub open spec fn exponent_value(t: Seq<char>) -> Option<int> {
    if t.len() == 0 {
        Some(0)
    } else if t[0] != 'e' && t[0] != 'E' {
        None
    } else {
        let u = t.skip(1);
        let signed = u.len() > 0 && (u[0] == '+' || u[0] == '-');
        let digits = if signed {
            u.skip(1)
        } else {
            u
        };
        if digits.len() == 0 || digit_run(digits) != digits.len() {
            None
        } else if u[0] == '-' {
            Some(-decimal_value(digits))
        } else {
            Some(decimal_value(digits))
        }
    }
}

/// The whole part of the number that `s` writes, cut off toward zero, or
/// `None` where `s` is not a number. A number is an optional sign, digits,
/// optionally a point and more digits, and optionally an exponent; at least
/// one digit stands before or after the point.
pub open spec fn number_value(s: Seq<char>) -> Option<int> {
    let signed = s.len() > 0 && (s[0] == '+' || s[0] == '-');
    let negative = s.len() > 0 && s[0] == '-';
    let body = if signed {
        s.skip(1)
    } else {
        s
    };
    let n = digit_run(body);
    let rest = body.skip(n);
    let pointed = rest.len() > 0 && rest[0] == '.';
    let frac = if pointed {
        rest.skip(1)
    } else {
        rest
    };
    let m = digit_run(frac);
    if n + m == 0 {
        None
    } else {
        match exponent_value(frac.skip(m)) {
            None => None,
            Some(e) => {
                let whole = whole_part(body.take(n) + frac.take(m), n + e);
                if negative {
                    Some(-whole)
                } else {
                    Some(whole)
                }
            },
        }
    }
}

/// `x`, or `cap` where `x` is larger.
pub open spec fn capped(x: int, cap: int) -> int {
    if x > cap {
        cap
    } else {
        x
    }
}

/// `v` kept within the range of `i64`.
pub open spec fn clamp_i64(v: int) -> int {
    if v < i64::MIN {
        i64::MIN as int
    } else if v > i64::MAX {
        i64::MAX as int
    } else {
        v
    }
}

/// The absolute value of `v`, kept within the range of `i64`.
pub open spec fn magnitude(v: int) -> int {
    clamp_i64(if v < 0 {
        -v
    } else {
        v
    })
}

/// The digit that writes `d`, for `0 <= d <= 9`.
pub open spec fn digit_char(d: int) -> char {
    if d == 0 {
        '0'
    } else if d == 1 {
        '1'
    } else if d == 2 {
        '2'
    } else if d == 3 {
        '3'
    } else if d == 4 {
        '4'
    } else if d == 5 {
        '5'
    } else if d == 6 {
        '6'
    } else if d == 7 {
        '7'
    } else if d == 8 {
        '8'
    } else {
        '9'
    }
}

/// The digits of a natural number, most significant first, without leading
/// zeros; zero is written `0`.
pub open spec fn digits_of(n: nat) -> Seq<char>
    decreases n,
{
    if n < 10 {
        seq![digit_char(n as int)]
    } else {
        digits_of(n / 10).push(digit_char((n % 10) as int))
    }
}

/// An integer in base ten, with a leading `-` where it is negative.
pub open spec fn decimal_text(n: int) -> Seq<char> {
    if n < 0 {
        seq!['-'] + digits_of((-n) as nat)
    } else {
        digits_of(n as nat)
    }
}

/// The integer that a text writes: the inverse of `decimal_text`.
pub open spec fn integer_of(text: Seq<char>) -> int {
    choose|n: int| decimal_text(n) == text
}

/// Appending a digit multiplies by ten and adds the digit.
pub proof fn lemma_decimal_value_push(s: Seq<char>, c: char)
    ensures
        decimal_value(s.push(c)) == 10 * decimal_value(s) + digit_value(c),
{
    assert(s.push(c).drop_last() == s);
}

/// A sequence of digits writes a number that is not negative.
pub proof fn lemma_decimal_value_nonnegative(s: Seq<char>)
    requires
        forall|k: int| 0 <= k < s.len() ==> is_digit(s[k]),
    ensures
        decimal_value(s) >= 0,
    decreases s.len(),
{
    if s.len() > 0 {
        lemma_decimal_value_nonnegative(s.drop_last());
    }
}

/// Powers of ten are positive and grow with the exponent.
pub proof fn lemma_pow10(j: nat, k: nat)
    requires
        j <= k,
    ensures
        1 <= pow10(j) <= pow10(k),
    decreases k,
{
    if k > 0 {
        if j < k {
            lemma_pow10(j, (k - 1) as nat);
        } else {
            lemma_pow10((j - 1) as nat, (k - 1) as nat);
        }
    }
}

/// Ten to the nineteenth is beyond every magnitude of an `i64`.
proof fn lemma_pow10_19()
    ensures
        pow10(19) == 10_000_000_000_000_000_000int,
{
    reveal_with_fuel(pow10, 20);
}

/// The whole part is not negative.
pub proof fn lemma_whole_part_nonnegative(digits: Seq<char>, point: int)
    requires
        forall|k: int| 0 <= k < digits.len() ==> is_digit(digits[k]),
    ensures
        whole_part(digits, point) >= 0,
{
    if point <= 0 {
    } else if point <= digits.len() {
        lemma_decimal_value_nonnegative(digits.take(point));
    } else {
        lemma_decimal_value_nonnegative(digits);
        lemma_pow10(0, (point - digits.len()) as nat);
        let a = decimal_value(digits);
        let b = pow10((point - digits.len()) as nat);
        assert(a * b >= 0) by (nonlinear_arith)
            requires
                a >= 0,
                b >= 1,
        ;
    }
}

/// Within the range of `i64`, the place of the point matters only between
/// the first digit and nineteen places past the last.
proof fn lemma_whole_part_far(digits: Seq<char>, p: int, q: int)
    requires
        forall|k: int| 0 <= k < digits.len() ==> is_digit(digits[k]),
        (p <= 0 && q <= 0) || (p >= digits.len() + 19 && q >= digits.len() + 19),
    ensures
        capped(whole_part(digits, p), MAGNITUDE_CAP as int) == capped(
            whole_part(digits, q),
            MAGNITUDE_CAP as int,
        ),
{
    if p > 0 {
        lemma_decimal_value_nonnegative(digits);
        lemma_pow10_19();
        lemma_pow10(19, (p - digits.len()) as nat);
        lemma_pow10(19, (q - digits.len()) as nat);
        let a = decimal_value(digits);
        let b = pow10((p - digits.len()) as nat);
        let c = pow10((q - digits.len()) as nat);
        if a > 0 {
            assert(a * b >= b) by (nonlinear_arith)
                requires
                    a >= 1,
                    b >= 1,
            ;
            assert(a * c >= c) by (nonlinear_arith)
                requires
                    a >= 1,
                    c >= 1,
            ;
        } else {
            assert(a * b == 0) by (nonlinear_arith)
                requires
                    a == 0,
            ;
            assert(a * c == 0) by (nonlinear_arith)
                requires
                    a == 0,
            ;
        }
    }
}

/// The text of an integer starts with `-` exactly if the integer is negative,
/// and holds only digits after that.
pub proof fn lemma_decimal_text_sign(n: int)
    ensures
        decimal_text(n).len() >= 1,
        (decimal_text(n)[0] == '-') == (n < 0),
{
    if n < 0 {
    } else {
        lemma_digits_of(n as nat);
    }
}

/// `digits_of` gives at least one character, all of them digits, and writes
/// the number it was given.
pub proof fn lemma_digits_of(n: nat)
    ensures
        digits_of(n).len() >= 1,
        forall|k: int| 0 <= k < digits_of(n).len() ==> is_digit(#[trigger] digits_of(n)[k]),
        decimal_value(digits_of(n)) == n,
    decreases n,
{
    if n < 10 {
        assert(digits_of(n).drop_last() == Seq::<char>::empty());
        assert(decimal_value(digits_of(n).drop_last()) == 0);
    } else {
        lemma_digits_of(n / 10);
        lemma_decimal_value_push(digits_of(n / 10), digit_char((n % 10) as int));
    }
}

/// Two integers with the same text are the same integer.
pub proof fn lemma_decimal_text_injective(a: int, b: int)
    requires
        decimal_text(a) == decimal_text(b),
    ensures
        a == b,
{
    lemma_decimal_text_sign(a);
    lemma_decimal_text_sign(b);
    if a < 0 {
        lemma_digits_of((-a) as nat);
        lemma_digits_of((-b) as nat);
        assert(decimal_text(a).skip(1) == digits_of((-a) as nat));
        assert(decimal_text(b).skip(1) == digits_of((-b) as nat));
    } else {
        lemma_digits_of(a as nat);
        lemma_digits_of(b as nat);
    }
}

/// Reading the text of an integer gives the integer back.
pub proof fn lemma_integer_of_text(n: int)
    ensures
        integer_of(decimal_text(n)) == n,
{
    lemma_decimal_text_injective(integer_of(decimal_text(n)), n);
}

/// The text of an integer is a number, and the number is that integer.
pub proof fn law_text_round_trip(n: int)
    ensures
        number_value(decimal_text(n)) == Some(n),
{
    let s = decimal_text(n);
    let m = if n < 0 {
        (-n) as nat
    } else {
        n as nat
    };
    let digits = digits_of(m);
    lemma_digits_of(m);
    lemma_decimal_text_sign(n);
    let body = if n < 0 {
        s.skip(1)
    } else {
        s
    };
    assert(body == digits);
    lemma_digit_run_is(digits, digits.len() as int);
    assert(digits.take(digits.len() as int) == digits);
}

/// `digit_run` counts digits only, and stops at the first character that is
/// none.
pub proof fn lemma_digit_run(s: Seq<char>)
    ensures
        0 <= digit_run(s) <= s.len(),
        forall|k: int| 0 <= k < digit_run(s) ==> is_digit(s[k]),
        digit_run(s) < s.len() ==> !is_digit(s[digit_run(s)]),
    decreases s.len(),
{
    if s.len() > 0 && is_digit(s[0]) {
        let t = s.skip(1);
        lemma_digit_run(t);
        assert forall|k: int| 0 <= k < digit_run(s) implies is_digit(s[k]) by {
            if k > 0 {
                assert(s[k] == t[k - 1]);
            }
        }
        if digit_run(s) < s.len() {
            assert(s[digit_run(s)] == t[digit_run(t)]);
        }
    }
}

/// An index with only digits before it, which holds no digit or is the
/// length, is `digit_run`.
pub proof fn lemma_digit_run_is(s: Seq<char>, j: int)
    requires
        0 <= j <= s.len(),
        forall|k: int| 0 <= k < j ==> is_digit(s[k]),
        j < s.len() ==> !is_digit(s[j]),
    ensures
        digit_run(s) == j,
{
    lemma_digit_run(s);
    let i = digit_run(s);
    if i < j {
        assert(is_digit(s[i]));
    } else if j < i {
        assert(is_digit(s[j]));
    }
}

fn digit(c: char) -> (r: bool)
    ensures
        r == is_digit(c),
{
    let n: u32 = c as u32;
    0x30 <= n && n <= 0x39
}

/// The end of the digits that start at `from`.
fn scan_digits(v: &Vec<char>, from: usize) -> (to: usize)
    requires
        from <= v.len(),
    ensures
        from <= to <= v.len(),
        to - from == digit_run(v@.skip(from as int)),
        forall|k: int| from <= k < to ==> is_digit(v@[k]),
{
    let mut to: usize = from;
    while to < v.len() && digit(v[to])
        invariant
            from <= to <= v.len(),
            forall|k: int| from <= k < to ==> is_digit(v@[k]),
        decreases v.len() - to,
    {
        to = to + 1;
    }
    proof {
        let s = v@.skip(from as int);
        assert forall|k: int| 0 <= k < to - from implies is_digit(s[k]) by {
            assert(s[k] == v@[from + k]);
        }
        if to - from < s.len() {
            assert(s[to - from] == v@[to as int]);
        }
        lemma_digit_run_is(s, to - from);
    }
    to
}

/// Goes on writing a number: `init` stands for the digits `before`, and the
/// digits `v[from..to]` follow them. The number is kept at `cap` where it is
/// larger.
fn accumulate(
    v: &Vec<char>,
    from: usize,
    to: usize,
    init: u128,
    cap: u128,
    Ghost(before): Ghost<Seq<char>>,
) -> (r: u128)
    requires
        from <= to <= v.len(),
        forall|k: int| from <= k < to ==> is_digit(v@[k]),
        cap <= EXPONENT_CAP,
        decimal_value(before) >= 0,
        init == capped(decimal_value(before), cap as int),
    ensures
        r == capped(decimal_value(before + v@.subrange(from as int, to as int)), cap as int),
        decimal_value(before + v@.subrange(from as int, to as int)) >= 0,
{
    let mut acc: u128 = init;
    let mut i: usize = from;
    proof {
        assert(before + v@.subrange(from as int, from as int) == before);
    }
    while i < to
        invariant
            from <= i <= to <= v.len(),
            forall|k: int| from <= k < to ==> is_digit(v@[k]),
            cap <= EXPONENT_CAP,
            decimal_value(before + v@.subrange(from as int, i as int)) >= 0,
            acc == capped(
                decimal_value(before + v@.subrange(from as int, i as int)),
                cap as int,
            ),
        decreases to - i,
    {
        let d: u128 = (v[i] as u32 - 0x30) as u128;
        proof {
            let s = before + v@.subrange(from as int, i as int);
            assert(before + v@.subrange(from as int, i + 1) == s.push(v@[i as int]));
            lemma_decimal_value_push(s, v@[i as int]);
        }
        let next: u128 = acc * 10 + d;
        acc = if next > cap {
            cap
        } else {
            next
        };
        i = i + 1;
    }
    acc
}

/// `value` with `zeros` zeros written after it, kept at `MAGNITUDE_CAP`.
fn scale(acc: u128, zeros: u128, Ghost(value): Ghost<int>) -> (r: u128)
    requires
        value >= 0,
        acc == capped(value, MAGNITUDE_CAP as int),
    ensures
        r == capped(value * pow10(zeros as nat), MAGNITUDE_CAP as int),
{
    let mut acc: u128 = acc;
    let mut left: u128 = zeros;
    proof {
        assert(value * pow10(0) == value) by (nonlinear_arith)
            requires
                pow10(0) == 1,
        ;
    }
    while left > 0 && acc > 0 && acc < MAGNITUDE_CAP
        invariant
            left <= zeros,
            value >= 0,
            acc == capped(value * pow10((zeros - left) as nat), MAGNITUDE_CAP as int),
        decreases left,
    {
        proof {
            let j = (zeros - left) as nat;
            let b = pow10(j);
            assert(pow10(j + 1) == 10 * b);
            assert(value * (10 * b) == 10 * (value * b)) by (nonlinear_arith);
        }
        let next: u128 = acc * 10;
        acc = if next > MAGNITUDE_CAP {
            MAGNITUDE_CAP
        } else {
            next
        };
        left = left - 1;
    }
    proof {
        if left > 0 {
            let b = pow10((zeros - left) as nat);
            let c = pow10(zeros as nat);
            lemma_pow10((zeros - left) as nat, zeros as nat);
            if acc == 0 {
                assert(value == 0) by (nonlinear_arith)
                    requires
                        value * b == 0,
                        b >= 1,
                        value >= 0,
                ;
                assert(value * c == 0) by (nonlinear_arith)
                    requires
                        value == 0,
                ;
            } else {
                assert(value * c >= value * b) by (nonlinear_arith)
                    requires
                        value >= 0,
                        c >= b,
                ;
            }
        }
    }
    acc
}

/// The exponent that `v` writes from `at` to its end, kept within
/// `EXPONENT_CAP` on either side; `None` where no exponent is written there.
fn parse_exponent(v: &Vec<char>, at: usize) -> (r: Option<i128>)
    requires
        at <= v.len(),
    ensures
        match exponent_value(v@.skip(at as int)) {
            Some(e) => r is Some && r->0 as int == if e > EXPONENT_CAP {
                EXPONENT_CAP as int
            } else if e < -EXPONENT_CAP {
                -EXPONENT_CAP
            } else {
                e
            },
            None => r is None,
        },
{
    let len: usize = v.len();
    let ghost t = v@.skip(at as int);
    if at == len {
        return Some(0);
    }
    proof {
        assert(t[0] == v@[at as int]);
    }
    if v[at] != 'e' && v[at] != 'E' {
        return None;
    }
    let ghost u = t.skip(1);
    proof {
        assert(u == v@.skip(at + 1));
        if u.len() > 0 {
            assert(u[0] == v@[at + 1]);
        }
    }
    let signed = at + 1 < len && (v[at + 1] == '+' || v[at + 1] == '-');
    let negative = at + 1 < len && v[at + 1] == '-';
    let from: usize = if signed {
        at + 2
    } else {
        at + 1
    };
    let to = scan_digits(&v, from);
    proof {
        let digits = if signed {
            u.skip(1)
        } else {
            u
        };
        assert(digits == v@.skip(from as int));
        assert(digits.len() == len - from);
        if to == len {
            assert(digits == v@.subrange(from as int, to as int));
            assert(Seq::<char>::empty() + digits == digits);
        }
    }
    if from == len || to != len {
        return None;
    }
    let m = accumulate(&v, from, to, 0, EXPONENT_CAP, Ghost(Seq::empty()));
    if negative {
        Some(-(m as i128))
    } else {
        Some(m as i128)
    }
}

/// The whole part of the number whose digits are `v[a..b]` and `v[c..d]`, the
/// first `point` of them standing before the decimal point; kept at
/// `MAGNITUDE_CAP` where it is larger.
fn whole_of(v: &Vec<char>, a: usize, b: usize, c: usize, d: usize, point: i128) -> (r: u128)
    requires
        a <= b <= c <= d <= v.len(),
        forall|k: int| a <= k < b ==> is_digit(v@[k]),
        forall|k: int| c <= k < d ==> is_digit(v@[k]),
        -2 * EXPONENT_CAP <= point <= 2 * EXPONENT_CAP,
    ensures
        r == capped(
            whole_part(
                v@.subrange(a as int, b as int) + v@.subrange(c as int, d as int),
                point as int,
            ),
            MAGNITUDE_CAP as int,
        ),
{
    let ghost first = v@.subrange(a as int, b as int);
    let ghost second = v@.subrange(c as int, d as int);
    let ghost digits = first + second;
    let n: i128 = (b - a) as i128;
    let m: i128 = (d - c) as i128;
    proof {
        assert(Seq::<char>::empty() + first == first);
    }
    if point <= 0 {
        0
    } else if point <= n {
        let to: usize = a + (point as usize);
        proof {
            assert(digits.take(point as int) == v@.subrange(a as int, to as int));
            assert(Seq::<char>::empty() + v@.subrange(a as int, to as int) == v@.subrange(
                a as int,
                to as int,
            ));
        }
        accumulate(v, a, to, 0, MAGNITUDE_CAP, Ghost(Seq::empty()))
    } else {
        let before = accumulate(v, a, b, 0, MAGNITUDE_CAP, Ghost(Seq::empty()));
        let extra: i128 = point - n;
        if extra <= m {
            let to: usize = c + (extra as usize);
            proof {
                assert(digits.take(point as int) == first + v@.subrange(c as int, to as int));
            }
            accumulate(v, c, to, before, MAGNITUDE_CAP, Ghost(first))
        } else {
            let all = accumulate(v, c, d, before, MAGNITUDE_CAP, Ghost(first));
            scale(all, (extra - m) as u128, Ghost(decimal_value(digits)))
        }
    }
}

/// The whole part as an `i64`, with its sign.
fn signed_whole(whole: u128, negative: bool) -> (r: i64)
    requires
        whole <= MAGNITUDE_CAP,
    ensures
        r == clamp_i64(
            if negative {
                -(whole as int)
            } else {
                whole as int
            },
        ),
{
    if negative {
        if whole >= MAGNITUDE_CAP {
            i64::MIN
        } else {
            -(whole as i64)
        }
    } else {
        if whole > 0x7fff_ffff_ffff_ffff {
            i64::MAX
        } else {
            whole as i64
        }
    }
}

/// The places where the parts of a number begin and end: the sign ends at
/// `start`, the digits before the point at `int_end`, and the digits after
/// the point stand from `frac_start` to `frac_end`.
spec fn is_shape(s: Seq<char>, start: int, int_end: int, frac_start: int, frac_end: int) -> bool {
    &&& start == if s.len() > 0 && (s[0] == '+' || s[0] == '-') {
        1int
    } else {
        0int
    }
    &&& start <= int_end <= frac_start <= frac_end <= s.len()
    &&& int_end - start == digit_run(s.skip(start))
    &&& frac_start == if int_end < s.len() && s[int_end] == '.' {
        int_end + 1
    } else {
        int_end
    }
    &&& frac_end - frac_start == digit_run(s.skip(frac_start))
}

/// What `number_value` gives, in terms of the places where the parts of the
/// number begin and end.
proof fn lemma_number_shape(s: Seq<char>, start: int, int_end: int, frac_start: int, frac_end: int)
    requires
        is_shape(s, start, int_end, frac_start, frac_end),
    ensures
        number_value(s) == if (int_end - start) + (frac_end - frac_start) == 0 {
            None
        } else {
            match exponent_value(s.skip(frac_end)) {
                None => None,
                Some(e) => {
                    let whole = whole_part(
                        s.subrange(start, int_end) + s.subrange(frac_start, frac_end),
                        int_end - start + e,
                    );
                    if s.len() > 0 && s[0] == '-' {
                        Some(-whole)
                    } else {
                        Some(whole)
                    }
                },
            }
        },
{
    let signed = s.len() > 0 && (s[0] == '+' || s[0] == '-');
    let body = if signed {
        s.skip(1)
    } else {
        s
    };
    assert(body == s.skip(start));
    let n = digit_run(body);
    let rest = body.skip(n);
    assert(rest == s.skip(int_end));
    if rest.len() > 0 {
        assert(rest[0] == s[int_end]);
    }
    let pointed = rest.len() > 0 && rest[0] == '.';
    let frac = if pointed {
        rest.skip(1)
    } else {
        rest
    };
    assert(frac == s.skip(frac_start));
    let m = digit_run(frac);
    assert(body.take(n) == s.subrange(start, int_end));
    assert(frac.take(m) == s.subrange(frac_start, frac_end));
    assert(frac.skip(m) == s.skip(frac_end));
}

/// The number that was read is the number that the text writes: the whole
/// part may have been computed under an exponent that was cut at
/// `EXPONENT_CAP`, and at `MAGNITUDE_CAP` itself.
proof fn lemma_number_read(
    s: Seq<char>,
    start: int,
    int_end: int,
    frac_start: int,
    frac_end: int,
    exponent: int,
    whole: int,
)
    requires
        is_shape(s, start, int_end, frac_start, frac_end),
        s.len() <= usize::MAX,
        (int_end - start) + (frac_end - frac_start) > 0,
        forall|k: int| start <= k < int_end ==> is_digit(s[k]),
        forall|k: int| frac_start <= k < frac_end ==> is_digit(s[k]),
        exponent_value(s.skip(frac_end)) matches Some(e) && exponent == if e > EXPONENT_CAP {
            EXPONENT_CAP as int
        } else if e < -EXPONENT_CAP {
            -EXPONENT_CAP
        } else {
            e
        },
        whole == capped(
            whole_part(
                s.subrange(start, int_end) + s.subrange(frac_start, frac_end),
                int_end - start + exponent,
            ),
            MAGNITUDE_CAP as int,
        ),
    ensures
        number_value(s) matches Some(v) && clamp_i64(v) == clamp_i64(
            if s.len() > 0 && s[0] == '-' {
                -whole
            } else {
                whole
            },
        ),
{
    lemma_number_shape(s, start, int_end, frac_start, frac_end);
    let digits = s.subrange(start, int_end) + s.subrange(frac_start, frac_end);
    let e = exponent_value(s.skip(frac_end))->0;
    let n = int_end - start;
    assert forall|k: int| 0 <= k < digits.len() implies is_digit(digits[k]) by {
        if k < n {
            assert(digits[k] == s[start + k]);
        } else {
            assert(digits[k] == s[frac_start + (k - n)]);
        }
    }
    if e != exponent {
        lemma_whole_part_far(digits, n + e, n + exponent);
    }
    lemma_whole_part_nonnegative(digits, n + e);
}

/// The whole part of the number that `text` writes, kept within the range of
/// `i64`; `None` where `text` is not a number.
pub fn parse_number(text: &str) -> (r: Option<i64>)
    ensures
        r == match number_value(text@) {
            Some(v) => Some(clamp_i64(v) as i64),
            None => None,
        },
{
    let v = chars_of(text);
    let len: usize = v.len();
    let signed = len > 0 && (v[0] == '+' || v[0] == '-');
    let negative = len > 0 && v[0] == '-';
    let start: usize = if signed {
        1
    } else {
        0
    };
    let int_end = scan_digits(&v, start);
    let pointed = int_end < len && v[int_end] == '.';
    let frac_start: usize = if pointed {
        int_end + 1
    } else {
        int_end
    };
    let frac_end = scan_digits(&v, frac_start);
    assert(is_shape(v@, start as int, int_end as int, frac_start as int, frac_end as int));
    if (int_end - start) + (frac_end - frac_start) == 0 {
        proof {
            lemma_number_shape(v@, start as int, int_end as int, frac_start as int, frac_end as int);
        }
        return None;
    }
    let exponent: i128 = match parse_exponent(&v, frac_end) {
        Some(e) => e,
        None => {
            proof {
                lemma_number_shape(
                    v@,
                    start as int,
                    int_end as int,
                    frac_start as int,
                    frac_end as int,
                );
            }
            return None;
        },
    };
    let point: i128 = (int_end - start) as i128 + exponent;
    let whole = whole_of(&v, start, int_end, frac_start, frac_end, point);
    proof {
        lemma_number_read(
            v@,
            start as int,
            int_end as int,
            frac_start as int,
            frac_end as int,
            exponent as int,
            whole as int,
        );
    }
    Some(signed_whole(whole, negative))
}

/// The absolute value of `v`; that of `i64::MIN` is given as `i64::MAX`.
pub fn abs_clamped(v: i64) -> (r: i64)
    ensures
        r == magnitude(v as int),
        0 <= r,
{
    if v == i64::MIN {
        i64::MAX
    } else if v < 0 {
        -v
    } else {
        v
    }
}

/// The one-character string of a digit.
fn digit_str(d: u64) -> (r: &'static str)
    requires
        d < 10,
    ensures
        r@ == seq![digit_char(d as int)],
{
    proof {
        reveal_strlit("0");
        reveal_strlit("1");
        reveal_strlit("2");
        reveal_strlit("3");
        reveal_strlit("4");
        reveal_strlit("5");
        reveal_strlit("6");
        reveal_strlit("7");
        reveal_strlit("8");
        reveal_strlit("9");
    }
    let r: &'static str = if d == 0 {
        "0"
    } else if d == 1 {
        "1"
    } else if d == 2 {
        "2"
    } else if d == 3 {
        "3"
    } else if d == 4 {
        "4"
    } else if d == 5 {
        "5"
    } else if d == 6 {
        "6"
    } else if d == 7 {
        "7"
    } else if d == 8 {
        "8"
    } else {
        "9"
    };
    assert(r@ =~= seq![digit_char(d as int)]);
    r
}

/// Appends the digits of `n` to `out`.
fn push_digits(out: &mut String, n: u64)
    ensures
        final(out)@ == old(out)@ + digits_of(n as nat),
    decreases n,
{
    if n >= 10 {
        push_digits(out, n / 10);
    }
    out.append(digit_str(n % 10));
    proof {
        if n >= 10 {
            assert(old(out)@ + digits_of((n / 10) as nat) + seq![digit_char((n % 10) as int)]
                == old(out)@ + digits_of(n as nat));
        } else {
            assert(old(out)@ + seq![digit_char((n % 10) as int)] == old(out)@ + digits_of(
                n as nat,
            ));
        }
    }
}

/// `n` in base ten, with a leading `-` where it is negative.
pub fn signed_decimal(n: i64) -> (r: String)
    ensures
        r@ == decimal_text(n as int),
{
    let mut out = String::new();
    if n < 0 {
        proof {
            reveal_strlit("-");
        }
        out.append("-");
        assert(out@ =~= seq!['-']);
        let m: u64 = (-(n + 1)) as u64 + 1;
        push_digits(&mut out, m);
    } else {
        push_digits(&mut out, n as u64);
        assert(out@ =~= digits_of(n as nat));
    }
    out
}

} // verus!
