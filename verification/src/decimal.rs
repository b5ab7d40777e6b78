//! Fixed-point decimal numbers.
//!
//! Prices, quantities and account amounts are held as integers counted in
//! units of 10^-8 (`UNITS` units make one), and ratios such as percentages and
//! the order-book imbalance are held in parts per million (`PPM` parts make
//! one).  This module reads decimal text such as `"97123.40"` or `"-0.010"`
//! into units and writes units back as decimal text.
use vstd::prelude::*;

verus! {

/// Units per one (eight decimal places).
pub const UNITS: u64 = 100_000_000;

/// Parts per one for ratios (six decimal places).
pub const PPM: u64 = 1_000_000;

/// Largest integer part that still fits into an `i64` count of units.
pub const MAX_WHOLE: u64 = 92_233_720_368;

/// The integer part is tracked exactly up to this cap while reading.
pub const WHOLE_CAP: u64 = 1_000_000_000_000;

pub open spec fn is_digit(c: char) -> bool {
    '0' <= c && c <= '9'
}

pub open spec fn digit_of(c: char) -> int {
    (c as int) - ('0' as int)
}

pub open spec fn all_digits(s: Seq<char>) -> bool {
    forall|i: int| 0 <= i < s.len() ==> is_digit(#[trigger] s[i])
}

/// The value of a string of decimal digits.
pub open spec fn digits_value(s: Seq<char>) -> int
    decreases s.len(),
{
    if s.len() == 0 {
        0
    } else {
        digits_value(s.drop_last()) * 10 + digit_of(s.last())
    }
}

/// Length of a leading sign character, if any.
pub open spec fn sign_len(s: Seq<char>) -> int {
    if s.len() > 0 && (s[0] == '-' || s[0] == '+') {
        1
    } else {
        0
    }
}

pub open spec fn is_negative_text(s: Seq<char>) -> bool {
    s.len() > 0 && s[0] == '-'
}

/// The text after the optional sign.
pub open spec fn unsigned_part(s: Seq<char>) -> Seq<char> {
    s.skip(sign_len(s))
}

/// `b[i]` is the decimal point of `b`: digits before it, digits after it.
pub open spec fn is_point_at(b: Seq<char>, i: int) -> bool {
    &&& 0 <= i < b.len()
    &&& b[i] == '.'
    &&& all_digits(b.take(i))
    &&& all_digits(b.skip(i + 1))
}

/// `b` is an unsigned decimal: digits, or digits around one point, with at
/// least one digit in all.
pub open spec fn is_decimal_shape(b: Seq<char>) -> bool {
    ||| (b.len() > 0 && all_digits(b))
    ||| (b.len() > 1 && exists|i: int| is_point_at(b, i))
}

pub open spec fn point_index(b: Seq<char>) -> int {
    choose|i: int| is_point_at(b, i)
}

pub open spec fn whole_digits(b: Seq<char>) -> Seq<char> {
    if all_digits(b) {
        b
    } else {
        b.take(point_index(b))
    }
}

pub open spec fn fraction_digits(b: Seq<char>) -> Seq<char> {
    if all_digits(b) {
        Seq::empty()
    } else {
        b.skip(point_index(b) + 1)
    }
}

/// The first eight fraction digits, padded with zeros.
pub open spec fn fraction8(f: Seq<char>) -> Seq<char> {
    Seq::new(8, |i: int| if i < f.len() { f[i] } else { '0' })
}

/// The magnitude of an unsigned decimal in units; fraction digits past the
/// eighth are dropped.
pub open spec fn magnitude_units(b: Seq<char>) -> int {
    digits_value(whole_digits(b)) * (UNITS as int) + digits_value(fraction8(fraction_digits(b)))
}

/// What a text without an exponent reads as: `None` when the text is no
/// decimal number or its magnitude does not fit into an `i64` count of
/// units.
pub open spec fn plain_units(s: Seq<char>) -> Option<int> {
    let b = unsigned_part(s);
    if is_decimal_shape(b) && magnitude_units(b) <= i64::MAX {
        Some(
            if is_negative_text(s) {
                -magnitude_units(b)
            } else {
                magnitude_units(b)
            },
        )
    } else {
        None
    }
}

/// An exponent mark.
pub open spec fn is_e(c: char) -> bool {
    c == 'e' || c == 'E'
}

pub open spec fn has_exponent_mark(s: Seq<char>) -> bool {
    exists|k: int| 0 <= k < s.len() && is_e(#[trigger] s[k])
}

/// An exponent: an optional sign and at least one digit.
pub open spec fn is_exponent_text(x: Seq<char>) -> bool {
    x.len() > sign_len(x) && all_digits(unsigned_part(x))
}

pub open spec fn exponent_value(x: Seq<char>) -> int {
    if is_negative_text(x) {
        -digits_value(unsigned_part(x))
    } else {
        digits_value(unsigned_part(x))
    }
}

/// `b[i]` is the exponent mark of `b`: a decimal before it and an exponent
/// after it.
pub open spec fn is_exp_at(b: Seq<char>, i: int) -> bool {
    &&& 0 <= i < b.len()
    &&& is_e(b[i])
    &&& is_decimal_shape(b.take(i))
    &&& is_exponent_text(b.skip(i + 1))
}

/// The digits of a decimal, the point left out.
pub open spec fn mantissa_digits(m: Seq<char>) -> Seq<char> {
    whole_digits(m) + fraction_digits(m)
}

/// The digits `d` read as a whole number times `10^s`, rounded down.
pub open spec fn scaled_units(d: Seq<char>, s: int) -> int {
    if s >= 0 {
        digits_value(d) * pow10_spec(s as nat)
    } else {
        digits_value(d) / pow10_spec((-s) as nat)
    }
}

/// The magnitude in units of an unsigned decimal with an exponent at `i`:
/// the mantissa times ten to the exponent, rounded down to units.
pub open spec fn exponent_magnitude(b: Seq<char>, i: int) -> int {
    let m = b.take(i);
    scaled_units(mantissa_digits(m), exponent_value(b.skip(i + 1)) - fraction_digits(m).len() + 8)
}

/// What `parse_units` gives for a text: an optional sign and a decimal
/// (digits with an optional point, at least one digit), optionally followed
/// by `e` or `E` and an exponent (an optional sign and digits), read as units
/// of 10^-8 rounded toward zero; `None` when the text is no such number or
/// its magnitude does not fit into an `i64` count of units.
pub open spec fn parsed_units(s: Seq<char>) -> Option<int> {
    if !has_exponent_mark(s) {
        plain_units(s)
    } else {
        let b = unsigned_part(s);
        if exists|i: int| is_exp_at(b, i) {
            let mag = exponent_magnitude(b, choose|i: int| is_exp_at(b, i));
            if mag <= i64::MAX {
                Some(
                    if is_negative_text(s) {
                        -mag
                    } else {
                        mag
                    },
                )
            } else {
                None
            }
        } else {
            None
        }
    }
}

/// A decimal text read as units, or 0 where it is no number.
pub open spec fn units_or_zero(s: Seq<char>) -> int {
    match parsed_units(s) {
        Some(v) => v,
        None => 0,
    }
}

/// A decimal text read as non-negative units, or 0 where it is no number or
/// negative.
pub open spec fn amount_or_zero(s: Seq<char>) -> int {
    match parsed_units(s) {
        Some(v) => if v >= 0 { v } else { 0 },
        None => 0,
    }
}

proof fn lemma_digits_value_take_step(s: Seq<char>, k: int)
    requires
        0 <= k < s.len(),
    ensures
        digits_value(s.take(k + 1)) == digits_value(s.take(k)) * 10 + digit_of(s[k]),
{
    assert(s.take(k + 1).drop_last() =~= s.take(k));
}

proof fn lemma_digits_value_nonneg(s: Seq<char>)
    requires
        all_digits(s),
    ensures
        digits_value(s) >= 0,
    decreases s.len(),
{
    if s.len() > 0 {
        assert(all_digits(s.drop_last())) by {
            assert forall|i: int| 0 <= i < s.drop_last().len() implies is_digit(
                #[trigger] s.drop_last()[i],
            ) by {
                assert(is_digit(s[i]));
            }
        }
        lemma_digits_value_nonneg(s.drop_last());
        assert(is_digit(s[s.len() - 1]));
    }
}

proof fn lemma_cap_step(v: int, d: int, cap: int)
    requires
        v >= 0,
        0 <= d <= 9,
        cap >= 10,
    ensures
        (if (if v < cap { v } else { cap }) * 10 + d < cap { (if v < cap { v } else { cap }) * 10 + d } else { cap })
            == (if v * 10 + d < cap { v * 10 + d } else { cap }),
{
}

proof fn lemma_point_unique(b: Seq<char>, i: int, j: int)
    requires
        is_point_at(b, i),
        is_point_at(b, j),
    ensures
        i == j,
{
    if i < j {
        assert(b.take(j)[i] == b[i]);
        assert(is_digit(b.take(j)[i]));
    } else if j < i {
        assert(b.take(i)[j] == b[j]);
        assert(is_digit(b.take(i)[j]));
    }
}

/// Reads a decimal text without an exponent (`plain_units`).
fn parse_plain_units(s: &str) -> (r: Option<i64>)
    ensures
        r is Some <==> plain_units(s@) is Some,
        r is Some ==> r->0 as int == plain_units(s@)->0,
{
    let ghost cs = s@;
    let n = s.unicode_len();
    let mut i: usize = 0;
    let mut neg = false;
    if n > 0 {
        let c0 = s.get_char(0);
        if c0 == '-' || c0 == '+' {
            neg = c0 == '-';
            i = 1;
        }
    }
    let start = i;
    let ghost b = cs.skip(start as int);
    assert(start as int == sign_len(cs));
    assert(b =~= unsigned_part(cs));
    assert(neg == is_negative_text(cs));

    // whole part
    let mut whole: u64 = 0;
    let mut c: char = ' ';
    if i < n {
        c = s.get_char(i);
    }
    while i < n && '0' <= c && c <= '9'
        invariant
            start <= i <= n,
            n == cs.len(),
            cs == s@,
            i < n ==> c == cs[i as int],
            b =~= cs.skip(start as int),
            all_digits(b.take(i - start)),
            whole as int == (if digits_value(b.take(i - start)) < WHOLE_CAP as int {
                digits_value(b.take(i - start))
            } else {
                WHOLE_CAP as int
            }),
        decreases n - i,
    {
        let d = (c as u32) - ('0' as u32);
        let ghost k = i - start;
        proof {
            assert(b[k] == cs[i as int]);
            assert(is_digit(b[k]));
            assert(digit_of(b[k]) == d as int);
            lemma_digits_value_take_step(b, k);
            lemma_digits_value_nonneg(b.take(k));
            lemma_cap_step(digits_value(b.take(k)), d as int, WHOLE_CAP as int);
            lemma_all_digits_extend(b, k);
        }
        let next = whole * 10 + d as u64;
        whole = if next < WHOLE_CAP {
            next
        } else {
            WHOLE_CAP
        };
        i = i + 1;
        if i < n {
            c = s.get_char(i);
        }
    }
    let whole_end = i;
    let ghost wk = (whole_end - start) as int;

    // fraction part
    let mut has_point = false;
    let mut frac: u64 = 0;
    let mut frac_count: usize = 0;
    let mut frac_start = i;
    if i < n && c == '.' {
        has_point = true;
        i = i + 1;
        frac_start = i;
        if i < n {
            c = s.get_char(i);
        }
        let ghost f = b.skip(wk + 1);
        while i < n && '0' <= c && c <= '9'
            invariant
                frac_start <= i <= n,
                frac_start == whole_end + 1,
                whole_end >= start,
                n == cs.len(),
                cs == s@,
            cs == s@,
                i < n ==> c == cs[i as int],
                b =~= cs.skip(start as int),
                wk == whole_end - start,
                f =~= b.skip(wk + 1),
                all_digits(f.take(i - frac_start)),
                frac_count as int == (if i - frac_start < 8 { i - frac_start } else { 8 }),
                frac as int == digits_value(f.take(frac_count as int)),
                frac as int <= pow10_spec(frac_count as nat) - 1,
            decreases n - i,
        {
            let d = (c as u32) - ('0' as u32);
            let ghost k = i - frac_start;
            proof {
                assert(f[k] == cs[i as int]);
                assert(is_digit(f[k]));
                lemma_all_digits_extend(f, k);
            }
            if frac_count < 8 {
                proof {
                    assert(frac_count as int == k);
                    lemma_digits_value_take_step(f, k);
                    lemma_all_digits_extend(f, k);
                    lemma_digits_value_bound(f.take(k + 1));
                    lemma_pow10_le((k + 1) as nat, 8);
                    lemma_pow10_8();
                    lemma_pow10_step(k as nat);
                }
                frac = frac * 10 + d as u64;
                frac_count = frac_count + 1;
            }
            i = i + 1;
            if i < n {
                c = s.get_char(i);
            }
        }
    }
    if i != n {
        proof {
            assert(b[i - start] == cs[i as int]);
            lemma_not_shape_at(b, (i - start) as int, wk, has_point);
        }
        return None;
    }
    let digit_count = if has_point {
        (whole_end - start) + (n - frac_start)
    } else {
        whole_end - start
    };
    if digit_count == 0 {
        proof {
            if has_point {
                assert(b.len() == 1);
            } else {
                assert(b.len() == 0);
            }
        }
        return None;
    }
    // pad the fraction to eight digits
    let ghost f = if has_point { b.skip(wk + 1) } else { Seq::<char>::empty() };
    proof {
        if has_point {
            assert(is_point_at(b, wk)) by {
                assert(b.take(wk) =~= b.take(whole_end - start));
                assert(b.skip(wk + 1) =~= b.skip(wk + 1).take(n - frac_start));
            }
            assert(!all_digits(b)) by {
                assert(!is_digit(b[wk]));
            }
            let p = point_index(b);
            lemma_point_unique(b, p, wk);
            assert(whole_digits(b) =~= b.take(wk));
            assert(fraction_digits(b) =~= f);
        } else {
            assert(b.take(wk) =~= b);
            assert(whole_digits(b) =~= b);
            assert(fraction_digits(b) =~= f);
            assert(frac_count == 0);
        }
        assert(f.take(frac_count as int) =~= fraction8(f).take(frac_count as int));
    }
    while frac_count < 8
        invariant
            frac_count <= 8,
            frac_count == 8 || f.len() <= frac_count,
            frac as int == digits_value(fraction8(f).take(frac_count as int)),
            frac as int <= pow10_spec(frac_count as nat) - 1,
        decreases 8 - frac_count,
    {
        proof {
            lemma_digits_value_take_step(fraction8(f), frac_count as int);
            assert(fraction8(f)[frac_count as int] == '0');
            lemma_pow10_step(frac_count as nat);
            lemma_pow10_le((frac_count + 1) as nat, 8);
            lemma_pow10_8();
        }
        frac = frac * 10;
        frac_count = frac_count + 1;
    }
    proof {
        assert(fraction8(f).take(8) =~= fraction8(f));
        assert(fraction_digits(b) =~= f);
        lemma_pow10_8();
    }
    if whole > MAX_WHOLE {
        proof {
            lemma_all_digits_fraction8(f);
            lemma_digits_value_nonneg(fraction8(f));
        }
        return None;
    }
    let mag: u64 = whole * UNITS + frac;
    if mag > i64::MAX as u64 {
        return None;
    }
    if neg {
        Some(-(mag as i64))
    } else {
        Some(mag as i64)
    }
}

/// Whether a character is an exponent mark.
fn is_exponent_mark(c: char) -> (r: bool)
    ensures
        r == is_e(c),
{
    c == 'e' || c == 'E'
}

/// Every character of a decimal is a digit or the point.
proof fn lemma_shape_chars(t: Seq<char>)
    requires
        is_decimal_shape(t),
    ensures
        forall|k: int| 0 <= k < t.len() ==> is_digit(#[trigger] t[k]) || t[k] == '.',
{
    if !(t.len() > 0 && all_digits(t)) {
        let p = choose|p: int| is_point_at(t, p);
        assert forall|k: int| 0 <= k < t.len() implies is_digit(#[trigger] t[k]) || t[k] == '.' by {
            if k < p {
                assert(t.take(p)[k] == t[k]);
            } else if k > p {
                assert(t.skip(p + 1)[k - p - 1] == t[k]);
            }
        }
    }
}

/// Cutting the last `k` digits off divides their value by `10^k`.
proof fn lemma_digits_prefix_div(d: Seq<char>, k: nat)
    requires
        all_digits(d),
        k <= d.len(),
    ensures
        digits_value(d.take(d.len() - k)) == digits_value(d) / pow10_spec(k),
    decreases k,
{
    lemma_pow10_step(k);
    if k == 0 {
        assert(d.take(d.len() as int) =~= d);
        assert(pow10_spec(0) == 1);
    } else {
        let e = d.drop_last();
        assert(all_digits(e)) by {
            assert forall|i: int| 0 <= i < e.len() implies is_digit(#[trigger] e[i]) by {
                assert(is_digit(d[i]));
            }
        }
        lemma_digits_prefix_div(e, (k - 1) as nat);
        assert(e.take(e.len() - (k - 1)) =~= d.take(d.len() - k));
        lemma_pow10_step((k - 1) as nat);
        let x = digits_value(e);
        let dg = digit_of(d.last());
        assert(is_digit(d[d.len() - 1]));
        assert(digits_value(d) == x * 10 + dg);
        let p = pow10_spec((k - 1) as nat);
        assert(p >= 1);
        lemma_digits_value_nonneg(e);
        // (10x + dg) / (10p) == x / p for 0 <= dg < 10
        assert((x * 10 + dg) / (10 * p) == x / p) by (nonlinear_arith)
            requires
                0 <= dg < 10,
                p >= 1,
                x >= 0,
        {
            let q = x / p;
            let r = x % p;
            assert(x == p * q + r);
            assert(0 <= r < p);
            assert(x * 10 + dg == (10 * p) * q + (10 * r + dg));
            assert(0 <= 10 * r + dg < 10 * p);
            vstd::arithmetic::div_mod::lemma_fundamental_div_mod_converse(
                x * 10 + dg,
                10 * p,
                q,
                10 * r + dg,
            );
        }
        lemma_digits_value_nonneg(e);
    }
}

/// The decimal `s@[from..to]`: `Some((w, p))` when it is one, `w` being the
/// number of whole digits and `p` whether it has a point.
fn mantissa_shape(s: &str, from: usize, to: usize) -> (r: Option<(usize, bool)>)
    requires
        from <= to <= s@.len(),
    ensures
        r is Some <==> is_decimal_shape(s@.subrange(from as int, to as int)),
        r matches Some(v) ==> ({
            let m = s@.subrange(from as int, to as int);
            let w = v.0 as int;
            &&& w <= m.len()
            &&& whole_digits(m) == m.take(w)
            &&& all_digits(whole_digits(m))
            &&& all_digits(fraction_digits(m))
            &&& (v.1 ==> w < m.len() && fraction_digits(m) == m.skip(w + 1))
            &&& (!v.1 ==> w == m.len() && fraction_digits(m) == Seq::<char>::empty())
        }),
{
    let ghost m = s@.subrange(from as int, to as int);
    let mut i = from;
    while i < to && is_digit_char(s.get_char(i))
        invariant
            from <= i <= to,
            to <= s@.len(),
            m == s@.subrange(from as int, to as int),
            all_digits(m.take(i - from)),
        decreases to - i,
    {
        proof {
            assert(m[i - from] == s@[i as int]);
            lemma_all_digits_extend(m, i - from);
        }
        i = i + 1;
    }
    let w = i - from;
    let mut has_point = false;
    if i < to && s.get_char(i) == '.' {
        has_point = true;
        i = i + 1;
        let ghost f = m.skip(w + 1);
        while i < to && is_digit_char(s.get_char(i))
            invariant
                from + w + 1 <= i <= to,
                to <= s@.len(),
                m == s@.subrange(from as int, to as int),
                f == m.skip(w + 1),
                all_digits(f.take(i - from - w - 1)),
            decreases to - i,
        {
            proof {
                assert(f[i - from - w - 1] == s@[i as int]);
                lemma_all_digits_extend(f, i - from - w - 1);
            }
            i = i + 1;
        }
    }
    if i != to {
        proof {
            assert(m[i - from] == s@[i as int]);
            if has_point {
                assert(m[w as int] == '.');
            }
            lemma_not_shape_at(m, (i - from) as int, w as int, has_point);
        }
        return None;
    }
    let len = to - from;
    if len == 0 || (has_point && len == 1) {
        proof {
            if has_point {
                assert(m[0] == '.');
                assert(!is_digit(m[0]));
            }
        }
        return None;
    }
    proof {
        if has_point {
            assert(m[w as int] == '.');
            assert(m.take(w as int) =~= m.take(w as int));
            assert(m.skip(w + 1) =~= m.skip(w + 1).take(to - from - w - 1));
            assert(is_point_at(m, w as int));
            assert(!all_digits(m)) by {
                assert(!is_digit(m[w as int]));
            }
            let p = point_index(m);
            lemma_point_unique(m, p, w as int);
        } else {
            assert(m.take(w as int) =~= m);
        }
    }
    Some((w, has_point))
}

/// Whether a character is a decimal digit.
fn is_digit_char(c: char) -> (r: bool)
    ensures
        r == is_digit(c),
{
    '0' <= c && c <= '9'
}

/// Exponents are tracked exactly up to this bound, far above any text length.
pub const EXP_CAP: u128 = 0x40_0000_0000_0000_0000;

/// The exponent `s@[from..to]`, held within `EXP_CAP` on either side, when it
/// is one.
fn exponent_of(s: &str, from: usize, to: usize) -> (r: Option<i128>)
    requires
        from <= to <= s@.len(),
    ensures
        r is Some <==> is_exponent_text(s@.subrange(from as int, to as int)),
        r matches Some(e) ==> ({
            let v = exponent_value(s@.subrange(from as int, to as int));
            &&& (-(EXP_CAP as int) < v < EXP_CAP as int ==> e == v)
            &&& (v >= EXP_CAP as int ==> e == EXP_CAP as int)
            &&& (v <= -(EXP_CAP as int) ==> e == -(EXP_CAP as int))
        }),
{
    let ghost x = s@.subrange(from as int, to as int);
    let mut i = from;
    let mut neg = false;
    if i < to {
        let c = s.get_char(i);
        if c == '-' || c == '+' {
            neg = c == '-';
            i = i + 1;
        }
    }
    let start = i;
    let ghost u = x.skip(start - from);
    proof {
        assert(start - from == sign_len(x));
        assert(u =~= unsigned_part(x));
        assert(neg == is_negative_text(x));
    }
    if start == to {
        return None;
    }
    let mut v: u128 = 0;
    while i < to
        invariant
            from <= start <= i <= to,
            to <= s@.len(),
            x == s@.subrange(from as int, to as int),
            u == x.skip(start - from),
            u == unsigned_part(x),
            all_digits(u.take(i - start)),
            v as int == (if digits_value(u.take(i - start)) < EXP_CAP as int {
                digits_value(u.take(i - start))
            } else {
                EXP_CAP as int
            }),
        decreases to - i,
    {
        let c = s.get_char(i);
        let ghost k = i - start;
        proof {
            assert(u[k] == s@[i as int]);
        }
        if !is_digit_char(c) {
            proof {
                assert(!all_digits(u)) by {
                    assert(!is_digit(u[k]));
                }
            }
            return None;
        }
        let d = (c as u32) - ('0' as u32);
        proof {
            lemma_digits_value_take_step(u, k);
            lemma_digits_value_nonneg(u.take(k));
            lemma_cap_step(digits_value(u.take(k)), d as int, EXP_CAP as int);
            lemma_all_digits_extend(u, k);
        }
        let next = v * 10 + d as u128;
        v = if next < EXP_CAP {
            next
        } else {
            EXP_CAP
        };
        i = i + 1;
    }
    proof {
        assert(u.take(to - start) =~= u);
        lemma_digits_value_nonneg(u);
    }
    if neg {
        Some(-(v as i128))
    } else {
        Some(v as i128)
    }
}

/// Values of digit strings are tracked exactly up to this bound, above any
/// `i64` count of units.
pub const VALUE_CAP: u128 = 100_000_000_000_000_000_000;

/// The value, held at `VALUE_CAP`, of the first `len` digits of the decimal
/// `s@[from..to]` with `w` whole digits (`point` telling whether a point
/// follows them).
fn digits_prefix_value(s: &str, from: usize, to: usize, w: usize, point: bool, len: usize) -> (r: u128)
    requires
        from <= to <= s@.len(),
        w <= to - from,
        point ==> w < to - from,
        !point ==> w == to - from,
        ({
            let m = s@.subrange(from as int, to as int);
            let d = m.take(w as int) + (if point { m.skip(w + 1) } else { Seq::<char>::empty() });
            &&& all_digits(d)
            &&& len <= d.len()
        }),
    ensures
        ({
            let m = s@.subrange(from as int, to as int);
            let d = m.take(w as int) + (if point { m.skip(w + 1) } else { Seq::<char>::empty() });
            r as int == (if digits_value(d.take(len as int)) < VALUE_CAP as int {
                digits_value(d.take(len as int))
            } else {
                VALUE_CAP as int
            })
        }),
{
    let ghost m = s@.subrange(from as int, to as int);
    let ghost d = m.take(w as int) + (if point { m.skip(w + 1) } else { Seq::<char>::empty() });
    let mut v: u128 = 0;
    let mut k: usize = 0;
    while k < len
        invariant
            k <= len <= d.len(),
            from <= to <= s@.len(),
            w <= to - from,
            point ==> w < to - from,
            !point ==> w == to - from,
            m == s@.subrange(from as int, to as int),
            d == m.take(w as int) + (if point { m.skip(w + 1) } else { Seq::<char>::empty() }),
            all_digits(d),
            v as int == (if digits_value(d.take(k as int)) < VALUE_CAP as int {
                digits_value(d.take(k as int))
            } else {
                VALUE_CAP as int
            }),
        decreases len - k,
    {
        let pos = if k < w {
            from + k
        } else {
            from + k + 1
        };
        let c = s.get_char(pos);
        proof {
            if k < w {
                assert(d[k as int] == m[k as int]);
            } else {
                assert(d[k as int] == m.skip(w + 1)[k - w]);
            }
            assert(c == d[k as int]);
            assert(is_digit(d[k as int]));
            lemma_digits_value_take_step(d, k as int);
            lemma_digits_value_nonneg(d.take(k as int));
            lemma_cap_step(digits_value(d.take(k as int)), digit_of(c), VALUE_CAP as int);
        }
        let digit = (c as u32) - ('0' as u32);
        let next = v * 10 + digit as u128;
        v = if next < VALUE_CAP {
            next
        } else {
            VALUE_CAP
        };
        k = k + 1;
    }
    v
}

proof fn lemma_pow10_20()
    ensures
        pow10_spec(20) == 100_000_000_000_000_000_000int,
{
    reveal_with_fuel(pow10_spec, 21);
}

proof fn lemma_pow10_19()
    ensures
        pow10_spec(19) == 10_000_000_000_000_000_000int,
{
    reveal_with_fuel(pow10_spec, 20);
}

/// Reads a text whose first exponent mark is at `j`.
#[verifier::spinoff_prover]
#[verifier::rlimit(60)]
fn parse_exponent_form(s: &str, j: usize) -> (r: Option<i64>)
    requires
        j < s@.len(),
        is_e(s@[j as int]),
        forall|k: int| 0 <= k < j ==> !is_e(#[trigger] s@[k]),
    ensures
        r is Some <==> parsed_units(s@) is Some,
        r is Some ==> r->0 as int == parsed_units(s@)->0,
{
    let ghost cs = s@;
    let n = s.unicode_len();
    let mut sl: usize = 0;
    let mut neg = false;
    let c0 = s.get_char(0);
    if c0 == '-' || c0 == '+' {
        neg = c0 == '-';
        sl = 1;
    }
    let ghost b = cs.skip(sl as int);
    proof {
        assert(sl as int == sign_len(cs));
        assert(b =~= unsigned_part(cs));
        assert(neg == is_negative_text(cs));
        assert(has_exponent_mark(cs)) by {
            assert(is_e(cs[j as int]));
        }
        if j == 0 {
            assert(sl == 0);
        }
    }
    let ghost i = j - sl;
    proof {
        assert forall|i2: int| is_exp_at(b, i2) implies i2 == i by {
            assert(b[i2] == cs[i2 + sl]);
            if i2 + sl > j {
                lemma_shape_chars(b.take(i2));
                assert(b.take(i2)[i] == b[i]);
                assert(b[i] == cs[j as int]);
            }
        }
        assert(b.take(i) =~= cs.subrange(sl as int, j as int));
        assert(b.skip(i + 1) =~= cs.subrange(j + 1, n as int));
    }
    let (w, point) = match mantissa_shape(s, sl, j) {
        None => {
            return None;
        },
        Some(v) => v,
    };
    let e = match exponent_of(s, j + 1, n) {
        None => {
            return None;
        },
        Some(e) => e,
    };
    let ghost m = cs.subrange(sl as int, j as int);
    let ghost d = mantissa_digits(m);
    let ghost ev = exponent_value(cs.subrange(j + 1, n as int));
    proof {
        assert(is_exp_at(b, i));
        let c = choose|i2: int| is_exp_at(b, i2);
        assert(c == i);
        assert(d =~= m.take(w as int) + (if point { m.skip(w + 1) } else { Seq::<char>::empty() }));
        lemma_all_digits_concat(whole_digits(m), fraction_digits(m));
    }
    let m_len = j - sl;
    let f: usize = if point {
        m_len - w - 1
    } else {
        0
    };
    let dl: usize = w + f;
    let sc: i128 = e - (f as i128) + 8;
    let ghost st = ev - f + 8;
    proof {
        assert(fraction_digits(m).len() == f);
        assert(d.len() == dl);
        assert(exponent_magnitude(b, i) == scaled_units(d, st));
        lemma_digits_value_bound(d);
        lemma_digits_value_nonneg(d);
    }
    let mut mag: u128 = 0;
    if sc >= 0 {
        let v = digits_prefix_value(s, sl, j, w, point, dl);
        proof {
            assert(d.take(dl as int) =~= d);
        }
        if v == 0 {
            proof {
                assert(digits_value(d) == 0);
                if st >= 0 {
                    assert(scaled_units(d, st) == 0);
                } else {
                    assert(scaled_units(d, st) == 0);
                }
            }
            mag = 0;
        } else if sc > 19 {
            proof {
                assert(st >= sc);
                lemma_pow10_le(20, st as nat);
                lemma_pow10_20();
                let p = pow10_spec(st as nat);
                assert(digits_value(d) * p >= p) by (nonlinear_arith)
                    requires
                        digits_value(d) >= 1,
                        p >= 1,
                ;
            }
            return None;
        } else {
            proof {
                assert(st == sc);
                lemma_pow10_step(st as nat);
            }
            if v > i64::MAX as u128 {
                proof {
                    let p = pow10_spec(st as nat);
                    assert(digits_value(d) * p >= digits_value(d)) by (nonlinear_arith)
                        requires
                            digits_value(d) >= 0,
                            p >= 1,
                    ;
                }
                return None;
            }
            let p = pow10(sc as u32);
            proof {
                lemma_pow10_le(sc as nat, 19);
                lemma_pow10_19();
                assert(v as int * p as int <= 0x7fff_ffff_ffff_ffff * 10_000_000_000_000_000_000int)
                    by (nonlinear_arith)
                    requires
                        v <= 0x7fff_ffff_ffff_ffff,
                        p <= 10_000_000_000_000_000_000int,
                ;
            }
            mag = v * p;
            if mag > i64::MAX as u128 {
                return None;
            }
        }
    } else {
        let k: i128 = -sc;
        if k > dl as i128 {
            proof {
                assert(st <= sc);
                lemma_pow10_le(dl as nat, (-st) as nat);
                assert(digits_value(d) / pow10_spec((-st) as nat) == 0) by (nonlinear_arith)
                    requires
                        0 <= digits_value(d) < pow10_spec(dl as nat),
                        pow10_spec(dl as nat) <= pow10_spec((-st) as nat),
                ;
            }
            mag = 0;
        } else {
            proof {
                assert(st == sc);
            }
            let keep = dl - (k as usize);
            let v = digits_prefix_value(s, sl, j, w, point, keep);
            proof {
                lemma_digits_prefix_div(d, k as nat);
            }
            if v > i64::MAX as u128 {
                return None;
            }
            mag = v;
        }
    }
    if neg {
        Some(-(mag as i64))
    } else {
        Some(mag as i64)
    }
}

proof fn lemma_all_digits_concat(a: Seq<char>, b: Seq<char>)
    requires
        all_digits(a),
        all_digits(b),
    ensures
        all_digits(a + b),
{
    assert forall|i: int| 0 <= i < (a + b).len() implies is_digit(#[trigger] (a + b)[i]) by {
        if i < a.len() {
            assert((a + b)[i] == a[i]);
        } else {
            assert((a + b)[i] == b[i - a.len()]);
        }
    }
}

/// Reads a decimal text into units of 10^-8 (`parsed_units`): an optional
/// sign, digits with an optional point (at least one digit), and an optional
/// exponent (`e` or `E`, an optional sign, digits), rounded toward zero.
/// `None` when the text is no such number or its magnitude does not fit into
/// an `i64`.
pub fn parse_units(s: &str) -> (r: Option<i64>)
    ensures
        r is Some <==> parsed_units(s@) is Some,
        r is Some ==> r->0 as int == parsed_units(s@)->0,
{
    let n = s.unicode_len();
    let mut j: usize = 0;
    while j < n && !is_exponent_mark(s.get_char(j))
        invariant
            j <= n,
            n == s@.len(),
            forall|k: int| 0 <= k < j ==> !is_e(#[trigger] s@[k]),
        decreases n - j,
    {
        j = j + 1;
    }
    if j == n {
        proof {
            assert(!has_exponent_mark(s@));
        }
        return parse_plain_units(s);
    }
    parse_exponent_form(s, j)
}

proof fn lemma_all_digits_extend(s: Seq<char>, k: int)
    requires
        0 <= k < s.len(),
        all_digits(s.take(k)),
        is_digit(s[k]),
    ensures
        all_digits(s.take(k + 1)),
{
    assert forall|j: int| 0 <= j < s.take(k + 1).len() implies is_digit(#[trigger] s.take(k + 1)[j]) by {
        if j < k {
            assert(s.take(k + 1)[j] == s.take(k)[j]);
        }
    }
}

proof fn lemma_all_digits_fraction8(f: Seq<char>)
    requires
        all_digits(f),
    ensures
        all_digits(fraction8(f)),
{
    assert forall|j: int| 0 <= j < fraction8(f).len() implies is_digit(#[trigger] fraction8(f)[j]) by {
        if j < f.len() {
            assert(is_digit(f[j]));
        }
    }
}

proof fn lemma_pow10_le(a: nat, b: nat)
    requires
        a <= b,
    ensures
        pow10_spec(a) <= pow10_spec(b),
    decreases b - a,
{
    if a < b {
        lemma_pow10_le(a, (b - 1) as nat);
        lemma_pow10_step((b - 1) as nat);
    }
}

proof fn lemma_pow10_8()
    ensures
        pow10_spec(8) == 100_000_000,
{
    reveal_with_fuel(pow10_spec, 9);
}

pub open spec fn pow10_spec(k: nat) -> int
    decreases k,
{
    if k == 0 {
        1
    } else {
        10 * pow10_spec((k - 1) as nat)
    }
}

proof fn lemma_pow10_step(k: nat)
    ensures
        pow10_spec(k + 1) == 10 * pow10_spec(k),
        pow10_spec(k) >= 1,
    decreases k,
{
    if k > 0 {
        lemma_pow10_step((k - 1) as nat);
    }
}

proof fn lemma_digits_value_bound(s: Seq<char>)
    requires
        all_digits(s),
    ensures
        0 <= digits_value(s) <= pow10_spec(s.len()) - 1,
    decreases s.len(),
{
    if s.len() > 0 {
        assert(all_digits(s.drop_last())) by {
            assert forall|i: int| 0 <= i < s.drop_last().len() implies is_digit(
                #[trigger] s.drop_last()[i],
            ) by {
                assert(is_digit(s[i]));
            }
        }
        lemma_digits_value_bound(s.drop_last());
        assert(is_digit(s[s.len() - 1]));
        lemma_pow10_step((s.len() - 1) as nat);
    } else {
        reveal_with_fuel(pow10_spec, 1);
    }
}

/// Reading stopped at `b[k]` before the end: `b` is no decimal.
proof fn lemma_not_shape_at(b: Seq<char>, k: int, wk: int, has_point: bool)
    requires
        0 <= wk <= k < b.len(),
        all_digits(b.take(wk)),
        !is_digit(b[wk]),
        !has_point ==> k == wk && b[wk] != '.',
        has_point ==> b[wk] == '.' && k > wk && all_digits(b.skip(wk + 1).take(k - wk - 1))
            && !is_digit(b[k]),
    ensures
        !is_decimal_shape(b),
{
    if b.len() > 0 && all_digits(b) {
        assert(is_digit(b[wk]));
    }
    if exists|i: int| is_point_at(b, i) {
        let i = choose|i: int| is_point_at(b, i);
        if i < wk {
            assert(b.take(wk)[i] == b[i]);
            assert(is_digit(b.take(wk)[i]));
        } else if i > wk {
            assert(b.take(i)[wk] == b[wk]);
            assert(is_digit(b.take(i)[wk]));
        } else {
            // i == wk: the point is where the whole part ended
            assert(has_point);
            assert(b.skip(i + 1)[k - i - 1] == b[k]);
            assert(is_digit(b.skip(i + 1)[k - i - 1]));
        }
    }
}


/// The decimal digit character for `d` in `0..10`.
pub open spec fn digit_char(d: int) -> char {
    if d == 0 {
        '0'
    } else if d == 1 {
        '1'
    } else if d == 2 {
        '2'
    } else if d == 3 {
        '3'
    } else if d == 4 {
        '4'
    } else if d == 5 {
        '5'
    } else if d == 6 {
        '6'
    } else if d == 7 {
        '7'
    } else if d == 8 {
        '8'
    } else {
        '9'
    }
}

/// The decimal digits of `n`, without leading zeros.
pub open spec fn nat_text(n: nat) -> Seq<char>
    decreases n,
{
    if n < 10 {
        seq![digit_char(n as int)]
    } else {
        nat_text(n / 10).push(digit_char((n % 10) as int))
    }
}

/// The lowest `width` decimal digits of `n`, with leading zeros.
pub open spec fn padded_text(n: nat, width: nat) -> Seq<char>
    decreases width,
{
    if width == 0 {
        Seq::empty()
    } else {
        padded_text(n / 10, (width - 1) as nat).push(digit_char((n % 10) as int))
    }
}

/// An integer in decimal, as `{}` writes it.
pub open spec fn int_text(v: int) -> Seq<char> {
    if v < 0 {
        seq!['-'] + nat_text((-v) as nat)
    } else {
        nat_text(v as nat)
    }
}

pub open spec fn abs_int(v: int) -> nat {
    if v < 0 {
        (-v) as nat
    } else {
        v as nat
    }
}

/// A magnitude in units rounded to `decimals` places, counted in the last
/// kept place: to the nearest, and an exact half to the even neighbour.
pub open spec fn rounded_places(m: nat, decimals: nat) -> nat {
    let d = pow10_spec((8 - decimals) as nat);
    let q = (m as int) / d;
    let r = (m as int) % d;
    if 2 * r > d || (2 * r == d && q % 2 == 1) {
        (q + 1) as nat
    } else {
        q as nat
    }
}

/// The sign written before a number: `-` when negative, `+` when asked for.
pub open spec fn sign_text(v: int, plus: bool) -> Seq<char> {
    if v < 0 {
        seq!['-']
    } else if plus {
        seq!['+']
    } else {
        Seq::empty()
    }
}

/// An amount in units written with `decimals` places (at most eight),
/// rounded to the nearest with ties to even, as `{:.N}` (or `{:+.N}` with `plus`) writes
/// a number.
pub open spec fn fixed_text(v: int, decimals: nat, plus: bool) -> Seq<char> {
    let q = rounded_places(abs_int(v), decimals);
    let p = pow10_spec(decimals) as nat;
    sign_text(v, plus) + nat_text(q / p) + if decimals > 0 {
        seq!['.'] + padded_text(q % p, decimals)
    } else {
        Seq::empty()
    }
}

/// The one-character text of a decimal digit.
pub fn digit_str(d: u8) -> (r: &'static str)
    requires
        d < 10,
    ensures
        r@ == seq![digit_char(d as int)],
{
    if d == 0 {
        proof { reveal_strlit("0"); }
        "0"
    } else if d == 1 {
        proof { reveal_strlit("1"); }
        "1"
    } else if d == 2 {
        proof { reveal_strlit("2"); }
        "2"
    } else if d == 3 {
        proof { reveal_strlit("3"); }
        "3"
    } else if d == 4 {
        proof { reveal_strlit("4"); }
        "4"
    } else if d == 5 {
        proof { reveal_strlit("5"); }
        "5"
    } else if d == 6 {
        proof { reveal_strlit("6"); }
        "6"
    } else if d == 7 {
        proof { reveal_strlit("7"); }
        "7"
    } else if d == 8 {
        proof { reveal_strlit("8"); }
        "8"
    } else {
        proof { reveal_strlit("9"); }
        "9"
    }
}

/// Writes a natural number in decimal.
pub fn format_nat(n: u128) -> (r: String)
    ensures
        r@ == nat_text(n as nat),
    decreases n,
{
    if n < 10 {
        let mut s = String::new();
        s.append(digit_str(n as u8));
        proof {
            assert(s@ =~= nat_text(n as nat));
        }
        s
    } else {
        let mut s = format_nat(n / 10);
        s.append(digit_str((n % 10) as u8));
        proof {
            assert(s@ =~= nat_text(n as nat));
        }
        s
    }
}

/// Writes the lowest `width` digits of `n`, with leading zeros.
pub fn format_padded(n: u128, width: u32) -> (r: String)
    ensures
        r@ == padded_text(n as nat, width as nat),
    decreases width,
{
    if width == 0 {
        let s = String::new();
        proof {
            assert(s@ =~= padded_text(n as nat, width as nat));
        }
        s
    } else {
        let mut s = format_padded(n / 10, width - 1);
        s.append(digit_str((n % 10) as u8));
        proof {
            assert(s@ =~= padded_text(n as nat, width as nat));
        }
        s
    }
}

/// Writes an integer in decimal, as `{}` does.
pub fn format_int(v: i128) -> (r: String)
    ensures
        r@ == int_text(v as int),
{
    if v < 0 {
        let m: u128 = if v == i128::MIN {
            (i128::MAX as u128) + 1
        } else {
            (-v) as u128
        };
        let mut s = String::new();
        proof { reveal_strlit("-"); }
        s.append("-");
        let digits = format_nat(m);
        s.append(digits.as_str());
        proof {
            assert(s@ =~= int_text(v as int));
        }
        s
    } else {
        format_nat(v as u128)
    }
}

pub fn pow10(k: u32) -> (r: u128)
    requires
        k <= 38,
    ensures
        r as int == pow10_spec(k as nat),
    decreases k,
{
    if k == 0 {
        1
    } else {
        let p = pow10(k - 1);
        proof {
            lemma_pow10_le((k - 1) as nat, 37);
            lemma_pow10_37();
        }
        p * 10
    }
}

proof fn lemma_pow10_37()
    ensures
        pow10_spec(37) == 10_000_000_000_000_000_000_000_000_000_000_000_000int,
{
    reveal_with_fuel(pow10_spec, 38);
}

/// Writes an amount in units with `decimals` places, rounded to the nearest
/// with ties to even; with `plus` a non-negative amount gets a leading `+`.
pub fn format_units(v: i128, decimals: u32, plus: bool) -> (r: String)
    requires
        decimals <= 8,
    ensures
        r@ == fixed_text(v as int, decimals as nat, plus),
{
    let m: u128 = if v >= 0 {
        v as u128
    } else if v == i128::MIN {
        (i128::MAX as u128) + 1
    } else {
        (-v) as u128
    };
    let d = pow10(8 - decimals);
    proof {
        lemma_pow10_8();
        lemma_pow10_le((8 - decimals) as nat, 8);
        lemma_pow10_step((8 - decimals) as nat);
        lemma_pow10_step(decimals as nat);
    }
    let whole_part = m / d;
    let rest = m % d;
    proof {
        assert(0 <= rest < d);
        if d >= 2 {
            assert(whole_part <= m / 2) by (nonlinear_arith)
                requires
                    d >= 2,
                    whole_part == m / d,
            ;
        }
    }
    let q = if rest > d - rest || (rest == d - rest && whole_part % 2 == 1) {
        whole_part + 1
    } else {
        whole_part
    };
    let p = pow10(decimals);
    let mut s = String::new();
    if v < 0 {
        proof { reveal_strlit("-"); }
        s.append("-");
    } else if plus {
        proof { reveal_strlit("+"); }
        s.append("+");
    }
    proof {
        assert(s@ =~= sign_text(v as int, plus));
    }
    let whole = format_nat(q / p);
    s.append(whole.as_str());
    if decimals > 0 {
        proof { reveal_strlit("."); }
        s.append(".");
        let frac = format_padded(q % p, decimals);
        s.append(frac.as_str());
    }
    proof {
        assert(abs_int(v as int) == m as nat);
        assert(s@ =~= fixed_text(v as int, decimals as nat, plus));
    }
    s
}

/// Reads a decimal text into units, or 0 where it is no number.
pub fn units_or_zero_of(s: &str) -> (r: i64)
    ensures
        r as int == units_or_zero(s@),
{
    match parse_units(s) {
        Some(v) => v,
        None => 0,
    }
}

/// Reads a decimal text into non-negative units: 0 where it is no number
/// or negative.
pub fn amount_of(s: &str) -> (r: u64)
    ensures
        r as int == amount_or_zero(s@),
{
    match parse_units(s) {
        Some(v) => if v >= 0 {
            v as u64
        } else {
            0
        },
        None => 0,
    }
}

/// Whether two texts are equal.
pub fn same_text(a: &str, b: &str) -> (r: bool)
    ensures
        r == (a@ == b@),
{
    let x = a.to_owned();
    let y = b.to_owned();
    x == y
}
/// Floor division of a signed numerator by a positive denominator.
pub fn floor_div(n: i128, d: i128) -> (r: i128)
    requires
        d > 0,
        n > i128::MIN,
    ensures
        r as int == (n as int) / (d as int),
{
    if n >= 0 {
        n / d
    } else {
        let m = -n;
        let q = m / d;
        let rem = m % d;
        proof {
            let mi = m as int;
            let di = d as int;
            assert(mi == di * (mi / di) + mi % di) by (nonlinear_arith)
                requires
                    di > 0,
            ;
            assert((-mi) / di == if mi % di == 0 { -(mi / di) } else { -(mi / di) - 1 }) by (nonlinear_arith)
                requires
                    di > 0,
                    mi >= 0,
                    mi == di * (mi / di) + mi % di,
                    0 <= mi % di < di,
            {
                if mi % di == 0 {
                    assert(-mi == di * (-(mi / di)));
                } else {
                    assert(-mi == di * (-(mi / di) - 1) + (di - mi % di));
                }
            }
        }
        if rem == 0 {
            -q
        } else {
            -q - 1
        }
    }
}

/// `n` copies of a character.
pub open spec fn repeat_char(c: char, n: nat) -> Seq<char> {
    Seq::new(n, |i: int| c)
}

/// A text right-aligned in `width` characters, filled on the left with
/// `fill`, as `{:>N}` (or `{:F>N}`) writes it; a longer text is kept whole.
pub open spec fn pad_left(t: Seq<char>, width: nat, fill: char) -> Seq<char> {
    if t.len() >= width {
        t
    } else {
        repeat_char(fill, (width - t.len()) as nat) + t
    }
}

/// A text left-aligned in `width` characters, filled on the right with
/// spaces, as `{:N}` writes a text; a longer text is kept whole.
pub open spec fn pad_right(t: Seq<char>, width: nat) -> Seq<char> {
    if t.len() >= width {
        t
    } else {
        t + repeat_char(' ', (width - t.len()) as nat)
    }
}

/// Appends `n` copies of the one-character text `fill`.
fn append_fill(s: &mut String, fill: &str, n: usize)
    requires
        fill@.len() == 1,
    ensures
        final(s)@ == old(s)@ + repeat_char(fill@[0], n as nat),
{
    let mut k: usize = 0;
    while k < n
        invariant
            fill@.len() == 1,
            k <= n,
            s@ == old(s)@ + repeat_char(fill@[0], k as nat),
        decreases n - k,
    {
        s.append(fill);
        k = k + 1;
        assert(s@ =~= old(s)@ + repeat_char(fill@[0], k as nat));
    }
}

/// Right-aligns a text in `width` characters, filling with the
/// one-character text `fill`.
pub fn pad_left_text(t: &str, width: usize, fill: &str) -> (r: String)
    requires
        fill@.len() == 1,
    ensures
        r@ == pad_left(t@, width as nat, fill@[0]),
{
    let n = t.unicode_len();
    let mut s = String::new();
    if n < width {
        append_fill(&mut s, fill, width - n);
    }
    s.append(t);
    assert(s@ =~= pad_left(t@, width as nat, fill@[0]));
    s
}

/// Left-aligns a text in `width` characters, filling with spaces.
pub fn pad_right_text(t: &str, width: usize) -> (r: String)
    ensures
        r@ == pad_right(t@, width as nat),
{
    let n = t.unicode_len();
    let mut s = t.to_owned();
    if n < width {
        proof { reveal_strlit(" "); }
        append_fill(&mut s, " ", width - n);
    }
    assert(s@ =~= pad_right(t@, width as nat));
    s
}

proof fn lemma_digit_char(d: int)
    requires
        0 <= d < 10,
    ensures
        is_digit(digit_char(d)),
        digit_of(digit_char(d)) == d,
{
}

/// The digits of `n` are digits, at least one, and read back as `n`.
proof fn lemma_nat_text(n: nat)
    ensures
        all_digits(nat_text(n)),
        nat_text(n).len() >= 1,
        digits_value(nat_text(n)) == n,
    decreases n,
{
    if n < 10 {
        lemma_digit_char(n as int);
        assert(nat_text(n).drop_last() =~= Seq::<char>::empty());
        assert(digits_value(Seq::<char>::empty()) == 0);
    } else {
        lemma_nat_text(n / 10);
        lemma_digit_char((n % 10) as int);
        let t = nat_text(n);
        assert(t.drop_last() =~= nat_text(n / 10));
        assert(t.last() == digit_char((n % 10) as int));
        assert(digits_value(t) == (n / 10) * 10 + n % 10);
        assert forall|i: int| 0 <= i < t.len() implies is_digit(#[trigger] t[i]) by {
            if i < t.len() - 1 {
                assert(t[i] == nat_text(n / 10)[i]);
            }
        }
    }
}

/// The `w` padded digits of `n` are `w` digits that read back as
/// `n mod 10^w`.
proof fn lemma_padded_text(n: nat, w: nat)
    ensures
        all_digits(padded_text(n, w)),
        padded_text(n, w).len() == w,
        digits_value(padded_text(n, w)) == n % (pow10_spec(w) as nat),
    decreases w,
{
    lemma_pow10_step(w);
    if w == 0 {
        assert(pow10_spec(0) == 1);
    } else {
        let w1 = (w - 1) as nat;
        lemma_padded_text(n / 10, w1);
        lemma_digit_char((n % 10) as int);
        lemma_pow10_step(w1);
        let t = padded_text(n, w);
        assert(t.drop_last() =~= padded_text(n / 10, w1));
        assert forall|i: int| 0 <= i < t.len() implies is_digit(#[trigger] t[i]) by {
            if i < t.len() - 1 {
                assert(t[i] == padded_text(n / 10, w1)[i]);
            }
        }
        let pp = pow10_spec(w1);
        let a = (n / 10) as int;
        let r = (n % 10) as int;
        let qa = a / pp;
        let sa = a % pp;
        assert(n as int == 10 * a + r);
        assert(a == pp * qa + sa) by (nonlinear_arith)
            requires
                pp > 0,
                qa == a / pp,
                sa == a % pp,
        ;
        assert(0 <= sa < pp);
        assert(n as int == qa * (10 * pp) + (10 * sa + r)) by (nonlinear_arith)
            requires
                n as int == 10 * a + r,
                a == pp * qa + sa,
        ;
        vstd::arithmetic::div_mod::lemma_fundamental_div_mod_converse(n as int, 10 * pp, qa, 10 * sa + r);
        assert(pow10_spec(w) == 10 * pp);
    }
}

/// What `format_units` writes with eight places and no plus sign,
/// `parse_units` reads back: the text is a decimal number whose value in
/// units is the amount written (every `i64` amount but the lowest, whose
/// magnitude does not fit into an `i64`).
pub proof fn lemma_format_parse_round_trip(v: int)
    requires
        i64::MIN < v <= i64::MAX,
    ensures
        parsed_units(fixed_text(v, 8, false)) == Some(v),
{
    lemma_plain_round_trip(v);
    lemma_fixed_text_no_exponent(v, 8, false);
}

/// Written amounts hold no exponent mark.
proof fn lemma_fixed_text_no_exponent(v: int, decimals: nat, plus: bool)
    ensures
        !has_exponent_mark(fixed_text(v, decimals, plus)),
{
    let q = rounded_places(abs_int(v), decimals);
    let p = pow10_spec(decimals) as nat;
    let wt = nat_text(q / p);
    lemma_nat_text(q / p);
    lemma_padded_text(q % p, decimals);
    let ft = padded_text(q % p, decimals);
    let sg = sign_text(v, plus);
    let tail = if decimals > 0 { seq!['.'] + ft } else { Seq::<char>::empty() };
    let t = fixed_text(v, decimals, plus);
    assert(t =~= sg + wt + tail);
    assert forall|k: int| 0 <= k < t.len() implies !is_e(#[trigger] t[k]) by {
        if k < sg.len() {
            assert(t[k] == sg[k]);
        } else if k < sg.len() + wt.len() {
            assert(t[k] == wt[k - sg.len()]);
            assert(is_digit(wt[k - sg.len()]));
        } else {
            let kt = k - sg.len() - wt.len();
            assert(t[k] == tail[kt]);
            if kt > 0 {
                assert(tail[kt] == ft[kt - 1]);
                assert(is_digit(ft[kt - 1]));
            }
        }
    }
}

/// The plain form of `lemma_format_parse_round_trip`.
proof fn lemma_plain_round_trip(v: int)
    requires
        i64::MIN < v <= i64::MAX,
    ensures
        plain_units(fixed_text(v, 8, false)) == Some(v),
{
    let m = abs_int(v);
    lemma_pow10_8();
    assert(pow10_spec(0) == 1) by {
        reveal_with_fuel(pow10_spec, 1);
    }
    assert(rounded_places(m, 8) == m);
    let p: nat = 100_000_000;
    let whole: nat = m / p;
    let frac: nat = m % p;
    lemma_nat_text(whole);
    lemma_padded_text(frac, 8);
    let wt = nat_text(whole);
    let ft = padded_text(frac, 8);
    let b = wt + seq!['.'] + ft;
    let t = fixed_text(v, 8, false);
    assert(t =~= sign_text(v, false) + b);
    let k = wt.len() as int;
    // the unsigned part is `b`
    if v < 0 {
        assert(t[0] == '-');
        assert(unsigned_part(t) =~= b);
        assert(is_negative_text(t));
    } else {
        assert(t =~= b);
        assert(is_digit(wt[0]));
        assert(t[0] == wt[0]);
        assert(unsigned_part(t) =~= b);
        assert(!is_negative_text(t));
    }
    // `b` has its point right after the whole digits
    assert(b.take(k) =~= wt);
    assert(b.skip(k + 1) =~= ft);
    assert(b[k] == '.');
    assert(is_point_at(b, k));
    assert(is_decimal_shape(b));
    assert(!all_digits(b)) by {
        assert(!is_digit(b[k]));
    }
    let i = point_index(b);
    lemma_point_unique(b, i, k);
    assert(whole_digits(b) == wt);
    assert(fraction_digits(b) == ft);
    assert(fraction8(ft) =~= ft);
    assert(magnitude_units(b) == whole * 100_000_000 + frac);
    assert(whole * 100_000_000 + frac == m) by (nonlinear_arith)
        requires
            whole == m / p,
            frac == m % p,
            p == 100_000_000,
    ;
}

} // verus!
