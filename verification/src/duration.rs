//! Human-readable duration strings.
//!
//! The accepted form is one decimal number followed by one unit: digits,
//! optionally `.` and more digits, then one of `ns`, `us` (also the micro
//! sign), `ms`, `s`, `m`, `h`, `d`, `w`, `M` (month, taken as 30.44 days)
//! or `y` (year, taken as 365.25 days).

use vstd::prelude::*;
use vstd::arithmetic::div_mod::{
    lemma_basic_div, lemma_div_denominator, lemma_div_is_ordered, lemma_div_multiples_vanish_fancy,
    lemma_fundamental_div_mod, lemma_hoist_over_denominator, lemma_mod_division_less_than_divisor,
    lemma_mod_pos_bound, lemma_multiply_divide_lt,
};
use vstd::arithmetic::mul::{
    lemma_mul_inequality, lemma_mul_is_commutative, lemma_mul_nonnegative, lemma_mul_upper_bound,
};

verus! {

/// Nanoseconds in one second.
pub const NANOS_PER_SEC: u64 = 1_000_000_000;

/// The largest span a `TimeSpan` can hold, in nanoseconds:
/// `u64::MAX` seconds plus `999_999_999` nanoseconds.
pub const MAX_SPAN_NANOS: u128 = 0xffff_ffff_ffff_ffff * 1_000_000_000 + 999_999_999;

/// The largest unit multiplier (one year), in nanoseconds.
pub const MAX_UNIT_NANOS: u64 = 31_557_600_000_000_000;

/// A non-negative time span: whole seconds plus a nanosecond remainder
/// below one billion.
#[derive(Clone, Copy, PartialEq, Eq, Structural, Debug)]
pub struct TimeSpan {
    pub secs: u64,
    pub nanos: u32,
}

impl TimeSpan {
    pub open spec fn wf(self) -> bool {
        self.nanos < 1_000_000_000
    }

    /// The whole span in nanoseconds.
    pub open spec fn spec_total_nanos(self) -> int {
        self.secs * 1_000_000_000 + self.nanos
    }
}

/// Why a duration string was rejected: not of the accepted form, or a span
/// too long for a `TimeSpan`.
#[derive(Clone, Copy, PartialEq, Eq, Structural, Debug)]
pub enum DurationError {
    Malformed,
    Overflow,
}

/// The multiplier of a unit suffix, in nanoseconds; 0 when the bytes are
/// not a unit.  A month is 30.44 days and a year 365.25 days.
pub open spec fn unit_nanos(u: Seq<u8>) -> int {
    if u.len() == 1 {
        if u[0] == 115 {
            1_000_000_000
        } else if u[0] == 109 {
            60_000_000_000
        } else if u[0] == 104 {
            3_600_000_000_000
        } else if u[0] == 100 {
            86_400_000_000_000
        } else if u[0] == 119 {
            604_800_000_000_000
        } else if u[0] == 77 {
            2_630_016_000_000_000
        } else if u[0] == 121 {
            31_557_600_000_000_000
        } else {
            0
        }
    } else if u.len() == 2 {
        if u[0] == 110 && u[1] == 115 {
            1
        } else if u[0] == 117 && u[1] == 115 {
            1_000
        } else if u[0] == 109 && u[1] == 115 {
            1_000_000
        } else {
            0
        }
    } else if u.len() == 3 {
        // The micro sign, UTF-8 encoded, then 's'.
        if u[0] == 0xc2 && u[1] == 0xb5 && u[2] == 115 {
            1_000
        } else {
            0
        }
    } else {
        0
    }
}

/// An ASCII decimal digit.
pub open spec fn is_digit(b: u8) -> bool {
    48 <= b && b <= 57
}

/// The end of the run of digits that starts at `i`.
pub open spec fn digit_run_end(s: Seq<u8>, i: int) -> int
    recommends
        0 <= i <= s.len(),
    decreases s.len() - i when 0 <= i <= s.len()
{
    if i < s.len() && is_digit(s[i]) {
        digit_run_end(s, i + 1)
    } else {
        i
    }
}

/// The number the digit bytes spell, most significant first.
pub open spec fn digits_val(s: Seq<u8>) -> int
    decreases s.len(),
{
    if s.len() == 0 {
        0
    } else {
        digits_val(s.drop_last()) * 10 + (s.last() - 48)
    }
}

/// Where the integer digits end.
pub open spec fn int_end(s: Seq<u8>) -> int {
    digit_run_end(s, 0)
}

/// Whether a fractional part follows the integer digits.
pub open spec fn has_frac_part(s: Seq<u8>) -> bool {
    int_end(s) < s.len() && s[int_end(s)] == 46
}

/// Where the fractional digits end.
pub open spec fn frac_end(s: Seq<u8>) -> int {
    digit_run_end(s, int_end(s) + 1)
}

/// Where the unit suffix starts.
pub open spec fn unit_start(s: Seq<u8>) -> int {
    if has_frac_part(s) {
        frac_end(s)
    } else {
        int_end(s)
    }
}

/// The integer digits.
pub open spec fn int_digits(s: Seq<u8>) -> Seq<u8> {
    s.subrange(0, int_end(s))
}

/// The fractional digits (empty when there are none).
pub open spec fn frac_digits(s: Seq<u8>) -> Seq<u8> {
    if has_frac_part(s) {
        s.subrange(int_end(s) + 1, frac_end(s))
    } else {
        Seq::empty()
    }
}

/// The unit suffix.
pub open spec fn unit_part(s: Seq<u8>) -> Seq<u8> {
    s.subrange(unit_start(s), s.len() as int)
}

/// The accepted form: at least one integer digit, a fractional part (if the
/// dot is present) of at least one digit, and then exactly a unit suffix.
pub open spec fn is_valid_duration(s: Seq<u8>) -> bool {
    &&& int_end(s) >= 1
    &&& (has_frac_part(s) ==> frac_end(s) > int_end(s) + 1)
    &&& unit_nanos(unit_part(s)) >= 1
}

/// What the fractional digits contribute, in nanoseconds, for a unit of `m`
/// nanoseconds: `0.d1..dk` times `m`, rounded down.
pub open spec fn frac_nanos(digits: Seq<u8>, m: int) -> int {
    (digits_val(digits) * m) / pow10(digits.len())
}

/// Ten to the `k`.
pub open spec fn pow10(k: nat) -> int
    decreases k,
{
    if k == 0 {
        1
    } else {
        10 * pow10((k - 1) as nat)
    }
}

/// The span a valid duration string denotes, in nanoseconds.
pub open spec fn spec_duration_nanos(s: Seq<u8>) -> int {
    let m = unit_nanos(unit_part(s));
    digits_val(int_digits(s)) * m + frac_nanos(frac_digits(s), m)
}

proof fn lemma_pow10_pos(k: nat)
    ensures
        pow10(k) >= 1,
    decreases k,
{
    if k > 0 {
        lemma_pow10_pos((k - 1) as nat);
    }
}

/// A run of digits spells a number below ten to its length.
proof fn lemma_digits_val_bounds(s: Seq<u8>)
    requires
        forall|j: int| 0 <= j < s.len() ==> is_digit(#[trigger] s[j]),
    ensures
        0 <= digits_val(s) < pow10(s.len()),
    decreases s.len(),
{
    if s.len() > 0 {
        lemma_digits_val_bounds(s.drop_last());
        lemma_pow10_pos((s.len() - 1) as nat);
    }
}

/// Splitting off the most significant digit: `d1..dk` spells
/// `d1 * 10^(k-1)` plus what `d2..dk` spells.
proof fn lemma_digits_val_first(s: Seq<u8>)
    requires
        s.len() >= 1,
    ensures
        digits_val(s) == (s[0] - 48) * pow10((s.len() - 1) as nat)
            + digits_val(s.subrange(1, s.len() as int)),
    decreases s.len(),
{
    let t = s.subrange(1, s.len() as int);
    if s.len() == 1 {
        assert(t =~= Seq::<u8>::empty());
        assert(s.drop_last() =~= Seq::<u8>::empty());
    } else {
        lemma_digits_val_first(s.drop_last());
        assert(s.drop_last().subrange(1, s.drop_last().len() as int) =~= t.drop_last());
        assert(t.last() == s.last());
        // digits_val(s) == digits_val(s.drop_last()) * 10 + (s.last() - 48)
        //               == ((s[0]-48) * pow10(len-2) + digits_val(t.drop_last())) * 10 + (t.last()-48)
        assert(((s[0] - 48) * pow10((s.len() - 2) as nat) + digits_val(t.drop_last())) * 10
            == (s[0] - 48) * (10 * pow10((s.len() - 2) as nat)) + digits_val(t.drop_last()) * 10)
            by (nonlinear_arith);
    }
}

/// For a positive divisor, `a <= x / d` exactly when `a * d <= x`.
proof fn lemma_le_div_iff(a: int, x: int, d: int)
    requires
        d >= 1,
        a >= 0,
        x >= 0,
    ensures
        a <= x / d <==> a * d <= x,
{
    lemma_fundamental_div_mod(x, d);
    lemma_mod_pos_bound(x, d);
    if a * d <= x {
        // a == (a * d) / d <= x / d
        vstd::arithmetic::div_mod::lemma_div_multiples_vanish(a, d);
        lemma_div_is_ordered(a * d, x, d);
    }
    if a <= x / d {
        lemma_mul_inequality(a, x / d, d);
        // (x / d) * d <= x
        assert((x / d) * d == d * (x / d)) by {
            lemma_mul_is_commutative(x / d, d);
        }
    }
}

/// The fractional contribution is non-negative and below one unit.
proof fn lemma_frac_nanos_bounds(digits: Seq<u8>, m: int)
    requires
        m >= 1,
        forall|j: int| 0 <= j < digits.len() ==> is_digit(#[trigger] digits[j]),
    ensures
        0 <= frac_nanos(digits, m) < m,
{
    let p = pow10(digits.len());
    lemma_pow10_pos(digits.len());
    lemma_digits_val_bounds(digits);
    lemma_mul_nonnegative(digits_val(digits), m);
    vstd::arithmetic::div_mod::lemma_div_pos_is_pos(digits_val(digits) * m, p);
    assert(digits_val(digits) * m < p * m) by {
        lemma_mul_inequality(digits_val(digits) + 1, p, m);
        assert((digits_val(digits) + 1) * m == digits_val(digits) * m + m) by (nonlinear_arith);
    }
    lemma_multiply_divide_lt(digits_val(digits) * m, p, m);
}

/// Peeling the most significant fractional digit: the contribution of
/// `d1..dk` is that of `d2..dk`, plus `d1` units, divided by ten.
proof fn lemma_frac_step(digits: Seq<u8>, m: int)
    requires
        digits.len() >= 1,
        m >= 1,
        forall|j: int| 0 <= j < digits.len() ==> is_digit(#[trigger] digits[j]),
    ensures
        frac_nanos(digits, m) == ((digits[0] - 48) * m + frac_nanos(
            digits.subrange(1, digits.len() as int),
            m,
        )) / 10,
{
    let t = digits.subrange(1, digits.len() as int);
    let l = t.len() as nat;
    let p = pow10(l);
    let d0 = digits[0] - 48;
    lemma_pow10_pos(l);
    lemma_digits_val_first(digits);
    assert(forall|j: int| 0 <= j < t.len() ==> is_digit(#[trigger] t[j]));
    lemma_digits_val_bounds(t);
    let v = digits_val(t);
    let q = (v * m) / p;
    let r = (v * m) % p;
    lemma_fundamental_div_mod(v * m, p);
    lemma_mod_pos_bound(v * m, p);
    // digits_val(digits) * m == (d0 * m + q) * p + r
    assert((d0 * p + v) * m == (d0 * m + q) * p + r) by (nonlinear_arith)
        requires
            v * m == q * p + r,
    ;
    // Divide by p first, then by 10.
    lemma_mul_nonnegative(d0 * p + v, m);
    assert(pow10(l + 1) == p * 10) by {
        assert(pow10(l + 1) == 10 * pow10(l));
    }
    lemma_div_denominator((d0 * p + v) * m, p, 10);
    lemma_hoist_over_denominator(r, d0 * m + q, p as nat);
    assert(r / p == 0) by {
        lemma_basic_div(r, p);
    }
    assert(((d0 * p + v) * m) / p == d0 * m + q);
}

fn is_digit_byte(b: u8) -> (r: bool)
    ensures
        r == is_digit(b),
{
    48 <= b && b <= 57
}

/// Recognise the unit suffix `s[start..]` and return its multiplier in
/// nanoseconds.
fn match_unit(s: &Vec<u8>, start: usize) -> (r: Option<u64>)
    requires
        start <= s.len(),
    ensures
        ({
            let u = s@.subrange(start as int, s@.len() as int);
            &&& (r is Some <==> unit_nanos(u) >= 1)
            &&& (r matches Some(m) ==> m == unit_nanos(u) && 1 <= m <= MAX_UNIT_NANOS)
        }),
{
    let k = s.len() - start;
    if k == 1 {
        let b = s[start];
        if b == 115 {
            Some(1_000_000_000)
        } else if b == 109 {
            Some(60_000_000_000)
        } else if b == 104 {
            Some(3_600_000_000_000)
        } else if b == 100 {
            Some(86_400_000_000_000)
        } else if b == 119 {
            Some(604_800_000_000_000)
        } else if b == 77 {
            Some(2_630_016_000_000_000)
        } else if b == 121 {
            Some(31_557_600_000_000_000)
        } else {
            None
        }
    } else if k == 2 {
        let b0 = s[start];
        let b1 = s[start + 1];
        if b0 == 110 && b1 == 115 {
            Some(1)
        } else if b0 == 117 && b1 == 115 {
            Some(1_000)
        } else if b0 == 109 && b1 == 115 {
            Some(1_000_000)
        } else {
            None
        }
    } else if k == 3 {
        let b0 = s[start];
        let b1 = s[start + 1];
        let b2 = s[start + 2];
        if b0 == 0xc2 && b1 == 0xb5 && b2 == 115 {
            Some(1_000)
        } else {
            None
        }
    } else {
        None
    }
}

/// Parse a duration string, given as its bytes.
///
/// Returns the spelled span when the bytes are of the accepted form and the
/// span fits a `TimeSpan`; `Malformed` exactly when they are not of that
/// form, `Overflow` exactly when they are but the span is too long.
pub fn parse_duration(s: &Vec<u8>) -> (r: Result<TimeSpan, DurationError>)
    ensures
        r is Ok <==> is_valid_duration(s@) && spec_duration_nanos(s@) <= MAX_SPAN_NANOS as int,
        r matches Ok(t) ==> t.wf() && t.spec_total_nanos() == spec_duration_nanos(s@),
        r == Err::<TimeSpan, DurationError>(DurationError::Malformed) <==> !is_valid_duration(
            s@,
        ),
        r == Err::<TimeSpan, DurationError>(DurationError::Overflow) <==> is_valid_duration(s@)
            && spec_duration_nanos(s@) > MAX_SPAN_NANOS as int,
{
    let n = s.len();
    // The run of integer digits.
    let mut ie: usize = 0;
    while ie < n && is_digit_byte(s[ie])
        invariant
            ie <= n,
            n == s.len(),
            forall|j: int| 0 <= j < ie ==> is_digit(#[trigger] s@[j]),
            digit_run_end(s@, 0) == digit_run_end(s@, ie as int),
        decreases n - ie,
    {
        ie = ie + 1;
    }
    assert(int_end(s@) == ie);
    if ie == 0 {
        return Err(DurationError::Malformed);
    }
    // The fractional digits, when a dot follows.
    let mut has_dot = false;
    let mut fs: usize = ie;
    let mut fe: usize = ie;
    if ie < n && s[ie] == 46 {
        has_dot = true;
        fs = ie + 1;
        fe = fs;
        while fe < n && is_digit_byte(s[fe])
            invariant
                fs <= fe <= n,
                n == s.len(),
                forall|j: int| fs <= j < fe ==> is_digit(#[trigger] s@[j]),
                digit_run_end(s@, fs as int) == digit_run_end(s@, fe as int),
            decreases n - fe,
        {
            fe = fe + 1;
        }
        assert(frac_end(s@) == fe);
        if fe == fs {
            return Err(DurationError::Malformed);
        }
    }
    assert(has_dot == has_frac_part(s@));
    // The unit suffix.
    let us: usize = if has_dot {
        fe
    } else {
        ie
    };
    assert(us == unit_start(s@));
    let m: u64 = match match_unit(s, us) {
        Some(m) => m,
        None => {
            return Err(DurationError::Malformed);
        },
    };
    assert(is_valid_duration(s@));
    assert(m == unit_nanos(unit_part(s@)) && 1 <= m <= MAX_UNIT_NANOS);
    // The fractional contribution, folded from the least significant digit:
    // at each step the digit's own contribution joins the tail's and the
    // pair moves down one decimal place.
    let ghost fd = frac_digits(s@);
    let mut acc_f: u64 = 0;
    proof {
        assert(s@.subrange(fe as int, fe as int) =~= Seq::<u8>::empty());
        if !has_dot {
            assert(fd =~= Seq::<u8>::empty());
        }
        assert(digits_val(Seq::<u8>::empty()) == 0);
    }
    let mut k: usize = fe;
    while k > fs
        invariant
            fs <= k <= fe <= n,
            n == s.len(),
            1 <= m <= MAX_UNIT_NANOS,
            forall|j: int| fs <= j < fe ==> is_digit(#[trigger] s@[j]),
            acc_f as int == frac_nanos(s@.subrange(k as int, fe as int), m as int),
            acc_f < m,
        decreases k - fs,
    {
        k = k - 1;
        let d = s[k] - 48;
        proof {
            assert((d as int) * (m as int) <= 9 * (MAX_UNIT_NANOS as int)) by {
                lemma_mul_upper_bound(d as int, 9, m as int, MAX_UNIT_NANOS as int);
            }
            let cur = s@.subrange(k as int, fe as int);
            lemma_frac_step(cur, m as int);
            assert(cur.subrange(1, cur.len() as int) =~= s@.subrange(k + 1, fe as int));
            assert(cur[0] == s@[k as int]);
            assert((d as int) * (m as int) + acc_f <= 10 * (m as int) - 1) by {
                lemma_mul_inequality(d as int, 9, m as int);
            }
            assert((10 * (m as int) - 1) / 10 == m - 1) by {
                lemma_div_multiples_vanish_fancy(m as int - 1, 9, 10);
            }
            lemma_div_is_ordered((d as int) * (m as int) + acc_f, 10 * (m as int) - 1, 10);
        }
        acc_f = ((d as u64) * m + acc_f) / 10;
    }
    proof {
        if has_dot {
            assert(s@.subrange(fs as int, fe as int) =~= fd);
        }
        assert(acc_f as int == frac_nanos(fd, m as int));
    }
    // The integer digits, most significant first; once the prefix already
    // exceeds the largest representable span, only that fact is tracked.
    let ghost id = int_digits(s@);
    let mut acc_i: u128 = 0;
    let mut too_big = false;
    let mut j: usize = 0;
    proof {
        assert(s@.subrange(0, 0) =~= Seq::<u8>::empty());
    }
    while j < ie
        invariant
            j <= ie <= n,
            n == s.len(),
            forall|jj: int| 0 <= jj < ie ==> is_digit(#[trigger] s@[jj]),
            !too_big ==> acc_i as int == digits_val(s@.subrange(0, j as int)),
            too_big ==> digits_val(s@.subrange(0, j as int)) > MAX_SPAN_NANOS as int,
        decreases ie - j,
    {
        let d = s[j] - 48;
        proof {
            let pre = s@.subrange(0, j as int);
            let ext = s@.subrange(0, j + 1 as int);
            assert(ext.drop_last() =~= pre);
            assert(ext.last() == s@[j as int]);
            assert(digits_val(ext) == digits_val(pre) * 10 + (s@[j as int] - 48));
            lemma_digits_val_bounds(pre);
        }
        if !too_big {
            if acc_i > MAX_SPAN_NANOS {
                too_big = true;
            } else {
                acc_i = acc_i * 10 + d as u128;
            }
        }
        j = j + 1;
    }
    proof {
        assert(s@.subrange(0, ie as int) =~= id);
    }
    // Decide whether the whole span fits.
    if too_big || acc_i > MAX_SPAN_NANOS {
        proof {
            assert(digits_val(id) * (m as int) >= digits_val(id)) by (nonlinear_arith)
                requires
                    m >= 1,
                    digits_val(id) >= 0,
            ;
            lemma_digits_val_bounds(id);
            lemma_frac_nanos_bounds(fd, m as int);
        }
        return Err(DurationError::Overflow);
    }
    let budget = (MAX_SPAN_NANOS - acc_f as u128) / (m as u128);
    proof {
        lemma_le_div_iff(acc_i as int, MAX_SPAN_NANOS as int - acc_f as int, m as int);
    }
    if acc_i > budget {
        return Err(DurationError::Overflow);
    }
    let total: u128 = acc_i * (m as u128) + acc_f as u128;
    proof {
        assert((0xffff_ffff_ffff_ffff as int * 1_000_000_000 + 999_999_999) / 1_000_000_000
            == 0xffff_ffff_ffff_ffff as int) by {
            lemma_div_multiples_vanish_fancy(0xffff_ffff_ffff_ffff as int, 999_999_999, 1_000_000_000);
            lemma_mul_is_commutative(0xffff_ffff_ffff_ffff as int, 1_000_000_000);
        }
        lemma_div_is_ordered(total as int, MAX_SPAN_NANOS as int, 1_000_000_000);
        lemma_mod_division_less_than_divisor(total as int, 1_000_000_000);
        vstd::arithmetic::div_mod::lemma_div_pos_is_pos(total as int, 1_000_000_000);
        lemma_mod_pos_bound(total as int, 1_000_000_000);
        lemma_fundamental_div_mod(total as int, 1_000_000_000);
    }
    let secs = (total / (NANOS_PER_SEC as u128)) as u64;
    let nanos = (total % (NANOS_PER_SEC as u128)) as u32;
    Ok(TimeSpan { secs, nanos })
}

} // verus!
