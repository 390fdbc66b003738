//! Modifier values and balance cells.
//!
//! A modifier is a percentage read from the balance source, held exactly as a
//! sign, a mantissa and a decimal denominator. A cell is a running balance,
//! held as a sign and a magnitude in millionths of a percent. Composing a
//! modifier into a cell multiplies the cell by `modifier / 100`, rounding the
//! millionths to nearest (half away from zero) and clamping the magnitude so
//! the arithmetic stays exact within machine bounds.
use vstd::arithmetic::div_mod::{lemma_div_multiples_vanish, lemma_mod_multiples_basic};
use vstd::prelude::*;

verus! {

/// Cell magnitudes count millionths of a percent.
pub const SCALE: u64 = 1000000;

/// Largest mantissa a parsed modifier may carry.
pub const MANT_MAX: u64 = 1000000000000000;

/// Largest decimal denominator a parsed modifier may carry (six fraction digits).
pub const DEN_MAX: u64 = 1000000;

/// Cap on a cell magnitude: one hundred billion percent, far beyond the range
/// the rounded output can express.
pub const BAL_MAX: u64 = 100000000000000000;

/// The rounded output saturates at this magnitude, as a cast to a 32-bit
/// signed integer would.
pub const OUT_CAP: u64 = 2147483647;

/// A percentage modifier: `(-1 if neg) * mant / den` percent.
#[derive(Clone, Copy, Debug)]
pub struct Modifier {
    pub neg: bool,
    pub mant: u64,
    pub den: u64,
}

/// A balance value: `(-1 if neg) * mag / SCALE` percent.
#[derive(Clone, Copy, Debug)]
pub struct Cell {
    pub neg: bool,
    pub mag: u64,
}

impl Modifier {
    /// What every parsed modifier satisfies.
    pub open spec fn wf(self) -> bool {
        self.mant <= MANT_MAX && 1 <= self.den <= DEN_MAX
    }

    /// The modifier an absent rule stands for: exactly 100 percent.
    pub open spec fn spec_neutral() -> Modifier {
        Modifier { neg: false, mant: 100, den: 1 }
    }

    pub fn neutral() -> (r: Modifier)
        ensures
            r == Modifier::spec_neutral(),
    {
        Modifier { neg: false, mant: 100, den: 1 }
    }
}

impl Cell {
    pub open spec fn wf(self) -> bool {
        self.mag <= BAL_MAX && (self.mag == 0 ==> !self.neg)
    }

    /// The starting balance of every pair: exactly 100 percent.
    pub open spec fn spec_neutral() -> Cell {
        Cell { neg: false, mag: (100 * SCALE) as u64 }
    }

    pub fn neutral() -> (r: Cell)
        ensures
            r == Cell::spec_neutral(),
    {
        Cell { neg: false, mag: 100 * 1000000 }
    }
}

/// The magnitude after one composition step: multiply by the modifier's
/// mantissa, divide by 100 times its denominator rounding half up, and clamp.
pub open spec fn spec_step_mag(mag: nat, mant: nat, den: nat) -> nat {
    let x = mag * mant;
    let d = 100 * den;
    let q = x / d;
    let q2 = if 2 * (x % d) >= d {
        q + 1
    } else {
        q
    };
    if q2 > BAL_MAX {
        BAL_MAX as nat
    } else {
        q2
    }
}

/// One composition step: `cell * (modifier / 100)`.
pub open spec fn spec_step(c: Cell, m: Modifier) -> Cell {
    let mag2 = spec_step_mag(c.mag as nat, m.mant as nat, m.den as nat);
    Cell { neg: mag2 > 0 && (c.neg != m.neg), mag: mag2 as u64 }
}

/// Composing the neutral modifier changes nothing: the heart of the
/// neutral-fallback rule.
pub proof fn lemma_step_neutral(c: Cell)
    requires
        c.wf(),
    ensures
        spec_step(c, Modifier::spec_neutral()) == c,
{
    let mag = c.mag as int;
    assert(mag * 100 == 100 * mag) by (nonlinear_arith);
    lemma_div_multiples_vanish(mag, 100);
    lemma_mod_multiples_basic(mag, 100);
    assert(spec_step_mag(c.mag as nat, 100, 1) == c.mag as nat);
    assert(spec_step(c, Modifier::spec_neutral()) == c);
}

pub fn apply_modifier(c: &Cell, m: &Modifier) -> (r: Cell)
    requires
        c.wf(),
        m.wf(),
    ensures
        r == spec_step(*c, *m),
        r.wf(),
{
    proof {
        assert((c.mag as int) * (m.mant as int) <= (BAL_MAX as int) * (MANT_MAX as int))
            by (nonlinear_arith)
            requires
                c.mag <= BAL_MAX,
                m.mant <= MANT_MAX,
        ;
    }
    let x: u128 = (c.mag as u128) * (m.mant as u128);
    let d: u128 = 100u128 * (m.den as u128);
    let q: u128 = x / d;
    let rem: u128 = x % d;
    proof {
        assert(q <= x) by (nonlinear_arith)
            requires
                d >= 1,
                q == x / d,
        ;
        assert(rem < d);
    }
    let q2: u128 = if 2 * rem >= d {
        q + 1
    } else {
        q
    };
    let mag2: u64 = if q2 > (BAL_MAX as u128) {
        BAL_MAX
    } else {
        q2 as u64
    };
    Cell { neg: mag2 > 0 && (c.neg != m.neg), mag: mag2 }
}

/// The output value of a cell: its percentage rounded to the nearest integer,
/// half away from zero, saturated to the 32-bit signed range.
pub open spec fn spec_cell_rounded(c: Cell) -> int {
    let q = (c.mag / SCALE) as int;
    let q2 = if 2 * (c.mag % SCALE) >= SCALE {
        q + 1
    } else {
        q
    };
    if c.neg {
        if q2 > OUT_CAP {
            -(OUT_CAP as int) - 1
        } else {
            -(q2 as int)
        }
    } else {
        if q2 > OUT_CAP {
            OUT_CAP as int
        } else {
            q2 as int
        }
    }
}

pub fn cell_rounded(c: &Cell) -> (r: i64)
    requires
        c.wf(),
    ensures
        r == spec_cell_rounded(*c),
{
    let q: u64 = c.mag / SCALE;
    let rem: u64 = c.mag % SCALE;
    let q2: u64 = if 2 * rem >= SCALE {
        q + 1
    } else {
        q
    };
    if c.neg {
        if q2 > OUT_CAP {
            -(OUT_CAP as i64) - 1
        } else {
            -(q2 as i64)
        }
    } else {
        if q2 > OUT_CAP {
            OUT_CAP as i64
        } else {
            q2 as i64
        }
    }
}

/// The output rendering of a cell: its rounded percentage in decimal.
pub open spec fn spec_cell_attr(c: Cell) -> Seq<u8> {
    let v = spec_cell_rounded(c);
    if v < 0 {
        crate::bytes::spec_dec_repr(true, (-v) as nat)
    } else {
        crate::bytes::spec_dec_repr(false, v as nat)
    }
}

pub fn cell_attr(c: &Cell) -> (r: Vec<u8>)
    requires
        c.wf(),
    ensures
        r@ == spec_cell_attr(*c),
{
    let v = cell_rounded(c);
    if v < 0 {
        crate::bytes::dec_repr(true, (-v) as u64)
    } else {
        crate::bytes::dec_repr(false, v as u64)
    }
}

pub open spec fn is_digit(b: u8) -> bool {
    48 <= b <= 57
}

pub open spec fn all_digits(s: Seq<u8>) -> bool {
    forall|i: int| 0 <= i < s.len() ==> is_digit(#[trigger] s[i])
}

/// The number a string of decimal digits denotes.
pub open spec fn digits_val(s: Seq<u8>) -> nat
    decreases s.len(),
{
    if s.len() == 0 {
        0
    } else {
        digits_val(s.drop_last()) * 10 + (s.last() - 48) as nat
    }
}

/// Where the first `.` stands, if anywhere.
pub open spec fn first_dot(s: Seq<u8>) -> Option<int>
    decreases s.len(),
{
    if s.len() == 0 {
        None
    } else if s[0] == 46 {
        Some(0)
    } else {
        match first_dot(s.drop_first()) {
            Some(j) => Some(j + 1),
            None => None,
        }
    }
}

pub open spec fn spec_pow10(k: nat) -> nat
    decreases k,
{
    if k == 0 {
        1
    } else {
        10 * spec_pow10((k - 1) as nat)
    }
}

/// Where the first exponent marker (`e` or `E`) stands, if anywhere.
pub open spec fn first_exp(s: Seq<u8>) -> Option<int>
    decreases s.len(),
{
    if s.len() == 0 {
        None
    } else if s[0] == 101 || s[0] == 69 {
        Some(0)
    } else {
        match first_exp(s.drop_first()) {
            Some(j) => Some(j + 1),
            None => None,
        }
    }
}

/// The signed exponent an exponent part denotes: an optional sign and
/// decimal digits, within machine bounds.
pub open spec fn spec_parse_exp(s: Seq<u8>) -> Option<int> {
    let eneg = s.len() > 0 && s[0] == 45;
    let body = if s.len() > 0 && (s[0] == 45 || s[0] == 43) {
        s.drop_first()
    } else {
        s
    };
    if body.len() >= 1 && all_digits(body) && digits_val(body) <= MANT_MAX {
        Some(
            if eneg {
                -(digits_val(body) as int)
            } else {
                digits_val(body) as int
            },
        )
    } else {
        None
    }
}

/// Scaling the digits by the exponent: the value `d / 10^(f - e)`, where the
/// scaled value has at most six decimal places and its mantissa stays within
/// bounds.
pub open spec fn spec_combine(neg: bool, d: nat, f: int, e: int) -> Option<Modifier> {
    if d == 0 {
        Some(Modifier { neg, mant: 0, den: 1 })
    } else {
        let diff = f - e;
        if diff <= 0 {
            if -diff <= 15 && d * spec_pow10((-diff) as nat) <= MANT_MAX {
                Some(Modifier { neg, mant: (d * spec_pow10((-diff) as nat)) as u64, den: 1 })
            } else {
                None
            }
        } else if diff <= 6 {
            Some(Modifier { neg, mant: d as u64, den: spec_pow10(diff as nat) as u64 })
        } else {
            None
        }
    }
}

/// What a numeric attribute value means: an optional sign, decimal digits
/// with at most one point, and an optional exponent. The value is accepted
/// where it has at most six decimal places once the exponent is applied to
/// the digit string as written, and its mantissa stays within machine
/// bounds. Anything else fails the parse.
pub open spec fn spec_parse_decimal(s: Seq<u8>) -> Option<Modifier> {
    let neg = s.len() > 0 && s[0] == 45;
    let body = if s.len() > 0 && (s[0] == 45 || s[0] == 43) {
        s.drop_first()
    } else {
        s
    };
    let num = match first_exp(body) {
        None => body,
        Some(x) => body.take(x),
    };
    let exp = match first_exp(body) {
        None => Some(0int),
        Some(x) => spec_parse_exp(body.skip(x + 1)),
    };
    match exp {
        None => None,
        Some(e) => match first_dot(num) {
            None => if num.len() >= 1 && all_digits(num) && digits_val(num) <= MANT_MAX {
                spec_combine(neg, digits_val(num), 0, e)
            } else {
                None
            },
            Some(j) => {
                let ip = num.take(j);
                let fp = num.skip(j + 1);
                if ip.len() + fp.len() >= 1 && all_digits(ip) && all_digits(fp) && digits_val(
                    ip + fp,
                ) <= MANT_MAX {
                    spec_combine(neg, digits_val(ip + fp), fp.len() as int, e)
                } else {
                    None
                }
            },
        },
    }
}

/// Ten to a larger power is no smaller.
proof fn lemma_pow10_mono(a: nat, b: nat)
    requires
        a <= b,
    ensures
        spec_pow10(a) <= spec_pow10(b),
    decreases b,
{
    if a < b {
        lemma_pow10_mono(a, (b - 1) as nat);
    }
}

pub proof fn lemma_pow10_bounds(k: nat)
    requires
        k <= 6,
    ensures
        1 <= spec_pow10(k) <= 1000000,
{
    reveal_with_fuel(spec_pow10, 8);
    if k == 0 {
    } else if k == 1 {
    } else if k == 2 {
    } else if k == 3 {
    } else if k == 4 {
    } else if k == 5 {
    } else {
        assert(k == 6);
    }
}

/// Whatever combines is well-formed.
proof fn lemma_combine_wf(neg: bool, d: nat, f: int, e: int)
    requires
        d <= MANT_MAX,
    ensures
        spec_combine(neg, d, f, e) matches Some(m) ==> m.wf(),
{
    if d != 0 {
        let diff = f - e;
        if 0 < diff <= 6 {
            lemma_pow10_bounds(diff as nat);
        }
    }
}

/// Whatever parses is well-formed.
pub proof fn lemma_parse_wf(s: Seq<u8>)
    ensures
        spec_parse_decimal(s) matches Some(m) ==> m.wf(),
{
    let neg = s.len() > 0 && s[0] == 45;
    let body = if s.len() > 0 && (s[0] == 45 || s[0] == 43) {
        s.drop_first()
    } else {
        s
    };
    let num = match first_exp(body) {
        None => body,
        Some(x) => body.take(x),
    };
    let exp = match first_exp(body) {
        None => Some(0int),
        Some(x) => spec_parse_exp(body.skip(x + 1)),
    };
    match exp {
        None => {},
        Some(e) => match first_dot(num) {
            None => {
                if num.len() >= 1 && all_digits(num) && digits_val(num) <= MANT_MAX {
                    lemma_combine_wf(neg, digits_val(num), 0, e);
                }
            },
            Some(j) => {
                let ip = num.take(j);
                let fp = num.skip(j + 1);
                if ip.len() + fp.len() >= 1 && all_digits(ip) && all_digits(fp) && digits_val(
                    ip + fp,
                ) <= MANT_MAX {
                    lemma_combine_wf(neg, digits_val(ip + fp), fp.len() as int, e);
                }
            },
        },
    }
}

/// A digit string is worth at least any of its prefixes.
proof fn lemma_digits_val_prefix(s: Seq<u8>, i: int)
    requires
        0 <= i <= s.len(),
    ensures
        digits_val(s.take(i)) <= digits_val(s),
    decreases s.len(),
{
    if i == s.len() {
        assert(s.take(i) =~= s);
    } else {
        assert(s.drop_last().take(i) =~= s.take(i));
        lemma_digits_val_prefix(s.drop_last(), i);
        let a = digits_val(s.drop_last());
        assert(a * 10 >= a) by (nonlinear_arith);
    }
}

/// Finds the first `.` in `s[from..to]`, reported as an absolute index.
fn find_dot_from(s: &[u8], from: usize, to: usize) -> (r: Option<usize>)
    requires
        from <= to <= s@.len(),
    ensures
        match r {
            Some(j) => from <= j < to && first_dot(s@.subrange(from as int, to as int)) == Some(
                j - from,
            ) && s@[j as int] == 46,
            None => first_dot(s@.subrange(from as int, to as int)) is None,
        },
{
    let mut i: usize = from;
    while i < to
        invariant
            from <= i <= to <= s@.len(),
            forall|j: int| from <= j < i ==> s@[j] != 46,
        decreases to - i,
    {
        if s[i] == 46 {
            proof {
                lemma_first_dot_at(s@.subrange(from as int, to as int), i - from);
            }
            return Some(i);
        }
        i += 1;
    }
    proof {
        lemma_first_dot_none(s@.subrange(from as int, to as int));
    }
    None
}

/// Finds the first `e` or `E` in `s[from..]`, reported as an absolute index.
fn find_exp_from(s: &[u8], from: usize) -> (r: Option<usize>)
    requires
        from <= s@.len(),
    ensures
        match r {
            Some(j) => from <= j < s@.len() && first_exp(s@.skip(from as int)) == Some(j - from),
            None => first_exp(s@.skip(from as int)) is None,
        },
{
    let mut i: usize = from;
    while i < s.len()
        invariant
            from <= i <= s@.len(),
            forall|j: int| from <= j < i ==> s@[j] != 101 && s@[j] != 69,
        decreases s@.len() - i,
    {
        if s[i] == 101 || s[i] == 69 {
            proof {
                lemma_first_exp_at(s@.skip(from as int), i - from);
            }
            return Some(i);
        }
        i += 1;
    }
    proof {
        lemma_first_exp_none(s@.skip(from as int));
    }
    None
}

proof fn lemma_first_exp_at(s: Seq<u8>, j: int)
    requires
        0 <= j < s.len(),
        s[j] == 101 || s[j] == 69,
        forall|k: int| 0 <= k < j ==> s[k] != 101 && s[k] != 69,
    ensures
        first_exp(s) == Some(j),
    decreases j,
{
    if j > 0 {
        lemma_first_exp_at(s.drop_first(), j - 1);
    }
}

proof fn lemma_first_exp_none(s: Seq<u8>)
    requires
        forall|k: int| 0 <= k < s.len() ==> s[k] != 101 && s[k] != 69,
    ensures
        first_exp(s) is None,
    decreases s.len(),
{
    if s.len() > 0 {
        lemma_first_exp_none(s.drop_first());
    }
}

proof fn lemma_first_dot_at(s: Seq<u8>, j: int)
    requires
        0 <= j < s.len(),
        s[j] == 46,
        forall|k: int| 0 <= k < j ==> s[k] != 46,
    ensures
        first_dot(s) == Some(j),
    decreases j,
{
    if j > 0 {
        lemma_first_dot_at(s.drop_first(), j - 1);
    }
}

proof fn lemma_first_dot_none(s: Seq<u8>)
    requires
        forall|k: int| 0 <= k < s.len() ==> s[k] != 46,
    ensures
        first_dot(s) is None,
    decreases s.len(),
{
    if s.len() > 0 {
        lemma_first_dot_none(s.drop_first());
    }
}

/// Accumulates the digits of `s[from..to]` onto `acc`, refusing a non-digit
/// or a value beyond `MANT_MAX`.
fn accumulate_digits(s: &[u8], from: usize, to: usize, acc: u64, ghost_pre: Ghost<Seq<u8>>) -> (r:
    Option<u64>)
    requires
        from <= to <= s@.len(),
        acc == digits_val(ghost_pre@),
        acc <= MANT_MAX,
    ensures
        ({
            let whole = ghost_pre@ + s@.subrange(from as int, to as int);
            match r {
                Some(v) => v == digits_val(whole) && v <= MANT_MAX && all_digits(
                    s@.subrange(from as int, to as int),
                ),
                None => !(all_digits(s@.subrange(from as int, to as int)) && digits_val(whole)
                    <= MANT_MAX),
            }
        }),
{
    let ghost whole = ghost_pre@ + s@.subrange(from as int, to as int);
    let mut i: usize = from;
    let mut acc: u64 = acc;
    proof {
        assert(ghost_pre@ + s@.subrange(from as int, from as int) =~= ghost_pre@);
    }
    while i < to
        invariant
            from <= i <= to <= s@.len(),
            acc <= MANT_MAX,
            acc == digits_val(ghost_pre@ + s@.subrange(from as int, i as int)),
            all_digits(s@.subrange(from as int, i as int)),
            whole == ghost_pre@ + s@.subrange(from as int, to as int),
        decreases to - i,
    {
        let b = s[i];
        proof {
            let part = ghost_pre@ + s@.subrange(from as int, i + 1);
            assert(part.drop_last() =~= ghost_pre@ + s@.subrange(from as int, i as int));
            assert(part.last() == s@[i as int]);
            assert(part =~= whole.take(part.len() as int));
        }
        if b < 48 || b > 57 {
            proof {
                let sub = s@.subrange(from as int, to as int);
                assert(sub[i - from] == b);
            }
            return None;
        }
        let next: u64 = acc * 10 + ((b - 48) as u64);
        if next > MANT_MAX {
            proof {
                let part = ghost_pre@ + s@.subrange(from as int, i + 1);
                lemma_digits_val_prefix(whole, part.len() as int);
            }
            return None;
        }
        proof {
            assert(s@.subrange(from as int, i + 1).drop_last() =~= s@.subrange(
                from as int,
                i as int,
            ));
        }
        acc = next;
        i += 1;
    }
    proof {
        assert(s@.subrange(from as int, i as int) =~= s@.subrange(from as int, to as int));
    }
    Some(acc)
}

/// Applies the exponent to the digits, exactly as `spec_combine` states.
fn combine_parts(neg: bool, d: u64, f: usize, e: i128) -> (r: Option<Modifier>)
    requires
        d <= MANT_MAX,
        -(MANT_MAX as i128) <= e <= MANT_MAX as i128,
    ensures
        r == spec_combine(neg, d as nat, f as int, e as int),
        r matches Some(m) ==> m.wf(),
{
    proof {
        lemma_combine_wf(neg, d as nat, f as int, e as int);
    }
    if d == 0 {
        return Some(Modifier { neg, mant: 0, den: 1 });
    }
    let diff: i128 = (f as i128) - e;
    if diff <= 0 {
        let k: i128 = -diff;
        if k > 15 {
            return None;
        }
        let ku: u64 = k as u64;
        let mut t: u64 = d;
        let mut i: u64 = 0;
        while i < ku
            invariant
                i <= ku,
                ku == k,
                0 <= k <= 15,
                k as int == (e as int) - (f as int),
                1 <= d <= MANT_MAX,
                t as nat == (d as nat) * spec_pow10(i as nat),
                t <= MANT_MAX,
            decreases ku - i,
        {
            if t > MANT_MAX / 10 {
                proof {
                    assert((t * 10) as nat > MANT_MAX as nat);
                    assert((d as nat) * spec_pow10((i + 1) as nat) == (t * 10) as nat) by {
                        assert(spec_pow10((i + 1) as nat) == 10 * spec_pow10(i as nat));
                        assert((d as nat) * (10 * spec_pow10(i as nat)) == ((d as nat)
                            * spec_pow10(i as nat)) * 10) by (nonlinear_arith);
                    }
                    lemma_pow10_mono((i + 1) as nat, k as nat);
                    assert((d as nat) * spec_pow10((i + 1) as nat) <= (d as nat) * spec_pow10(
                        k as nat,
                    )) by (nonlinear_arith)
                        requires
                            spec_pow10((i + 1) as nat) <= spec_pow10(k as nat),
                            d >= 1,
                    ;
                    assert(k as int == (e as int) - (f as int));
                    assert((d as nat) * spec_pow10(k as nat) > MANT_MAX);
                    assert(spec_combine(neg, d as nat, f as int, e as int) is None);
                }
                return None;
            }
            proof {
                assert(spec_pow10((i + 1) as nat) == 10 * spec_pow10(i as nat));
                assert((d as nat) * (10 * spec_pow10(i as nat)) == ((d as nat) * spec_pow10(
                    i as nat,
                )) * 10) by (nonlinear_arith);
            }
            t = t * 10;
            i += 1;
        }
        Some(Modifier { neg, mant: t, den: 1 })
    } else if diff <= 6 {
        let du: u64 = diff as u64;
        let mut den: u64 = 1;
        let mut kk: u64 = 0;
        while kk < du
            invariant
                kk <= du <= 6,
                den == spec_pow10(kk as nat),
                1 <= den <= 1000000,
            decreases du - kk,
        {
            proof {
                reveal_with_fuel(spec_pow10, 8);
            }
            den = den * 10;
            kk += 1;
        }
        Some(Modifier { neg, mant: d, den })
    } else {
        None
    }
}

/// Reads the digit part `s[from..to]`: at most one point, all digits, value
/// within bounds. Yields the digits' value and the count of fraction digits.
fn parse_digits(s: &[u8], from: usize, to: usize) -> (r: Option<(u64, usize)>)
    requires
        from <= to <= s@.len(),
    ensures
        ({
            let num = s@.subrange(from as int, to as int);
            match first_dot(num) {
                None => match r {
                    Some(p) => p.1 == 0 && num.len() >= 1 && all_digits(num) && digits_val(num)
                        == p.0 && p.0 <= MANT_MAX,
                    None => !(num.len() >= 1 && all_digits(num) && digits_val(num) <= MANT_MAX),
                },
                Some(j) => {
                    let ip = num.take(j);
                    let fp = num.skip(j + 1);
                    match r {
                        Some(p) => p.1 == fp.len() && ip.len() + fp.len() >= 1 && all_digits(ip)
                            && all_digits(fp) && digits_val(ip + fp) == p.0 && p.0 <= MANT_MAX,
                        None => !(ip.len() + fp.len() >= 1 && all_digits(ip) && all_digits(fp)
                            && digits_val(ip + fp) <= MANT_MAX),
                    }
                },
            }
        }),
{
    let ghost num = s@.subrange(from as int, to as int);
    match find_dot_from(s, from, to) {
        None => {
            proof {
                assert(Seq::<u8>::empty() + s@.subrange(from as int, to as int) =~= num);
            }
            if to == from {
                return None;
            }
            match accumulate_digits(s, from, to, 0, Ghost(Seq::empty())) {
                Some(d) => Some((d, 0)),
                None => None,
            }
        },
        Some(j) => {
            let ghost jb = j - from;
            let ghost ip = num.take(jb);
            let ghost fp = num.skip(jb + 1);
            proof {
                assert(s@.subrange(from as int, j as int) =~= ip);
                assert(s@.subrange(j + 1, to as int) =~= fp);
            }
            let frac_len = to - (j + 1);
            if j == from && frac_len == 0 {
                return None;
            }
            proof {
                assert(Seq::<u8>::empty() + s@.subrange(from as int, j as int) =~= ip);
            }
            match accumulate_digits(s, from, j, 0, Ghost(Seq::empty())) {
                None => {
                    proof {
                        lemma_digits_val_concat_bound(ip, fp);
                    }
                    None
                },
                Some(int_part) => {
                    proof {
                        assert(ip + s@.subrange(j + 1, to as int) =~= ip + fp);
                    }
                    match accumulate_digits(s, j + 1, to, int_part, Ghost(ip)) {
                        None => None,
                        Some(d) => Some((d, frac_len)),
                    }
                },
            }
        },
    }
}

/// Parses a numeric attribute value.
#[verifier::rlimit(100)]
pub fn parse_decimal(s: &[u8]) -> (r: Option<Modifier>)
    ensures
        r == spec_parse_decimal(s@),
        r is Some ==> r->0.wf(),
{
    let (neg, start): (bool, usize) = if s.len() > 0 && s[0] == 45 {
        (true, 1)
    } else if s.len() > 0 && s[0] == 43 {
        (false, 1)
    } else {
        (false, 0)
    };
    let ghost body = if s@.len() > 0 && (s@[0] == 45 || s@[0] == 43) {
        s@.drop_first()
    } else {
        s@
    };
    proof {
        assert(body =~= s@.skip(start as int));
    }

    // The exponent part, if the marker is there.
    let (num_end, e_val): (usize, i128) = match find_exp_from(s, start) {
        None => (s.len(), 0),
        Some(x) => {
            let ghost etext = body.skip(x - start + 1);
            proof {
                assert(etext =~= s@.skip(x + 1));
            }
            let (eneg, estart): (bool, usize) = if x + 1 < s.len() && s[x + 1] == 45 {
                (true, x + 2)
            } else if x + 1 < s.len() && s[x + 1] == 43 {
                (false, x + 2)
            } else {
                (false, x + 1)
            };
            let ghost ebody = if etext.len() > 0 && (etext[0] == 45 || etext[0] == 43) {
                etext.drop_first()
            } else {
                etext
            };
            proof {
                assert(ebody =~= s@.subrange(estart as int, s@.len() as int));
            }
            if estart == s.len() {
                return None;
            }
            proof {
                assert(Seq::<u8>::empty() + s@.subrange(estart as int, s@.len() as int)
                    =~= ebody);
            }
            match accumulate_digits(s, estart, s.len(), 0, Ghost(Seq::empty())) {
                None => {
                    return None;
                },
                Some(v) => (
                    x,
                    if eneg {
                        -(v as i128)
                    } else {
                        v as i128
                    },
                ),
            }
        },
    };
    let ghost num = match first_exp(body) {
        None => body,
        Some(x) => body.take(x),
    };
    proof {
        assert(num =~= s@.subrange(start as int, num_end as int));
    }

    // The digit part, then the exponent applied to it.
    match parse_digits(s, start, num_end) {
        None => None,
        Some((d, f)) => combine_parts(neg, d, f, e_val),
    }
}

/// If the integer digits alone are over the bound, the whole digit string is.
proof fn lemma_digits_val_concat_bound(ip: Seq<u8>, fp: Seq<u8>)
    ensures
        digits_val(ip) <= digits_val(ip + fp),
    decreases fp.len(),
{
    if fp.len() == 0 {
        assert(ip + fp =~= ip);
    } else {
        assert((ip + fp).drop_last() =~= ip + fp.drop_last());
        lemma_digits_val_concat_bound(ip, fp.drop_last());
        let a = digits_val(ip + fp.drop_last());
        assert(a * 10 >= a) by (nonlinear_arith);
    }
}

} // verus!
