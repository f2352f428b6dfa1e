//! Exact base-10 money amounts.
//!
//! An amount is an integer count of 10^-8 currency units, so every value the
//! parser accepts is represented exactly and addition is exact: no binary
//! floating point is involved anywhere.

use crate::text::{
    all_digit_chars, digit_char, digit_val, digit_value, digits_val, is_digit, is_digit_char,
    lemma_digits_val_bounds, lemma_digits_val_push, lemma_pow10_pos, lemma_subrange_push,
    lemma_pow10_concrete, lemma_pow10_mono, nat_digits, padded_digits, pow10, push_nat_digits, push_padded_digits,
    trim_spaces, trimmed,
};
use vstd::prelude::*;

verus! {

/// Scale factor: amounts count 10^-8 currency units.
pub const MONEY_UNIT: i128 = 100_000_000;

/// Largest magnitude accepted, in 10^-8 units (10^19 whole currency units).
pub const MONEY_MAX: i128 = 1_000_000_000_000_000_000_000_000_000;

/// Most fractional digits an amount text may carry.
pub const MONEY_FRAC_DIGITS: usize = 8;

/// The range of scaled values the library works in. Keeping every stored
/// amount inside it means a single addition can never overflow `i128`.
pub open spec fn money_in_range(v: int) -> bool {
    -(MONEY_MAX as int) <= v <= MONEY_MAX as int
}

/// An exact decimal amount of money; the sign is the sign of the movement
/// (positive income, negative expense).
#[derive(Clone, Copy, PartialEq, Eq, Structural, Debug)]
pub struct Money {
    units: i128,
}

impl Money {
    /// The amount as a mathematical integer count of 10^-8 units.
    pub closed spec fn v(self) -> int {
        self.units as int
    }

    pub open spec fn wf(self) -> bool {
        money_in_range(self.v())
    }

    /// Builds an amount from a scaled integer: `units` counts 10^-8 units.
    pub fn from_units(units: i128) -> (r: Money)
        requires
            money_in_range(units as int),
        ensures
            r == Money::spec_new(units as int),
            r.v() == units,
            r.wf(),
    {
        Money { units }
    }

    pub fn zero() -> (r: Money)
        ensures
            r == Money::spec_new(0),
            r.v() == 0,
            r.wf(),
    {
        Money { units: 0 }
    }

    pub fn is_zero(&self) -> (r: bool)
        ensures
            r == (self.v() == 0),
    {
        self.units == 0
    }

    pub fn is_negative(&self) -> (r: bool)
        ensures
            r == (self.v() < 0),
    {
        self.units < 0
    }

    pub fn is_positive(&self) -> (r: bool)
        ensures
            r == (self.v() > 0),
    {
        self.units > 0
    }

    /// Exact addition; `None` exactly when the sum leaves the working range.
    pub fn checked_add(&self, other: &Money) -> (r: Option<Money>)
        requires
            self.wf(),
            other.wf(),
        ensures
            money_in_range(self.v() + other.v()) ==> r == Some(Money::spec_new(self.v() + other.v()))
                && r.unwrap().v() == self.v() + other.v() && r.unwrap().wf(),
            !money_in_range(self.v() + other.v()) ==> r is None,
    {
        let sum: i128 = self.units + other.units;
        if -MONEY_MAX <= sum && sum <= MONEY_MAX {
            Some(Money { units: sum })
        } else {
            None
        }
    }

    /// Exact subtraction; `None` exactly when the difference leaves the range.
    pub fn checked_sub(&self, other: &Money) -> (r: Option<Money>)
        requires
            self.wf(),
            other.wf(),
        ensures
            money_in_range(self.v() - other.v()) ==> r == Some(Money::spec_new(self.v() - other.v()))
                && r.unwrap().v() == self.v() - other.v() && r.unwrap().wf(),
            !money_in_range(self.v() - other.v()) ==> r is None,
    {
        let diff: i128 = self.units - other.units;
        if -MONEY_MAX <= diff && diff <= MONEY_MAX {
            Some(Money { units: diff })
        } else {
            None
        }
    }

    /// The amount with its sign flipped.
    pub fn negated(&self) -> (r: Money)
        requires
            self.wf(),
        ensures
            r.v() == -self.v(),
            r.wf(),
    {
        Money { units: -self.units }
    }

    /// The magnitude of the amount.
    pub fn magnitude(&self) -> (r: Money)
        requires
            self.wf(),
        ensures
            r.v() == if self.v() < 0 { -self.v() } else { self.v() },
            r.wf(),
    {
        if self.units < 0 {
            Money { units: -self.units }
        } else {
            Money { units: self.units }
        }
    }

    pub fn less_than(&self, other: &Money) -> (r: bool)
        ensures
            r == (self.v() < other.v()),
    {
        self.units < other.units
    }

    pub fn less_eq(&self, other: &Money) -> (r: bool)
        ensures
            r == (self.v() <= other.v()),
    {
        self.units <= other.units
    }

    /// The amount whose scaled value is `v`; the spec-level constructor the
    /// contracts above speak of.
    pub closed spec fn spec_new(v: int) -> Money {
        Money { units: v as i128 }
    }

    /// `spec_new` inverts `v` on the working range.
    pub proof fn lemma_spec_new(v: int)
        requires
            money_in_range(v),
        ensures
            Money::spec_new(v).v() == v,
            Money::spec_new(v).wf(),
    {
    }
}

/// Addition of amounts is exact: on the mathematical values it is
/// commutative and associative, so sums of many small movements never drift.
pub proof fn lemma_addition_exact(a: Money, b: Money, c: Money)
    ensures
        a.v() + b.v() == b.v() + a.v(),
        (a.v() + b.v()) + c.v() == a.v() + (b.v() + c.v()),
        money_in_range(a.v() + b.v()) ==> Money::spec_new(a.v() + b.v()).v() == a.v() + b.v(),
{
}

/// The amount text after the optional leading sign.
pub open spec fn amount_body(s: Seq<char>) -> Seq<char> {
    if s.len() >= 1 && (s[0] == '-' || s[0] == '+') {
        s.subrange(1, s.len() as int)
    } else {
        s
    }
}

pub open spec fn amount_negative(s: Seq<char>) -> bool {
    s.len() >= 1 && s[0] == '-'
}

/// Shape of an unsigned amount whose decimal point stands at `dot`
/// (`dot == s.len()` when there is none): one or more integer digits,
/// then optionally the point and one to eight fraction digits.
pub open spec fn unsigned_amount_shape(s: Seq<char>, dot: int) -> bool {
    if dot == s.len() {
        s.len() >= 1 && all_digit_chars(s)
    } else {
        1 <= dot < s.len() && s[dot] == '.' && all_digit_chars(s.subrange(0, dot))
            && all_digit_chars(s.subrange(dot + 1, s.len() as int)) && 1 <= s.len() - dot - 1
            <= MONEY_FRAC_DIGITS
    }
}

/// The scaled value the digits around the point denote.
pub open spec fn unsigned_amount_val(s: Seq<char>, dot: int) -> int {
    if dot == s.len() {
        digits_val(s) * (MONEY_UNIT as int)
    } else {
        digits_val(s.subrange(0, dot)) * (MONEY_UNIT as int) + digits_val(
            s.subrange(dot + 1, s.len() as int),
        ) * pow10((MONEY_FRAC_DIGITS - (s.len() - dot - 1)) as nat)
    }
}

pub open spec fn valid_amount_text(s: Seq<char>) -> bool {
    exists|dot: int| 0 <= dot <= amount_body(s).len() && unsigned_amount_shape(amount_body(s), dot)
}

/// The scaled value a valid amount text denotes.
pub open spec fn amount_text_val(s: Seq<char>) -> int {
    let b = amount_body(s);
    let dot = choose|dot: int| 0 <= dot <= b.len() && unsigned_amount_shape(b, dot);
    if amount_negative(s) {
        -unsigned_amount_val(b, dot)
    } else {
        unsigned_amount_val(b, dot)
    }
}

/// What a piece of user-supplied text denotes: the scaled value when the text
/// is a well-shaped amount inside the working range, nothing otherwise.
pub open spec fn money_of_text(s: Seq<char>) -> Option<int> {
    if valid_amount_text(s) && money_in_range(amount_text_val(s)) {
        Some(amount_text_val(s))
    } else {
        None
    }
}

/// In a body whose characters are digits except for a point at `p`, the
/// decomposition point can only be `p`.
proof fn lemma_dot_pins(b: Seq<char>, p: int, d: int)
    requires
        0 <= p < b.len(),
        b[p] == '.',
        forall|j: int| 0 <= j < b.len() && j != p ==> is_digit_char(#[trigger] b[j]),
        0 <= d <= b.len(),
        unsigned_amount_shape(b, d),
    ensures
        d == p,
{
    if d == b.len() {
        assert(is_digit_char(b[p]));
        assert(false);
    } else if d < p {
        assert(b.subrange(d + 1, b.len() as int)[p - d - 1] == b[p]);
        assert(false);
    } else if d > p {
        assert(b.subrange(0, d)[p] == b[p]);
        assert(false);
    }
}

/// In a body of digits only, the decomposition point can only be the end.
proof fn lemma_no_dot_pins(b: Seq<char>, d: int)
    requires
        all_digit_chars(b),
        0 <= d <= b.len(),
        unsigned_amount_shape(b, d),
    ensures
        d == b.len(),
{
    if d < b.len() {
        assert(is_digit_char(b[d]));
        assert(false);
    }
}


/// 10^k for the fraction scales, as executable code.
fn ten_pow_small(k: usize) -> (r: i128)
    requires
        k <= 8,
    ensures
        r == pow10(k as nat),
        1 <= r <= 100_000_000,
{
    proof {
        lemma_pow10_concrete();
    }
    if k == 0 {
        1
    } else if k == 1 {
        10
    } else if k == 2 {
        100
    } else if k == 3 {
        1000
    } else if k == 4 {
        10000
    } else if k == 5 {
        100000
    } else if k == 6 {
        1000000
    } else if k == 7 {
        10000000
    } else {
        100000000
    }
}

/// Largest integer-part value that can still be scaled into the range.
const AMOUNT_INT_CAP: i128 = 10_000_000_000_000_000_000;

impl Money {
    /// Parses an amount text: optional sign, integer digits, optionally a
    /// point and one to eight fraction digits. Returns the exact value when
    /// the text is well shaped and inside the working range.
    pub fn parse_text(s: &str) -> (r: Option<Money>)
        ensures
            match money_of_text(s@) {
                Some(v) => r == Some(Money::spec_new(v)) && r.unwrap().v() == v
                    && r.unwrap().wf(),
                None => r is None,
            },
    {
        let n = s.unicode_len();
        if n == 0 {
            return None;
        }
        let c0 = s.get_char(0);
        let has_sign = c0 == '-' || c0 == '+';
        let neg = c0 == '-';
        let start: usize = if has_sign {
            1
        } else {
            0
        };
        let ghost b = amount_body(s@);
        proof {
            assert(b =~= s@.subrange(start as int, n as int));
        }
        if start == n {
            return None;
        }
        // Scan once: every character must be a digit, except one point that
        // may not open the body or close it.
        let mut i: usize = start;
        let mut dot: usize = n;
        while i < n
            invariant
                start <= i <= n,
                n == s@.len(),
                start < n,
                start <= 1,
                b == s@.subrange(start as int, n as int),
                b == amount_body(s@),
                dot == n || (start < dot && dot < i && s@[dot as int] == '.'),
                forall|j: int|
                    start <= j < i && j != dot ==> is_digit_char(#[trigger] s@[j]),
            decreases n - i,
        {
            let c = s.get_char(i);
            if is_digit(c) {
                i = i + 1;
            } else if c == '.' && dot == n && i > start {
                dot = i;
                i = i + 1;
            } else {
                // A second point, a leading point, or a stray character: no
                // decomposition fits.
                proof {
                    let p = i - start;
                    assert(b[p as int] == s@[i as int]);
                    assert forall|d: int|
                        0 <= d <= b.len() implies !unsigned_amount_shape(b, d) by {
                        if unsigned_amount_shape(b, d) {
                            if dot < n {
                                // an earlier point exists
                                let q = dot - start;
                                assert(b[q as int] == s@[dot as int]);
                                if d == b.len() {
                                    assert(is_digit_char(b[q as int]));
                                } else {
                                    if q != d {
                                        if q < d {
                                            assert(b.subrange(0, d)[q as int] == b[q as int]);
                                        } else {
                                            assert(b.subrange(d + 1, b.len() as int)[q - d
                                                - 1] == b[q as int]);
                                        }
                                        assert(is_digit_char(b[q as int]));
                                        assert(false);
                                    }
                                    // q == d: then the position p must be a digit
                                    if p < d {
                                        assert(b.subrange(0, d)[p as int] == b[p as int]);
                                    } else {
                                        assert(b.subrange(d + 1, b.len() as int)[p - d - 1]
                                            == b[p as int]);
                                    }
                                    assert(is_digit_char(b[p as int]));
                                    assert(false);
                                }
                            } else {
                                if d == b.len() {
                                    assert(is_digit_char(b[p as int]));
                                } else if p < d {
                                    assert(b.subrange(0, d)[p as int] == b[p as int]);
                                    assert(is_digit_char(b[p as int]));
                                    assert(false);
                                } else if p > d {
                                    assert(b.subrange(d + 1, b.len() as int)[p - d - 1]
                                        == b[p as int]);
                                    assert(is_digit_char(b[p as int]));
                                    assert(false);
                                } else {
                                    // p == d would make this character the point,
                                    // but it is not one, or it opens the body
                                    assert(b[d] == '.');
                                    if c == '.' {
                                        // leading point: d == 0 contradicts 1 <= dot
                                        assert(p == 0);
                                        assert(false);
                                    }
                                    assert(false);
                                }
                            }
                        }
                    }
                    assert(!valid_amount_text(s@));
                }
                return None;
            }
        }
        let ghost pd: int = if dot == n {
            b.len() as int
        } else {
            dot - start
        };
        // The scan fixes the only decomposition that can fit.
        if dot < n && dot == n - 1 {
            // a trailing point leaves no fraction digits
            proof {
                let q = dot - start;
                assert(b[q as int] == '.');
                assert forall|d: int|
                    0 <= d <= b.len() implies !unsigned_amount_shape(b, d) by {
                    if unsigned_amount_shape(b, d) {
                        lemma_dot_pins(b, q as int, d);
                        assert(b.len() - d - 1 == 0);
                    }
                }
                assert(!valid_amount_text(s@));
            }
            return None;
        }
        if dot < n && n - dot - 1 > MONEY_FRAC_DIGITS {
            // more fraction digits than the scale carries
            proof {
                let q = dot - start;
                assert(b[q as int] == '.');
                assert forall|d: int|
                    0 <= d <= b.len() implies !unsigned_amount_shape(b, d) by {
                    if unsigned_amount_shape(b, d) {
                        lemma_dot_pins(b, q as int, d);
                    }
                }
                assert(!valid_amount_text(s@));
            }
            return None;
        }
        proof {
            if dot == n {
                assert(all_digit_chars(b));
                assert(unsigned_amount_shape(b, pd));
            } else {
                assert(b[pd] == '.');
                assert(b.subrange(0, pd) =~= s@.subrange(start as int, dot as int));
                assert(b.subrange(pd + 1, b.len() as int) =~= s@.subrange(
                    dot + 1,
                    n as int,
                ));
                assert(unsigned_amount_shape(b, pd));
            }
            assert(valid_amount_text(s@));
            let d0 = choose|d: int| 0 <= d <= b.len() && unsigned_amount_shape(b, d);
            if dot == n {
                lemma_no_dot_pins(b, d0);
            } else {
                lemma_dot_pins(b, pd, d0);
            }
            assert(d0 == pd);
        }
        // Accumulate the integer part, tracking when it can no longer fit.
        let int_end = if dot == n {
            n
        } else {
            dot
        };
        let mut acc: i128 = 0;
        let mut big = false;
        let mut j: usize = start;
        while j < int_end
            invariant
                start <= j <= int_end,
                int_end <= n,
                n == s@.len(),
                forall|k: int| start <= k < int_end ==> is_digit_char(#[trigger] s@[k]),
                !big ==> acc == digits_val(s@.subrange(start as int, j as int)) && 0 <= acc
                    <= AMOUNT_INT_CAP,
                big ==> digits_val(s@.subrange(start as int, j as int)) > AMOUNT_INT_CAP,
            decreases int_end - j,
        {
            let c = s.get_char(j);
            let d = digit_value(c);
            proof {
                lemma_subrange_push(s@, start as int, j as int);
                lemma_digits_val_push(s@.subrange(start as int, j as int), s@[j as int]);
            }
            if big {
                proof {
                    let prev = digits_val(s@.subrange(start as int, j as int));
                    assert(prev > AMOUNT_INT_CAP);
                    assert(prev * 10 > AMOUNT_INT_CAP * 10) by (nonlinear_arith)
                        requires
                            prev > AMOUNT_INT_CAP,
                    ;
                }
            } else {
                let next = acc * 10 + d as i128;
                if next > AMOUNT_INT_CAP {
                    big = true;
                } else {
                    acc = next;
                }
            }
            j = j + 1;
        }
        let ghost int_digits = s@.subrange(start as int, int_end as int);
        let ghost int_val = digits_val(int_digits);
        // Accumulate the fraction part; at most eight digits, so it fits.
        let mut facc: i128 = 0;
        let frac_len: usize = if dot == n {
            0
        } else {
            n - dot - 1
        };
        if dot < n {
            let mut k: usize = dot + 1;
            while k < n
                invariant
                    dot + 1 <= k <= n,
                    n == s@.len(),
                    n - dot - 1 <= 8,
                    forall|t: int| dot + 1 <= t < n ==> is_digit_char(#[trigger] s@[t]),
                    facc == digits_val(s@.subrange(dot + 1, k as int)),
                    0 <= facc,
                    facc < pow10((k - dot - 1) as nat),
                decreases n - k,
            {
                let c = s.get_char(k);
                let d = digit_value(c);
                proof {
                    lemma_subrange_push(s@, dot + 1, k as int);
                    lemma_digits_val_push(s@.subrange(dot + 1, k as int), s@[k as int]);
                    lemma_digits_val_bounds(s@.subrange(dot + 1, k + 1));
                    lemma_pow10_concrete();
                    lemma_pow10_mono((k - dot - 1) as nat, 7);
                }
                facc = facc * 10 + d as i128;
                k = k + 1;
            }
        }
        proof {
            lemma_pow10_concrete();
            if dot < n {
                assert(pow10((n - dot - 1) as nat) <= pow10(8)) by {
                    lemma_pow10_mono((n - dot - 1) as nat, 8);
                };
            }
        }
        let scale = ten_pow_small(if frac_len == 0 {
            8
        } else {
            8 - frac_len
        });
        if big {
            // The integer part alone exceeds the working range.
            proof {
                lemma_pow10_concrete();
                assert(int_val > AMOUNT_INT_CAP);
                assert(int_val * (MONEY_UNIT as int) > AMOUNT_INT_CAP * (MONEY_UNIT as int))
                    by (nonlinear_arith)
                    requires
                        int_val > AMOUNT_INT_CAP,
                ;
                if dot < n {
                    let fr = digits_val(b.subrange(pd + 1, b.len() as int));
                    lemma_digits_val_bounds(b.subrange(pd + 1, b.len() as int));
                    lemma_pow10_pos((MONEY_FRAC_DIGITS - (b.len() - pd - 1)) as nat);
                    assert(fr * pow10((MONEY_FRAC_DIGITS - (b.len() - pd - 1)) as nat) >= 0)
                        by (nonlinear_arith)
                        requires
                            fr >= 0,
                            pow10((MONEY_FRAC_DIGITS - (b.len() - pd - 1)) as nat) >= 1,
                    ;
                }
                assert(b.subrange(0, pd) =~= int_digits);
                assert(unsigned_amount_val(b, pd) > MONEY_MAX as int);
                assert(!money_in_range(amount_text_val(s@)));
            }
            return None;
        }
        let frac_scaled: i128 = if frac_len == 0 {
            0
        } else {
            proof {
                assert(facc < pow10(frac_len as nat));
                assert(pow10(frac_len as nat) <= pow10(8)) by {
                    lemma_pow10_mono(frac_len as nat, 8);
                };
                lemma_pow10_concrete();
                assert(facc * scale <= 100_000_000 * 100_000_000) by (nonlinear_arith)
                    requires
                        0 <= facc <= 100_000_000,
                        0 <= scale <= 100_000_000,
                ;
                assert(facc * scale >= 0) by (nonlinear_arith)
                    requires
                        facc >= 0,
                        scale >= 0,
                ;
            }
            facc * scale
        };
        let total: i128 = acc * MONEY_UNIT + frac_scaled;
        proof {
            assert(acc * (MONEY_UNIT as int) <= AMOUNT_INT_CAP * (MONEY_UNIT as int))
                by (nonlinear_arith)
                requires
                    0 <= acc <= AMOUNT_INT_CAP,
            ;
            assert(acc * (MONEY_UNIT as int) >= 0) by (nonlinear_arith)
                requires
                    acc >= 0,
            ;
            assert(b.subrange(0, pd) =~= int_digits);
            if dot < n {
                assert(b.subrange(pd + 1, b.len() as int) =~= s@.subrange(dot + 1, n as int));
                assert((MONEY_FRAC_DIGITS - (b.len() - pd - 1)) as nat == (8 - frac_len) as nat);
            }
            assert(total == unsigned_amount_val(b, pd));
        }
        if total > MONEY_MAX {
            proof {
                assert(!money_in_range(amount_text_val(s@)));
            }
            return None;
        }
        let units: i128 = if neg {
            -total
        } else {
            total
        };
        proof {
            assert(amount_text_val(s@) == units as int);
            assert(money_in_range(units as int));
        }
        Some(Money { units })
    }

    /// Parses an amount text after trimming surrounding spaces, the form in
    /// which the interface hands amounts over.
    pub fn parse_trimmed(s: &str) -> (r: Option<Money>)
        ensures
            match money_of_text(trimmed(s@)) {
                Some(v) => r == Some(Money::spec_new(v)) && r.unwrap().v() == v
                    && r.unwrap().wf(),
                None => r is None,
            },
    {
        Money::parse_text(trim_spaces(s))
    }
}


/// A fraction of nominal width `k` with its trailing zero digits stripped.
pub open spec fn frac_digits(n: int, k: nat) -> Seq<char>
    decreases k,
{
    if k == 0 {
        Seq::<char>::empty()
    } else if n % 10 == 0 {
        frac_digits(n / 10, (k - 1) as nat)
    } else {
        padded_digits(n, k)
    }
}

/// The canonical text of a scaled amount: optional minus sign, the whole
/// units, and the non-zero fraction with trailing zeros stripped.
pub open spec fn money_text(v: int) -> Seq<char> {
    let mag = if v < 0 {
        -v
    } else {
        v
    };
    let whole = mag / (MONEY_UNIT as int);
    let frac = mag % (MONEY_UNIT as int);
    let sign: Seq<char> = if v < 0 {
        seq!['-']
    } else {
        Seq::<char>::empty()
    };
    if frac == 0 {
        sign + nat_digits(whole)
    } else {
        sign + nat_digits(whole) + seq!['.'] + frac_digits(frac, MONEY_FRAC_DIGITS as nat)
    }
}


fn push_frac_digits(out: &mut Vec<char>, n: u128, k: usize)
    ensures
        final(out)@ == old(out)@ + frac_digits(n as int, k as nat),
    decreases k,
{
    if k == 0 {
        proof {
            assert(old(out)@ + frac_digits(n as int, 0) =~= old(out)@);
        }
    } else if n % 10 == 0 {
        push_frac_digits(out, n / 10, k - 1);
    } else {
        push_padded_digits(out, n, k);
    }
}

impl Money {
    /// The canonical text of the amount; what the interface and the error
    /// messages show.
    pub fn to_text(&self) -> (r: String)
        requires
            self.wf(),
        ensures
            r@ == money_text(self.v()),
    {
        let neg = self.units < 0;
        let mag: u128 = if neg {
            (-self.units) as u128
        } else {
            self.units as u128
        };
        let whole: u128 = mag / 100_000_000u128;
        let frac: u128 = mag % 100_000_000u128;
        let mut out: Vec<char> = Vec::new();
        if neg {
            out.push('-');
        }
        push_nat_digits(&mut out, whole);
        if frac != 0 {
            out.push('.');
            push_frac_digits(&mut out, frac, MONEY_FRAC_DIGITS);
        }
        proof {
            let v = self.v();
            let magi = if v < 0 {
                -v
            } else {
                v
            };
            assert(magi == mag as int);
            let sign: Seq<char> = if v < 0 {
                seq!['-']
            } else {
                Seq::<char>::empty()
            };
            if frac == 0 {
                assert(out@ =~= sign + nat_digits(magi / (MONEY_UNIT as int)));
            } else {
                assert(out@ =~= sign + nat_digits(magi / (MONEY_UNIT as int)) + seq!['.']
                    + frac_digits(magi % (MONEY_UNIT as int), MONEY_FRAC_DIGITS as nat));
            }
        }
        crate::text::chars_to_string(&out)
    }
}


} // verus!
