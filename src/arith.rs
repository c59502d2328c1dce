//! Exact decimal arithmetic on `Amount`.
use vstd::prelude::*;
use crate::types::Amount;

verus! {

/// `10^n`.
pub open spec fn pow10(n: nat) -> int
    decreases n,
{
    if n == 0 {
        1
    } else {
        10 * pow10((n - 1) as nat)
    }
}

pub open spec fn is_i128(x: int) -> bool {
    i128::MIN <= x <= i128::MAX
}

/// The mantissa of `a` written at scale `s` (meant for `s >= a.scale`).
pub open spec fn at_scale(a: Amount, s: nat) -> int {
    a.mantissa * pow10((s - a.scale) as nat)
}

pub open spec fn max_nat(a: nat, b: nat) -> nat {
    if a >= b { a } else { b }
}

/// The common scale of two amounts.
pub open spec fn common_scale(a: Amount, b: Amount) -> nat {
    max_nat(a.scale as nat, b.scale as nat)
}

/// `a - b` fits when both operands and the difference fit at the common scale.
pub open spec fn diff_fits(a: Amount, b: Amount) -> bool {
    let s = common_scale(a, b);
    is_i128(at_scale(a, s)) && is_i128(at_scale(b, s)) && is_i128(at_scale(a, s) - at_scale(b, s))
}

pub proof fn lemma_pow10_pos(n: nat)
    ensures
        pow10(n) >= 1,
    decreases n,
{
    if n > 0 {
        lemma_pow10_pos((n - 1) as nat);
    }
}

pub proof fn lemma_pow10_mono(a: nat, b: nat)
    requires
        a <= b,
    ensures
        pow10(a) <= pow10(b),
    decreases b,
{
    if a < b {
        lemma_pow10_mono(a, (b - 1) as nat);
        lemma_pow10_pos((b - 1) as nat);
    }
}

pub proof fn lemma_pow10_add(a: nat, b: nat)
    ensures
        pow10(a + b) == pow10(a) * pow10(b),
    decreases b,
{
    if b > 0 {
        lemma_pow10_add(a, (b - 1) as nat);
        assert(pow10(a + b) == 10 * pow10((a + b - 1) as nat));
        assert(pow10(a) * pow10(b) == pow10(a) * (10 * pow10((b - 1) as nat)));
        assert(pow10(a) * (10 * pow10((b - 1) as nat)) == 10 * (pow10(a) * pow10((b - 1) as nat)))
            by (nonlinear_arith);
    }
}

/// Scaling a nonzero mantissa up never brings it back into range.
proof fn lemma_scaled_out_of_range(m: int, a: nat, b: nat)
    requires
        a <= b,
        !is_i128(m * pow10(a)),
    ensures
        !is_i128(m * pow10(b)),
{
    lemma_pow10_mono(a, b);
    lemma_pow10_pos(a);
    let x = pow10(a);
    let y = pow10(b);
    if m > 0 {
        assert(0 < m * x <= m * y) by (nonlinear_arith)
            requires
                m > 0,
                1 <= x <= y,
        ;
    } else if m < 0 {
        assert(m * y <= m * x < 0) by (nonlinear_arith)
            requires
                m < 0,
                1 <= x <= y,
        ;
    } else {
        assert(m * x == 0);
    }
}

/// `m * 10^by`, or `None` when that does not fit in an `i128`.
pub fn rescale(m: i128, by: u64) -> (r: Option<i128>)
    ensures
        r == (if is_i128(m * pow10(by as nat)) {
            Some((m * pow10(by as nat)) as i128)
        } else {
            None::<i128>
        }),
{
    if m == 0 {
        assert(m * pow10(by as nat) == 0);
        return Some(0);
    }
    let mut v: i128 = m;
    let mut i: u64 = 0;
    while i < by
        invariant
            i <= by,
            v == m * pow10(i as nat),
        decreases by - i,
    {
        assert(pow10((i + 1) as nat) == 10 * pow10(i as nat));
        assert(m * (10 * pow10(i as nat)) == (m * pow10(i as nat)) * 10) by (nonlinear_arith);
        match v.checked_mul(10) {
            Some(w) => {
                v = w;
                i = i + 1;
            },
            None => {
                proof {
                    lemma_scaled_out_of_range(m as int, (i + 1) as nat, by as nat);
                }
                return None;
            },
        }
    }
    Some(v)
}

/// `a - b` at the larger of the two scales, or `None` when it does not fit.
pub fn amount_sub(a: Amount, b: Amount) -> (r: Option<Amount>)
    ensures
        r == (if diff_fits(a, b) {
            Some(
                Amount {
                    mantissa: (at_scale(a, common_scale(a, b)) - at_scale(b, common_scale(a, b))) as i128,
                    scale: common_scale(a, b) as u32,
                },
            )
        } else {
            None::<Amount>
        }),
{
    let s: u32 = if a.scale >= b.scale { a.scale } else { b.scale };
    let x = rescale(a.mantissa, (s - a.scale) as u64);
    let y = rescale(b.mantissa, (s - b.scale) as u64);
    match (x, y) {
        (Some(x), Some(y)) => match x.checked_sub(y) {
            Some(d) => Some(Amount { mantissa: d, scale: s }),
            None => None,
        },
        _ => None,
    }
}

} // verus!
