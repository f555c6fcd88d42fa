//! Experience amounts and the rules by which records earn them.
//!
//! An amount of experience is a whole number of units, held in a `u128`.
//! Base experience is exact in units. A streak share is a quotient and is
//! rounded down to the unit. An amount that would pass `u128::MAX` stays
//! there.

use vstd::arithmetic::div_mod::lemma_fundamental_div_mod;
use vstd::arithmetic::div_mod::lemma_hoist_over_denominator;
use vstd::prelude::*;

verus! {

/// The number of units in one experience point.
pub const UNITS_PER_EXP: u128 = 60_000;

/// The number of minutes in an hour.
pub const MINUTES_PER_HOUR: u128 = 60;

/// The largest amount that can be held.
pub const EXP_MAX: u128 = u128::MAX;

/// An amount as it is held: itself up to [`EXP_MAX`], and `EXP_MAX` beyond.
pub open spec fn saturate(amount: int) -> int {
    if amount > EXP_MAX {
        EXP_MAX as int
    } else {
        amount
    }
}

/// The rules of the experience engine.
#[derive(Clone, Copy, Debug, PartialEq, Eq, Structural)]
pub struct ExpRules {
    /// Experience points that one hour of logged time earns.
    pub exp_per_hour: u32,
    /// The largest share of an earlier record's experience that a later
    /// record draws as bonus, in percent. It is drawn in full on the same
    /// day and falls by an equal step with each day in between.
    pub streak_max_daily_bonus_percent: u32,
    /// The distance in days at which the share has fallen to nothing. A
    /// record further back than this no longer counts.
    pub max_bonus_days: u32,
}

impl ExpRules {
    /// The standard rules: 55 points an hour, a bonus of at most 50 percent,
    /// gone after 5 days.
    pub open spec fn spec_standard() -> ExpRules {
        ExpRules { exp_per_hour: 55, streak_max_daily_bonus_percent: 50, max_bonus_days: 5 }
    }

    /// The standard rules.
    #[verifier::when_used_as_spec(spec_standard)]
    pub fn standard() -> (rules: ExpRules)
        ensures
            rules == ExpRules::spec_standard(),
    {
        ExpRules { exp_per_hour: 55, streak_max_daily_bonus_percent: 50, max_bonus_days: 5 }
    }

    /// Rules are valid when the bonus lasts at least one day: the daily step
    /// is the largest share divided by that number of days.
    pub open spec fn valid(self) -> bool {
        self.max_bonus_days > 0
    }

    /// Whether the rules are valid.
    pub fn is_valid(&self) -> (ok: bool)
        ensures
            ok == self.valid(),
    {
        self.max_bonus_days > 0
    }

    /// The base experience of `duration` minutes, in units: the hourly rate
    /// for each sixtieth of an hour.
    pub open spec fn base_exp(self, duration: u64) -> int {
        duration * self.exp_per_hour * UNITS_PER_EXP / MINUTES_PER_HOUR as int
    }

    /// Whether a record `gap` days back still belongs to the streak.
    pub open spec fn in_reach(self, gap: int) -> bool {
        gap <= self.max_bonus_days
    }

    /// The bonus that a record draws from one that lies `gap` days back and
    /// earned `earned` units in all, rounded down to the unit.
    ///
    /// The multiplier is the largest share less `gap` daily steps, that is
    /// `percent / 100 * (max_bonus_days - gap) / max_bonus_days`.
    pub open spec fn share(self, earned: int, gap: int) -> int {
        earned * (self.streak_max_daily_bonus_percent * (self.max_bonus_days - gap)) / (100
            * self.max_bonus_days)
    }

    /// Computes the base experience of `duration` minutes.
    pub fn base_exp_for(&self, duration: u64) -> (units: u128)
        ensures
            units == self.base_exp(duration),
    {
        let minutes: u128 = duration as u128;
        let rate: u128 = self.exp_per_hour as u128;
        assert(minutes * rate <= 0xFFFF_FFFF_FFFF_FFFF * 0xFFFF_FFFF) by (nonlinear_arith)
            requires
                minutes <= 0xFFFF_FFFF_FFFF_FFFF,
                rate <= 0xFFFF_FFFF,
        ;
        let at_rate: u128 = minutes * rate;
        let per_minute: u128 = UNITS_PER_EXP / MINUTES_PER_HOUR;
        at_rate * per_minute
    }

    /// Computes the bonus drawn from a record `gap` days back that earned
    /// `earned` units in all. The gap lies within reach and is the distance
    /// of two dates.
    pub fn share_for(&self, earned: u128, gap: i64) -> (units: u128)
        requires
            self.valid(),
            self.in_reach(gap as int),
            -0x1_0000_0000 < gap,
        ensures
            units == saturate(self.share(earned as int, gap as int)),
    {
        let days_left: u128 = (self.max_bonus_days as i64 - gap) as u128;
        let percent: u128 = self.streak_max_daily_bonus_percent as u128;
        assert(percent * days_left <= 0x1_0000_0000 * 0x2_0000_0000) by (nonlinear_arith)
            requires
                percent < 0x1_0000_0000,
                days_left < 0x2_0000_0000,
        ;
        scale_saturating(earned, percent * days_left, 100 * self.max_bonus_days as u128)
    }
}

impl Default for ExpRules {
    /// The standard rules.
    fn default() -> (rules: ExpRules)
        ensures
            rules == ExpRules::standard(),
    {
        ExpRules::standard()
    }
}

/// The sum of two amounts, as it is held.
pub fn add_saturating(a: u128, b: u128) -> (sum: u128)
    ensures
        sum == saturate(a + b),
{
    a.saturating_add(b)
}

/// `amount * numerator / denominator`, rounded down, as it is held.
///
/// The product is never formed: the quotient and the remainder of `amount`
/// by the denominator are scaled one by one.
fn scale_saturating(amount: u128, numerator: u128, denominator: u128) -> (scaled: u128)
    requires
        0 < denominator <= 0x100_0000_0000,
        numerator <= 0x4_0000_0000_0000_0000,
    ensures
        scaled == saturate(amount * numerator / denominator as int),
{
    let whole: u128 = amount / denominator;
    let rest: u128 = amount % denominator;
    assert(rest * numerator <= 0x100_0000_0000 * 0x4_0000_0000_0000_0000) by (nonlinear_arith)
        requires
            rest <= 0x100_0000_0000,
            numerator <= 0x4_0000_0000_0000_0000,
    ;
    let low: u128 = rest * numerator / denominator;
    proof {
        lemma_scale_split(amount as int, numerator as int, denominator as int);
    }
    match whole.checked_mul(numerator) {
        Some(high) => high.saturating_add(low),
        None => EXP_MAX,
    }
}

/// Scaling splits over quotient and remainder:
/// `a * n / d == (a / d) * n + (a % d) * n / d`.
proof fn lemma_scale_split(a: int, n: int, d: int)
    requires
        0 < d,
    ensures
        a * n / d == (a / d) * n + (a % d) * n / d,
{
    let q = a / d;
    let r = a % d;
    lemma_fundamental_div_mod(a, d);
    assert(a * n == r * n + (q * n) * d) by (nonlinear_arith)
        requires
            a == d * q + r,
    ;
    lemma_hoist_over_denominator(r * n, q * n, d as nat);
}

} // verus!
