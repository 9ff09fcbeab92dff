//! Statistics of one method over repeated trials: how many solves
//! converged, how many sweeps those took, and the two figures reported from
//! them.
use crate::solver::Outcome;
use crate::text::{digit, digit_of, numeral, write_numeral};
use vstd::prelude::*;

verus! {

/// The counts that a sequence of outcomes adds up to.
pub struct Tally {
    /// The number of solves.
    pub trials: nat,
    /// The number of solves that converged.
    pub successes: nat,
    /// The sweeps taken by the solves that converged, added up.
    pub iteration_sum: nat,
}

impl Tally {
    /// The tally of no solve at all.
    pub open spec fn zero() -> Tally {
        Tally { trials: 0, successes: 0, iteration_sum: 0 }
    }

    /// The tally after one more solve: a solve that converged counts as a
    /// success and adds its sweeps, any other only counts as a trial.
    pub open spec fn with(self, outcome: Outcome) -> Tally {
        if outcome.spec_converged() {
            Tally {
                trials: self.trials + 1,
                successes: self.successes + 1,
                iteration_sum: self.iteration_sum + outcome.iterations as nat,
            }
        } else {
            Tally { trials: self.trials + 1, ..self }
        }
    }

    /// The tally of two separate series of solves taken together.
    pub open spec fn plus(self, other: Tally) -> Tally {
        Tally {
            trials: self.trials + other.trials,
            successes: self.successes + other.successes,
            iteration_sum: self.iteration_sum + other.iteration_sum,
        }
    }
}

/// The tally of a series of solves.
pub open spec fn tally(outcomes: Seq<Outcome>) -> Tally
    decreases outcomes.len(),
{
    if outcomes.len() == 0 {
        Tally::zero()
    } else {
        tally(outcomes.drop_last()).with(outcomes.last())
    }
}

/// The whole number nearest to `numerator / denominator`; where two are
/// equally near, the larger.
pub open spec fn rounded_quotient(numerator: nat, denominator: nat) -> nat
    recommends
        denominator > 0,
{
    (2 * numerator + denominator) / (2 * denominator)
}

/// The success ratio of a tally, in ten-thousandths of a percent:
/// `100 * successes / trials`, scaled by 10 000 and rounded.
pub open spec fn success_ratio_of(t: Tally) -> Option<nat> {
    if t.trials == 0 {
        None
    } else {
        Some(rounded_quotient(1_000_000 * t.successes, t.trials))
    }
}

/// The average number of sweeps of the solves that converged, in
/// ten-thousandths: `iteration_sum / successes`, scaled by 10 000 and
/// rounded. Undefined where no solve converged.
pub open spec fn average_iterations_of(t: Tally) -> Option<nat> {
    if t.successes == 0 {
        None
    } else {
        Some(rounded_quotient(10_000 * t.iteration_sum, t.successes))
    }
}

/// A number with four decimal places, held as a count of ten-thousandths.
#[derive(Clone, Copy, Debug, PartialEq, Eq, Structural)]
pub struct Fixed4 {
    pub units: u128,
}

/// A number with four decimal places as it is printed: the whole part, a
/// point, and the four places, zeros among them.
pub open spec fn rendered(value: Fixed4) -> Seq<char> {
    let places = (value.units % 10_000) as nat;
    numeral((value.units / 10_000) as nat) + seq![
        '.',
        digit_of(places / 1000),
        digit_of(places / 100 % 10),
        digit_of(places / 10 % 10),
        digit_of(places % 10),
    ]
}

impl Fixed4 {
    /// The number as it is printed, with all four decimal places.
    pub fn render(&self) -> (text: Vec<char>)
        ensures
            text@ == rendered(*self),
    {
        let places: u16 = self.fraction();
        let mut text = write_numeral(self.whole());
        text.push('.');
        text.push(digit((places / 1000) as u8));
        text.push(digit((places / 100 % 10) as u8));
        text.push(digit((places / 10 % 10) as u8));
        text.push(digit((places % 10) as u8));
        text
    }

    /// The part before the decimal point.
    pub fn whole(&self) -> (w: u128)
        ensures
            w == self.units / 10_000,
    {
        self.units / 10_000
    }

    /// The four decimal places, as a number below 10 000.
    pub fn fraction(&self) -> (f: u16)
        ensures
            f == self.units % 10_000,
    {
        (self.units % 10_000) as u16
    }
}

/// The running statistics of one method.
#[derive(Clone, Copy, Debug)]
pub struct MethodStats {
    trials: u64,
    successes: u64,
    iteration_sum: u128,
}

impl View for MethodStats {
    type V = Tally;

    closed spec fn view(&self) -> Tally {
        Tally {
            trials: self.trials as nat,
            successes: self.successes as nat,
            iteration_sum: self.iteration_sum as nat,
        }
    }
}

impl MethodStats {
    #[verifier::type_invariant]
    spec fn consistent(self) -> bool {
        &&& self.successes <= self.trials
        &&& self.iteration_sum <= self.successes * u32::MAX
    }

    /// Statistics of no solve yet.
    pub fn new() -> (stats: MethodStats)
        ensures
            stats@ == Tally::zero(),
    {
        MethodStats { trials: 0, successes: 0, iteration_sum: 0 }
    }

    /// Takes one more outcome in.
    pub fn record(&mut self, outcome: &Outcome)
        requires
            old(self)@.trials < u64::MAX,
        ensures
            final(self)@ == old(self)@.with(*outcome),
    {
        proof {
            use_type_invariant(&*self);
        }
        let converged = outcome.converged();
        let trials: u64 = self.trials + 1;
        let successes: u64 = if converged {
            self.successes + 1
        } else {
            self.successes
        };
        let iteration_sum: u128 = if converged {
            self.iteration_sum + outcome.iterations as u128
        } else {
            self.iteration_sum
        };
        *self = MethodStats { trials, successes, iteration_sum };
    }

    /// The statistics of a whole series of outcomes.
    pub fn from_outcomes(outcomes: &[Outcome]) -> (stats: MethodStats)
        ensures
            stats@ == tally(outcomes@),
    {
        let mut stats = MethodStats::new();
        let mut k: usize = 0;
        while k < outcomes.len()
            invariant
                k <= outcomes.len(),
                stats@ == tally(outcomes@.take(k as int)),
            decreases outcomes.len() - k,
        {
            proof {
                lemma_tally_counts(outcomes@.take(k as int));
                assert(outcomes@.take(k + 1).drop_last() == outcomes@.take(k as int));
            }
            stats.record(&outcomes[k]);
            k += 1;
        }
        proof {
            assert(outcomes@.take(k as int) == outcomes@);
        }
        stats
    }

    /// Adds the statistics of another series of solves to these, as when
    /// several workers each ran a share of the trials.
    pub fn merge(&mut self, other: &MethodStats)
        requires
            old(self)@.trials + other@.trials <= u64::MAX,
        ensures
            final(self)@ == old(self)@.plus(other@),
    {
        proof {
            use_type_invariant(&*self);
            use_type_invariant(other);
        }
        *self = MethodStats {
            trials: self.trials + other.trials,
            successes: self.successes + other.successes,
            iteration_sum: self.iteration_sum + other.iteration_sum,
        };
    }

    /// The number of solves recorded.
    pub fn trials(&self) -> (n: u64)
        ensures
            n == self@.trials,
    {
        self.trials
    }

    /// The number of recorded solves that converged.
    pub fn successes(&self) -> (n: u64)
        ensures
            n == self@.successes,
            n <= self@.trials,
    {
        proof {
            use_type_invariant(self);
        }
        self.successes
    }

    /// The sweeps of the solves that converged, added up.
    pub fn iteration_sum(&self) -> (n: u128)
        ensures
            n == self@.iteration_sum,
    {
        self.iteration_sum
    }

    /// The share of the solves that converged, in percent with four decimal
    /// places; `None` where no solve was recorded.
    pub fn success_ratio(&self) -> (r: Option<Fixed4>)
        ensures
            r is Some <==> self@.trials > 0,
            match r {
                Some(f) => success_ratio_of(self@) == Some(f.units as nat),
                None => success_ratio_of(self@) is None,
            },
    {
        proof {
            use_type_invariant(self);
        }
        if self.trials == 0 {
            None
        } else {
            let numerator: u128 = 1_000_000 * (self.successes as u128);
            let denominator: u128 = self.trials as u128;
            Some(Fixed4 { units: (2 * numerator + denominator) / (2 * denominator) })
        }
    }

    /// The average number of sweeps of the solves that converged, with four
    /// decimal places; `None` where none converged, so that no division by
    /// zero is ever carried out.
    pub fn average_iterations(&self) -> (r: Option<Fixed4>)
        ensures
            r is Some <==> self@.successes > 0,
            match r {
                Some(f) => average_iterations_of(self@) == Some(f.units as nat),
                None => average_iterations_of(self@) is None,
            },
    {
        proof {
            use_type_invariant(self);
        }
        if self.successes == 0 {
            None
        } else {
            let numerator: u128 = 10_000 * self.iteration_sum;
            let denominator: u128 = self.successes as u128;
            Some(Fixed4 { units: (2 * numerator + denominator) / (2 * denominator) })
        }
    }
}

/// What a tally counts: every solve is a trial, no more solves converged
/// than were run, and a solve that converged adds at most `u32::MAX` sweeps.
pub proof fn lemma_tally_counts(outcomes: Seq<Outcome>)
    ensures
        tally(outcomes).trials == outcomes.len(),
        tally(outcomes).successes <= outcomes.len(),
        tally(outcomes).iteration_sum <= tally(outcomes).successes * u32::MAX,
    decreases outcomes.len(),
{
    if outcomes.len() > 0 {
        lemma_tally_counts(outcomes.drop_last());
    }
}

/// Tallies add up: the tally of two series of solves run one after the
/// other is the sum of their tallies, so the trials may be shared out and
/// the statistics merged afterwards.
pub proof fn lemma_tally_of_concat(first: Seq<Outcome>, second: Seq<Outcome>)
    ensures
        tally(first + second) == tally(first).plus(tally(second)),
    decreases second.len(),
{
    if second.len() == 0 {
        assert(first + second == first);
    } else {
        lemma_tally_of_concat(first, second.drop_last());
        assert((first + second).drop_last() == first + second.drop_last());
        assert((first + second).last() == second.last());
    }
}

/// The rounded quotient is a nearest whole number: twice its distance from
/// the exact quotient is at most one, and the exact half is rounded up.
pub proof fn lemma_rounded_quotient_is_nearest(numerator: nat, denominator: nat)
    requires
        denominator > 0,
    ensures
        2 * rounded_quotient(numerator, denominator) * denominator - denominator <= 2
            * numerator,
        2 * numerator < 2 * rounded_quotient(numerator, denominator) * denominator
            + denominator,
{
    let q: nat = rounded_quotient(numerator, denominator);
    let a: int = (2 * numerator + denominator) as int;
    let b: int = (2 * denominator) as int;
    vstd::arithmetic::div_mod::lemma_fundamental_div_mod(a, b);
    vstd::arithmetic::div_mod::lemma_mod_bound(a, b);
    assert(b * (a / b) == 2 * q * denominator) by (nonlinear_arith)
        requires
            b == 2 * denominator,
            q == a / b,
    ;
}

/// A success ratio is a percentage: it never exceeds one hundred percent.
pub proof fn lemma_success_ratio_is_a_percentage(t: Tally)
    requires
        t.successes <= t.trials,
    ensures
        success_ratio_of(t) matches Some(ratio) ==> ratio <= 1_000_000,
{
    if t.trials > 0 {
        let d: int = t.trials as int;
        let n: int = (1_000_000 * t.successes) as int;
        assert((2 * n + d) / (2 * d) <= 1_000_000) by (nonlinear_arith)
            requires
                d > 0,
                0 <= n <= 1_000_000 * d,
        ;
    }
}

/// Where every solve converged the success ratio is exactly one hundred
/// percent, and where none did it is zero.
pub proof fn lemma_success_ratio_at_the_ends(t: Tally)
    requires
        t.trials > 0,
    ensures
        t.successes == t.trials ==> success_ratio_of(t) == Some(1_000_000nat),
        t.successes == 0 ==> success_ratio_of(t) == Some(0nat),
{
    let d: int = t.trials as int;
    if t.successes == t.trials {
        assert((2 * (1_000_000 * d) + d) / (2 * d) == 1_000_000) by (nonlinear_arith)
            requires
                d > 0,
        ;
    }
    if t.successes == 0 {
        assert(d / (2 * d) == 0) by (nonlinear_arith)
            requires
                d > 0,
        ;
    }
}

} // verus!
