//! The two update rules and what the sum of an equation reads under each.
use vstd::prelude::*;

verus! {

/// The update rule of a sweep.
#[derive(Clone, Copy, Debug, PartialEq, Eq, Structural)]
pub enum Method {
    /// Every equation reads the iterate as it stood before the sweep.
    Jacobi,
    /// Every equation reads the unknowns that the sweep has already updated.
    GaussSeidel,
}

/// How one unknown enters the sum of an equation.
#[derive(Clone, Copy, Debug, PartialEq, Eq, Structural)]
pub enum Term {
    /// The unknown is the equation's own: it is left out of the sum.
    Omitted,
    /// The unknown is read from the iterate as it stood before the sweep.
    Previous,
    /// The unknown is read as this sweep has already updated it.
    Updated,
}

impl Method {
    /// How unknown `unknown` enters the sum of equation `equation`: not at
    /// all where it is the equation's own; with the sweep's own value under
    /// Gauss-Seidel where it comes before the equation; with the previous
    /// value otherwise.
    pub open spec fn spec_term(&self, equation: usize, unknown: usize) -> Term {
        if unknown == equation {
            Term::Omitted
        } else if *self == Method::GaussSeidel && unknown < equation {
            Term::Updated
        } else {
            Term::Previous
        }
    }

    /// Tells a sweep how `unknown` enters the sum of `equation`.
    #[verifier::when_used_as_spec(spec_term)]
    pub fn term(&self, equation: usize, unknown: usize) -> (t: Term)
        ensures
            t == self.spec_term(equation, unknown),
    {
        if unknown == equation {
            Term::Omitted
        } else {
            match self {
                Method::Jacobi => Term::Previous,
                Method::GaussSeidel => if unknown < equation {
                    Term::Updated
                } else {
                    Term::Previous
                },
            }
        }
    }
}

/// Under Jacobi no equation reads what the sweep itself has written, and
/// under either rule an unknown that comes after the equation is read as it
/// stood before the sweep.
pub proof fn lemma_what_a_sweep_reads(method: Method, equation: usize, unknown: usize)
    ensures
        method == Method::Jacobi ==> method.spec_term(equation, unknown) != Term::Updated,
        unknown > equation ==> method.spec_term(equation, unknown) == Term::Previous,
        method.spec_term(equation, unknown) == Term::Omitted <==> unknown == equation,
{
}

} // verus!
