use vstd::prelude::*;

verus! {

/// The named terms of a problem whose sizes are validated.
#[derive(Clone, Copy, Debug, PartialEq, Eq, Structural)]
pub enum Term {
    /// The quadratic form `G`.
    G,
    /// The linear term `g0`.
    G0,
    /// The equality coefficients `CE`.
    Ce,
    /// The equality constants `ce0`.
    Ce0,
    /// The inequality coefficients `CI`.
    Ci,
    /// The inequality constants `ci0`.
    Ci0,
}

/// Numerical failures of the kernel.
#[derive(Clone, Copy, Debug, PartialEq, Eq, Structural)]
pub enum Failure {
    /// A Cholesky pivot of `G` was not positive.
    NotPositiveDefinite,
    /// The equality constraints are linearly dependent.
    DependentEqualities,
    /// Every violated inequality depends linearly on the active
    /// constraints.
    DependentInequalities,
    /// The driver ran out of its iteration budget.
    IterationLimit,
    /// The kernel reported an event that the driver's phase does not
    /// expect.
    UnexpectedEvent,
}

/// Errors that can happen while solving a problem.
#[derive(Clone, Copy, Debug, PartialEq, Eq, Structural)]
pub enum Error {
    /// The problem has no feasible solution.
    Infeasible,
    /// The given matrices and vectors have inconsistent sizes.
    SizeMismatch { term: Term, expected: usize, actual: usize },
    /// The numerical kernel failed.
    Numerical { reason: Failure },
}

impl Term {
    /// The name of the term as written in the problem statement.
    pub fn name(&self) -> (r: &'static str)
        ensures
            r@ == term_name(*self),
    {
        match self {
            Term::G => "G",
            Term::G0 => "g0",
            Term::Ce => "CE",
            Term::Ce0 => "ce0",
            Term::Ci => "CI",
            Term::Ci0 => "ci0",
        }
    }
}

pub open spec fn term_name(t: Term) -> Seq<char> {
    match t {
        Term::G => "G"@,
        Term::G0 => "g0"@,
        Term::Ce => "CE"@,
        Term::Ce0 => "ce0"@,
        Term::Ci => "CI"@,
        Term::Ci0 => "ci0"@,
    }
}

impl From<Failure> for Error {
    fn from(reason: Failure) -> (r: Error)
        ensures
            r == (Error::Numerical { reason }),
    {
        Error::Numerical { reason }
    }
}

impl vstd::std_specs::convert::FromSpecImpl<Failure> for Error {
    open spec fn obeys_from_spec() -> bool {
        true
    }

    open spec fn from_spec(reason: Failure) -> Error {
        Error::Numerical { reason }
    }
}

} // verus!
