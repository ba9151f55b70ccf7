use vstd::prelude::*;
use crate::error::{Error, Term};

verus! {

/// The number of rows and columns of a dense matrix.
#[derive(Clone, Copy, Debug, PartialEq, Eq, Structural)]
pub struct Shape {
    pub rows: usize,
    pub cols: usize,
}

/// The sizes of a constraint system: its coefficient matrix (one column per
/// constraint) and the length of its constant vector.
#[derive(Clone, Copy, Debug, PartialEq, Eq, Structural)]
pub struct ConstraintShape {
    pub coeffs: Shape,
    pub consts: usize,
}

/// The dimensions of a well-formed problem: `n` variables, `p` equality and
/// `m` inequality constraints.
#[derive(Clone, Copy, Debug, PartialEq, Eq, Structural)]
pub struct Sizes {
    pub n: usize,
    pub p: usize,
    pub m: usize,
}

/// The size error of one constraint system over `n` variables, if any: the
/// coefficients must have `n` rows, the constants one entry per column.
pub open spec fn system_mismatch(
    coeffs: Term,
    consts: Term,
    n: usize,
    c: Option<ConstraintShape>,
) -> Option<Error> {
    match c {
        None => None,
        Some(c) => if c.coeffs.rows != n {
            Some(Error::SizeMismatch { term: coeffs, expected: n, actual: c.coeffs.rows })
        } else if c.consts != c.coeffs.cols {
            Some(Error::SizeMismatch { term: consts, expected: c.coeffs.cols, actual: c.consts })
        } else {
            None
        },
    }
}

/// The number of constraints of a system; an absent system has none.
pub open spec fn system_len(c: Option<ConstraintShape>) -> usize {
    match c {
        None => 0,
        Some(c) => c.coeffs.cols,
    }
}

/// The outcome of validating a problem's sizes: the first disagreement in the
/// order `G`, `g0`, `CE`, `ce0`, `CI`, `ci0`, or the problem's dimensions.
pub open spec fn sizes_of(
    g: Shape,
    g0: usize,
    ce: Option<ConstraintShape>,
    ci: Option<ConstraintShape>,
) -> Result<Sizes, Error> {
    let n = g.rows;
    if g.cols != n {
        Err(Error::SizeMismatch { term: Term::G, expected: n, actual: g.cols })
    } else if g0 != n {
        Err(Error::SizeMismatch { term: Term::G0, expected: n, actual: g0 })
    } else if system_mismatch(Term::Ce, Term::Ce0, n, ce) is Some {
        Err(system_mismatch(Term::Ce, Term::Ce0, n, ce)->0)
    } else if system_mismatch(Term::Ci, Term::Ci0, n, ci) is Some {
        Err(system_mismatch(Term::Ci, Term::Ci0, n, ci)->0)
    } else {
        Ok(Sizes { n, p: system_len(ce), m: system_len(ci) })
    }
}

fn check_system(coeffs: Term, consts: Term, n: usize, c: Option<ConstraintShape>) -> (r: Result<
    usize,
    Error,
>)
    ensures
        match system_mismatch(coeffs, consts, n, c) {
            Some(e) => r == Err::<usize, Error>(e),
            None => r == Ok::<usize, Error>(system_len(c)),
        },
{
    match c {
        None => Ok(0),
        Some(c) => {
            if c.coeffs.rows != n {
                Err(Error::SizeMismatch { term: coeffs, expected: n, actual: c.coeffs.rows })
            } else if c.consts != c.coeffs.cols {
                Err(Error::SizeMismatch { term: consts, expected: c.coeffs.cols, actual: c.consts })
            } else {
                Ok(c.coeffs.cols)
            }
        },
    }
}

/// Validates the sizes of a problem before any numerical work: `G` must be
/// square of order n, `g0` of length n, and each constraint system present
/// must have n rows and as many constants as columns. An absent system counts
/// as one without constraints.
pub fn check_sizes(
    g: Shape,
    g0: usize,
    ce: Option<ConstraintShape>,
    ci: Option<ConstraintShape>,
) -> (r: Result<Sizes, Error>)
    ensures
        r == sizes_of(g, g0, ce, ci),
{
    let n = g.rows;
    if g.cols != n {
        return Err(Error::SizeMismatch { term: Term::G, expected: n, actual: g.cols });
    }
    if g0 != n {
        return Err(Error::SizeMismatch { term: Term::G0, expected: n, actual: g0 });
    }
    let p = match check_system(Term::Ce, Term::Ce0, n, ce) {
        Ok(p) => p,
        Err(e) => return Err(e),
    };
    let m = match check_system(Term::Ci, Term::Ci0, n, ci) {
        Ok(m) => m,
        Err(e) => return Err(e),
    };
    Ok(Sizes { n, p, m })
}

/// An absent constraint system is validated exactly as one with `n` rows and
/// no columns.
pub proof fn lemma_absent_is_empty(g: Shape, g0: usize, ce: Option<ConstraintShape>, ci: Option<
    ConstraintShape,
>)
    ensures
        sizes_of(g, g0, None, ci) == sizes_of(
            g,
            g0,
            Some(ConstraintShape { coeffs: Shape { rows: g.rows, cols: 0 }, consts: 0 }),
            ci,
        ),
        sizes_of(g, g0, ce, None) == sizes_of(
            g,
            g0,
            ce,
            Some(ConstraintShape { coeffs: Shape { rows: g.rows, cols: 0 }, consts: 0 }),
        ),
{
}

/// A problem whose equality coefficients have a row count other than the
/// order of `G` is refused naming `CE`, unless `G` or `g0` is refused first.
pub proof fn lemma_equality_rows_named(g: Shape, g0: usize, ce: ConstraintShape, ci: Option<
    ConstraintShape,
>)
    requires
        g.rows == g.cols,
        g0 == g.rows,
        ce.coeffs.rows != g.rows,
    ensures
        sizes_of(g, g0, Some(ce), ci) == Err::<Sizes, Error>(
            Error::SizeMismatch { term: Term::Ce, expected: g.rows, actual: ce.coeffs.rows },
        ),
{
}

/// A problem is accepted exactly when every term has the size that `G`'s
/// order and the constraint counts give it.
pub proof fn lemma_accepted_iff_consistent(
    g: Shape,
    g0: usize,
    ce: Option<ConstraintShape>,
    ci: Option<ConstraintShape>,
)
    ensures
        sizes_of(g, g0, ce, ci) is Ok <==> {
            &&& g.cols == g.rows
            &&& g0 == g.rows
            &&& (ce matches Some(c) ==> c.coeffs.rows == g.rows && c.consts == c.coeffs.cols)
            &&& (ci matches Some(c) ==> c.coeffs.rows == g.rows && c.consts == c.coeffs.cols)
        },
{
}

} // verus!
