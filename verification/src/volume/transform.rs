//! Affine transformations: where one is read from, and the linear system that finds one from
//! control points.

use crate::text::{chars_of, string_of, trim_chars, trimmed};
use vstd::prelude::*;

verus! {

/// Where a transformation is given.
pub enum TransformSource {
    /// A JSON array with the rows of the matrix.
    Array(String),
    /// The path of a JSON file.
    Path(String),
}

/// A text that begins with a bracket is an array, any other one a path. White space around it
/// does not count.
pub fn from_json_array_or_path(json_or_path: &str) -> (r: TransformSource)
    ensures
        match r {
            TransformSource::Array(text) => {
                &&& text@ == trimmed(json_or_path@)
                &&& text@.len() > 0
                &&& text@[0] == '['
            },
            TransformSource::Path(text) => {
                &&& text@ == trimmed(json_or_path@)
                &&& !(text@.len() > 0 && text@[0] == '[')
            },
        },
{
    let chars = chars_of(json_or_path);
    let inner = trim_chars(&chars);
    let text = string_of(&inner);
    if inner.len() > 0 && inner[0] == '[' {
        TransformSource::Array(text)
    } else {
        TransformSource::Path(text)
    }
}

/// Why no transformation can be found.
pub enum TransformError {
    DifferentCounts,
    TooFewPoints,
    NotSolvable,
}

impl TransformError {
    /// What is wrong, in words.
    pub fn message(&self) -> (text: String)
        ensures
            text@ == (match self {
                TransformError::DifferentCounts => "Source and target point counts must match"@,
                TransformError::TooFewPoints => "Need at least 4 non-coplanar points"@,
                TransformError::NotSolvable => "Failed to solve the system of equations"@,
            }),
    {
        match self {
            TransformError::DifferentCounts => "Source and target point counts must match".to_string(),
            TransformError::TooFewPoints => "Need at least 4 non-coplanar points".to_string(),
            TransformError::NotSolvable => "Failed to solve the system of equations".to_string(),
        }
    }
}

/// The linear system for a number of pairs of points: three equations for each pair, in the twelve
/// entries of the upper three rows of the matrix.
pub struct AffineSystem {
    pub points: usize,
}

/// What stands in a place of the system.
#[derive(Clone, Copy, PartialEq, Eq, Structural)]
pub enum Coefficient {
    Zero,
    One,
    /// A coordinate of a source point.
    Source(usize, usize),
}

/// The number of unknowns.
pub const UNKNOWNS: usize = 12;

impl AffineSystem {
    /// At least four pairs are needed.
    pub fn new(sources: usize, targets: usize) -> (r: Result<AffineSystem, TransformError>)
        ensures
            match r {
                Ok(system) => sources == targets && sources >= 4 && system.points == sources,
                Err(TransformError::DifferentCounts) => sources != targets,
                Err(TransformError::TooFewPoints) => sources == targets && sources < 4,
                Err(TransformError::NotSolvable) => false,
            },
    {
        if sources != targets {
            return Err(TransformError::DifferentCounts);
        }
        if sources < 4 {
            return Err(TransformError::TooFewPoints);
        }
        Ok(AffineSystem { points: sources })
    }

    /// The coefficient of an unknown in an equation. Equation `3 * i + k` computes coordinate `k`
    /// of target `i` from row `k` of the matrix.
    pub fn coefficient(&self, row: usize, column: usize) -> (c: Coefficient)
        requires
            row < 3 * self.points,
            column < UNKNOWNS,
        ensures
            c == equation(row / 3, row as int % 3)(column as int),
    {
        if column / 4 != row % 3 {
            Coefficient::Zero
        } else if column % 4 == 3 {
            Coefficient::One
        } else {
            Coefficient::Source(row / 3, column % 4)
        }
    }

    /// The target point, and which of its coordinates, on the right side of an equation.
    pub fn right_side(&self, row: usize) -> (r: (usize, usize))
        requires
            row < 3 * self.points,
        ensures
            r.0 == row / 3,
            r.1 == row % 3,
            r.0 < self.points,
    {
        (row / 3, row % 3)
    }

    /// The unknown that stands at a place of the matrix.
    pub fn unknown(row: usize, column: usize) -> (k: usize)
        requires
            row < 3,
            column < 4,
        ensures
            k == row * 4 + column,
            k < UNKNOWNS,
    {
        row * 4 + column
    }
}

/// What an equation adds up to for the entries `m` of the matrix.
pub open spec fn equation_sum(
    coefficients: spec_fn(int) -> Coefficient,
    source: spec_fn(int, int) -> int,
    m: spec_fn(int) -> int,
    n: int,
) -> int
    decreases n,
{
    if n <= 0 {
        0
    } else {
        equation_sum(coefficients, source, m, n - 1) + (match coefficients(n - 1) {
            Coefficient::Zero => 0,
            Coefficient::One => m(n - 1),
            Coefficient::Source(i, k) => m(n - 1) * source(i as int, k as int),
        })
    }
}

/// The coefficients of the equation for coordinate `k` of point `i`.
pub open spec fn equation(i: usize, k: int) -> spec_fn(int) -> Coefficient {
    |column: int|
        if column / 4 != k {
            Coefficient::Zero
        } else if column % 4 == 3 {
            Coefficient::One
        } else {
            Coefficient::Source(i, (column % 4) as usize)
        }
}

/// Each equation says that a row of the matrix, applied to a source point, gives a coordinate.
pub proof fn equations_apply_the_matrix(
    i: usize,
    k: int,
    source: spec_fn(int, int) -> int,
    m: spec_fn(int) -> int,
)
    requires
        0 <= k < 3,
    ensures
        equation_sum(equation(i, k), source, m, UNKNOWNS as int) == m(4 * k) * source(i as int, 0) + m(
            4 * k + 1,
        ) * source(i as int, 1) + m(4 * k + 2) * source(i as int, 2) + m(4 * k + 3),
{
    reveal_with_fuel(equation_sum, 13);
}

} // verus!
