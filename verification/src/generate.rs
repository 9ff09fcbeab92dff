//! Random systems. A coefficient is held exactly, as a whole number of
//! hundredths, so that a generated system is the same on every machine that
//! reads it.
use rand::Rng;
use vstd::prelude::*;

verus! {

/// The least coefficient that is generated, in hundredths: -10.00.
pub const COEFFICIENT_MIN: i32 = -1000;

/// The greatest coefficient that is generated, in hundredths: 10.99.
pub const COEFFICIENT_MAX: i32 = 1099;

/// Whether `value`, in hundredths, lies in the range of generated
/// coefficients.
pub open spec fn is_coefficient(value: i32) -> bool {
    COEFFICIENT_MIN <= value <= COEFFICIENT_MAX
}

/// Whether `matrix` has one row for each of `unknowns` equations, each row
/// holding the coefficients of the unknowns and then the right-hand side.
pub open spec fn is_augmented(matrix: Seq<Vec<i32>>, unknowns: nat) -> bool {
    &&& matrix.len() == unknowns
    &&& forall|i: int| 0 <= i < matrix.len() ==> (#[trigger] matrix[i])@.len() == unknowns + 1
}

/// Draws a whole number from `low..=high` with `rand::Rng::gen_range` on the
/// generator of `rand::thread_rng`. Only the range of the result is claimed:
/// which number comes is left to chance. An empty range makes `gen_range`
/// panic and is ruled out.
#[verifier::external_body]
fn uniform_inclusive(low: i32, high: i32) -> (value: i32)
    requires
        low <= high,
    ensures
        low <= value <= high,
{
    rand::thread_rng().gen_range(low..=high)
}

/// The augmented matrix of a system of `unknowns` equations with every
/// entry zero.
pub fn zero_matrix(unknowns: usize) -> (matrix: Vec<Vec<i32>>)
    requires
        unknowns < usize::MAX,
    ensures
        is_augmented(matrix@, unknowns as nat),
        forall|i: int, j: int|
            0 <= i < matrix@.len() && 0 <= j < matrix@[i]@.len() ==> (#[trigger] matrix@[i]@[j])
                == 0,
{
    let mut matrix: Vec<Vec<i32>> = Vec::new();
    let mut i: usize = 0;
    while i < unknowns
        invariant
            i <= unknowns < usize::MAX,
            matrix@.len() == i,
            forall|r: int| 0 <= r < matrix@.len() ==> (#[trigger] matrix@[r])@.len() == unknowns + 1,
            forall|r: int, c: int|
                0 <= r < matrix@.len() && 0 <= c < matrix@[r]@.len() ==> (
                #[trigger] matrix@[r]@[c]) == 0,
        decreases unknowns - i,
    {
        let mut row: Vec<i32> = Vec::new();
        let mut j: usize = 0;
        while j < unknowns + 1
            invariant
                j <= unknowns + 1,
                unknowns < usize::MAX,
                row@.len() == j,
                forall|c: int| 0 <= c < row@.len() ==> (#[trigger] row@[c]) == 0,
            decreases unknowns + 1 - j,
        {
            row.push(0);
            j += 1;
        }
        matrix.push(row);
        i += 1;
    }
    matrix
}

/// Fills every entry of `matrix` with a random coefficient. The shape of the
/// matrix stays as it is.
pub fn generate_matrix(matrix: &mut Vec<Vec<i32>>)
    ensures
        final(matrix)@.len() == old(matrix)@.len(),
        forall|i: int|
            0 <= i < old(matrix)@.len() ==> (#[trigger] final(matrix)@[i])@.len() == old(
                matrix,
            )@[i]@.len(),
        forall|i: int, j: int|
            0 <= i < final(matrix)@.len() && 0 <= j < final(matrix)@[i]@.len() ==> is_coefficient(
                #[trigger] final(matrix)@[i]@[j],
            ),
{
    let rows = matrix.len();
    let mut i: usize = 0;
    while i < rows
        invariant
            i <= rows,
            matrix@.len() == rows,
            rows == old(matrix)@.len(),
            forall|r: int|
                0 <= r < rows ==> (#[trigger] matrix@[r])@.len() == old(matrix)@[r]@.len(),
            forall|r: int, c: int|
                0 <= r < i && 0 <= c < matrix@[r]@.len() ==> is_coefficient(
                    #[trigger] matrix@[r]@[c],
                ),
        decreases rows - i,
    {
        let width = matrix[i].len();
        let mut j: usize = 0;
        while j < width
            invariant
                i < rows,
                j <= width,
                matrix@.len() == rows,
                rows == old(matrix)@.len(),
                width == matrix@[i as int]@.len(),
                forall|r: int|
                    0 <= r < rows ==> (#[trigger] matrix@[r])@.len() == old(matrix)@[r]@.len(),
                forall|r: int, c: int|
                    0 <= r < i && 0 <= c < matrix@[r]@.len() ==> is_coefficient(
                        #[trigger] matrix@[r]@[c],
                    ),
                forall|c: int| 0 <= c < j ==> is_coefficient(#[trigger] matrix@[i as int]@[c]),
            decreases width - j,
        {
            let value = uniform_inclusive(COEFFICIENT_MIN, COEFFICIENT_MAX);
            matrix[i][j] = value;
            j += 1;
        }
        i += 1;
    }
}

/// A random system of `unknowns` equations.
pub fn random_system(unknowns: usize) -> (matrix: Vec<Vec<i32>>)
    requires
        unknowns < usize::MAX,
    ensures
        is_augmented(matrix@, unknowns as nat),
        forall|i: int, j: int|
            0 <= i < matrix@.len() && 0 <= j < matrix@[i]@.len() ==> is_coefficient(
                #[trigger] matrix@[i]@[j],
            ),
{
    let mut matrix = zero_matrix(unknowns);
    generate_matrix(&mut matrix);
    matrix
}

} // verus!
