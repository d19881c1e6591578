//! The library on double-precision numbers.
use matrix_algebra::{DimensionError, Matrix, ParseError, Scalar, Text};

/// A double-precision number as a scalar. Every method is the operator of
/// `f64` that it is named after.
#[derive(Clone, Copy, Debug, PartialEq)]
struct Real(f64);

impl Scalar for Real {
    fn zero_spec() -> Self {
        Self::zero()
    }

    fn one_spec() -> Self {
        Self::one()
    }

    fn minus_one_spec() -> Self {
        Self::minus_one()
    }

    fn plus_spec(self, rhs: Self) -> Self {
        self.plus(rhs)
    }

    fn minus_spec(self, rhs: Self) -> Self {
        self.minus(rhs)
    }

    fn times_spec(self, rhs: Self) -> Self {
        self.times(rhs)
    }

    fn over_spec(self, rhs: Self) -> Self {
        self.over(rhs)
    }

    fn is_zero_spec(self) -> bool {
        self.is_zero()
    }

    fn outweighs_spec(self, rhs: Self) -> bool {
        self.outweighs(rhs)
    }

    fn parse_spec(_text: Text) -> Option<Self> {
        panic!("a model function is never run")
    }

    fn text_spec(self) -> Text {
        panic!("a model function is never run")
    }

    fn zero() -> Self {
        Real(0.0)
    }

    fn one() -> Self {
        Real(1.0)
    }

    fn minus_one() -> Self {
        Real(-1.0)
    }

    fn plus(self, rhs: Self) -> Self {
        Real(self.0 + rhs.0)
    }

    fn minus(self, rhs: Self) -> Self {
        Real(self.0 - rhs.0)
    }

    fn times(self, rhs: Self) -> Self {
        Real(self.0 * rhs.0)
    }

    fn over(self, rhs: Self) -> Self {
        Real(self.0 / rhs.0)
    }

    fn is_zero(self) -> bool {
        self.0 == 0.0
    }

    fn outweighs(self, rhs: Self) -> bool {
        self.0.abs() > rhs.0.abs()
    }

    fn parse(text: &str) -> Option<Self> {
        text.parse::<f64>().ok().map(Real)
    }

    fn to_text(self) -> String {
        self.0.to_string()
    }
}

fn matrix(rows: &[&[f64]]) -> Matrix<Real> {
    let data: Vec<Vec<Real>> = rows.iter().map(|r| r.iter().map(|&x| Real(x)).collect()).collect();
    Matrix::from_rows(data).expect("rows of one length")
}

fn entries(m: &Matrix<Real>) -> Vec<Vec<f64>> {
    m.clone().into_rows().into_iter().map(|r| r.into_iter().map(|x| x.0).collect()).collect()
}

fn numbers(v: Vec<Real>) -> Vec<f64> {
    v.into_iter().map(|x| x.0).collect()
}

fn identity(n: usize) -> Matrix<Real> {
    let data: Vec<Vec<Real>> =
        (0..n).map(|i| (0..n).map(|j| Real(if i == j { 1.0 } else { 0.0 })).collect()).collect();
    Matrix::from_rows(data).expect("a square of ones and zeros")
}

fn close(a: f64, b: f64) -> bool {
    (a - b).abs() <= 1e-9 * (1.0 + a.abs().max(b.abs()))
}

fn all_close(a: &Vec<Vec<f64>>, b: &Vec<Vec<f64>>) -> bool {
    a.len() == b.len()
        && a.iter().zip(b).all(|(r, s)| r.len() == s.len() && r.iter().zip(s).all(|(&x, &y)| close(x, y)))
}

#[test]
fn parses_two_by_two() {
    let m = Matrix::<Real>::from_str("1 2\n3 4").unwrap();
    assert_eq!(m.rows(), 2);
    assert_eq!(m.cols(), 2);
    assert_eq!(entries(&m), vec![vec![1.0, 2.0], vec![3.0, 4.0]]);
}

#[test]
fn determinant_of_two_by_two() {
    let m = Matrix::<Real>::from_str("1 2\n3 4").unwrap();
    assert_eq!(m.determinant(), Ok(Real(-2.0)));
}

#[test]
fn inverse_of_two_by_two() {
    let m = Matrix::<Real>::from_str("1 2\n3 4").unwrap();
    let inv = m.inverse().unwrap();
    assert_eq!(entries(&inv), vec![vec![-2.0, 1.0], vec![1.5, -0.5]]);
}

#[test]
fn adds_entry_by_entry() {
    let a = matrix(&[&[1.0, 2.0], &[3.0, 4.0]]);
    let b = matrix(&[&[1.0, 1.0], &[1.0, 1.0]]);
    let sum = a.add(b).unwrap();
    assert_eq!(entries(&sum), vec![vec![2.0, 3.0], vec![4.0, 5.0]]);
}

#[test]
fn subtracts_entry_by_entry() {
    let a = matrix(&[&[1.0, 2.0], &[3.0, 4.0]]);
    let b = matrix(&[&[7.0, 8.0], &[11.0, 12.0]]);
    let diff = a.sub(b).unwrap();
    assert_eq!(entries(&diff), vec![vec![-6.0, -6.0], vec![-8.0, -8.0]]);
}

#[test]
fn multiplies_two_by_two() {
    let a = matrix(&[&[1.0, 2.0], &[3.0, 4.0]]);
    let b = matrix(&[&[5.0, 6.0], &[7.0, 8.0]]);
    let product = a.mul(b).unwrap();
    assert_eq!(entries(&product), vec![vec![19.0, 22.0], vec![43.0, 50.0]]);
}

#[test]
fn multiplies_rectangles() {
    let a = matrix(&[&[1.0, 2.0, 3.0], &[4.0, 5.0, 6.0]]);
    let b = matrix(&[&[1.0], &[0.0], &[-1.0]]);
    let product = a.mul(b).unwrap();
    assert_eq!(entries(&product), vec![vec![-2.0], vec![-2.0]]);
}

#[test]
fn scales_every_entry() {
    let m = matrix(&[&[1.0, 2.0], &[3.0, 4.0]]);
    let scaled = m.scalar_mul(Real(2.5));
    assert_eq!(entries(&scaled), vec![vec![2.5, 5.0], vec![7.5, 10.0]]);
}

#[test]
fn gaussian_elimination_solves_three_equations() {
    let m = Matrix::<Real>::from_str("2 3 5 10\n1 -1 2 3\n3 2 -1 4").unwrap();
    let x = numbers(m.gaussian_elimination().unwrap());
    assert_eq!(x.len(), 3);
    assert!(close(2.0 * x[0] + 3.0 * x[1] + 5.0 * x[2], 10.0));
    assert!(close(x[0] - x[1] + 2.0 * x[2], 3.0));
    assert!(close(3.0 * x[0] + 2.0 * x[1] - x[2], 4.0));
}

#[test]
fn cramer_rule_solves_three_equations() {
    let m = Matrix::<Real>::from_str("2 3 5 10\n1 -1 2 3\n3 2 -1 4").unwrap();
    let x = numbers(m.cramer_rule().unwrap());
    assert_eq!(x.len(), 3);
    assert!(close(2.0 * x[0] + 3.0 * x[1] + 5.0 * x[2], 10.0));
    assert!(close(x[0] - x[1] + 2.0 * x[2], 3.0));
    assert!(close(3.0 * x[0] + 2.0 * x[1] - x[2], 4.0));
}

#[test]
fn both_solvers_agree() {
    let m = Matrix::<Real>::from_str("2 3 5 10\n1 -1 2 3\n3 2 -1 4").unwrap();
    let g = numbers(m.gaussian_elimination().unwrap());
    let c = numbers(m.cramer_rule().unwrap());
    assert!(all_close(&vec![g], &vec![c]));
}

#[test]
fn gaussian_elimination_exact_on_a_small_system() {
    // 2x + y = 5, x + 3y = 10: x = 1, y = 3.
    let m = matrix(&[&[2.0, 1.0, 5.0], &[1.0, 3.0, 10.0]]);
    assert_eq!(numbers(m.gaussian_elimination().unwrap()), vec![1.0, 3.0]);
    assert_eq!(numbers(m.cramer_rule().unwrap()), vec![1.0, 3.0]);
}

#[test]
fn gaussian_elimination_swaps_in_the_larger_pivot() {
    // The first column starts with zero, so the second row has to lead.
    let m = matrix(&[&[0.0, 2.0, 4.0], &[1.0, 1.0, 3.0]]);
    assert_eq!(numbers(m.gaussian_elimination().unwrap()), vec![1.0, 2.0]);
}

#[test]
fn gaussian_elimination_divides_by_a_zero_pivot() {
    let m = matrix(&[&[0.0, 1.0, 1.0], &[0.0, 1.0, 2.0]]);
    let x = numbers(m.gaussian_elimination().unwrap());
    assert_eq!(x.len(), 2);
    assert!(x.iter().any(|v| !v.is_finite()));
}

#[test]
fn determinant_of_one_entry() {
    assert_eq!(matrix(&[&[5.0]]).determinant(), Ok(Real(5.0)));
}

#[test]
fn determinant_of_three_by_three() {
    let m = matrix(&[&[2.0, 0.0, 1.0], &[1.0, 3.0, 2.0], &[1.0, 1.0, 1.0]]);
    // 2 * (3 - 2) - 0 * (1 - 2) + 1 * (1 - 3)
    assert_eq!(m.determinant(), Ok(Real(0.0)));
    let m = matrix(&[&[2.0, 3.0, 5.0], &[1.0, -1.0, 2.0], &[3.0, 2.0, -1.0]]);
    assert_eq!(m.determinant(), Ok(Real(40.0)));
}

#[test]
fn determinant_of_four_by_four() {
    let m = matrix(&[
        &[1.0, 0.0, 2.0, -1.0],
        &[3.0, 0.0, 0.0, 5.0],
        &[2.0, 1.0, 4.0, -3.0],
        &[1.0, 0.0, 5.0, 0.0],
    ]);
    assert_eq!(m.determinant(), Ok(Real(30.0)));
}

#[test]
fn determinant_needs_a_square() {
    let m = matrix(&[&[1.0, 2.0, 3.0], &[4.0, 5.0, 6.0]]);
    assert_eq!(m.determinant(), Err(DimensionError::NotSquare));
}

#[test]
fn determinant_survives_transposition() {
    let m = matrix(&[&[2.0, 3.0, 5.0], &[1.0, -1.0, 2.0], &[3.0, 2.0, -1.0]]);
    assert_eq!(m.transpose().determinant(), m.determinant());
    let m = matrix(&[&[1.0, 2.0], &[3.0, 4.0]]);
    assert_eq!(m.transpose().determinant(), m.determinant());
}

#[test]
fn determinant_survives_transposition_up_to_rounding() {
    // The two expansions add the same products in another order, and
    // doubles round each sum.
    let m = matrix(&[&[0.4, 0.2, 0.8], &[0.1, 0.7, 0.7], &[1.0, 0.1, 0.8]]);
    let d = m.determinant().unwrap().0;
    let t = m.transpose().determinant().unwrap().0;
    assert_eq!(d, -0.23199999999999998);
    assert_eq!(t, -0.23199999999999996);
    assert!(close(d, t));
}

#[test]
fn determinant_of_identity_is_one() {
    for n in 1..=6 {
        assert_eq!(identity(n).determinant(), Ok(Real(1.0)));
    }
}

#[test]
fn transposes_a_rectangle() {
    let m = matrix(&[&[1.0, 2.0, 3.0], &[4.0, 5.0, 6.0]]);
    let t = m.transpose();
    assert_eq!(t.rows(), 3);
    assert_eq!(t.cols(), 2);
    assert_eq!(entries(&t), vec![vec![1.0, 4.0], vec![2.0, 5.0], vec![3.0, 6.0]]);
    assert_eq!(entries(&t.transpose()), entries(&m));
}

#[test]
fn minor_deletes_a_row_and_a_column() {
    let m = matrix(&[&[1.0, 2.0, 3.0], &[4.0, 5.0, 6.0], &[7.0, 8.0, 9.0]]);
    assert_eq!(entries(&m.minor(0, 1)), vec![vec![4.0, 6.0], vec![7.0, 9.0]]);
    assert_eq!(entries(&m.minor(2, 2)), vec![vec![1.0, 2.0], vec![4.0, 5.0]]);
    assert_eq!(entries(&m.minor(1, 0)), vec![vec![2.0, 3.0], vec![8.0, 9.0]]);
}

#[test]
fn new_is_filled_with_zeros() {
    let m = Matrix::<Real>::new(2, 3);
    assert_eq!(m.rows(), 2);
    assert_eq!(m.cols(), 3);
    assert_eq!(entries(&m), vec![vec![0.0; 3]; 2]);
    assert_eq!(m.get(1, 2), Real(0.0));
}

#[test]
fn from_rows_wants_a_rectangle() {
    assert!(Matrix::<Real>::from_rows(vec![]).is_none());
    assert!(Matrix::<Real>::from_rows(vec![vec![]]).is_none());
    assert!(Matrix::from_rows(vec![vec![Real(1.0)], vec![Real(1.0), Real(2.0)]]).is_none());
    assert!(Matrix::from_rows(vec![vec![Real(1.0), Real(2.0)]]).is_some());
}

#[test]
fn inverse_of_one_entry() {
    let inv = matrix(&[&[4.0]]).inverse().unwrap();
    assert_eq!(entries(&inv), vec![vec![0.25]]);
}

#[test]
fn inverse_of_three_by_three() {
    let m = matrix(&[&[2.0, 0.0, 0.0], &[0.0, 4.0, 0.0], &[0.0, 0.0, 8.0]]);
    let inv = m.inverse().unwrap();
    assert_eq!(
        entries(&inv),
        vec![vec![0.5, 0.0, 0.0], vec![0.0, 0.25, 0.0], vec![0.0, 0.0, 0.125]]
    );
}

#[test]
fn inverse_times_matrix_is_identity() {
    let m = matrix(&[&[2.0, 3.0, 5.0], &[1.0, -1.0, 2.0], &[3.0, 2.0, -1.0]]);
    let inv = m.inverse().unwrap();
    let product = m.mul(inv).unwrap();
    assert!(all_close(&entries(&product), &entries(&identity(3))));
}

#[test]
fn inverse_of_singular_matrix_fails() {
    let m = matrix(&[&[1.0, 2.0], &[2.0, 4.0]]);
    assert_eq!(m.inverse().err(), Some(DimensionError::Singular));
}

#[test]
fn inverse_needs_a_square() {
    let m = matrix(&[&[1.0, 2.0, 3.0], &[4.0, 5.0, 6.0]]);
    assert_eq!(m.inverse().err(), Some(DimensionError::NotSquare));
}

#[test]
fn add_of_different_shapes_fails() {
    let a = matrix(&[&[1.0, 2.0], &[3.0, 4.0]]);
    let b = matrix(&[&[1.0, 2.0, 3.0], &[4.0, 5.0, 6.0]]);
    assert_eq!(a.clone().add(b.clone()).err(), Some(DimensionError::Mismatch));
    assert_eq!(a.sub(b).err(), Some(DimensionError::Mismatch));
}

#[test]
fn mul_of_unfit_shapes_fails() {
    let a = matrix(&[&[1.0, 2.0], &[3.0, 4.0]]);
    let b = matrix(&[&[1.0, 2.0, 3.0]]);
    assert_eq!(a.mul(b).err(), Some(DimensionError::Incompatible));
}

#[test]
fn solvers_need_an_augmented_matrix() {
    let m = matrix(&[&[1.0, 2.0], &[3.0, 4.0]]);
    assert_eq!(m.gaussian_elimination().err(), Some(DimensionError::InvalidAugmented));
    assert_eq!(m.cramer_rule().err(), Some(DimensionError::InvalidAugmented));
}

#[test]
fn cramer_rule_rejects_a_singular_system() {
    let m = matrix(&[&[1.0, 2.0, 3.0], &[2.0, 4.0, 6.0]]);
    assert_eq!(m.cramer_rule().err(), Some(DimensionError::Singular));
}

#[test]
fn add_commutes() {
    let a = matrix(&[&[1.5, -2.0], &[3.25, 4.0]]);
    let b = matrix(&[&[0.1, 7.0], &[-3.0, 2.5]]);
    let left = a.clone().add(b.clone()).unwrap();
    let right = b.add(a).unwrap();
    assert_eq!(entries(&left), entries(&right));
}

#[test]
fn sub_is_add_of_the_negative() {
    let a = matrix(&[&[1.5, -2.0], &[3.25, 4.0]]);
    let b = matrix(&[&[0.1, 7.0], &[-3.0, 2.5]]);
    let left = a.clone().sub(b.clone()).unwrap();
    let right = a.add(b.scalar_mul(Real(-1.0))).unwrap();
    assert_eq!(entries(&left), entries(&right));
}

#[test]
fn mul_associates() {
    let a = matrix(&[&[1.0, 2.0], &[3.0, 4.0], &[5.0, 6.0]]);
    let b = matrix(&[&[0.5, -1.0, 2.0], &[1.5, 0.25, -3.0]]);
    let c = matrix(&[&[2.0], &[-1.0], &[0.5]]);
    let left = a.clone().mul(b.clone()).unwrap().mul(c.clone()).unwrap();
    let right = a.mul(b.mul(c).unwrap()).unwrap();
    assert!(all_close(&entries(&left), &entries(&right)));
}

#[test]
fn parses_with_any_spacing() {
    let m = Matrix::<Real>::from_str("  1 2 \n4 5 \n").unwrap();
    assert_eq!(entries(&m), vec![vec![1.0, 2.0], vec![4.0, 5.0]]);
    let m = Matrix::<Real>::from_str("7 8\n   11\t12").unwrap();
    assert_eq!(entries(&m), vec![vec![7.0, 8.0], vec![11.0, 12.0]]);
    let m = Matrix::<Real>::from_str("1.5e2 -0.25\r\n.5 +3\r\n").unwrap();
    assert_eq!(entries(&m), vec![vec![150.0, -0.25], vec![0.5, 3.0]]);
    let m = Matrix::<Real>::from_str("\u{2003}1\u{a0}2\u{3000}\n3 4").unwrap();
    assert_eq!(entries(&m), vec![vec![1.0, 2.0], vec![3.0, 4.0]]);
}

#[test]
fn parse_rejects_an_empty_text() {
    assert_eq!(Matrix::<Real>::from_str("").err(), Some(ParseError::EmptyRow));
    assert_eq!(Matrix::<Real>::from_str(" \n\t\n ").err(), Some(ParseError::EmptyRow));
}

#[test]
fn parse_rejects_what_is_no_number() {
    assert_eq!(
        Matrix::<Real>::from_str("1 2\n3 x").err(),
        Some(ParseError::InvalidNumber { row: 1, col: 1 })
    );
    assert_eq!(
        Matrix::<Real>::from_str("1 a b\n3 4").err(),
        Some(ParseError::InvalidNumber { row: 0, col: 1 })
    );
}

#[test]
fn parse_rejects_rows_of_different_length() {
    assert_eq!(
        Matrix::<Real>::from_str("1 2\n3 4 5").err(),
        Some(ParseError::InconsistentColumns { row: 1 })
    );
    assert_eq!(
        Matrix::<Real>::from_str("1 2\n\n3 4").err(),
        Some(ParseError::InconsistentColumns { row: 1 })
    );
}

#[test]
fn parse_reads_a_row_before_it_counts_it() {
    // Row 1 is too long and holds a bad token: the token is met first.
    assert_eq!(
        Matrix::<Real>::from_str("1 2\n3 4 x").err(),
        Some(ParseError::InvalidNumber { row: 1, col: 2 })
    );
    // Row 1 is too short, row 2 holds a bad token: row 1 is met first.
    assert_eq!(
        Matrix::<Real>::from_str("1 2\n3\nx 4").err(),
        Some(ParseError::InconsistentColumns { row: 1 })
    );
}

#[test]
fn formats_in_columns() {
    let m = matrix(&[&[1.0, 2.0], &[3.0, 4.0]]);
    assert_eq!(m.format(), " 1  2 \n 3  4 \n");
    let m = matrix(&[&[-2.0, 1.0], &[1.5, -0.5]]);
    assert_eq!(m.format(), " -2    1   \n 1.5  -0.5 \n");
}

#[test]
fn formats_as_the_standard_library_centres() {
    let rows: Vec<Vec<f64>> = vec![vec![1.0, -22.5, 3.0], vec![1234.5, 2.0, -0.125]];
    let m = Matrix::from_rows(rows.iter().map(|r| r.iter().map(|&x| Real(x)).collect()).collect())
        .unwrap();
    let widths: Vec<usize> =
        (0..3).map(|j| rows.iter().map(|r| r[j].to_string().len()).max().unwrap()).collect();
    let mut expected = String::new();
    for row in &rows {
        for (j, val) in row.iter().enumerate() {
            expected.push_str(&format!(" {:^width$} ", val, width = widths[j]));
        }
        expected.push('\n');
    }
    assert_eq!(m.format(), expected);
}

#[test]
fn text_round_trip_of_a_large_matrix() {
    let n = 40;
    let rows: Vec<Vec<Real>> = (0..n)
        .map(|i| (0..n).map(|j| Real((i * n + j) as f64 / 8.0 - 25.0)).collect())
        .collect();
    let m = Matrix::from_rows(rows).unwrap();
    let again = Matrix::<Real>::from_str(&m.format()).unwrap();
    assert_eq!(entries(&again), entries(&m));
}

#[test]
fn text_round_trip_of_special_values() {
    let m = matrix(&[&[f64::INFINITY, -0.0], &[f64::MIN_POSITIVE, 1e300]]);
    let again = Matrix::<Real>::from_str(&m.format()).unwrap();
    assert_eq!(entries(&again), entries(&m));
}

#[test]
fn text_round_trip() {
    let m = Matrix::<Real>::from_str("1 2.5 -3\n0.125 1e10 7").unwrap();
    let again = Matrix::<Real>::from_str(&m.format()).unwrap();
    assert_eq!(entries(&again), entries(&m));
}
