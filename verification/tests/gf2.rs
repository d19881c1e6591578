//! The library on the field with two elements, where every result is exact.
use matrix_algebra::{DimensionError, Gf2, Matrix, ParseError, Scalar};

fn bits(m: &Matrix<Gf2>) -> Vec<Vec<u8>> {
    m.clone().into_rows().into_iter().map(|r| r.into_iter().map(|x| x.bit as u8).collect()).collect()
}

fn identity(n: usize) -> Matrix<Gf2> {
    let data: Vec<Vec<Gf2>> =
        (0..n).map(|i| (0..n).map(|j| Gf2 { bit: i == j }).collect()).collect();
    Matrix::from_rows(data).unwrap()
}

#[test]
fn gf2_arithmetic() {
    let o = Gf2 { bit: false };
    let l = Gf2 { bit: true };
    assert_eq!(Gf2::zero(), o);
    assert_eq!(Gf2::one(), l);
    assert_eq!(Gf2::minus_one(), l);
    assert_eq!(l.plus(l), o);
    assert_eq!(l.plus(o), l);
    assert_eq!(o.minus(l), l);
    assert_eq!(l.times(l), l);
    assert_eq!(l.times(o), o);
    assert_eq!(l.over(l), l);
    assert_eq!(o.over(l), o);
    assert_eq!(l.over(o), o);
    assert!(o.is_zero());
    assert!(!l.is_zero());
    assert!(l.outweighs(o));
    assert!(!o.outweighs(l));
    assert!(!l.outweighs(l));
}

#[test]
fn gf2_text() {
    assert_eq!(Gf2::parse("0"), Some(Gf2 { bit: false }));
    assert_eq!(Gf2::parse("1"), Some(Gf2 { bit: true }));
    assert_eq!(Gf2::parse("2"), None);
    assert_eq!(Gf2::parse(""), None);
    assert_eq!(Gf2::parse("10"), None);
    assert_eq!(Gf2 { bit: false }.to_text(), "0");
    assert_eq!(Gf2 { bit: true }.to_text(), "1");
}

#[test]
fn gf2_parse_and_format() {
    let m = Matrix::<Gf2>::from_str("1 0 1\n0 1 1").unwrap();
    assert_eq!(bits(&m), vec![vec![1, 0, 1], vec![0, 1, 1]]);
    assert_eq!(m.format(), " 1  0  1 \n 0  1  1 \n");
    let again = Matrix::<Gf2>::from_str(&m.format()).unwrap();
    assert_eq!(bits(&again), bits(&m));
    assert_eq!(
        Matrix::<Gf2>::from_str("1 0\n0 2").err(),
        Some(ParseError::InvalidNumber { row: 1, col: 1 })
    );
}

#[test]
fn gf2_determinant_and_inverse() {
    let m = Matrix::<Gf2>::from_str("1 1 0\n0 1 1\n0 0 1").unwrap();
    assert_eq!(m.determinant(), Ok(Gf2 { bit: true }));
    assert_eq!(m.transpose().determinant(), m.determinant());
    let inv = m.inverse().unwrap();
    assert_eq!(bits(&inv), vec![vec![1, 1, 1], vec![0, 1, 1], vec![0, 0, 1]]);
    assert_eq!(bits(&m.clone().mul(inv).unwrap()), bits(&identity(3)));
    let s = Matrix::<Gf2>::from_str("1 1\n1 1").unwrap();
    assert_eq!(s.determinant(), Ok(Gf2 { bit: false }));
    assert_eq!(s.inverse().err(), Some(DimensionError::Singular));
    for n in 1..=5 {
        assert_eq!(identity(n).determinant(), Ok(Gf2 { bit: true }));
    }
}

#[test]
fn gf2_solvers_agree_exactly() {
    // x + y = 1, y + z = 0, x + y + z = 0 over the two-element field.
    let m = Matrix::<Gf2>::from_str("1 1 0 1\n0 1 1 0\n1 1 1 0").unwrap();
    let g = m.gaussian_elimination().unwrap();
    let c = m.cramer_rule().unwrap();
    assert_eq!(g, c);
    let x: Vec<u8> = g.into_iter().map(|v| v.bit as u8).collect();
    assert_eq!(x, vec![0, 1, 1]);
}

#[test]
fn gf2_laws_on_values() {
    let a = Matrix::<Gf2>::from_str("1 0\n1 1").unwrap();
    let b = Matrix::<Gf2>::from_str("0 1\n1 1").unwrap();
    let c = Matrix::<Gf2>::from_str("1 1\n0 1").unwrap();
    assert_eq!(
        bits(&a.clone().add(b.clone()).unwrap()),
        bits(&b.clone().add(a.clone()).unwrap())
    );
    assert_eq!(
        bits(&a.clone().sub(b.clone()).unwrap()),
        bits(&a.clone().add(b.clone().scalar_mul(Gf2::minus_one())).unwrap())
    );
    assert_eq!(
        bits(&a.clone().mul(b.clone()).unwrap().mul(c.clone()).unwrap()),
        bits(&a.mul(b.mul(c).unwrap()).unwrap())
    );
}
