use matrix_engine::{Frac, MatrixError, SquareMatrix};

fn frac_matrix(size: usize, cells: &[i64]) -> SquareMatrix<Frac> {
    let mut m = SquareMatrix::<Frac>::with_size(size);
    for y in 0..size {
        for x in 0..size {
            m.set(x, y, Frac::from_int(cells[y * size + x]));
        }
    }
    m
}

fn int_matrix(size: usize, cells: &[i64]) -> SquareMatrix<i64> {
    let mut m = SquareMatrix::<i64>::with_size(size);
    for y in 0..size {
        for x in 0..size {
            m.set(x, y, cells[y * size + x]);
        }
    }
    m
}

fn cell(m: &SquareMatrix<Frac>, x: usize, y: usize) -> Frac {
    m.get(x, y).unwrap()
}

#[test]
fn display_test() {
    let mut mat = SquareMatrix::<i64>::with_size(1);
    mat.set(0, 0, 10);

    assert_eq!(10, mat.get(0, 0).unwrap());
}

#[test]
fn render_single_cell() {
    let mut mat = SquareMatrix::<i64>::with_size(1);
    mat.set(0, 0, 10);
    assert_eq!(mat.to_text(), "10\n");
}

#[test]
fn render_rows_and_separators() {
    let mat = int_matrix(2, &[1, -2, 3, 4]);
    assert_eq!(mat.to_text(), "1 -2\n3 4\n");
}

#[test]
fn render_fractions() {
    let mut mat = SquareMatrix::<Frac>::with_size(1);
    mat.set(0, 0, Frac::new(1, 2));
    assert_eq!(mat.to_text(), "1/2\n");
}

#[test]
fn determinant_two_by_two() {
    let m = frac_matrix(2, &[4, 7, 2, 6]);
    let d = m.determinant();
    assert!(d.eqv(&Frac::from_int(10)));
}

#[test]
fn inverse_two_by_two() {
    let m = frac_matrix(2, &[4, 7, 2, 6]);
    let inv = m.inverse().unwrap();
    assert!(cell(&inv, 0, 0).eqv(&Frac::new(3, 5)));
    assert!(cell(&inv, 1, 0).eqv(&Frac::new(-7, 10)));
    assert!(cell(&inv, 0, 1).eqv(&Frac::new(-1, 5)));
    assert!(cell(&inv, 1, 1).eqv(&Frac::new(2, 5)));
}

#[test]
fn determinant_and_inverse_one_by_one() {
    let m = frac_matrix(1, &[5]);
    assert!(m.determinant().eqv(&Frac::from_int(5)));
    let inv = m.inverse().unwrap();
    assert!(cell(&inv, 0, 0).eqv(&Frac::new(1, 5)));
}

#[test]
fn determinant_empty_matrix_is_one() {
    let m = SquareMatrix::<Frac>::new();
    assert!(m.determinant().eqv(&Frac::from_int(1)));
}

#[test]
fn singular_matrix_has_zero_determinant_and_no_inverse() {
    let m = frac_matrix(2, &[1, 2, 2, 4]);
    let d = m.determinant();
    assert!(d.is_zero());
    assert_eq!(m.inverse().unwrap_err(), MatrixError::SingularMatrix);
}

#[test]
fn invert_leaves_singular_matrix_unchanged() {
    let mut m = frac_matrix(2, &[1, 2, 2, 4]);
    assert_eq!(m.invert().unwrap_err(), MatrixError::SingularMatrix);
    assert!(cell(&m, 0, 0).eqv(&Frac::from_int(1)));
    assert!(cell(&m, 1, 0).eqv(&Frac::from_int(2)));
}

#[test]
fn invert_replaces_with_inverse() {
    let mut m = frac_matrix(1, &[4]);
    m.invert().unwrap();
    assert!(cell(&m, 0, 0).eqv(&Frac::new(1, 4)));
}

#[test]
fn product_with_inverse_is_identity() {
    let m = frac_matrix(2, &[4, 7, 2, 6]);
    let inv = m.inverse().unwrap();
    let p = m.mul(&inv).unwrap();
    assert!(cell(&p, 0, 0).eqv(&Frac::from_int(1)));
    assert!(cell(&p, 1, 0).eqv(&Frac::from_int(0)));
    assert!(cell(&p, 0, 1).eqv(&Frac::from_int(0)));
    assert!(cell(&p, 1, 1).eqv(&Frac::from_int(1)));
}

#[test]
fn transposed_two_by_two() {
    let m = int_matrix(2, &[1, 2, 3, 4]);
    let t = m.transposed();
    assert_eq!(t.get(0, 0).unwrap(), 1);
    assert_eq!(t.get(1, 0).unwrap(), 3);
    assert_eq!(t.get(0, 1).unwrap(), 2);
    assert_eq!(t.get(1, 1).unwrap(), 4);
}

#[test]
fn transpose_twice_gives_back_the_matrix() {
    let mut m = int_matrix(3, &[1, 2, 3, 4, 5, 6, 7, 8, 9]);
    m.transpose();
    m.transpose();
    let expect = int_matrix(3, &[1, 2, 3, 4, 5, 6, 7, 8, 9]);
    for y in 0..3 {
        for x in 0..3 {
            assert_eq!(m.get(x, y).unwrap(), expect.get(x, y).unwrap());
        }
    }
}

#[test]
fn determinant_of_transpose_equals_determinant() {
    let m = frac_matrix(2, &[4, 7, 2, 6]);
    let t = m.transposed();
    assert!(m.determinant().eqv(&t.determinant()));
}

#[test]
fn add_then_sub_gives_back_first_operand() {
    let a = frac_matrix(2, &[1, 2, 3, 4]);
    let b = frac_matrix(2, &[5, -6, 7, 8]);
    let ab = a.add(&b).unwrap();
    let back = ab.sub(&b).unwrap();
    for y in 0..2 {
        for x in 0..2 {
            assert!(cell(&back, x, y).eqv(&cell(&a, x, y)));
        }
    }
}

#[test]
fn elementwise_add_and_sub() {
    let a = frac_matrix(2, &[1, 2, 3, 4]);
    let b = frac_matrix(2, &[10, 20, 30, 40]);
    let s = a.add(&b).unwrap();
    assert!(cell(&s, 1, 1).eqv(&Frac::from_int(44)));
    let d = b.sub(&a).unwrap();
    assert!(cell(&d, 0, 0).eqv(&Frac::from_int(9)));
}

#[test]
fn matrix_product_two_by_two() {
    let a = frac_matrix(2, &[1, 2, 3, 4]);
    let b = frac_matrix(2, &[5, 6, 7, 8]);
    let p = a.mul(&b).unwrap();
    assert!(cell(&p, 0, 0).eqv(&Frac::from_int(19)));
    assert!(cell(&p, 1, 0).eqv(&Frac::from_int(22)));
    assert!(cell(&p, 0, 1).eqv(&Frac::from_int(43)));
    assert!(cell(&p, 1, 1).eqv(&Frac::from_int(50)));
}

#[test]
fn negate_flips_every_cell() {
    let a = frac_matrix(2, &[1, -2, 3, -4]);
    let n = a.neg();
    assert!(cell(&n, 0, 0).eqv(&Frac::from_int(-1)));
    assert!(cell(&n, 1, 0).eqv(&Frac::from_int(2)));
}

#[test]
fn size_mismatch_is_reported() {
    let a = frac_matrix(2, &[1, 2, 3, 4]);
    let b = frac_matrix(1, &[5]);
    assert_eq!(a.add(&b).unwrap_err(), MatrixError::DimensionMismatch);
    assert_eq!(a.sub(&b).unwrap_err(), MatrixError::DimensionMismatch);
    assert_eq!(a.mul(&b).unwrap_err(), MatrixError::DimensionMismatch);
    let mut c = frac_matrix(2, &[1, 2, 3, 4]);
    assert_eq!(c.add_assign(&b).unwrap_err(), MatrixError::DimensionMismatch);
    assert_eq!(c.sub_assign(&b).unwrap_err(), MatrixError::DimensionMismatch);
    assert_eq!(c.mul_assign(&b).unwrap_err(), MatrixError::DimensionMismatch);
    assert!(cell(&c, 0, 0).eqv(&Frac::from_int(1)));
}

#[test]
fn in_place_arithmetic_matches_the_pure_operations() {
    let a = frac_matrix(2, &[1, 2, 3, 4]);
    let b = frac_matrix(2, &[5, 6, 7, 8]);
    let mut m = frac_matrix(2, &[1, 2, 3, 4]);
    m.add_assign(&b).unwrap();
    let s = a.add(&b).unwrap();
    assert!(cell(&m, 1, 1).eqv(&cell(&s, 1, 1)));
    let mut p = frac_matrix(2, &[1, 2, 3, 4]);
    p.mul_assign(&b).unwrap();
    assert!(cell(&p, 0, 0).eqv(&Frac::from_int(19)));
    let mut d = frac_matrix(2, &[1, 2, 3, 4]);
    d.sub_assign(&b).unwrap();
    assert!(cell(&d, 0, 0).eqv(&Frac::from_int(-4)));
}

#[test]
fn conjugate_is_identity_for_real_scalars() {
    let a = frac_matrix(2, &[1, -2, 3, -4]);
    let c = a.conjugate();
    for y in 0..2 {
        for x in 0..2 {
            assert!(cell(&c, x, y).eqv(&cell(&a, x, y)));
        }
    }
    let mut b = int_matrix(2, &[1, -2, 3, -4]);
    b.conjugate_self();
    assert_eq!(b.get(1, 0).unwrap(), -2);
}

#[test]
fn hermitian_adjoint_by_composition() {
    let a = int_matrix(2, &[1, 2, 3, 4]);
    let adj = a.transposed().conjugate();
    assert_eq!(adj.get(1, 0).unwrap(), 3);
    assert_eq!(adj.get(0, 1).unwrap(), 2);
}

#[test]
fn resize_zero_fills_regardless_of_prior_contents() {
    let mut m = int_matrix(2, &[1, 2, 3, 4]);
    let old = m.resize(3);
    assert_eq!(old, Some(2));
    for y in 0..3 {
        for x in 0..3 {
            assert_eq!(m.get(x, y).unwrap(), 0);
        }
    }
}

#[test]
fn resize_to_zero_empties_the_matrix() {
    let mut m = int_matrix(2, &[1, 2, 3, 4]);
    let old = m.resize(0);
    assert_eq!(old, Some(2));
    assert_eq!(m.get(0, 0), None);
    assert_eq!(m.set(0, 0, 5), None);
}

#[test]
fn get_and_set_check_their_bounds() {
    let mut m = int_matrix(2, &[1, 2, 3, 4]);
    assert_eq!(m.get(2, 0), None);
    assert_eq!(m.get(0, 2), None);
    assert_eq!(m.set(0, 2, 9), None);
    assert_eq!(m.set(1, 1, 9), Some(4));
    assert_eq!(m.get(1, 1).unwrap(), 9);
}

#[test]
fn fraction_accessors_and_equivalence() {
    let f = Frac::new(6, 10);
    assert_eq!(f.num(), 6);
    assert_eq!(f.den(), 10);
    assert!(f.eqv(&Frac::new(3, 5)));
    assert!(!f.eqv(&Frac::new(2, 5)));
    let q = Frac::from_int(3).div(Frac::new(-6, 1));
    assert!(q.eqv(&Frac::new(-1, 2)));
    assert!(q.den() > 0);
}
