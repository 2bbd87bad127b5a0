use ray_tracer_challenge::matrix::Matrix;
use ray_tracer_challenge::tuple::Tuple;

fn tk(v: f64) -> i64 {
    (v * 1_000_000.0).round() as i64
}

fn tks(vs: &[f64]) -> Vec<i64> {
    vs.iter().map(|v| tk(*v)).collect()
}

#[test]
fn constructing_and_inspecting_4x4_matrix() {
    let elems = tks(&[
        1.0, 2.0, 3.0, 4.0, 5.5, 6.5, 7.5, 8.5, 9.0, 10.0, 11.0, 12.0, 13.5, 14.5, 15.5, 16.5,
    ]);
    let m = Matrix::from_vector(4, &elems);

    assert_eq!(tk(1.0), m.at(0, 0));
    assert_eq!(tk(4.0), m.at(0, 3));
    assert_eq!(tk(5.5), m.at(1, 0));
    assert_eq!(tk(7.5), m.at(1, 2));
    assert_eq!(tk(11.0), m.at(2, 2));
    assert_eq!(tk(13.5), m.at(3, 0));
    assert_eq!(tk(15.5), m.at(3, 2));
}

#[test]
fn a_2x2_matrix_ought_to_be_representable() {
    let elems = tks(&[-3.0, 5.0, 1.0, -2.0]);
    let m = Matrix::from_vector(2, &elems);

    assert_eq!(tk(-3.0), m.at(0, 0));
    assert_eq!(tk(5.0), m.at(0, 1));
    assert_eq!(tk(1.0), m.at(1, 0));
    assert_eq!(tk(-2.0), m.at(1, 1));
}

#[test]
fn a_3x3_matrix_ought_to_be_representable() {
    let elems = tks(&[-3.0, 5.0, 0.0, 1.0, -2.0, -7.0, 0.0, 1.0, 1.0]);
    let m = Matrix::from_vector(3, &elems);

    assert_eq!(tk(-3.0), m.at(0, 0));
    assert_eq!(tk(-2.0), m.at(1, 1));
    assert_eq!(tk(1.0), m.at(2, 2));
}

#[test]
fn matrix_equality_with_identical_matrices() {
    let v = tks(&[
        1.0, 2.0, 3.0, 4.0, 5.0, 6.0, 7.0, 8.0, 9.0, 8.0, 7.0, 6.0, 5.0, 4.0, 3.0, 2.0,
    ]);
    let m1 = Matrix::from_vector(4, &v);
    let m2 = Matrix::from_vector(4, &v);

    assert_eq!(m1, m2);
}

#[test]
fn matrix_equality_with_different_matrices() {
    let v1 = tks(&[
        1.0, 2.0, 3.0, 4.0, 5.0, 6.0, 7.0, 8.0, 9.0, 8.0, 7.0, 6.0, 5.0, 4.0, 3.0, 2.0,
    ]);
    let v2 = tks(&[
        2.0, 3.0, 4.0, 5.0, 6.0, 7.0, 8.0, 9.0, 8.0, 7.0, 6.0, 5.0, 4.0, 3.0, 2.0, 1.0,
    ]);

    let m1 = Matrix::from_vector(4, &v1);
    let m2 = Matrix::from_vector(4, &v2);

    assert_ne!(m1, m2);
}

#[test]
fn multiplying_two_matrices() {
    let v1 = tks(&[
        1.0, 2.0, 3.0, 4.0, 5.0, 6.0, 7.0, 8.0, 9.0, 8.0, 7.0, 6.0, 5.0, 4.0, 3.0, 2.0,
    ]);
    let v2 = tks(&[
        -2.0, 1.0, 2.0, 3.0, 3.0, 2.0, 1.0, -1.0, 4.0, 3.0, 6.0, 5.0, 1.0, 2.0, 7.0, 8.0,
    ]);
    let m1 = Matrix::from_vector(4, &v1);
    let m2 = Matrix::from_vector(4, &v2);

    let v3 = tks(&[
        20.0, 22.0, 50.0, 48.0, 44.0, 54.0, 114.0, 108.0, 40.0, 58.0, 110.0, 102.0, 16.0, 26.0,
        46.0, 42.0,
    ]);
    let m3 = Matrix::from_vector(4, &v3);

    assert_eq!(m3, m1.matmul(&m2));
}

#[test]
fn matrix_multiplied_by_tuple() {
    let v = tks(&[
        1.0, 2.0, 3.0, 4.0, 2.0, 4.0, 4.0, 2.0, 8.0, 6.0, 4.0, 1.0, 0.0, 0.0, 0.0, 1.0,
    ]);
    let m = Matrix::from_vector(4, &v);
    let t = Tuple(tk(1.0), tk(2.0), tk(3.0), tk(1.0));

    assert_eq!(Tuple(tk(18.0), tk(24.0), tk(33.0), tk(1.0)), m.tuple_prod(t));
}

#[test]
fn multiplying_matrix_by_identity_matrix() {
    let v = tks(&[
        0.0, 1.0, 2.0, 4.0, 1.0, 2.0, 4.0, 8.0, 2.0, 4.0, 8.0, 16.0, 4.0, 8.0, 16.0, 32.0,
    ]);
    let m = Matrix::from_vector(4, &v);
    let m2 = Matrix::from_vector(4, &v);
    let p = m2.matmul(&Matrix::identity());

    assert_eq!(m, p);
}

#[test]
fn transposing_matrix() {
    let v1 = tks(&[
        0.0, 9.0, 3.0, 0.0, 9.0, 8.0, 0.0, 8.0, 1.0, 8.0, 5.0, 3.0, 0.0, 0.0, 5.0, 8.0,
    ]);
    let m = Matrix::from_vector(4, &v1);

    let v2 = tks(&[
        0.0, 9.0, 1.0, 0.0, 9.0, 8.0, 8.0, 0.0, 3.0, 0.0, 5.0, 5.0, 0.0, 8.0, 3.0, 8.0,
    ]);
    let t = Matrix::from_vector(4, &v2);

    assert_eq!(t, m.transpose());
}

#[test]
fn transposing_identity_matrix() {
    let i = Matrix::identity();

    assert_eq!(Matrix::identity(), i.transpose());
}

#[test]
fn calculating_determinant_of_2x2_matrix() {
    let v = tks(&[1.0, 5.0, -3.0, 2.0]);
    let m = Matrix::from_vector(2, &v);

    assert_eq!(tk(17.0), m.det());
}

#[test]
fn submatrix_of_3x3_matrix_is_2x2_matrix() {
    let v1 = tks(&[1.0, 5.0, 0.0, -3.0, 2.0, 7.0, 0.0, 6.0, -3.0]);
    let m1 = Matrix::from_vector(3, &v1);

    let v2 = tks(&[-3.0, 2.0, 0.0, 6.0]);
    let m2 = Matrix::from_vector(2, &v2);

    assert_eq!(m2, m1.submatrix(0, 2));
}

#[test]
fn submatrix_of_4x4_matrix_is_3x3_matrix() {
    let v1 = tks(&[
        -6.0, 1.0, 1.0, 6.0, -8.0, 5.0, 8.0, 6.0, -1.0, 0.0, 8.0, 2.0, -7.0, 1.0, -1.0, 1.0,
    ]);
    let m1 = Matrix::from_vector(4, &v1);

    let v2 = tks(&[-6.0, 1.0, 6.0, -8.0, 8.0, 6.0, -7.0, -1.0, 1.0]);
    let m2 = Matrix::from_vector(3, &v2);

    assert_eq!(m2, m1.submatrix(2, 1));
}

#[test]
fn calculating_minor_of_3x3_matrix() {
    let v = tks(&[3.0, 5.0, 0.0, 2.0, -1.0, -7.0, 6.0, -1.0, 5.0]);
    let a = Matrix::from_vector(3, &v);
    let b = a.submatrix(1, 0);

    assert_eq!(tk(25.0), b.det());
    assert_eq!(tk(25.0), a.minor(1, 0));
}

#[test]
fn calculating_cofactor_of_3x3_matrix() {
    let v = tks(&[3.0, 5.0, 0.0, 2.0, -1.0, -7.0, 6.0, -1.0, 5.0]);
    let a = Matrix::from_vector(3, &v);

    assert_eq!(tk(-12.0), a.minor(0, 0));
    assert_eq!(tk(-12.0), a.cofactor(0, 0));
    assert_eq!(tk(25.0), a.minor(1, 0));
    assert_eq!(tk(-25.0), a.cofactor(1, 0));
}

#[test]
fn calculating_determinant_of_3x3_matrix() {
    let v = tks(&[1.0, 2.0, 6.0, -5.0, 8.0, -4.0, 2.0, 6.0, 4.0]);
    let a = Matrix::from_vector(3, &v);

    assert_eq!(tk(56.0), a.cofactor(0, 0));
    assert_eq!(tk(12.0), a.cofactor(0, 1));
    assert_eq!(tk(-46.0), a.cofactor(0, 2));
    assert_eq!(tk(-196.0), a.det());
}

#[test]
fn calculating_determinant_of_4x4_matrix() {
    let v = tks(&[
        -2.0, -8.0, 3.0, 5.0, -3.0, 1.0, 7.0, 3.0, 1.0, 2.0, -9.0, 6.0, -6.0, 7.0, 7.0, -9.0,
    ]);
    let a = Matrix::from_vector(4, &v);

    assert_eq!(tk(690.0), a.cofactor(0, 0));
    assert_eq!(tk(447.0), a.cofactor(0, 1));
    assert_eq!(tk(210.0), a.cofactor(0, 2));
    assert_eq!(tk(51.0), a.cofactor(0, 3));
    assert_eq!(tk(-4071.0), a.det());
}

#[test]
fn transposing_twice_gives_the_matrix_back() {
    let v = tks(&[
        0.0, 9.0, 3.0, 0.0, 9.0, 8.0, 0.0, 8.0, 1.0, 8.0, 5.0, 3.0, 0.0, 0.0, 5.0, 8.0,
    ]);
    let m = Matrix::from_vector(4, &v);
    let m2 = Matrix::from_vector(4, &v);

    assert_eq!(m, m2.transpose().transpose());
}

#[test]
fn inverting_a_singular_matrix_reports_failure() {
    let v = tks(&[
        1.0, 2.0, 3.0, 4.0, 2.0, 4.0, 6.0, 8.0, 0.0, 1.0, 0.0, 1.0, 0.0, 0.0, 0.0, 1.0,
    ]);
    let m = Matrix::from_vector(4, &v);

    assert!(m.inverse().is_none());
}
