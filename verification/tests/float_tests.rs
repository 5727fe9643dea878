use linear::alg::gaussian_elimination::GaussianElimination;
use linear::matrix::matrix::Matrix;
use linear::num::Num;
use linear::vector::shape::Shape;
use linear::vector::vector::Vector;

/// A double-precision element for the generic containers.
#[derive(Clone, Copy, Debug, PartialEq)]
struct F(f64);

impl Num for F {
    // The `*_spec` and `lemma_*` items below are the trait's
    // specification-level members; nothing calls them at run time, and this
    // impl is outside the reach of the verifier, so their bodies only serve
    // to satisfy the trait.
    fn zero_spec() -> F {
        F(0.0)
    }

    fn one_spec() -> F {
        F(1.0)
    }

    fn minus_one_spec() -> F {
        F(-1.0)
    }

    fn from_usize_spec(u: usize) -> F {
        F(u as f64)
    }

    fn abs_spec(self) -> F {
        F(self.0.abs())
    }

    fn plus_spec(self, o: F) -> F {
        F(self.0 + o.0)
    }

    fn minus_spec(self, o: F) -> F {
        F(self.0 - o.0)
    }

    fn times_spec(self, o: F) -> F {
        F(self.0 * o.0)
    }

    fn div_spec(self, o: F) -> F {
        F(self.0 / o.0)
    }

    fn lt_spec(self, o: F) -> bool {
        self.0 < o.0
    }

    fn lemma_plus_zero(_a: F) {}

    fn lemma_times_one(_a: F) {}

    fn zero() -> F {
        F(0.0)
    }

    fn one() -> F {
        F(1.0)
    }

    fn minus_one() -> F {
        F(-1.0)
    }

    fn from_usize(u: usize) -> F {
        F(u as f64)
    }

    fn absolute(&self) -> F {
        F(self.0.abs())
    }

    fn plus(self, o: F) -> F {
        F(self.0 + o.0)
    }

    fn minus(self, o: F) -> F {
        F(self.0 - o.0)
    }

    fn times(self, o: F) -> F {
        F(self.0 * o.0)
    }

    fn divide(self, o: F) -> F {
        F(self.0 / o.0)
    }

    fn lt(self, o: F) -> bool {
        self.0 < o.0
    }

    fn gt(self, o: F) -> bool {
        self.0 > o.0
    }

    fn eq_val(self, o: F) -> bool {
        self.0 == o.0
    }

    fn random_between(low: F, high: F) -> F {
        let mut rng: rand::rngs::ThreadRng = rand::thread_rng();
        F(rand::Rng::gen_range(&mut rng, low.0..high.0))
    }
}

fn fm(rows: &Vec<Vec<f64>>) -> Matrix<F> {
    let wrapped: Vec<Vec<F>> = rows
        .iter()
        .map(|r| r.iter().map(|v| F(*v)).collect())
        .collect();
    Matrix::new(&wrapped)
}

fn fv(values: &Vec<f64>, shape: Shape) -> Vector<F> {
    Vector::new(values.iter().map(|v| F(*v)).collect(), shape)
}

fn get_default_matrix() -> Matrix<F> {
    fm(&vec![
        vec![1.2, 2.4, 3.5],
        vec![4.7, 6.1, 7.2],
        vec![7.0, 1.0, 7.5],
    ])
}

fn get_default_matrix_transposed() -> Matrix<F> {
    fm(&vec![
        vec![1.2, 4.7, 7.0],
        vec![2.4, 6.1, 1.0],
        vec![3.5, 7.2, 7.5],
    ])
}

#[test]
fn matrix_test_init() {
    let matrix: Matrix<F> = fm(&vec![vec![1.2, 2.4, 3.5], vec![4.7, 6.1, 7.2]]);

    assert_eq!(matrix.size().rows(), 2);
    assert_eq!(matrix.size().cols(), 3);
    assert_eq!(
        matrix.elements.len(),
        matrix.size().rows() * matrix.size().cols()
    );
}

#[test]
fn matrix_test_get_row() {
    let matrix: Matrix<F> = get_default_matrix();
    for r in 0..matrix.size().rows() {
        let row = matrix.get_row(r);
        assert_eq!(row.len(), matrix.size().cols());
    }
}

#[test]
fn matrix_test_get() {
    let matrix: Matrix<F> = get_default_matrix();

    assert_eq!(*matrix.get(0, 0).unwrap(), F(1.2));
    assert_eq!(*matrix.get(1, 1).unwrap(), F(6.1));
    assert_eq!(*matrix.get(2, 2).unwrap(), F(7.5));
}

#[test]
fn test_set() {
    let mut matrix: Matrix<F> = get_default_matrix();

    matrix.set(0, 0, F(999.999));
    matrix.set(1, 2, F(777.999));
    matrix.set(2, 1, F(1.0));

    assert_eq!(*matrix.get(0, 0).unwrap(), F(999.999));
    assert_eq!(*matrix.get(1, 2).unwrap(), F(777.999));
    assert_eq!(*matrix.get(2, 1).unwrap(), F(1.0));
}

#[test]
fn test_sum() {
    let matrix: Matrix<F> = get_default_matrix();
    assert!(matrix.sum().0 - 40.6 < f64::EPSILON);
}

#[test]
fn test_mean() {
    let matrix: Matrix<F> = get_default_matrix();
    assert!(matrix.mean().0 - (40.6 / 9.0) < f64::EPSILON);
}

#[test]
fn matrix_test_transpose() {
    let matrix: Matrix<F> = get_default_matrix();
    let tm: Matrix<F> = matrix.transpose();
    let dtm: Matrix<F> = get_default_matrix_transposed();

    for i in 0..tm.size().rows() {
        for j in 0..tm.size().cols() {
            assert_eq!(tm.get(i, j), dtm.get(i, j));
        }
    }
}

#[test]
fn matrix_test_equals() {
    let matrix1: Matrix<F> = get_default_matrix();
    let matrix2: Matrix<F> = get_default_matrix();

    assert!(matrix1.equals(&matrix2))
}

#[test]
fn matrix_test_add() {
    let left: Matrix<F> = get_default_matrix();
    let right: Matrix<F> = get_default_matrix();
    let result: Result<Matrix<F>, &str> = left.add(&right);
    let expected: Matrix<F> = fm(&vec![
        vec![2.4, 4.8, 7.0],
        vec![9.4, 12.2, 14.4],
        vec![14.0, 2.0, 15.0],
    ]);

    match result {
        Ok(r) => assert!(r.equals(&expected)),
        Err(_) => panic!("error durin addition of matrices"),
    }
}

#[test]
fn test_subtraction() {
    let left: Matrix<F> = get_default_matrix();
    let right: Matrix<F> = get_default_matrix();
    let result: Result<Matrix<F>, &str> = left.subtract(&right);
    let expected: Matrix<F> = fm(&vec![
        vec![0.0, 0.0, 0.0],
        vec![0.0, 0.0, 0.0],
        vec![0.0, 0.0, 0.0],
    ]);

    match result {
        Ok(r) => assert!(r.equals(&expected)),
        Err(_) => panic!("error during addition of matrices"),
    }
}

#[test]
fn test_scalar() {
    let matrix: Matrix<F> = get_default_matrix();
    let result: Matrix<F> = matrix.scalar(F(3.0));
    let expected: Matrix<F> = fm(&vec![
        vec![3.6, 7.2, 10.5],
        vec![14.1, 18.3, 21.6],
        vec![21.0, 3.0, 22.5],
    ]);

    for i in 0..result.elements.len() {
        assert!(expected.elements[i].0 - result.elements[i].0 < 0.00001);
    }
}

#[test]
fn vector_test_random() {
    let size: usize = 100;
    let low: i32 = 0;
    let high: i32 = 1000;
    let v: Vector<i32> = Vector::random(low, high, size, Shape::Col);

    assert_eq!(v.elements().len(), size);
    assert_eq!(*v.shape(), Shape::Col);

    for i in 0..size {
        if v.elements[i] < low || v.elements[i] >= high {
            panic!("{}", "invalid vector element")
        }
    }

    let low: F = F(1.0);
    let high: F = F(10.0);
    let v: Vector<F> = Vector::random(low, high, size, Shape::Row);

    assert_eq!(v.elements().len(), size);
    assert_eq!(*v.shape(), Shape::Row);
}

#[test]
fn test_solve_1() {
    let a: Matrix<F> = fm(&vec![
        vec![1.00, 0.00, 0.00, 0.00, 0.00, 0.00],
        vec![1.00, 0.63, 0.39, 0.25, 0.16, 0.10],
        vec![1.00, 1.26, 1.58, 1.98, 2.49, 3.13],
        vec![1.00, 1.88, 3.55, 6.70, 12.62, 23.80],
        vec![1.00, 2.51, 6.32, 15.88, 39.90, 100.28],
        vec![1.00, 3.14, 9.87, 31.01, 97.41, 306.02],
    ]);
    let b: Vector<F> = fv(&vec![-0.01, 0.61, 0.91, 0.99, 0.60, 0.02], Shape::Col);
    let x: Vector<F> = GaussianElimination::solve(a, b).unwrap().unwrap();
    let expected: Vector<F> = fv(
        &vec![
            -0.01,
            1.602790394502114,
            -1.6132030599055613,
            1.2454941213714368,
            -0.4909897195846576,
            0.065760696175232,
        ],
        Shape::Col,
    );

    for i in 0..x.size() {
        assert!(expected.get(i).unwrap().0 - x.get(i).unwrap().0 < 0.0000001);
    }
}

#[test]
fn test_solve_2() {
    let a: Matrix<F> = fm(&vec![
        vec![1.0, 3.0, -2.0],
        vec![3.0, 5.0, 6.0],
        vec![2.0, 4.0, 3.0],
    ]);
    let b: Vector<F> = fv(&vec![5.0, 7.0, 8.0], Shape::Col);
    let x = GaussianElimination::solve(a, b).unwrap().unwrap();
    let expected: Vector<F> = fv(&vec![-15.0, 8.0, 2.0], Shape::Col);

    for i in 0..x.size() {
        assert!(expected.get(i).unwrap().0 - x.get(i).unwrap().0 < f32::EPSILON as f64);
    }
}

#[test]
fn test_solve_3() {
    let a: Matrix<F> = fm(&vec![
        vec![4.0, 1.0, 0.0, 0.0, 0.0],
        vec![1.0, 4.0, 1.0, 0.0, 0.0],
        vec![0.0, 1.0, 4.0, 1.0, 0.0],
        vec![0.0, 0.0, 1.0, 4.0, 1.0],
        vec![0.0, 0.0, 0.0, 1.0, 4.0],
    ]);
    let b: Vector<F> = fv(
        &vec![1.0 / 2.0, 2.0 / 3.0, 3.0 / 4.0, 4.0 / 5.0, 5.0 / 6.0],
        Shape::Col,
    );
    let x: Vector<F> = GaussianElimination::solve(a, b).unwrap().unwrap();
    let expected: Vector<F> = fv(
        &vec![
            39.0 / 400.0,
            11.0 / 100.0,
            31.0 / 240.0,
            37.0 / 300.0,
            71.0 / 400.0,
        ],
        Shape::Col,
    );

    for i in 0..x.size() {
        assert!(expected.get(i).unwrap().0 - x.get(i).unwrap().0 < f32::EPSILON as f64);
    }
}

#[test]
fn solver_known_system_within_tolerance() {
    let a: Matrix<F> = fm(&vec![
        vec![1.0, 3.0, -2.0],
        vec![3.0, 5.0, 6.0],
        vec![2.0, 4.0, 3.0],
    ]);
    let b: Vector<F> = fv(&vec![5.0, 7.0, 8.0], Shape::Col);
    let x = GaussianElimination::solve(a, b).unwrap().unwrap();
    let expected: Vec<f64> = vec![-15.0, 8.0, 2.0];

    assert_eq!(*x.shape(), Shape::Col);
    for i in 0..x.size() {
        assert!((x.get(i).unwrap().0 - expected[i]).abs() < 1e-6);
    }
}

#[test]
fn solver_zero_column_returns_none() {
    let a: Matrix<F> = fm(&vec![
        vec![0.0, 1.0, 2.0],
        vec![0.0, 3.0, 4.0],
        vec![0.0, 5.0, 6.0],
    ]);
    let b: Vector<F> = fv(&vec![1.0, 2.0, 3.0], Shape::Col);

    let res = GaussianElimination::solve(a, b).unwrap();
    assert!(res.is_none());
}

#[test]
fn solver_shape_mismatch_errors() {
    let a: Matrix<F> = fm(&vec![vec![1.0, 2.0, 3.0], vec![4.0, 5.0, 6.0]]);
    let b: Vector<F> = fv(&vec![1.0, 2.0], Shape::Col);
    assert!(GaussianElimination::solve(a, b).is_err());

    let square: Matrix<F> = fm(&vec![vec![1.0, 2.0], vec![3.0, 4.0]]);
    let long: Vector<F> = fv(&vec![1.0, 2.0, 3.0], Shape::Col);
    assert!(GaussianElimination::solve(square, long).is_err());
}

#[test]
fn residual_reproduces_rhs() {
    let systems: Vec<(Vec<Vec<f64>>, Vec<f64>)> = vec![
        (
            vec![
                vec![1.0, 3.0, -2.0],
                vec![3.0, 5.0, 6.0],
                vec![2.0, 4.0, 3.0],
            ],
            vec![5.0, 7.0, 8.0],
        ),
        (
            vec![
                vec![4.0, 1.0, 0.0, 0.0, 0.0],
                vec![1.0, 4.0, 1.0, 0.0, 0.0],
                vec![0.0, 1.0, 4.0, 1.0, 0.0],
                vec![0.0, 0.0, 1.0, 4.0, 1.0],
                vec![0.0, 0.0, 0.0, 1.0, 4.0],
            ],
            vec![1.0 / 2.0, 2.0 / 3.0, 3.0 / 4.0, 4.0 / 5.0, 5.0 / 6.0],
        ),
        (
            vec![
                vec![1.00, 0.00, 0.00, 0.00, 0.00, 0.00],
                vec![1.00, 0.63, 0.39, 0.25, 0.16, 0.10],
                vec![1.00, 1.26, 1.58, 1.98, 2.49, 3.13],
                vec![1.00, 1.88, 3.55, 6.70, 12.62, 23.80],
                vec![1.00, 2.51, 6.32, 15.88, 39.90, 100.28],
                vec![1.00, 3.14, 9.87, 31.01, 97.41, 306.02],
            ],
            vec![-0.01, 0.61, 0.91, 0.99, 0.60, 0.02],
        ),
    ];

    for (rows, rhs) in &systems {
        let x: Vector<F> = GaussianElimination::solve(fm(rows), fv(rhs, Shape::Col))
            .unwrap()
            .unwrap();
        let reproduced: Vector<F> = fm(rows).vector_product(&x).unwrap();
        for i in 0..rhs.len() {
            assert!((reproduced.get(i).unwrap().0 - rhs[i]).abs() < 1e-6);
        }
    }
}
