use linear::alg::gaussian_elimination::GaussianElimination;
use linear::generator::Generator;
use linear::matrix::dimension::Dimension;
use linear::matrix::matrix::Matrix;
use linear::matrix::shape::Shape as AxisShape;
use linear::matrix::size::Size;
use linear::vector::shape::Shape;
use linear::vector::vector::Vector;

#[test]
fn matrix_test_random() {
    let low: i32 = 1;
    let high: i32 = 1000;
    let rows: usize = 50;
    let cols: usize = 15;

    let matrix: Matrix<i32> = Matrix::random(low, high, rows, cols);

    assert_eq!(matrix.elements.len(), rows * cols);
    assert_eq!(matrix.size().rows(), rows);
    assert_eq!(matrix.size().cols(), cols);
    assert!(matrix.max() <= high);
}

#[test]
fn test_product() {
    let matrix1: Matrix<i32> = Matrix::new(&vec![vec![1, 5], vec![2, 3], vec![1, 7]]);
    let matrix2: Matrix<i32> = Matrix::new(&vec![vec![1, 2, 3, 7], vec![5, 2, 8, 1]]);
    let res: Matrix<i32> = matrix1.product(&matrix2).unwrap();

    assert!(res.equals(&get_default_matrix_product()))
}

#[test]
fn test_vector_product() {
    let matrix: Matrix<i32> = Matrix::new(&vec![vec![1, -1, 2], vec![0, -3, 1]]);
    let vector: Vector<i32> = Vector::new(vec![2, 1, 0], Shape::Row);
    let product: Result<Vector<i32>, &str> = matrix.vector_product(&vector);
    let expected: Vector<i32> = Vector::new(vec![1, -3], Shape::Col);

    match product {
        Ok(p) => assert!(p.equals(&expected)),
        Err(_) => panic!("error during vector product"),
    }
}

fn get_default_matrix_product() -> Matrix<i32> {
    let elements: Vec<Vec<i32>> = vec![
        vec![26, 12, 43, 12],
        vec![17, 10, 30, 17],
        vec![36, 16, 59, 14],
    ];
    Matrix::new(&elements)
}

#[test]
fn shape_invariant_constructions() {
    let m: Matrix<i32> = Matrix::new(&vec![vec![1, 2, 3], vec![4, 5, 6]]);
    assert_eq!(m.elements.len(), m.size().rows() * m.size().cols());

    let t: Matrix<i32> = m.transpose();
    assert_eq!(t.elements.len(), t.size().rows() * t.size().cols());

    let r: Matrix<i32> = Matrix::random(0, 10, 4, 7);
    assert_eq!(r.elements.len(), r.size().rows() * r.size().cols());

    let p: Matrix<i32> = t.product(&m).unwrap();
    assert_eq!(p.elements.len(), p.size().rows() * p.size().cols());

    let s: Matrix<i32> = m.scalar(3);
    assert_eq!(s.elements.len(), s.size().rows() * s.size().cols());
}

#[test]
fn transpose_involution_rectangular() {
    let m: Matrix<i32> = Matrix::new(&vec![vec![1, 2, 3], vec![4, 5, 6]]);
    let tt: Matrix<i32> = m.transpose().transpose();

    assert!(tt.equals(&m));
    assert_eq!(tt.size().rows(), m.size().rows());
    assert_eq!(tt.size().cols(), m.size().cols());
}

#[test]
fn transpose_swaps_extents() {
    let m: Matrix<i32> = Matrix::new(&vec![vec![1, 2, 3], vec![4, 5, 6]]);
    let t: Matrix<i32> = m.transpose();

    assert_eq!(t.size().rows(), 3);
    assert_eq!(t.size().cols(), 2);
    for i in 0..2 {
        for j in 0..3 {
            assert_eq!(m.get(i, j).unwrap(), t.get(j, i).unwrap());
        }
    }
}

#[test]
fn product_shape_and_mismatch() {
    let a: Matrix<i32> = Matrix::new(&vec![vec![1, 2, 3], vec![4, 5, 6]]);
    let b: Matrix<i32> = Matrix::new(&vec![
        vec![1, 0, 0, 1],
        vec![0, 1, 1, 0],
        vec![1, 1, 0, 0],
    ]);

    let p: Matrix<i32> = a.product(&b).unwrap();
    assert_eq!(p.size().rows(), a.size().rows());
    assert_eq!(p.size().cols(), b.size().cols());

    assert!(b.product(&a).is_err());
}

#[test]
fn add_zero_matrix_identity() {
    let a: Matrix<i32> = Matrix::new(&vec![vec![7, -4], vec![0, 12]]);
    let zero: Matrix<i32> = Matrix::new(&vec![vec![0, 0], vec![0, 0]]);

    let sum: Matrix<i32> = a.add(&zero).unwrap();
    assert!(sum.equals(&a));
}

#[test]
fn add_order_mismatch_errors() {
    let a: Matrix<i32> = Matrix::new(&vec![vec![1, 2], vec![3, 4]]);
    let b: Matrix<i32> = Matrix::new(&vec![vec![1, 2, 3], vec![4, 5, 6]]);

    assert!(a.add(&b).is_err());
    assert!(a.subtract(&b).is_err());
}

#[test]
fn get_row_round_trip() {
    let data: Vec<Vec<i32>> = vec![vec![9, 8, 7], vec![1, 2, 3], vec![0, -5, 4], vec![6, 6, 6]];
    let m: Matrix<i32> = Matrix::new(&data);

    for r in 0..data.len() {
        assert_eq!(m.get_row(r), data[r]);
    }
}

#[test]
fn min_and_max_scan_all_elements() {
    let m: Matrix<i32> = Matrix::new(&vec![vec![4, -7, 2], vec![11, 0, -3]]);
    assert_eq!(m.max(), 11);
    assert_eq!(m.min(), -7);
}

#[test]
fn sum_and_order_on_integers() {
    let m: Matrix<i32> = Matrix::new(&vec![vec![1, 2], vec![3, 4], vec![5, 6]]);
    assert_eq!(m.sum(), 21);
    assert_eq!(m.order(), 6);
}

#[test]
fn solver_exact_on_integers() {
    let a: Matrix<i32> = Matrix::new(&vec![vec![2]]);
    let b: Vector<i32> = Vector::new(vec![4], Shape::Col);
    let x: Vector<i32> = GaussianElimination::solve(a, b).unwrap().unwrap();
    assert_eq!(*x.shape(), Shape::Col);
    assert_eq!(*x.get(0).unwrap(), 2);
}

#[test]
fn mean_integer_exact() {
    let m: Matrix<i32> = Matrix::new(&vec![vec![2, 4], vec![6, 8]]);
    assert_eq!(m.mean(), 5);
}

#[test]
fn one_by_one_matrix_operations() {
    let m: Matrix<i32> = Matrix::new(&vec![vec![7]]);
    assert_eq!(m.size().rows(), 1);
    assert_eq!(m.size().cols(), 1);
    assert!(m.transpose().equals(&m));
    assert_eq!(*m.product(&m).unwrap().get(0, 0).unwrap(), 49);
}

#[test]
fn empty_vectors_dot_to_zero() {
    let left: Vector<i32> = Vector::new(vec![], Shape::Row);
    let right: Vector<i32> = Vector::new(vec![], Shape::Col);
    assert_eq!(left.size(), 0);
    assert_eq!(left.dot(&right).unwrap(), 0);
    assert!(left.equals(&right));
}

#[test]
fn size_axes_and_dimension_accessors() {
    let mut size: Size = Size::new(3, 4);
    assert_eq!(size.rows(), 3);
    assert_eq!(size.cols(), 4);
    size.set_rows(5);
    size.set_cols(6);
    assert_eq!(size.rows(), 5);
    assert_eq!(size.cols(), 6);

    let axes: AxisShape = AxisShape::new(1, 2, 3);
    assert_eq!(axes.x(), 1);
    assert_eq!(axes.y(), 2);
    assert_eq!(axes.z(), 3);

    let dim: Dimension = Dimension::TwoDim;
    assert!(dim == Dimension::TwoDim);
    assert!(dim != Dimension::ThreeDim);
}

#[test]
fn random_elements_within_bounds() {
    let low: i32 = 10;
    let high: i32 = 1000;
    let sample: Vec<i32> = Generator::random_elements(low, high, 200);

    assert_eq!(sample.len(), 200);
    for v in &sample {
        assert!(low <= *v && *v < high);
    }
    assert!(sample.iter().any(|v| *v != low));
}
