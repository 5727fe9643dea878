use linear::matrix::matrix::Matrix;
use linear::vector::shape::Shape;
use linear::vector::vector::Vector;

fn elements() -> Vec<i32> {
    vec![1, 3, 5, 2, 7]
}

#[test]
fn vector_test_init() {
    let vec: Vector<i32> = Vector::new(elements(), Shape::Col);

    assert_eq!(*vec.shape(), Shape::Col);
    assert_eq!(vec.elements.len(), elements().len());
}

#[test]
fn vector_test_transpose() {
    let mut vec: Vector<i32> = Vector::new(elements(), Shape::Col);

    assert_eq!(*vec.shape(), Shape::Col);
    vec.transpose();
    assert_eq!(*vec.shape(), Shape::Row);
}

#[test]
fn test_dot() {
    let left: Vector<i32> = Vector::new(elements(), Shape::Row);
    let right: Vector<i32> = Vector::new(elements(), Shape::Col);

    let dot: Result<i32, &str> = left.dot(&right);
    assert_eq!(dot.unwrap(), 88);
}

#[test]
fn test_mul() {
    let mut vec: Vector<i32> = Vector::new(elements(), Shape::Row);
    vec.mul(2);
    for i in 0..vec.size() {
        assert_eq!(*vec.get(i).unwrap(), elements()[i] * 2);
    }

    let mut mul_vec: Vector<i32> = vec;
    mul_vec.mul(3);
    for i in 0..mul_vec.size() {
        assert_eq!(*mul_vec.get(i).unwrap(), elements()[i] * 6);
    }
}

#[test]
fn vector_test_add() {
    let mut vec: Vector<i32> = Vector::new(elements(), Shape::Row);
    vec.add(2);
    for i in 0..vec.size() {
        assert_eq!(*vec.get(i).unwrap(), elements()[i] + 2);
    }

    let mut add_vec: Vector<i32> = vec;
    add_vec.add(3);
    for i in 0..add_vec.size() {
        assert_eq!(*add_vec.get(i).unwrap(), elements()[i] + 5);
    }
}

#[test]
fn test_outer() {
    let left: Vector<i32> = Vector::new(vec![3, 2, 1], Shape::Col);
    let right: Vector<i32> = Vector::new(vec![7, 2, 3, 1], Shape::Row);
    let outer_p: Matrix<i32> = left.outer(&right);
    let expected: Matrix<i32> = Matrix::new(&vec![
        vec![21, 6, 9, 3],
        vec![14, 4, 6, 2],
        vec![7, 2, 3, 1],
    ]);

    assert!(outer_p.equals(&expected));
}

#[test]
fn vector_test_equals() {
    let vec1: Vector<i32> = Vector::new(elements(), Shape::Row);
    let vec2: Vector<i32> = Vector::new(elements(), Shape::Row);
    let vec3: Vector<i32> = Vector::new(vec![3, 2, 1], Shape::Col);

    assert!(vec1.equals(&vec2));
    assert!(!vec1.equals(&vec3));
}

#[test]
fn outer_matches_elementwise_products() {
    let u: Vector<i32> = Vector::new(vec![4, -2, 9], Shape::Col);
    let v: Vector<i32> = Vector::new(vec![5, 0, -3, 8], Shape::Row);
    let m: Matrix<i32> = u.outer(&v);

    assert_eq!(m.size().rows(), 3);
    assert_eq!(m.size().cols(), 4);
    for i in 0..3 {
        for j in 0..4 {
            let expected = u.elements[i] * v.elements[j];
            assert_eq!(*m.get(i, j).unwrap(), expected);
        }
    }
}

#[test]
fn dot_length_mismatch_errors() {
    let left: Vector<i32> = Vector::new(vec![1, 2, 3], Shape::Row);
    let right: Vector<i32> = Vector::new(vec![1, 2], Shape::Col);
    assert!(left.dot(&right).is_err());
}

#[test]
fn map_applies_to_each_element() {
    let vec: Vector<i32> = Vector::new(vec![1, 2, 3], Shape::Row);
    let doubled: Vec<i32> = vec.map(2, |a, b| a * b);
    assert_eq!(doubled, vec![2, 4, 6]);
}
