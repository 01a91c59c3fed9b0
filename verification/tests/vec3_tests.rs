use rasterizer::vec3::Vec3;

#[test]
fn plus() {
    let vec1 = Vec3::new(1, 1, 1);
    let vec2 = Vec3::new(1, 2, 3);
    let result = vec1.plus(&vec2);

    assert_eq!(result.x, 2);
    assert_eq!(result.y, 3);
    assert_eq!(result.z, 4);
}

#[test]
fn minus() {
    let vec1 = Vec3::new(1, 1, 1);
    let vec2 = Vec3::new(1, 2, 3);
    let result = vec1.minus(&vec2);

    assert_eq!(result.x, 0);
    assert_eq!(result.y, -1);
    assert_eq!(result.z, -2);
}

#[test]
fn dot_product() {
    let vec1 = Vec3::new(1, 2, 3);
    let vec2 = Vec3::new(2, 3, 4);
    let result = vec1.dot_product(&vec2);

    assert_eq!(result, 20);
}

#[test]
fn cross_product() {
    let vec1 = Vec3::new(7, 6, 4);
    let vec2 = Vec3::new(2, 1, 3);

    let result_correct = Vec3::new(14, 13, -5);

    let result = vec1.cross_product(&vec2);

    assert_eq!(result.x, result_correct.x);
    assert_eq!(result.y, result_correct.y);
    assert_eq!(result.z, result_correct.z);
}

#[test]
fn scale() {
    let vec = Vec3::new(3, 2, 4);
    let new_vec = vec.scale(2);

    assert_eq!(new_vec.x, 6);
    assert_eq!(new_vec.y, 4);
    assert_eq!(new_vec.z, 8);
}

#[test]
fn divide_exact_multiples() {
    let vec = Vec3::new(6, 4, 8);
    let new_vec = vec.divide(2);

    assert_eq!(new_vec.x, 3);
    assert_eq!(new_vec.y, 2);
    assert_eq!(new_vec.z, 4);
}

#[test]
fn divide_truncates_toward_zero() {
    let vec = Vec3::new(7, -7, 8);
    let new_vec = vec.divide(2);

    assert_eq!(new_vec.x, 3);
    assert_eq!(new_vec.y, -3);
    assert_eq!(new_vec.z, 4);
}

#[test]
fn scale_by_matrix() {
    let vec = Vec3::new(2, 3, 4);
    let matrix = [[1, 2, 3], [3, 2, 1], [4, 1, 3]];
    let result = vec.scale_by_matrix(matrix);

    assert_eq!(result.x, 20);
    assert_eq!(result.y, 16);
    assert_eq!(result.z, 23);
}

#[test]
fn clone_copies_components() {
    let vec = Vec3::new(5, -6, 7);
    let copy = vec.clone();

    assert_eq!(copy.x, 5);
    assert_eq!(copy.y, -6);
    assert_eq!(copy.z, 7);
}

#[test]
fn cross_product_antisymmetric() {
    let a = Vec3::new(7, 6, 4);
    let b = Vec3::new(2, 1, 3);
    let ab = a.cross_product(&b);
    let ba = b.cross_product(&a);

    assert_eq!(ab.x, -ba.x);
    assert_eq!(ab.y, -ba.y);
    assert_eq!(ab.z, -ba.z);
}

#[test]
fn dot_product_commutative() {
    let a = Vec3::new(9, -4, 11);
    let b = Vec3::new(-3, 5, 2);

    assert_eq!(a.dot_product(&b), b.dot_product(&a));
}

#[test]
fn scale_then_divide_is_identity() {
    let vec = Vec3::new(3, -2, 4);
    let back = vec.scale(5).divide(5);

    assert_eq!(back.x, 3);
    assert_eq!(back.y, -2);
    assert_eq!(back.z, 4);
}
