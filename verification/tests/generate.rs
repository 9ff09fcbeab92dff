use jacobi_seidel::generate::{
    generate_matrix, random_system, zero_matrix, COEFFICIENT_MAX, COEFFICIENT_MIN,
};

#[test]
fn the_range_is_minus_ten_to_ten_point_ninety_nine() {
    assert_eq!(COEFFICIENT_MIN, -1000);
    assert_eq!(COEFFICIENT_MAX, 1099);
}

#[test]
fn a_zero_matrix_is_augmented() {
    let matrix = zero_matrix(4);
    assert_eq!(matrix, vec![vec![0; 5]; 4]);
    assert_eq!(zero_matrix(0), Vec::<Vec<i32>>::new());
}

#[test]
fn generation_keeps_the_shape_and_fills_every_entry() {
    let mut matrix = vec![vec![5000; 3], vec![], vec![5000; 7]];
    generate_matrix(&mut matrix);
    assert_eq!(matrix.len(), 3);
    assert_eq!(matrix[0].len(), 3);
    assert_eq!(matrix[1].len(), 0);
    assert_eq!(matrix[2].len(), 7);
    for row in &matrix {
        for &value in row {
            assert!(COEFFICIENT_MIN <= value && value <= COEFFICIENT_MAX);
        }
    }
}

#[test]
fn generated_coefficients_vary_within_the_range() {
    let matrix = random_system(40);
    assert_eq!(matrix.len(), 40);
    let mut least = i32::MAX;
    let mut greatest = i32::MIN;
    for row in &matrix {
        assert_eq!(row.len(), 41);
        for &value in row {
            assert!(COEFFICIENT_MIN <= value && value <= COEFFICIENT_MAX);
            least = least.min(value);
            greatest = greatest.max(value);
        }
    }
    assert!(least < COEFFICIENT_MIN + 200);
    assert!(greatest > COEFFICIENT_MAX - 200);
    assert!(random_system(40) != matrix);
}
