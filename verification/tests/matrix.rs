use plonk_by_hand::math::field::Field;
use plonk_by_hand::math::matrix::{
    get_adjugate_matrix_4x4, get_inverse_matrix_4x4, get_matrix_determinant_4x4,
    matrix_multiply_4x4_1x4,
};

#[test]
fn test_determinant() {
    let field = Field { order: 17 };

    let m: Vec<Vec<u32>> = vec![
        vec![1, 2, 6, 6],
        vec![4, 7, 3, 2],
        vec![0, 0, 0, 0],
        vec![1, 2, 2, 9],
    ];
    assert_eq!(get_matrix_determinant_4x4(&m, &field), 0);
    let m: Vec<Vec<u32>> = vec![
        vec![4, 3, 2, 2],
        vec![0, 1, 14, 3],
        vec![0, 16, 3, 3],
        vec![0, 3, 1, 1],
    ];
    assert_eq!(get_matrix_determinant_4x4(&m, &field), 15);
    let m: Vec<Vec<u32>> = vec![
        vec![1, 1, 1, 16],
        vec![1, 1, 16, 1],
        vec![1, 16, 1, 1],
        vec![16, 1, 1, 1],
    ];
    assert_eq!(get_matrix_determinant_4x4(&m, &field), 1);
}

#[test]
fn test_inverse() {
    let field = Field { order: 17 };
    let m: Vec<Vec<u32>> = vec![
        vec![1, 1, 1, 16],
        vec![1, 1, 16, 1],
        vec![1, 16, 1, 1],
        vec![16, 1, 1, 1],
    ];
    let adj = get_adjugate_matrix_4x4(&m, &field);
    let expected_adj = vec![
        vec![13, 13, 13, 4],
        vec![13, 13, 4, 13],
        vec![13, 4, 13, 13],
        vec![4, 13, 13, 13],
    ];

    for i in 0..adj.len() {
        for k in 0..adj[i].len() {
            assert_eq!(adj[i][k], expected_adj[i][k]);
        }
    }

    let m2: Vec<Vec<u32>> = vec![
        vec![1, 1, 1, 1],
        vec![1, 4, 16, 13],
        vec![1, 16, 1, 16],
        vec![1, 13, 16, 4],
    ];
    let expected_inverse: Vec<Vec<u32>> = vec![
        vec![13, 13, 13, 13],
        vec![13, 16, 4, 1],
        vec![13, 4, 13, 4],
        vec![13, 1, 4, 16],
    ];
    let actual_inverse: Vec<Vec<u32>> = get_inverse_matrix_4x4(&m2, &field).unwrap();

    for i in 0..actual_inverse.len() {
        for k in 0..actual_inverse[i].len() {
            assert_eq!(actual_inverse[i][k], expected_inverse[i][k]);
        }
    }
}

#[test]
fn test_matrix_mul() {
    let field = Field { order: 17 };
    let m: Vec<Vec<u32>> = vec![
        vec![13, 13, 13, 13],
        vec![13, 16, 4, 1],
        vec![13, 4, 13, 4],
        vec![13, 1, 4, 16],
    ];
    let v: Vec<u32> = vec![3, 4, 5, 9];
    let expected_res: Vec<u32> = vec![1, 13, 3, 3];

    let actual_res = matrix_multiply_4x4_1x4(&m, &v, &field);
    for i in 0..actual_res.len() {
        assert_eq!(actual_res[i], expected_res[i]);
    }
}

#[test]
fn determinant_of_a_matrix_whose_last_two_rows_differ_off_the_diagonal() {
    // Entries (2, 3) and (3, 2) differ, and the product of the entries at
    // (0, 3), (1, 1), (2, 0) and (3, 2) does not vanish.
    let field = Field { order: 101 };
    let m: Vec<Vec<u32>> = vec![
        vec![0, 0, 1, 1],
        vec![1, 1, 0, 0],
        vec![1, 0, 0, 5],
        vec![0, 1, 7, 0],
    ];
    assert_eq!(get_matrix_determinant_4x4(&m, &field), 2);
}

#[test]
fn inverse_of_a_singular_matrix_is_refused() {
    let field = Field { order: 17 };
    let m: Vec<Vec<u32>> = vec![
        vec![1, 2, 6, 6],
        vec![4, 7, 3, 2],
        vec![0, 0, 0, 0],
        vec![1, 2, 2, 9],
    ];
    assert!(get_inverse_matrix_4x4(&m, &field).is_err());
}
