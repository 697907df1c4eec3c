use ndarray::Array2;
use plonk_by_hand::math::field::Field;
use plonk_by_hand::thaler::arrays::{FieldMatrix, FieldVector};
use plonk_by_hand::thaler::freivald::Freivald;
use plonk_by_hand::thaler::reed_solomon::ReedSolomon;

fn matrix_of(a: &Array2<u32>) -> FieldMatrix {
    FieldMatrix::from_shape_vec(a.nrows(), a.ncols(), a.iter().cloned().collect()).unwrap()
}

#[test]
fn test_verify() {
    let freivald = Freivald {
        reed: ReedSolomon {
            field: Field { order: 9999999 },
        },
    };

    let a: Array2<u32> = Array2::from_shape_vec((2, 2), vec![1, 2, 3, 4]).unwrap();
    let b: Array2<u32> = Array2::from_shape_vec((2, 2), vec![2, 3, 4, 5]).unwrap();
    let c = &a.dot(&b);

    assert_eq!(
        freivald.verify(&matrix_of(&a), &matrix_of(&b), &matrix_of(c), 13),
        true
    );
}

#[test]
fn a_wrong_product_is_rejected() {
    let freivald = Freivald {
        reed: ReedSolomon {
            field: Field { order: 9999999 },
        },
    };
    let a = FieldMatrix::from_shape_vec(2, 2, vec![1, 2, 3, 4]).unwrap();
    let b = FieldMatrix::from_shape_vec(2, 2, vec![2, 3, 4, 5]).unwrap();
    // the product is [[10, 13], [22, 29]]
    let c = FieldMatrix::from_shape_vec(2, 2, vec![10, 13, 22, 30]).unwrap();
    assert_eq!(freivald.verify(&a, &b, &c, 13), false);
    // y = C x = [10 + 13 * 13, 22 + 29 * 13], z = A (B x) with B x = [41, 69]
    let good = FieldMatrix::from_shape_vec(2, 2, vec![10, 13, 22, 29]).unwrap();
    assert_eq!(freivald.compute_y(&good, 13).to_vec(), vec![179, 399]);
    assert_eq!(freivald.compute_z(&a, &b, 13).to_vec(), vec![179, 399]);
}

#[test]
fn fingerprint_and_challenge_powers() {
    let reed = ReedSolomon {
        field: Field { order: 17 },
    };
    assert_eq!(reed.get_challenge_array(3, 5).to_vec(), vec![1, 3, 9, 10, 13]);
    assert_eq!(reed.get_challenge_array(3, 0).to_vec(), Vec::<u32>::new());
    // 2 + 5 * 3 + 7 * 9 = 80 = 12 mod 17
    let values = FieldVector::from_vec(vec![2, 5, 7]);
    assert_eq!(reed.finger_print(&values, 3), 12);
}

#[test]
fn dot_product_in_the_field() {
    let field = Field { order: 17 };
    let a = FieldVector::from_vec(vec![1, 2, 3]);
    let b = FieldVector::from_vec(vec![4, 5, 6, 100]);
    // 4 + 10 + 18 = 32 = 15 mod 17
    assert_eq!(field.vector_dot(&a, &b), 15);
    assert_eq!(field.vector_dot(&FieldVector::from_vec(vec![]), &b), 0);
}

#[test]
fn arrays_hold_what_they_were_made_of() {
    let v = FieldVector::from_vec(vec![7, 8, 9]);
    assert_eq!(v.len(), 3);
    assert_eq!(v.at(0), 7);
    assert_eq!(v.at(2), 9);
    assert_eq!(v.to_vec(), vec![7, 8, 9]);
    let m = FieldMatrix::from_shape_vec(2, 3, vec![1, 2, 3, 4, 5, 6]).unwrap();
    assert_eq!(m.nrows(), 2);
    assert_eq!(m.row(0).to_vec(), vec![1, 2, 3]);
    assert_eq!(m.row(1).to_vec(), vec![4, 5, 6]);
    assert!(FieldMatrix::from_shape_vec(2, 3, vec![1, 2, 3, 4, 5]).is_none());
    assert!(FieldMatrix::from_shape_vec(3, 2, vec![1, 2, 3, 4, 5, 6, 7]).is_none());
}

#[test]
fn a_matrix_is_made_of_every_vector_that_fits_its_shape() {
    for rows in 0..5usize {
        for cols in 0..5usize {
            for len in 0..20usize {
                let made = FieldMatrix::from_shape_vec(rows, cols, vec![7; len]);
                assert_eq!(made.is_some(), rows * cols == len);
                if let Some(m) = made {
                    assert_eq!(m.nrows(), rows);
                    for i in 0..rows {
                        assert_eq!(m.row(i).to_vec(), vec![7; cols]);
                    }
                }
            }
        }
    }
    // an axis without elements does not excuse an extent beyond isize::MAX
    assert!(FieldMatrix::from_shape_vec(0, usize::MAX, Vec::new()).is_none());
    assert!(FieldMatrix::from_shape_vec(usize::MAX, 0, Vec::new()).is_none());
    assert!(FieldMatrix::from_shape_vec(0, isize::MAX as usize, Vec::new()).is_some());
}

#[test]
fn random_residues_are_residues() {
    let field = Field { order: 17 };
    let mut seen_other_than_first = false;
    let first = field.get_random();
    for _ in 0..200 {
        let r = field.get_random();
        assert!(r < 17);
        if r != first {
            seen_other_than_first = true;
        }
    }
    assert!(seen_other_than_first);
    assert_eq!(Field { order: 1 }.get_random(), 0);
}
