use plonk_by_hand::error::PlonkError;
use plonk_by_hand::math::field::Field;
use plonk_by_hand::math::polynomial::{Point, Polynomial};
use plonk_by_hand::math::roots_of_unity::{get_coset, get_roots_of_unity};

#[test]
fn test_create_poly_from_points() {
    let field = Field { order: 17 };

    let points = vec![
        Point { x: 1, y: 3 },
        Point { x: 4, y: 4 },
        Point { x: 16, y: 5 },
        Point { x: 13, y: 9 },
    ];

    let new_poly = Polynomial::create_poly_from_points(points, &field).unwrap();
    let expected_coefficients: Vec<u32> = vec![1, 13, 3, 3];

    for i in 0..new_poly.coefficients.len() {
        assert_eq!(new_poly.coefficients[i], expected_coefficients[i]);
    }

    assert_eq!(new_poly.degree, 3);
}

#[test]
fn test_poly_multiply() {
    let field = Field { order: 17 };
    let poly1 = Polynomial {
        degree: 2,
        coefficients: vec![16, 2, 1],
        field: field.clone(),
    };

    let poly2 = Polynomial {
        degree: 2,
        coefficients: vec![6, 14, 2],
        field,
    };

    let actual_poly = Polynomial::poly_multiply(&poly1, &poly2);
    let expected_coefficients = vec![11, 15, 15, 1, 2];
    assert_eq!(actual_poly.coefficients, expected_coefficients);
}

#[test]
fn test_poly_divide() {
    let field = Field { order: 17 };

    let poly1 = Polynomial {
        degree: 2,
        coefficients: vec![2, 1, 2],
        field: field.clone(),
    };

    let poly2 = Polynomial {
        degree: 1,
        coefficients: vec![3, 1],
        field,
    };

    let (quotient, remainder) = Polynomial::poly_divide(&poly1, &poly2).unwrap();
    let expected_quotient = vec![12, 2];
    let expected_remainder = vec![0];
    assert_eq!(quotient.coefficients, expected_quotient);
    assert_eq!(remainder.coefficients, expected_remainder);
}

#[test]
fn test_roots() {
    let expected_roots = vec![1, 4, 16, 13];
    let actual_roots = get_roots_of_unity(4, &Field { order: 17 });
    assert_eq!(expected_roots, actual_roots);
}

#[test]
fn test_cosets() {
    let field = Field { order: 17 };
    let expected_coset_1 = vec![2, 8, 15, 9];
    let actual_coset_1 = get_coset(2, &vec![1, 4, 16, 13], &field);
    assert_eq!(expected_coset_1, actual_coset_1);

    let expected_coset_2 = vec![3, 12, 14, 5];
    let actual_coset_2 = get_coset(3, &vec![1, 4, 16, 13], &field);
    assert_eq!(expected_coset_2, actual_coset_2);
}

fn poly(coefficients: Vec<u32>) -> Polynomial {
    Polynomial {
        degree: (coefficients.len() - 1) as u32,
        coefficients,
        field: Field { order: 17 },
    }
}

#[test]
fn division_recomposes_the_dividend() {
    let dividends = vec![
        vec![2, 1, 2],
        vec![0, 0, 1],
        vec![5, 0, 0, 7, 11],
        vec![1, 1],
        vec![0],
        vec![3],
    ];
    let divisors = vec![vec![3, 1], vec![1, 1], vec![16, 0, 0, 0, 1], vec![4], vec![0, 2]];
    for p in dividends.iter() {
        for d in divisors.iter() {
            let dividend = poly(p.clone());
            let divisor = poly(d.clone());
            let (q, r) = Polynomial::poly_divide(&dividend, &divisor).unwrap();
            let back = Polynomial::poly_add(&Polynomial::poly_multiply(&q, &divisor), &r);
            assert_eq!(&back.coefficients, p);
            assert!(r.coefficients == vec![0] || r.coefficients.len() < d.len());
        }
    }
}

#[test]
fn division_with_a_zero_constant_term_goes_on() {
    // X^2 = X * X + 0
    let (q, r) = Polynomial::poly_divide(&poly(vec![0, 0, 1]), &poly(vec![0, 1])).unwrap();
    assert_eq!(q.coefficients, vec![0, 1]);
    assert_eq!(r.coefficients, vec![0]);
}

#[test]
fn division_of_equal_degrees() {
    // 2X + 5 = 2 * (X + 1) + 3
    let (q, r) = Polynomial::poly_divide(&poly(vec![5, 2]), &poly(vec![1, 1])).unwrap();
    assert_eq!(q.coefficients, vec![2]);
    assert_eq!(r.coefficients, vec![3]);
}

#[test]
fn division_by_a_longer_polynomial_divides_nothing() {
    let (q, r) = Polynomial::poly_divide(&poly(vec![5, 2]), &poly(vec![1, 1, 1])).unwrap();
    assert_eq!(q.coefficients, vec![0]);
    assert_eq!(r.coefficients, vec![5, 2]);
}

#[test]
fn division_by_a_zero_leading_coefficient_is_refused() {
    let res = Polynomial::poly_divide(&poly(vec![5, 2, 1]), &poly(vec![1, 0]));
    assert_eq!(res.err(), Some(PlonkError::NoInverse));
}

#[test]
fn interpolation_passes_through_its_points() {
    let field = Field { order: 17 };
    let xs = [1u32, 4, 16, 13];
    let ys = [3u32, 0, 16, 9];
    let points = vec![
        Point { x: xs[0], y: ys[0] },
        Point { x: xs[1], y: ys[1] },
        Point { x: xs[2], y: ys[2] },
        Point { x: xs[3], y: ys[3] },
    ];
    let p = Polynomial::create_poly_from_points(points, &field).unwrap();
    for i in 0..4 {
        assert_eq!(p.eval(xs[i]), ys[i]);
    }
}

#[test]
fn interpolation_wants_four_points() {
    let field = Field { order: 17 };
    let three = vec![Point { x: 1, y: 3 }, Point { x: 4, y: 4 }, Point { x: 16, y: 5 }];
    assert_eq!(
        Polynomial::create_poly_from_points(three, &field).err(),
        Some(PlonkError::InvalidDegree)
    );
    let five = vec![
        Point { x: 1, y: 3 },
        Point { x: 4, y: 4 },
        Point { x: 16, y: 5 },
        Point { x: 13, y: 9 },
        Point { x: 2, y: 9 },
    ];
    assert_eq!(
        Polynomial::create_poly_from_points(five, &field).err(),
        Some(PlonkError::InvalidDegree)
    );
}

#[test]
fn interpolation_through_a_repeated_abscissa_is_refused() {
    let field = Field { order: 17 };
    let points = vec![
        Point { x: 1, y: 3 },
        Point { x: 1, y: 4 },
        Point { x: 16, y: 5 },
        Point { x: 13, y: 9 },
    ];
    assert_eq!(
        Polynomial::create_poly_from_points(points, &field).err(),
        Some(PlonkError::NoInverse)
    );
}

#[test]
fn lagrange_polynomial_is_one_at_the_first_root() {
    let field = Field { order: 17 };
    let roots = vec![1, 4, 16, 13];
    let l1 = Polynomial::get_lagrange_1_poly(&field, 3, &roots).unwrap();
    assert_eq!(l1.eval(1), 1);
    assert_eq!(l1.eval(4), 0);
    assert_eq!(l1.eval(16), 0);
    assert_eq!(l1.eval(13), 0);
    assert_eq!(l1.eval(5), 5);
}

#[test]
fn evaluation_and_elementwise_operations() {
    let p = poly(vec![1, 13, 3, 3]);
    // 1 + 13*4 + 3*16 + 3*64 = 293 = 4 mod 17
    assert_eq!(p.eval(4), 4);
    assert_eq!(p.scalar_multiply(2).coefficients, vec![2, 9, 6, 6]);
    assert_eq!(p.scalar_multiply(0).coefficients, vec![0]);
    assert_eq!(
        Polynomial::additive_inverse_poly(&p).coefficients,
        vec![16, 4, 14, 14]
    );
    assert_eq!(
        Polynomial::poly_add(&p, &poly(vec![16, 4, 14, 14])).coefficients,
        vec![0]
    );
    assert_eq!(
        Polynomial::poly_subtract(&p, &poly(vec![1, 13])).coefficients,
        vec![0, 0, 3, 3]
    );
    assert_eq!(Polynomial::from_scalar(7, Field { order: 17 }).coefficients, vec![7]);
    assert_eq!(p.copy().coefficients, p.coefficients);
}

#[test]
fn four_distinct_abscissas_in_a_prime_field_always_interpolate() {
    let field = Field { order: 11 };
    let ys = [7u32, 0, 10, 3];
    for a in 0..11u32 {
        for b in (a + 1)..11 {
            for c in (b + 1)..11 {
                for d in (c + 1)..11 {
                    // in every order of the abscissas, not only the ascending one
                    for xs in [[a, b, c, d], [d, b, a, c], [c, d, b, a]] {
                        let points = vec![
                            Point { x: xs[0], y: ys[0] },
                            Point { x: xs[1], y: ys[1] },
                            Point { x: xs[2], y: ys[2] },
                            Point { x: xs[3], y: ys[3] },
                        ];
                        let p = Polynomial::create_poly_from_points(points, &field).unwrap();
                        assert_eq!(p.degree, 3);
                        assert_eq!(p.coefficients.len(), 4);
                        for i in 0..4 {
                            assert_eq!(p.eval(xs[i]), ys[i]);
                        }
                    }
                }
            }
        }
    }
}

#[test]
fn distinct_abscissas_may_fail_where_the_order_is_no_prime() {
    // modulo 15 the differences 3 and 5 have no inverse
    let field = Field { order: 15 };
    let points = vec![
        Point { x: 0, y: 1 },
        Point { x: 3, y: 2 },
        Point { x: 5, y: 3 },
        Point { x: 6, y: 4 },
    ];
    assert_eq!(
        Polynomial::create_poly_from_points(points, &field).err(),
        Some(PlonkError::NoInverse)
    );
}

#[test]
fn every_residue_but_zero_has_an_inverse_modulo_a_prime() {
    for order in [2u32, 3, 5, 17, 101] {
        let field = Field { order };
        assert_eq!(field.multiplicative_inverse(0), Err(PlonkError::NoInverse));
        for a in 1..order {
            let inverse = field.multiplicative_inverse(a).unwrap();
            assert_eq!(field.multiply(a, inverse), 1);
        }
    }
}
