use plonk_by_hand::error::PlonkError;
use plonk_by_hand::math::complex_scalar::ComplexScalar;
use plonk_by_hand::math::field::Field;

#[test]
fn field_literals() {
    let f = Field { order: 17 };
    assert_eq!(f.add(10, 10), 3);
    assert_eq!(f.subtract(3, 10), 10);
    assert_eq!(f.multiply(5, 7), 1);
    assert_eq!(f.divide(1, 5), Ok(7));
    assert_eq!(f.exponent(2, 8), 1);
    assert_eq!(f.exponent(3, 0), 1);
    assert_eq!(f.additive_inverse(0), 0);
    assert_eq!(f.additive_inverse(5), 12);
    assert_eq!(f.multiplicative_inverse(13), Ok(4));
}

#[test]
fn subtraction_undoes_addition_and_division_multiplication() {
    let f = Field { order: 17 };
    for a in 0..17 {
        for b in 0..17 {
            assert_eq!(f.subtract(f.add(a, b), b), a);
            if b != 0 {
                assert_eq!(f.divide(f.multiply(a, b), b), Ok(a));
            }
        }
    }
}

#[test]
fn no_inverse_is_an_error() {
    let f = Field { order: 12 };
    assert_eq!(f.multiplicative_inverse(0), Err(PlonkError::NoInverse));
    assert_eq!(f.multiplicative_inverse(8), Err(PlonkError::NoInverse));
    assert_eq!(f.divide(5, 9), Err(PlonkError::NoInverse));
    assert_eq!(f.multiplicative_inverse(7), Ok(7));
    assert_eq!(Field { order: 17 }.divide(3, 0), Err(PlonkError::NoInverse));
}

#[test]
fn large_operands_do_not_overflow() {
    let f = Field { order: 4294967291 };
    assert_eq!(f.add(4294967290, 4294967290), 4294967289);
    assert_eq!(f.multiply(4294967290, 4294967290), 1);
    assert_eq!(f.exponent(4294967290, 3), 4294967290);
}

#[test]
fn exponent_reduces_in_the_field_of_one_element() {
    assert_eq!(Field { order: 1 }.exponent(5, 0), 0);
}

#[test]
fn complex_scalar_arithmetic() {
    let f = Field { order: 101 };
    let a = ComplexScalar { constant: 3, u_term: 4 };
    let b = ComplexScalar { constant: 5, u_term: 6 };
    // (3 + 4u)(5 + 6u) = 15 - 48 + 38u = -33 + 38u
    let p = ComplexScalar::multiply(&f, &a, &b);
    assert!(ComplexScalar::equals(&p, &ComplexScalar { constant: 68, u_term: 38 }));
    let s = ComplexScalar::add(&f, &a, &b);
    assert!(ComplexScalar::equals(&s, &ComplexScalar { constant: 8, u_term: 10 }));
    assert!(!ComplexScalar::equals(&a, &b));
}

#[test]
fn complex_scalar_powers() {
    let f = Field { order: 101 };
    let c = ComplexScalar { constant: 3, u_term: 4 };
    let mut expected = ComplexScalar { constant: 3, u_term: 4 };
    assert!(ComplexScalar::equals(&ComplexScalar::exponent(&f, &c, 0), &c));
    assert!(ComplexScalar::equals(&ComplexScalar::exponent(&f, &c, 1), &c));
    for e in 2..40 {
        expected = ComplexScalar::multiply(&f, &c, &expected);
        assert!(ComplexScalar::equals(&ComplexScalar::exponent(&f, &c, e), &expected));
    }
}
