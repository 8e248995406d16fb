use bgv::poly::{PolyError, Polynomial};

#[test]
fn test_encode_decode_integers() {
    let modulus: u128 = 97;
    let data: Vec<u64> = vec![1, 2, 3, 4, 5];
    let poly = Polynomial::encode(&data, modulus);
    let decoded = poly.decode().unwrap();
    assert_eq!(data, decoded);
}

#[test]
fn test_encode_reduces_modulo() {
    let poly = Polynomial::encode(&[98, 97, 96], 97);
    assert_eq!(poly.decode().unwrap(), vec![1, 0, 96]);
}

#[test]
fn test_fixed_point_round_trip() {
    let data: f64 = 3.14159;
    let precision: u32 = 5;
    let scale = 10u64.pow(precision);
    // The scaled magnitude must stay below the modulus for the round trip
    // to be exact.
    let modulus: u128 = 400009;
    let scaled = (data.abs() * scale as f64).round() as u64;
    let poly = Polynomial::encode_scaled(scaled, modulus);
    let recovered = poly.decode_scaled().unwrap();
    let decoded = recovered as f64 / scale as f64;
    assert!((data - decoded).abs() < 1e-5);
}

#[test]
fn test_fixed_point_discards_sign() {
    let data: f64 = -2.5;
    let scale = 10u64.pow(2);
    let scaled = (data.abs() * scale as f64).round() as u64;
    let poly = Polynomial::encode_scaled(scaled, 1000);
    assert_eq!(poly.decode_scaled().unwrap(), 250);
}

#[test]
fn test_decode_scaled_empty_is_zero() {
    let poly = Polynomial::zero(0, 97);
    assert_eq!(poly.decode_scaled().unwrap(), 0);
}

#[test]
fn test_decode_range_error() {
    let too_big: u128 = u64::MAX as u128 + 1;
    let poly = Polynomial::new(vec![too_big], too_big + 1);
    assert_eq!(poly.decode(), Err(PolyError::RangeError));
    assert_eq!(poly.decode_scaled(), Err(PolyError::RangeError));
}

#[test]
fn test_multiply_length_mismatch_error() {
    let a = Polynomial::from_u64(&[1, 2], 97);
    let b = Polynomial::from_u64(&[1], 97);
    assert_eq!(a.mul(&b), Err(PolyError::LengthMismatchError));
}

#[test]
fn test_new_reduces_and_degree() {
    let poly = Polynomial::new(vec![100, 1, 97], 97);
    assert_eq!(poly.degree(), 3);
    assert_eq!(poly.decode().unwrap(), vec![3, 1, 0]);
}

#[test]
fn test_reduce_in_place() {
    let mut poly = Polynomial { coefficients: vec![200, 5], modulus: 97 };
    poly.reduce();
    assert_eq!(poly.coefficients, vec![6, 5]);
}

#[test]
fn test_add_pads_shorter_operand() {
    let a = Polynomial::from_u64(&[1, 2, 3], 97);
    let b = Polynomial::from_u64(&[10], 97);
    assert_eq!(a.add(&b).decode().unwrap(), vec![11, 2, 3]);
}

#[test]
fn test_add_wraps_modulus() {
    let a = Polynomial::from_u64(&[96, 50], 97);
    let b = Polynomial::from_u64(&[2, 47], 97);
    assert_eq!(a.add(&b).decode().unwrap(), vec![1, 0]);
}

#[test]
fn test_sub_avoids_underflow() {
    let a = Polynomial::from_u64(&[0, 5], 97);
    let b = Polynomial::from_u64(&[1, 2], 97);
    assert_eq!(a.sub(&b).decode().unwrap(), vec![96, 3]);
}

#[test]
fn test_multiply_cyclic_wraparound() {
    // (1 + 2x + 3x^2) * x^2 in Z_97[x]/(x^3 - 1): indices wrap, no sign flip.
    let a = Polynomial::from_u64(&[1, 2, 3], 97);
    let x2 = Polynomial::from_u64(&[0, 0, 1], 97);
    assert_eq!(a.mul(&x2).unwrap().decode().unwrap(), vec![2, 3, 1]);
}

#[test]
fn test_multiply_exact_value() {
    // (1 + 2x) * (3 + 4x) = 3 + 10x + 8x^2 -> cyclic over degree 2:
    // x^2 wraps to 1, so 11 + 10x.
    let a = Polynomial::from_u64(&[1, 2], 97);
    let b = Polynomial::from_u64(&[3, 4], 97);
    assert_eq!(a.mul(&b).unwrap().decode().unwrap(), vec![11, 10]);
}

#[test]
fn test_add_commutative() {
    let a = Polynomial::from_u64(&[5, 96, 17], 97);
    let b = Polynomial::from_u64(&[93, 2, 80], 97);
    assert_eq!(a.add(&b), b.add(&a));
}

#[test]
fn test_add_associative() {
    let a = Polynomial::from_u64(&[5, 96, 17], 97);
    let b = Polynomial::from_u64(&[93, 2, 80], 97);
    let c = Polynomial::from_u64(&[41, 41, 96], 97);
    assert_eq!(a.add(&b).add(&c), a.add(&b.add(&c)));
}

#[test]
fn test_add_zero_identity() {
    let a = Polynomial::from_u64(&[5, 96, 17, 0], 97);
    let z = Polynomial::zero(4, 97);
    assert_eq!(a.add(&z), a);
}

#[test]
fn test_multiply_commutative() {
    let a = Polynomial::from_u64(&[5, 96, 17, 3], 97);
    let b = Polynomial::from_u64(&[93, 2, 80, 21], 97);
    assert_eq!(a.mul(&b), b.mul(&a));
}

#[test]
fn test_random_coefficients_below_modulus() {
    let poly = Polynomial::random(16, 5);
    assert_eq!(poly.degree(), 16);
    for c in poly.decode().unwrap() {
        assert!(c < 5);
    }
}
