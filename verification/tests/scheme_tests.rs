use bgv::decrypt::decrypt;
use bgv::encrypt::{encrypt, Ciphertext};
use bgv::keys::{generate_keys, generate_keys_with, PublicKey, SecretDistribution, SecretKey};
use bgv::ops::{homomorphic_add, homomorphic_multiply};
use bgv::poly::Polynomial;

#[test]
fn test_encrypt() {
    let (pk, _sk) = generate_keys(4, 97, 2).unwrap();
    let modulus = pk.modulus;
    let plaintext = Polynomial::from_u64(&[1, 2, 3, 4], modulus);

    let ciphertext = encrypt(&plaintext, &pk);

    assert_eq!(ciphertext.c0.coefficients.len(), plaintext.coefficients.len());
    assert_eq!(ciphertext.c1.coefficients.len(), plaintext.coefficients.len());
}

#[test]
fn test_generate_keys_shapes() {
    let (pk, sk) = generate_keys(4, 97, 2).unwrap();
    assert_eq!(pk.modulus, 97);
    assert_eq!(sk.modulus, 97);
    assert_eq!(pk.a.degree(), 4);
    assert_eq!(pk.b.degree(), 4);
    assert_eq!(sk.s.degree(), 4);
    for c in sk.s.decode().unwrap() {
        assert!(c == 0 || c == 1);
    }
}

#[test]
fn test_generate_keys_symmetric_ternary() {
    let (_pk, sk) = generate_keys_with(4, 97, 2, SecretDistribution::SymmetricTernary).unwrap();
    for c in sk.s.decode().unwrap() {
        assert!(c == 0 || c == 1 || c == 96);
    }
}

#[test]
fn test_decrypt_coefficients_below_plaintext_modulus() {
    let (pk, sk) = generate_keys(4, 97, 2).unwrap();
    let plaintext = Polynomial::from_u64(&[1, 0, 1, 0], pk.modulus);
    let decrypted = decrypt(&encrypt(&plaintext, &pk), &sk);
    for c in decrypted.decode().unwrap() {
        assert!(c < 2);
    }
}

/// Fixed keys with `s = 1` (the constant polynomial) and `e = 0`, for which
/// decryption is exact: `c0 + c1*s = m + a*r*(1 - s^2) + t*e*r*s = m`.
fn exact_keys(q: u128) -> (PublicKey, SecretKey) {
    let s = Polynomial::from_u64(&[1, 0, 0, 0], q);
    let a = Polynomial::from_u64(&[3, 0, 0, 0], q);
    // b = -a*s + t*e with e = 0.
    let b = Polynomial::zero(4, q).sub(&a.mul(&s).unwrap());
    (PublicKey { a, b, modulus: q }, SecretKey { s, modulus: q })
}

/// Encrypts with a chosen blinding element instead of a random one, to keep
/// the test deterministic.
fn encrypt_with(m: &Polynomial, pk: &PublicKey, r: &Polynomial) -> Ciphertext {
    Ciphertext {
        c0: pk.a.mul(r).unwrap().add(m),
        c1: pk.b.mul(r).unwrap(),
    }
}

#[test]
fn test_encrypt_decrypt_exact_keys() {
    let (pk, sk) = exact_keys(97);
    let m = Polynomial::from_u64(&[1, 0, 1, 0], 97);
    let ct = encrypt(&m, &pk);
    let decrypted = decrypt(&ct, &sk);
    assert_eq!(decrypted.decode().unwrap(), vec![1, 0, 1, 0]);
}

#[test]
fn test_encrypt_decrypt_random_keys_repeated_trials() {
    // With random keys the demo scheme decrypts correctly only with some
    // probability per trial; repeated fresh-key trials must succeed at
    // least once.
    let m_bits: Vec<u64> = vec![1, 0, 1, 0];
    let mut successes: u32 = 0;
    for _ in 0..500 {
        let (pk, sk) = generate_keys(4, 97, 2).unwrap();
        let m = Polynomial::from_u64(&m_bits, pk.modulus);
        let decrypted = decrypt(&encrypt(&m, &pk), &sk);
        if decrypted.decode().unwrap() == m_bits {
            successes += 1;
        }
    }
    assert!(successes >= 1);
}

#[test]
fn test_homomorphic_add_exact_keys() {
    let (pk, sk) = exact_keys(97);
    let r1 = Polynomial::from_u64(&[1, 0, 0, 0], 97);
    let r2 = Polynomial::from_u64(&[2, 0, 0, 0], 97);
    let m1 = Polynomial::from_u64(&[1, 0, 1, 1], 97);
    let m2 = Polynomial::from_u64(&[2, 0, 1, 0], 97);
    let sum = homomorphic_add(&encrypt_with(&m1, &pk, &r1), &encrypt_with(&m2, &pk, &r2));
    let decrypted = decrypt(&sum, &sk);
    // (m1 + m2) mod t = [3, 0, 2, 1] mod 2.
    assert_eq!(decrypted.decode().unwrap(), vec![1, 0, 0, 1]);
}

#[test]
fn test_homomorphic_add_random_keys_repeated_trials() {
    let mut successes: u32 = 0;
    for _ in 0..500 {
        let (pk, sk) = generate_keys(4, 97, 2).unwrap();
        let m1 = Polynomial::from_u64(&[1, 0, 0, 0], pk.modulus);
        let m2 = Polynomial::from_u64(&[1, 1, 0, 0], pk.modulus);
        let sum = homomorphic_add(&encrypt(&m1, &pk), &encrypt(&m2, &pk));
        let decrypted = decrypt(&sum, &sk);
        // (m1 + m2) mod 2 = [0, 1, 0, 0].
        if decrypted.decode().unwrap() == vec![0, 1, 0, 0] {
            successes += 1;
        }
    }
    assert!(successes >= 1);
}

#[test]
fn test_homomorphic_multiply_regression() {
    // A fixed regression baseline for the non-relinearized multiplication,
    // not a correctness claim: the omitted `c1*d1` cross term makes the
    // formula an approximation by design.
    let (pk, sk) = exact_keys(97);
    let r = Polynomial::from_u64(&[1, 0, 0, 0], 97);
    let m1 = Polynomial::from_u64(&[1, 0, 0, 0], 97);
    let m2 = Polynomial::from_u64(&[2, 0, 0, 0], 97);
    let c1 = encrypt_with(&m1, &pk, &r);
    let c2 = encrypt_with(&m2, &pk, &r);
    // c1 = ([4,0,0,0], [94,0,0,0]), c2 = ([5,0,0,0], [94,0,0,0]).
    assert_eq!(c1.c0.decode().unwrap(), vec![4, 0, 0, 0]);
    assert_eq!(c2.c0.decode().unwrap(), vec![5, 0, 0, 0]);
    let product = homomorphic_multiply(&c1, &c2).unwrap();
    // c0*d0 = [20,...]; c0*d1 + c1*d0 = [4*94 + 94*5, ...] = [70, ...].
    assert_eq!(product.c0.decode().unwrap(), vec![20, 0, 0, 0]);
    assert_eq!(product.c1.decode().unwrap(), vec![70, 0, 0, 0]);
    // Decryption: (20 + 70) mod 97 = 90, mod 2 = 0.
    let decrypted = decrypt(&product, &sk);
    assert_eq!(decrypted.decode().unwrap(), vec![0, 0, 0, 0]);
}

#[test]
fn test_homomorphic_multiply_length_mismatch() {
    let q: u128 = 97;
    let short = Ciphertext {
        c0: Polynomial::from_u64(&[1, 2], q),
        c1: Polynomial::from_u64(&[3, 4], q),
    };
    let long = Ciphertext {
        c0: Polynomial::from_u64(&[1, 2, 3], q),
        c1: Polynomial::from_u64(&[4, 5, 6], q),
    };
    assert!(homomorphic_multiply(&short, &long).is_err());
}
