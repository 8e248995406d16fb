//! A demonstration-grade lattice-based homomorphic encryption core:
//! arithmetic in the polynomial ring `Z_q[x]/(x^n - 1)` (cyclic convolution),
//! key generation with a small-secret distribution, encryption, decryption,
//! and homomorphic evaluation (addition and a non-relinearized multiplication).

pub mod decrypt;
pub mod encrypt;
pub mod keys;
pub mod laws;
pub mod ops;
pub mod poly;
pub(crate) mod rng;
