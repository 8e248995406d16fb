//! Encryption: a fresh uniform ring element `r` is drawn on every call —
//! never reused across calls, since a shared `r` would leak relations
//! between plaintexts — and the ciphertext is `(a*r + m, b*r)`.

use vstd::prelude::*;

verus! {

use crate::poly::{Polynomial, add_spec, mul_spec, MAX_MUL_MODULUS};
use crate::keys::PublicKey;

/// A ciphertext: the pair `(c0, c1)` of ring elements.
#[derive(Debug, Clone)]
pub struct Ciphertext {
    pub c0: Polynomial,
    pub c1: Polynomial,
}

impl Ciphertext {
    /// The shared coefficient modulus of the two components.
    pub open spec fn modulus(&self) -> u128 {
        self.c0.modulus
    }

    /// Well-formedness: both components canonical, over one modulus, and of
    /// equal degree.
    pub open spec fn wf(&self) -> bool {
        &&& self.c0.wf()
        &&& self.c1.wf()
        &&& self.c0.modulus == self.c1.modulus
        &&& self.c0@.len() == self.c1@.len()
    }
}

/// Whether `c` is an encryption of `m` under the key `(a, b)` over `Z_q`
/// with the blinding element `r`: `c0 = a*r + m` and `c1 = b*r`.
pub open spec fn is_encryption_of(
    c: Ciphertext,
    m: Seq<int>,
    a: Seq<int>,
    b: Seq<int>,
    q: int,
    r: Seq<int>,
) -> bool {
    &&& r.len() == m.len()
    &&& (forall|i: int| 0 <= i < r.len() ==> 0 <= #[trigger] r[i] < q)
    &&& c.c0@ == add_spec(mul_spec(a, r, q), m, q)
    &&& c.c1@ == mul_spec(b, r, q)
}

/// Encrypts a plaintext ring element under the public key: a fresh uniform
/// `r` is drawn, and the ciphertext is `(a*r + plaintext, b*r)`.
pub fn encrypt(plaintext: &Polynomial, pk: &PublicKey) -> (c: Ciphertext)
    requires
        plaintext.wf(),
        pk.wf(),
        plaintext.modulus == pk.modulus,
        plaintext@.len() == pk.a@.len(),
        pk.modulus <= MAX_MUL_MODULUS,
    ensures
        c.wf(),
        c.modulus() == pk.modulus,
        c.c0@.len() == plaintext@.len(),
        exists|r: Seq<int>|
            #[trigger] is_encryption_of(c, plaintext@, pk.a@, pk.b@, pk.modulus as int, r),
{
    let degree = plaintext.coefficients.len();
    let r = Polynomial::random(degree, pk.modulus);
    let c0 = pk.a.mul_same_degree(&r).add(plaintext);
    let c1 = pk.b.mul_same_degree(&r);
    let c = Ciphertext { c0, c1 };
    proof {
        assert(is_encryption_of(c, plaintext@, pk.a@, pk.b@, pk.modulus as int, r@));
    }
    c
}

} // verus!
