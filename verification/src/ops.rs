//! Homomorphic evaluation over ciphertexts: component-wise addition, and a
//! deliberately non-relinearized multiplication that omits the `c1*d1`
//! cross term — an inherited approximation, not a full scheme.

use vstd::prelude::*;

verus! {

use crate::poly::{add_spec, mul_spec, PolyError, MAX_MUL_MODULUS};
use crate::encrypt::Ciphertext;

/// Homomorphic addition: `(c0, c1) + (d0, d1) = (c0 + d0, c1 + d1)`.
/// Correctness of the sum is preserved while the combined noise of both
/// ciphertexts stays under the `q/(2t)` bound, which nothing here checks.
pub fn homomorphic_add(c1: &Ciphertext, c2: &Ciphertext) -> (r: Ciphertext)
    requires
        c1.wf(),
        c2.wf(),
        c1.modulus() == c2.modulus(),
    ensures
        r.wf(),
        r.modulus() == c1.modulus(),
        r.c0@ == add_spec(c1.c0@, c2.c0@, c1.modulus() as int),
        r.c1@ == add_spec(c1.c1@, c2.c1@, c1.modulus() as int),
{
    Ciphertext { c0: c1.c0.add(&c2.c0), c1: c1.c1.add(&c2.c1) }
}

/// Homomorphic multiplication without relinearization:
/// `(c0, c1) * (d0, d1) = (c0*d0, c0*d1 + c1*d0)`. The quadratic `c1*d1`
/// cross term is omitted on purpose; the two-component ciphertext shape is
/// kept. Fails with a length-mismatch error when the operands' ring degrees
/// differ.
pub fn homomorphic_multiply(c1: &Ciphertext, c2: &Ciphertext) -> (r: Result<
    Ciphertext,
    PolyError,
>)
    requires
        c1.wf(),
        c2.wf(),
        c1.modulus() == c2.modulus(),
        c1.modulus() <= MAX_MUL_MODULUS,
    ensures
        match r {
            Ok(c) => {
                &&& c1.c0@.len() == c2.c0@.len()
                &&& c.wf()
                &&& c.modulus() == c1.modulus()
                &&& c.c0@ == mul_spec(c1.c0@, c2.c0@, c1.modulus() as int)
                &&& c.c1@ == add_spec(
                    mul_spec(c1.c0@, c2.c1@, c1.modulus() as int),
                    mul_spec(c1.c1@, c2.c0@, c1.modulus() as int),
                    c1.modulus() as int,
                )
            },
            Err(e) => {
                &&& e == PolyError::LengthMismatchError
                &&& c1.c0@.len() != c2.c0@.len()
            },
        },
{
    if c1.c0.degree() != c2.c0.degree() {
        return Err(PolyError::LengthMismatchError);
    }
    let new_c0 = c1.c0.mul_same_degree(&c2.c0);
    let new_c1 = c1.c0.mul_same_degree(&c2.c1).add(&c1.c1.mul_same_degree(&c2.c0));
    Ok(Ciphertext { c0: new_c0, c1: new_c1 })
}

} // verus!
