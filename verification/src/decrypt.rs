//! Decryption: `m' = c0 + c1*s` in the ring, then each coefficient reduced
//! modulo the plaintext modulus. If accumulated noise has grown past
//! `q/(2t)` the result is silently wrong — by design, nothing checks the
//! bound here.

use vstd::prelude::*;

verus! {

use crate::poly::{Polynomial, add_spec, mul_spec, MAX_MUL_MODULUS};
use crate::keys::SecretKey;
use crate::encrypt::Ciphertext;

/// The plaintext modulus `t` applied at decryption.
pub const PLAINTEXT_MODULUS: u128 = 2;

/// The decryption of a ciphertext with components `c0, c1` under the secret
/// `s` over `Z_q`: each coefficient of `c0 + c1*s` reduced modulo the
/// plaintext modulus.
pub open spec fn decrypt_spec(c0: Seq<int>, c1: Seq<int>, s: Seq<int>, q: int) -> Seq<int> {
    let inner = add_spec(c0, mul_spec(c1, s, q), q);
    Seq::new(inner.len(), |i: int| inner[i] % (PLAINTEXT_MODULUS as int))
}

/// Decrypts the ciphertext with the secret key: `m' = c0 + c1*s` in the
/// ring, then every coefficient reduced modulo the plaintext modulus, so
/// the returned coefficients live in `[0, t)`.
pub fn decrypt(ct: &Ciphertext, sk: &SecretKey) -> (r: Polynomial)
    requires
        ct.wf(),
        sk.wf(),
        ct.modulus() == sk.modulus,
        ct.c1@.len() == sk.s@.len(),
        sk.modulus <= MAX_MUL_MODULUS,
    ensures
        r.wf(),
        r.modulus == sk.modulus,
        r@ == decrypt_spec(ct.c0@, ct.c1@, sk.s@, sk.modulus as int),
{
    let q = sk.modulus;
    let inner = ct.c0.add(&ct.c1.mul_same_degree(&sk.s));
    let len = inner.coefficients.len();
    let mut out: Vec<u128> = Vec::new();
    let mut i: usize = 0;
    while i < len
        invariant
            i <= len,
            len == inner.coefficients@.len(),
            inner.wf(),
            inner.modulus == q,
            q >= 1,
            out@.len() == i,
            forall|k: int| 0 <= k < i
                ==> out@[k] < q && out@[k] as int == inner@[k] % (PLAINTEXT_MODULUS as int),
        decreases len - i,
    {
        let c = inner.coefficients[i] % PLAINTEXT_MODULUS;
        proof {
            assert(inner@[i as int] < q);
            vstd::arithmetic::div_mod::lemma_mod_division_less_than_divisor(
                inner@[i as int],
                PLAINTEXT_MODULUS as int,
            );
            if q == 1 {
                vstd::arithmetic::div_mod::lemma_small_mod(0nat, PLAINTEXT_MODULUS as nat);
            }
        }
        out.push(c);
        i += 1;
    }
    let r = Polynomial { coefficients: out, modulus: q };
    proof {
        assert(r@ =~= decrypt_spec(ct.c0@, ct.c1@, sk.s@, q as int));
    }
    r
}

} // verus!
