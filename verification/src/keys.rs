//! Key generation: a small-coefficient secret `s`, a uniform ring element
//! `a`, and `b = -a*s + t*e (mod q)` for a small error polynomial `e`.

use vstd::prelude::*;

verus! {

use crate::poly::{
    Polynomial, add_spec, mul_spec, neg_spec, scale_spec, MAX_MUL_MODULUS,
};
use vstd::arithmetic::div_mod::{lemma_small_mod, lemma_mod_division_less_than_divisor};
use vstd::arithmetic::mul::lemma_mul_upper_bound;

/// Errors that can occur during key generation.
#[derive(Debug, Clone, Copy, PartialEq, Eq)]
pub enum KeyGenError {
    /// The entropy source failed while drawing key material.
    RandomnessError,
}

/// The small set the secret and error coefficients are drawn from. The
/// baseline is `{0, 1}`; the symmetric set `{-1, 0, 1}` (canonically
/// `{0, 1, q-1}`) is exposed as a configuration point rather than silently
/// substituted.
#[derive(Debug, Clone, Copy, PartialEq, Eq)]
pub enum SecretDistribution {
    ZeroOne,
    SymmetricTernary,
}

/// Whether `x` is a canonical member of the sampling set `dist` over `Z_q`.
pub open spec fn in_distribution(dist: SecretDistribution, x: int, q: int) -> bool {
    match dist {
        SecretDistribution::ZeroOne => x == 0 || x == 1,
        SecretDistribution::SymmetricTernary => x == 0 || x == 1 || x == q - 1,
    }
}

/// The public half of a key pair: `(a, b)` with `b = -a*s + t*e (mod q)`.
#[derive(Debug, Clone)]
pub struct PublicKey {
    pub a: Polynomial,
    pub b: Polynomial,
    pub modulus: u128,
}

impl PublicKey {
    /// Well-formedness: both ring elements canonical, over the stated
    /// modulus, and of equal degree.
    pub open spec fn wf(&self) -> bool {
        &&& self.a.wf()
        &&& self.b.wf()
        &&& self.a.modulus == self.modulus
        &&& self.b.modulus == self.modulus
        &&& self.a@.len() == self.b@.len()
    }
}

/// The secret half of a key pair: the small polynomial `s`.
#[derive(Debug, Clone)]
pub struct SecretKey {
    pub s: Polynomial,
    pub modulus: u128,
}

impl SecretKey {
    /// Well-formedness: a canonical ring element over the stated modulus.
    pub open spec fn wf(&self) -> bool {
        &&& self.s.wf()
        &&& self.s.modulus == self.modulus
    }
}

/// One draw from the sampling set, through the failing entropy source.
fn sample_small(dist: SecretDistribution, q: u128) -> (r: Result<u128, KeyGenError>)
    requires
        q >= 2,
    ensures
        match r {
            Ok(v) => v < q && in_distribution(dist, v as int, q as int),
            Err(e) => e == KeyGenError::RandomnessError,
        },
{
    let v = match crate::rng::os_random() {
        Ok(v) => v,
        Err(_) => {
            return Err(KeyGenError::RandomnessError);
        },
    };
    match dist {
        SecretDistribution::ZeroOne => Ok(v % 2),
        SecretDistribution::SymmetricTernary => {
            let w = v % 3;
            if w == 0 {
                Ok(0)
            } else if w == 1 {
                Ok(1)
            } else {
                Ok(q - 1)
            }
        },
    }
}

/// One uniform draw from `[0, q)`, through the failing entropy source.
fn sample_uniform(q: u128) -> (r: Result<u128, KeyGenError>)
    requires
        q >= 1,
    ensures
        match r {
            Ok(v) => v < q,
            Err(e) => e == KeyGenError::RandomnessError,
        },
{
    match crate::rng::os_random() {
        Ok(v) => {
            proof {
                lemma_mod_division_less_than_divisor(v as int, q as int);
            }
            Ok(v % q)
        },
        Err(_) => Err(KeyGenError::RandomnessError),
    }
}

/// Generates a key pair over `Z_q[x]/(x^n - 1)` with the secret and error
/// coefficients drawn from the given sampling set: `s` and `e` small, `a`
/// uniform, and `b = ((q - a*s) + t*e) mod q`, that is `b = -a*s + t*e`.
/// Fails only when the entropy source does.
pub fn generate_keys_with(n: usize, q: u128, t: u128, dist: SecretDistribution) -> (r: Result<
    (PublicKey, SecretKey),
    KeyGenError,
>)
    requires
        2 <= q <= MAX_MUL_MODULUS,
        1 <= t < q,
    ensures
        match r {
            Ok(keys) => {
                &&& keys.0.wf()
                &&& keys.1.wf()
                &&& keys.0.modulus == q
                &&& keys.1.modulus == q
                &&& keys.0.a@.len() == n
                &&& keys.0.b@.len() == n
                &&& keys.1.s@.len() == n
                &&& forall|i: int| 0 <= i < n
                    ==> in_distribution(dist, keys.1.s@[i], q as int)
                &&& exists|e: Seq<int>|
                    {
                        &&& e.len() == n
                        &&& forall|i: int| 0 <= i < n ==> in_distribution(dist, e[i], q as int)
                        &&& keys.0.b@ == add_spec(
                            neg_spec(mul_spec(keys.0.a@, keys.1.s@, q as int), q as int),
                            #[trigger] scale_spec(t as int, e, q as int),
                            q as int,
                        )
                    }
            },
            Err(e) => e == KeyGenError::RandomnessError,
        },
{
    // Secret key: small coefficients.
    let mut s_coeffs: Vec<u128> = Vec::new();
    let mut i: usize = 0;
    while i < n
        invariant
            i <= n,
            2 <= q,
            s_coeffs@.len() == i,
            forall|k: int| 0 <= k < i
                ==> s_coeffs@[k] < q && in_distribution(dist, s_coeffs@[k] as int, q as int),
        decreases n - i,
    {
        let v = match sample_small(dist, q) {
            Ok(v) => v,
            Err(e) => {
                return Err(e);
            },
        };
        s_coeffs.push(v);
        i += 1;
    }
    let s = Polynomial { coefficients: s_coeffs, modulus: q };

    // a: uniform over the ring.
    let mut a_coeffs: Vec<u128> = Vec::new();
    let mut i: usize = 0;
    while i < n
        invariant
            i <= n,
            2 <= q,
            a_coeffs@.len() == i,
            forall|k: int| 0 <= k < i ==> a_coeffs@[k] < q,
        decreases n - i,
    {
        let v = match sample_uniform(q) {
            Ok(v) => v,
            Err(e) => {
                return Err(e);
            },
        };
        a_coeffs.push(v);
        i += 1;
    }
    let a = Polynomial { coefficients: a_coeffs, modulus: q };

    // e: small error.
    let mut e_coeffs: Vec<u128> = Vec::new();
    let mut i: usize = 0;
    while i < n
        invariant
            i <= n,
            2 <= q,
            e_coeffs@.len() == i,
            forall|k: int| 0 <= k < i
                ==> e_coeffs@[k] < q && in_distribution(dist, e_coeffs@[k] as int, q as int),
        decreases n - i,
    {
        let v = match sample_small(dist, q) {
            Ok(v) => v,
            Err(e) => {
                return Err(e);
            },
        };
        e_coeffs.push(v);
        i += 1;
    }
    let e = Polynomial { coefficients: e_coeffs, modulus: q };

    // b = -a*s + t*e, built as ((q - a*s) mod q) + ((t*e) mod q), coefficient
    // by coefficient, then a ring addition.
    proof {
        assert(a.wf());
        assert(s.wf());
        assert(a@.len() == n);
        assert(s@.len() == n);
    }
    let a_s = a.mul_same_degree(&s);
    proof {
        assert(a_s@.len() == n);
        assert(a_s.coefficients@.len() == n);
    }
    let mut neg_coeffs: Vec<u128> = Vec::new();
    let mut i: usize = 0;
    while i < n
        invariant
            i <= n,
            2 <= q,
            n == a_s.coefficients@.len(),
            a_s.modulus == q,
            a_s.wf(),
            neg_coeffs@.len() == i,
            forall|k: int| 0 <= k < i
                ==> neg_coeffs@[k] < q && neg_coeffs@[k] as int == (q - a_s@[k]) % q as int,
        decreases n - i,
    {
        let c = a_s.coefficients[i];
        proof {
            assert(a_s@[i as int] < q);
            if c == 0 {
                lemma_mod_division_less_than_divisor(q as int, q as int);
                assert((q as int) % (q as int) == 0) by {
                    vstd::arithmetic::div_mod::lemma_mod_self_0(q as int);
                }
            } else {
                lemma_small_mod((q - c) as nat, q as nat);
            }
        }
        let nc = if c == 0 {
            0
        } else {
            q - c
        };
        neg_coeffs.push(nc);
        i += 1;
    }
    let neg_a_s = Polynomial { coefficients: neg_coeffs, modulus: q };
    proof {
        assert(neg_a_s@ =~= neg_spec(a_s@, q as int));
    }

    let mut te_coeffs: Vec<u128> = Vec::new();
    let mut i: usize = 0;
    while i < n
        invariant
            i <= n,
            2 <= q <= MAX_MUL_MODULUS,
            1 <= t < q,
            n == e.coefficients@.len(),
            e.modulus == q,
            e.wf(),
            te_coeffs@.len() == i,
            forall|k: int| 0 <= k < i
                ==> te_coeffs@[k] < q && te_coeffs@[k] as int == (e@[k] * t) % q as int,
        decreases n - i,
    {
        let c = e.coefficients[i];
        proof {
            assert(e@[i as int] < q);
            lemma_mul_upper_bound(c as int, q as int - 1, t as int, q as int - 1);
            lemma_mul_upper_bound(
                q as int - 1,
                MAX_MUL_MODULUS as int - 1,
                q as int - 1,
                MAX_MUL_MODULUS as int - 1,
            );
            vstd::arithmetic::mul::lemma_mul_nonnegative(c as int, t as int);
            lemma_mod_division_less_than_divisor(c as int * t as int, q as int);
        }
        let tc = (c * t) % q;
        te_coeffs.push(tc);
        i += 1;
    }
    let te = Polynomial { coefficients: te_coeffs, modulus: q };
    proof {
        assert(te@ =~= scale_spec(t as int, e@, q as int));
    }

    let b = neg_a_s.add(&te);
    proof {
        assert(b@ == add_spec(
            neg_spec(mul_spec(a@, s@, q as int), q as int),
            scale_spec(t as int, e@, q as int),
            q as int,
        ));
    }
    Ok((PublicKey { a, b, modulus: q }, SecretKey { s, modulus: q }))
}

/// Generates a key pair with the baseline `{0, 1}` sampling set for the
/// secret and error coefficients.
pub fn generate_keys(n: usize, q: u128, t: u128) -> (r: Result<
    (PublicKey, SecretKey),
    KeyGenError,
>)
    requires
        2 <= q <= MAX_MUL_MODULUS,
        1 <= t < q,
    ensures
        match r {
            Ok(keys) => {
                &&& keys.0.wf()
                &&& keys.1.wf()
                &&& keys.0.modulus == q
                &&& keys.1.modulus == q
                &&& keys.0.a@.len() == n
                &&& keys.0.b@.len() == n
                &&& keys.1.s@.len() == n
                &&& forall|i: int| 0 <= i < n
                    ==> keys.1.s@[i] == 0 || keys.1.s@[i] == 1
                &&& exists|e: Seq<int>|
                    {
                        &&& e.len() == n
                        &&& forall|i: int| 0 <= i < n ==> e[i] == 0 || e[i] == 1
                        &&& keys.0.b@ == add_spec(
                            neg_spec(mul_spec(keys.0.a@, keys.1.s@, q as int), q as int),
                            #[trigger] scale_spec(t as int, e, q as int),
                            q as int,
                        )
                    }
            },
            Err(e) => e == KeyGenError::RandomnessError,
        },
{
    let r = generate_keys_with(n, q, t, SecretDistribution::ZeroOne);
    proof {
        if r is Ok {
            let keys = r->Ok_0;
            let e = choose|e: Seq<int>|
                {
                    &&& e.len() == n
                    &&& forall|i: int| 0 <= i < n
                        ==> in_distribution(SecretDistribution::ZeroOne, e[i], q as int)
                    &&& keys.0.b@ == add_spec(
                        neg_spec(mul_spec(keys.0.a@, keys.1.s@, q as int), q as int),
                        #[trigger] scale_spec(t as int, e, q as int),
                        q as int,
                    )
                };
            assert(keys.0.b@ == add_spec(
                neg_spec(mul_spec(keys.0.a@, keys.1.s@, q as int), q as int),
                scale_spec(t as int, e, q as int),
                q as int,
            ));
        }
    }
    r
}

} // verus!
