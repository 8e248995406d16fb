//! Elements of the polynomial ring `Z_q[x]/(x^n - 1)`: an ordered sequence of
//! coefficients, each kept in its canonical range `[0, q)` for a positive
//! coefficient modulus `q`.

use vstd::prelude::*;

verus! {

use vstd::arithmetic::div_mod::{
    lemma_small_mod, lemma_add_mod_noop_right, lemma_mod_add_multiples_vanish,
    lemma_mod_division_less_than_divisor,
};
use vstd::arithmetic::mul::lemma_mul_upper_bound;

/// The largest coefficient modulus for which multiplication cannot overflow:
/// with `q` at most `2^64`, an accumulated `c + a * b` with `c < q` and
/// `a, b < q` stays below `2^128`.
pub const MAX_MUL_MODULUS: u128 = 0x1_0000_0000_0000_0000;

/// Errors the ring operations can report.
#[derive(Debug, Clone, Copy, PartialEq, Eq)]
pub enum PolyError {
    /// A coefficient does not fit the target output integer width.
    RangeError,
    /// Multiplication was invoked on ring elements of unequal degree.
    LengthMismatchError,
}

/// A polynomial over `Z_q`, one coefficient per power of `x`, each coefficient
/// stored as its canonical representative in `[0, q)`.
#[derive(Debug, Clone, PartialEq, Eq)]
pub struct Polynomial {
    pub coefficients: Vec<u128>,
    pub modulus: u128,
}

/// The coefficient of `s` at index `i`, with indices past the end reading as
/// zero: arithmetic between polynomials of different lengths pads the shorter
/// one with zero coefficients.
pub open spec fn at_or_zero(s: Seq<int>, i: int) -> int {
    if 0 <= i < s.len() {
        s[i]
    } else {
        0
    }
}

/// Coefficient-wise sum of two polynomials over `Z_q`, the shorter operand
/// padded with zeros: `result[i] = (a[i] + b[i]) % q`.
pub open spec fn add_spec(a: Seq<int>, b: Seq<int>, q: int) -> Seq<int> {
    Seq::new(
        if a.len() >= b.len() {
            a.len()
        } else {
            b.len()
        },
        |i: int| (at_or_zero(a, i) + at_or_zero(b, i)) % q,
    )
}

/// Coefficient-wise difference over `Z_q`, the shorter operand padded with
/// zeros; the modulus is added before subtracting so that the canonical
/// representative never goes negative: `result[i] = (a[i] + q - b[i]) % q`.
pub open spec fn sub_spec(a: Seq<int>, b: Seq<int>, q: int) -> Seq<int> {
    Seq::new(
        if a.len() >= b.len() {
            a.len()
        } else {
            b.len()
        },
        |i: int| (at_or_zero(a, i) + q - at_or_zero(b, i)) % q,
    )
}

/// The first `m` terms of the cyclic-convolution sum for output index `k`
/// in a ring of degree `n`: each `a[i]` multiplies the unique `b[j]` with
/// `(i + j) % n == k`, namely `b[(k - i) % n]`.
pub open spec fn conv_prefix(a: Seq<int>, b: Seq<int>, n: int, k: int, m: int) -> int
    decreases m,
{
    if m <= 0 {
        0
    } else {
        conv_prefix(a, b, n, k, m - 1) + a[m - 1] * b[(k - (m - 1)) % n]
    }
}

/// The full cyclic-convolution sum for output index `k`:
/// the sum of `a[i] * b[j]` over all pairs with `(i + j) % n == k`.
pub open spec fn conv(a: Seq<int>, b: Seq<int>, n: int, k: int) -> int {
    conv_prefix(a, b, n, k, n)
}

/// Multiplication in `Z_q[x]/(x^n - 1)`: cyclic convolution, each output
/// coefficient reduced modulo `q`. Meaningful when `a.len() == b.len()`.
pub open spec fn mul_spec(a: Seq<int>, b: Seq<int>, q: int) -> Seq<int> {
    Seq::new(a.len(), |k: int| conv(a, b, a.len() as int, k) % q)
}

/// Coefficient-wise reduction modulo `q`: the encoding of a sequence of
/// integers as a ring element.
pub open spec fn encode_spec(d: Seq<int>, q: int) -> Seq<int> {
    Seq::new(d.len(), |i: int| d[i] % q)
}

/// Coefficient-wise negation over `Z_q`: `result[i] = (q - s[i]) % q`.
pub open spec fn neg_spec(s: Seq<int>, q: int) -> Seq<int> {
    Seq::new(s.len(), |i: int| (q - s[i]) % q)
}

/// Coefficient-wise scaling by `t` over `Z_q`: `result[i] = (s[i] * t) % q`.
pub open spec fn scale_spec(t: int, s: Seq<int>, q: int) -> Seq<int> {
    Seq::new(s.len(), |i: int| (s[i] * t) % q)
}

/// `((s % q) + p) % q == (s + p) % q`: reducing a running sum at every step
/// leaves the same residue as reducing once at the end.
proof fn lemma_mod_acc(s: int, p: int, q: int)
    requires
        q >= 1,
    ensures
        ((s % q) + p) % q == (s + p) % q,
{
    lemma_add_mod_noop_right(p, s, q);
}

/// For operands already reduced below `q`, their sum reduces to itself or to
/// itself less `q`.
proof fn lemma_sum_two_reduced(a: int, b: int, q: int)
    requires
        q >= 1,
        0 <= a < q,
        0 <= b < q,
    ensures
        (a + b) % q == if a + b < q {
            a + b
        } else {
            a + b - q
        },
{
    if a + b < q {
        lemma_small_mod((a + b) as nat, q as nat);
    } else {
        lemma_mod_add_multiples_vanish(a + b - q, q);
        lemma_small_mod((a + b - q) as nat, q as nat);
    }
}

impl Polynomial {
    /// The mathematical value of the polynomial: its coefficients as integers.
    pub open spec fn view(&self) -> Seq<int> {
        Seq::new(self.coefficients@.len(), |i: int| self.coefficients@[i] as int)
    }

    /// Well-formedness: a positive modulus, every coefficient canonical.
    pub open spec fn wf(&self) -> bool {
        &&& self.modulus >= 1
        &&& forall|i: int| 0 <= i < self@.len() ==> self@[i] < self.modulus
    }

    /// Creates a polynomial from the given coefficients, reducing each one
    /// into the canonical range `[0, q)`.
    pub fn new(coefficients: Vec<u128>, modulus: u128) -> (r: Polynomial)
        requires
            modulus >= 1,
        ensures
            r.wf(),
            r.modulus == modulus,
            r@.len() == coefficients@.len(),
            forall|i: int| 0 <= i < r@.len() ==> r@[i] == coefficients@[i] as int % modulus as int,
    {
        let mut poly = Polynomial { coefficients, modulus };
        poly.reduce();
        poly
    }

    /// Reduces every coefficient modulo the modulus, in place.
    pub fn reduce(&mut self)
        requires
            old(self).modulus >= 1,
        ensures
            final(self).wf(),
            final(self).modulus == old(self).modulus,
            final(self)@.len() == old(self)@.len(),
            forall|i: int| 0 <= i < final(self)@.len()
                ==> final(self)@[i] == old(self)@[i] % old(self).modulus as int,
    {
        let q = self.modulus;
        let n = self.coefficients.len();
        let mut i: usize = 0;
        while i < n
            invariant
                n == self.coefficients@.len(),
                n == old(self).coefficients@.len(),
                i <= n,
                q == self.modulus,
                q >= 1,
                forall|k: int| 0 <= k < i
                    ==> self.coefficients@[k] == old(self).coefficients@[k] % q,
                forall|k: int| i <= k < n ==> self.coefficients@[k] == old(self).coefficients@[k],
            decreases n - i,
        {
            let c = self.coefficients[i];
            self.coefficients.set(i, c % q);
            i += 1;
        }
        proof {
            assert forall|k: int| 0 <= k < self@.len() implies self@[k] < self.modulus by {
                vstd::arithmetic::div_mod::lemma_mod_division_less_than_divisor(
                    old(self)@[k],
                    q as int,
                );
            }
        }
    }

    /// Creates the all-zero polynomial of the given degree: the additive
    /// identity of the ring.
    pub fn zero(degree: usize, modulus: u128) -> (r: Polynomial)
        requires
            modulus >= 1,
        ensures
            r.wf(),
            r.modulus == modulus,
            r@.len() == degree,
            forall|i: int| 0 <= i < r@.len() ==> r@[i] == 0,
    {
        let mut coefficients: Vec<u128> = Vec::new();
        let mut i: usize = 0;
        while i < degree
            invariant
                i <= degree,
                coefficients@.len() == i,
                forall|k: int| 0 <= k < i ==> coefficients@[k] == 0,
            decreases degree - i,
        {
            coefficients.push(0);
            i += 1;
        }
        Polynomial { coefficients, modulus }
    }

    /// Creates a polynomial of the given degree with every coefficient drawn
    /// uniformly from `[0, q)`. Each call draws fresh randomness; nothing
    /// beyond canonicity is promised of the values.
    pub fn random(degree: usize, modulus: u128) -> (r: Polynomial)
        requires
            modulus >= 1,
        ensures
            r.wf(),
            r.modulus == modulus,
            r@.len() == degree,
    {
        let mut coefficients: Vec<u128> = Vec::new();
        let mut i: usize = 0;
        while i < degree
            invariant
                i <= degree,
                modulus >= 1,
                coefficients@.len() == i,
                forall|k: int| 0 <= k < i ==> coefficients@[k] < modulus,
            decreases degree - i,
        {
            coefficients.push(crate::rng::random_below(modulus));
            i += 1;
        }
        Polynomial { coefficients, modulus }
    }

    /// Encodes a sequence of integers as a ring element, one coefficient per
    /// input, each reduced modulo `q`.
    pub fn encode(data: &[u64], modulus: u128) -> (r: Polynomial)
        requires
            modulus >= 1,
        ensures
            r.wf(),
            r.modulus == modulus,
            r@ == encode_spec(Seq::new(data@.len(), |i: int| data@[i] as int), modulus as int),
            r@.len() == data@.len(),
            forall|i: int| 0 <= i < r@.len() ==> r@[i] == data@[i] as int % modulus as int,
    {
        let mut coefficients: Vec<u128> = Vec::new();
        let len = data.len();
        let mut i: usize = 0;
        while i < len
            invariant
                i <= len,
                len == data@.len(),
                modulus >= 1,
                coefficients@.len() == i,
                forall|k: int| 0 <= k < i
                    ==> coefficients@[k] < modulus && coefficients@[k] as int == data@[k] as int
                        % modulus as int,
            decreases len - i,
        {
            let c = (data[i] as u128) % modulus;
            proof {
                lemma_mod_division_less_than_divisor(data@[i as int] as int, modulus as int);
            }
            coefficients.push(c);
            i += 1;
        }
        let r = Polynomial { coefficients, modulus };
        proof {
            assert(r@ =~= encode_spec(
                Seq::new(data@.len(), |i: int| data@[i] as int),
                modulus as int,
            ));
        }
        r
    }

    /// Creates a polynomial from machine integers, reducing each modulo `q`;
    /// the same encoding `encode` performs.
    pub fn from_u64(coeffs: &[u64], modulus: u128) -> (r: Polynomial)
        requires
            modulus >= 1,
        ensures
            r.wf(),
            r.modulus == modulus,
            r@.len() == coeffs@.len(),
            forall|i: int| 0 <= i < r@.len() ==> r@[i] == coeffs@[i] as int % modulus as int,
    {
        Polynomial::encode(coeffs, modulus)
    }

    /// Decodes the polynomial back into machine integers. Fails with a range
    /// error as soon as a coefficient does not fit the output width; it
    /// never silently truncates.
    pub fn decode(&self) -> (r: Result<Vec<u64>, PolyError>)
        ensures
            match r {
                Ok(v) => {
                    &&& v@.len() == self@.len()
                    &&& forall|i: int| 0 <= i < v@.len() ==> v@[i] as int == self@[i]
                    &&& forall|i: int| 0 <= i < self@.len() ==> self@[i] <= u64::MAX
                },
                Err(e) => {
                    &&& e == PolyError::RangeError
                    &&& exists|i: int| 0 <= i < self@.len() && self@[i] > u64::MAX
                },
            },
    {
        let mut out: Vec<u64> = Vec::new();
        let len = self.coefficients.len();
        let mut i: usize = 0;
        while i < len
            invariant
                i <= len,
                len == self.coefficients@.len(),
                out@.len() == i,
                forall|k: int| 0 <= k < i ==> self@[k] <= u64::MAX && out@[k] as int == self@[k],
            decreases len - i,
        {
            let c = self.coefficients[i];
            if c > u64::MAX as u128 {
                proof {
                    assert(self@[i as int] > u64::MAX);
                }
                return Err(PolyError::RangeError);
            }
            out.push(c as u64);
            i += 1;
        }
        Ok(out)
    }

    /// Stores an already-scaled fixed-point magnitude as a single-coefficient
    /// polynomial, reduced modulo `q`. The scaling by a power of ten, and
    /// the discarding of the sign, are the caller's: only the magnitude
    /// reaches the ring.
    pub fn encode_scaled(scaled: u64, modulus: u128) -> (r: Polynomial)
        requires
            modulus >= 1,
        ensures
            r.wf(),
            r.modulus == modulus,
            r@.len() == 1,
            r@[0] == scaled as int % modulus as int,
    {
        proof {
            lemma_mod_division_less_than_divisor(scaled as int, modulus as int);
        }
        let mut coefficients: Vec<u128> = Vec::new();
        coefficients.push((scaled as u128) % modulus);
        Polynomial { coefficients, modulus }
    }

    /// Recovers the scaled fixed-point magnitude: the leading coefficient,
    /// or zero for an empty polynomial. Fails with a range error when the
    /// coefficient does not fit the output width.
    pub fn decode_scaled(&self) -> (r: Result<u64, PolyError>)
        ensures
            match r {
                Ok(v) => (self@.len() == 0 && v == 0) || (self@.len() > 0 && self@[0] <= u64::MAX
                    && v as int == self@[0]),
                Err(e) => {
                    &&& e == PolyError::RangeError
                    &&& self@.len() > 0
                    &&& self@[0] > u64::MAX
                },
            },
    {
        if self.coefficients.len() == 0 {
            return Ok(0);
        }
        let c = self.coefficients[0];
        if c > u64::MAX as u128 {
            return Err(PolyError::RangeError);
        }
        Ok(c as u64)
    }

    /// The number of coefficients, the fixed degree of the ring element.
    pub fn degree(&self) -> (r: usize)
        ensures
            r == self@.len(),
    {
        self.coefficients.len()
    }

    /// Coefficient-wise addition modulo the shared modulus; the shorter
    /// operand is padded with zero coefficients.
    pub fn add(&self, rhs: &Polynomial) -> (r: Polynomial)
        requires
            self.wf(),
            rhs.wf(),
            self.modulus == rhs.modulus,
        ensures
            r.wf(),
            r.modulus == self.modulus,
            r@ == add_spec(self@, rhs@, self.modulus as int),
    {
        let q = self.modulus;
        let la = self.coefficients.len();
        let lb = rhs.coefficients.len();
        let len = if la >= lb {
            la
        } else {
            lb
        };
        let mut out: Vec<u128> = Vec::new();
        let mut i: usize = 0;
        while i < len
            invariant
                i <= len,
                la == self.coefficients@.len(),
                lb == rhs.coefficients@.len(),
                len == if la >= lb { la as int } else { lb as int },
                q == self.modulus,
                q == rhs.modulus,
                self.wf(),
                rhs.wf(),
                out@.len() == i,
                forall|k: int| 0 <= k < i
                    ==> out@[k] < q && out@[k] as int == (at_or_zero(self@, k) + at_or_zero(
                        rhs@,
                        k,
                    )) % q as int,
            decreases len - i,
        {
            let a = if i < la {
                self.coefficients[i]
            } else {
                0
            };
            let b = if i < lb {
                rhs.coefficients[i]
            } else {
                0
            };
            proof {
                assert(a as int == at_or_zero(self@, i as int));
                assert(b as int == at_or_zero(rhs@, i as int));
                if i < la {
                    assert(self@[i as int] < self.modulus);
                }
                if i < lb {
                    assert(rhs@[i as int] < rhs.modulus);
                }
                assert(a < q && b < q);
            }
            let c = if a >= q - b {
                a - (q - b)
            } else {
                a + b
            };
            proof {
                lemma_sum_two_reduced(a as int, b as int, q as int);
            }
            out.push(c);
            i += 1;
        }
        let r = Polynomial { coefficients: out, modulus: q };
        proof {
            assert(r@ =~= add_spec(self@, rhs@, q as int));
        }
        r
    }

    /// Coefficient-wise subtraction modulo the shared modulus; the modulus is
    /// added before subtracting so that no intermediate value goes below
    /// zero, and the shorter operand is padded with zero coefficients.
    pub fn sub(&self, rhs: &Polynomial) -> (r: Polynomial)
        requires
            self.wf(),
            rhs.wf(),
            self.modulus == rhs.modulus,
        ensures
            r.wf(),
            r.modulus == self.modulus,
            r@ == sub_spec(self@, rhs@, self.modulus as int),
    {
        let q = self.modulus;
        let la = self.coefficients.len();
        let lb = rhs.coefficients.len();
        let len = if la >= lb {
            la
        } else {
            lb
        };
        let mut out: Vec<u128> = Vec::new();
        let mut i: usize = 0;
        while i < len
            invariant
                i <= len,
                la == self.coefficients@.len(),
                lb == rhs.coefficients@.len(),
                len == if la >= lb { la as int } else { lb as int },
                q == self.modulus,
                q == rhs.modulus,
                self.wf(),
                rhs.wf(),
                out@.len() == i,
                forall|k: int| 0 <= k < i
                    ==> out@[k] < q && out@[k] as int == (at_or_zero(self@, k) + q - at_or_zero(
                        rhs@,
                        k,
                    )) % q as int,
            decreases len - i,
        {
            let a = if i < la {
                self.coefficients[i]
            } else {
                0
            };
            let b = if i < lb {
                rhs.coefficients[i]
            } else {
                0
            };
            proof {
                assert(a as int == at_or_zero(self@, i as int));
                assert(b as int == at_or_zero(rhs@, i as int));
                if i < la {
                    assert(self@[i as int] < self.modulus);
                }
                if i < lb {
                    assert(rhs@[i as int] < rhs.modulus);
                }
                assert(a < q && b < q);
            }
            let c = if a >= b {
                a - b
            } else {
                a + (q - b)
            };
            proof {
                if a >= b {
                    lemma_mod_add_multiples_vanish(a - b, q as int);
                    lemma_small_mod((a - b) as nat, q as nat);
                } else {
                    lemma_small_mod((a + q - b) as nat, q as nat);
                }
            }
            out.push(c);
            i += 1;
        }
        let r = Polynomial { coefficients: out, modulus: q };
        proof {
            assert(r@ =~= sub_spec(self@, rhs@, q as int));
        }
        r
    }

    /// Multiplication in `Z_q[x]/(x^n - 1)`: cyclic convolution with the
    /// wraparound index `(i + j) % n` and every output coefficient reduced
    /// modulo `q`. Fails with a length-mismatch error when the operands have
    /// unequal degree; no padding, no truncation.
    pub fn mul(&self, rhs: &Polynomial) -> (r: Result<Polynomial, PolyError>)
        requires
            self.wf(),
            rhs.wf(),
            self.modulus == rhs.modulus,
            self.modulus <= MAX_MUL_MODULUS,
        ensures
            match r {
                Ok(p) => {
                    &&& self@.len() == rhs@.len()
                    &&& p.wf()
                    &&& p.modulus == self.modulus
                    &&& p@ == mul_spec(self@, rhs@, self.modulus as int)
                },
                Err(e) => self@.len() != rhs@.len() && e == PolyError::LengthMismatchError,
            },
    {
        if self.coefficients.len() != rhs.coefficients.len() {
            return Err(PolyError::LengthMismatchError);
        }
        Ok(self.mul_same_degree(rhs))
    }

    /// The convolution itself, for operands already known to share a degree.
    pub(crate) fn mul_same_degree(&self, rhs: &Polynomial) -> (r: Polynomial)
        requires
            self.wf(),
            rhs.wf(),
            self.modulus == rhs.modulus,
            self.modulus <= MAX_MUL_MODULUS,
            self@.len() == rhs@.len(),
        ensures
            r.wf(),
            r.modulus == self.modulus,
            r@ == mul_spec(self@, rhs@, self.modulus as int),
    {
        let q = self.modulus;
        let n = self.coefficients.len();
        let mut out: Vec<u128> = Vec::new();
        let mut k: usize = 0;
        while k < n
            invariant
                k <= n,
                n == self.coefficients@.len(),
                n == rhs.coefficients@.len(),
                q == self.modulus,
                q == rhs.modulus,
                q <= MAX_MUL_MODULUS,
                self.wf(),
                rhs.wf(),
                out@.len() == k,
                forall|kk: int| 0 <= kk < k
                    ==> out@[kk] < q && out@[kk] as int == conv(self@, rhs@, n as int, kk)
                        % q as int,
            decreases n - k,
        {
            let mut acc: u128 = 0;
            let mut i: usize = 0;
            proof {
                assert(conv_prefix(self@, rhs@, n as int, k as int, 0) == 0);
                lemma_small_mod(0, q as nat);
            }
            while i < n
                invariant
                    i <= n,
                    k < n,
                    n == self.coefficients@.len(),
                    n == rhs.coefficients@.len(),
                    q == self.modulus,
                    q == rhs.modulus,
                    q <= MAX_MUL_MODULUS,
                    self.wf(),
                    rhs.wf(),
                    acc < q,
                    acc as int == conv_prefix(self@, rhs@, n as int, k as int, i as int)
                        % q as int,
                decreases n - i,
            {
                let j = if i <= k {
                    k - i
                } else {
                    n - (i - k)
                };
                proof {
                    if i <= k {
                        lemma_small_mod((k - i) as nat, n as nat);
                    } else {
                        lemma_mod_add_multiples_vanish(k as int - i as int, n as int);
                        lemma_small_mod((n - (i - k)) as nat, n as nat);
                    }
                    assert(j as int == (k as int - i as int) % n as int);
                    assert(self@[i as int] < q);
                    assert(rhs@[j as int] < q);
                    lemma_mul_upper_bound(
                        self@[i as int],
                        q as int - 1,
                        rhs@[j as int],
                        q as int - 1,
                    );
                    lemma_mul_upper_bound(q as int - 1, MAX_MUL_MODULUS as int - 1, q as int - 1,
                        MAX_MUL_MODULUS as int - 1);
                }
                let prod = self.coefficients[i] * rhs.coefficients[j];
                proof {
                    lemma_mod_acc(
                        conv_prefix(self@, rhs@, n as int, k as int, i as int),
                        prod as int,
                        q as int,
                    );
                    lemma_mod_division_less_than_divisor(acc as int + prod as int, q as int);
                    assert(conv_prefix(self@, rhs@, n as int, k as int, i as int + 1)
                        == conv_prefix(self@, rhs@, n as int, k as int, i as int)
                            + self@[i as int] * rhs@[(k as int - i as int) % n as int]);
                }
                acc = (acc + prod) % q;
                i += 1;
            }
            out.push(acc);
            k += 1;
        }
        let r = Polynomial { coefficients: out, modulus: q };
        proof {
            assert(r@ =~= mul_spec(self@, rhs@, q as int));
        }
        r
    }
}

} // verus!
