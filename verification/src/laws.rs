//! Algebraic laws of the ring operations: commutativity and associativity
//! of addition, the all-zero polynomial as additive identity, commutativity
//! of the cyclic convolution, and exactness of the integer codecs.

use vstd::prelude::*;

verus! {

use crate::poly::{add_spec, mul_spec, neg_spec, conv, conv_prefix, at_or_zero, encode_spec};
use crate::decrypt::{decrypt_spec, PLAINTEXT_MODULUS};
use vstd::arithmetic::div_mod::{
    lemma_small_mod, lemma_add_mod_noop, lemma_add_mod_noop_right, lemma_sub_mod_noop,
    lemma_mod_bound, lemma_mod_twice, lemma_mod_self_0, lemma_mul_mod_noop_left,
};
use vstd::arithmetic::mul::lemma_mul_is_distributive_add_other_way;

/// `f(0) + f(1) + ... + f(n-1)`.
spec fn sum_upto(n: int, f: spec_fn(int) -> int) -> int
    decreases n,
{
    if n <= 0 {
        0
    } else {
        sum_upto(n - 1, f) + f(n - 1)
    }
}

/// A sum of zeros is zero.
proof fn lemma_sum_zero(n: int, f: spec_fn(int) -> int)
    requires
        forall|i: int| 0 <= i < n ==> #[trigger] f(i) == 0,
    ensures
        sum_upto(n, f) == 0,
    decreases n,
{
    if n > 0 {
        lemma_sum_zero(n - 1, f);
    }
}

/// Sums of pointwise-equal terms are equal.
proof fn lemma_sum_ext(n: int, f: spec_fn(int) -> int, g: spec_fn(int) -> int)
    requires
        forall|i: int| 0 <= i < n ==> #[trigger] f(i) == g(i),
    ensures
        sum_upto(n, f) == sum_upto(n, g),
    decreases n,
{
    if n > 0 {
        lemma_sum_ext(n - 1, f, g);
    }
}

/// A sum of pointwise sums splits into two sums.
proof fn lemma_sum_add(n: int, f: spec_fn(int) -> int, g: spec_fn(int) -> int, h: spec_fn(
    int,
) -> int)
    requires
        forall|i: int| 0 <= i < n ==> #[trigger] h(i) == f(i) + g(i),
    ensures
        sum_upto(n, h) == sum_upto(n, f) + sum_upto(n, g),
    decreases n,
{
    if n > 0 {
        lemma_sum_add(n - 1, f, g, h);
    }
}

/// A sum whose terms vanish everywhere but at one index collapses to the
/// term at that index.
proof fn lemma_sum_indicator(n: int, f: spec_fn(int) -> int, j0: int)
    requires
        0 <= j0 < n,
        forall|i: int| 0 <= i < n && i != j0 ==> #[trigger] f(i) == 0,
    ensures
        sum_upto(n, f) == f(j0),
    decreases n,
{
    if j0 == n - 1 {
        lemma_sum_zero(n - 1, f);
    } else {
        lemma_sum_indicator(n - 1, f, j0);
    }
}

/// One term of the symmetric form of the convolution sum: the product
/// `a[i] * b[j]` contributes to output index `k` exactly when
/// `(i + j) % n == k`.
spec fn conv_term(a: Seq<int>, b: Seq<int>, n: int, k: int, i: int, j: int) -> int {
    if (i + j) % n == k {
        a[i] * b[j]
    } else {
        0
    }
}

/// The prefix form of the convolution sum agrees with `sum_upto`.
proof fn lemma_conv_prefix_as_sum(a: Seq<int>, b: Seq<int>, n: int, k: int, m: int)
    ensures
        conv_prefix(a, b, n, k, m) == sum_upto(m, |i: int| a[i] * b[(k - i) % n]),
    decreases m,
{
    if m > 0 {
        lemma_conv_prefix_as_sum(a, b, n, k, m - 1);
    }
}

/// For `0 <= i < n` and `0 <= k < n`, the unique `j` in `[0, n)` with
/// `(i + j) % n == k` is `(k - i) % n`.
proof fn lemma_unique_partner(n: int, k: int, i: int)
    requires
        0 <= k < n,
        0 <= i < n,
    ensures
        0 <= (k - i) % n < n,
        (i + (k - i) % n) % n == k,
        forall|j: int| 0 <= j < n && #[trigger] ((i + j) % n) == k ==> j == (k - i) % n,
{
    lemma_mod_bound(k - i, n);
    lemma_add_mod_noop_right(i, k - i, n);
    lemma_small_mod(k as nat, n as nat);
    assert forall|j: int| 0 <= j < n && #[trigger] ((i + j) % n) == k implies j == (k - i)
        % n by {
        lemma_sub_mod_noop(i + j, i, n);
        lemma_small_mod(i as nat, n as nat);
        lemma_small_mod(j as nat, n as nat);
        assert(((i + j) % n - i % n) % n == j % n);
    }
}

/// The double convolution sum over all index pairs can be summed row-first
/// or column-first.
proof fn lemma_conv_sum_swap(a: Seq<int>, b: Seq<int>, n: int, k: int, m: int)
    ensures
        sum_upto(m, |i: int| sum_upto(n, |j: int| conv_term(a, b, n, k, i, j))) == sum_upto(
            n,
            |j: int| sum_upto(m, |i: int| conv_term(a, b, n, k, i, j)),
        ),
    decreases m,
{
    if m <= 0 {
        lemma_sum_zero(n, |j: int| sum_upto(m, |i: int| conv_term(a, b, n, k, i, j)));
    } else {
        lemma_conv_sum_swap(a, b, n, k, m - 1);
        lemma_sum_add(
            n,
            |j: int| sum_upto(m - 1, |i: int| conv_term(a, b, n, k, i, j)),
            |j: int| conv_term(a, b, n, k, m - 1, j),
            |j: int| sum_upto(m, |i: int| conv_term(a, b, n, k, i, j)),
        );
    }
}

/// The convolution sum for one output index is symmetric in its operands.
proof fn lemma_conv_comm(a: Seq<int>, b: Seq<int>, n: int, k: int)
    requires
        a.len() == n,
        b.len() == n,
        0 <= k < n,
    ensures
        conv(a, b, n, k) == conv(b, a, n, k),
{
    lemma_conv_prefix_as_sum(a, b, n, k, n);
    lemma_conv_prefix_as_sum(b, a, n, k, n);
    // Expand each single-sum term into a sum over all partners, with only
    // the matching partner contributing.
    assert forall|i: int| 0 <= i < n implies (#[trigger] a[i]) * b[(k - i) % n] == sum_upto(
        n,
        |j: int| conv_term(a, b, n, k, i, j),
    ) by {
        lemma_unique_partner(n, k, i);
        lemma_sum_indicator(n, |j: int| conv_term(a, b, n, k, i, j), (k - i) % n);
    }
    lemma_sum_ext(
        n,
        |i: int| a[i] * b[(k - i) % n],
        |i: int| sum_upto(n, |j: int| conv_term(a, b, n, k, i, j)),
    );
    lemma_conv_sum_swap(a, b, n, k, n);
    // Collapse the swapped double sum back into the single sum for `b * a`.
    assert forall|j: int| 0 <= j < n implies sum_upto(
        n,
        |i: int| conv_term(a, b, n, k, i, j),
    ) == (#[trigger] b[j]) * a[(k - j) % n] by {
        lemma_unique_partner(n, k, j);
        assert forall|i: int| 0 <= i < n && i != (k - j) % n implies conv_term(
            a,
            b,
            n,
            k,
            i,
            j,
        ) == 0 by {
            if (i + j) % n == k {
                assert((j + i) % n == k);
            }
        }
        lemma_sum_indicator(n, |i: int| conv_term(a, b, n, k, i, j), (k - j) % n);
        assert((j + (k - j) % n) % n == k);
        assert(((k - j) % n + j) % n == k);
    }
    lemma_sum_ext(
        n,
        |j: int| sum_upto(n, |i: int| conv_term(a, b, n, k, i, j)),
        |j: int| b[j] * a[(k - j) % n],
    );
}

/// Multiplication in the ring is commutative: the cyclic-convolution index
/// `(i + j) % n` is symmetric in `i` and `j`.
pub proof fn lemma_mul_spec_comm(a: Seq<int>, b: Seq<int>, q: int)
    requires
        a.len() == b.len(),
    ensures
        mul_spec(a, b, q) == mul_spec(b, a, q),
{
    let n = a.len() as int;
    assert forall|k: int| 0 <= k < n implies #[trigger] conv(a, b, n, k) == conv(b, a, n, k) by {
        lemma_conv_comm(a, b, n, k);
    }
    assert(mul_spec(a, b, q) =~= mul_spec(b, a, q));
}

/// Addition in the ring is commutative.
pub proof fn lemma_add_spec_comm(a: Seq<int>, b: Seq<int>, q: int)
    ensures
        add_spec(a, b, q) == add_spec(b, a, q),
{
    assert(add_spec(a, b, q) =~= add_spec(b, a, q));
}

/// Addition in the ring is associative.
pub proof fn lemma_add_spec_assoc(a: Seq<int>, b: Seq<int>, c: Seq<int>, q: int)
    requires
        q >= 1,
    ensures
        add_spec(add_spec(a, b, q), c, q) == add_spec(a, add_spec(b, c, q), q),
{
    let lhs = add_spec(add_spec(a, b, q), c, q);
    let rhs = add_spec(a, add_spec(b, c, q), q);
    assert forall|i: int| 0 <= i < lhs.len() implies lhs[i] == rhs[i] by {
        let x = at_or_zero(a, i);
        let y = at_or_zero(b, i);
        let z = at_or_zero(c, i);
        lemma_small_mod(0nat, q as nat);
        assert(at_or_zero(add_spec(a, b, q), i) == (x + y) % q);
        assert(at_or_zero(add_spec(b, c, q), i) == (y + z) % q);
        lemma_add_mod_noop_right(z, x + y, q);
        lemma_add_mod_noop_right(x, y + z, q);
    }
    assert(lhs =~= rhs);
}

/// The all-zero polynomial is the additive identity: adding it to a
/// canonical ring element returns that element unchanged.
pub proof fn lemma_add_spec_zero(a: Seq<int>, z: Seq<int>, q: int)
    requires
        q >= 1,
        z.len() == a.len(),
        forall|i: int| 0 <= i < z.len() ==> z[i] == 0,
        forall|i: int| 0 <= i < a.len() ==> 0 <= #[trigger] a[i] < q,
    ensures
        add_spec(a, z, q) == a,
{
    assert forall|i: int| 0 <= i < a.len() implies add_spec(a, z, q)[i] == a[i] by {
        lemma_small_mod(a[i] as nat, q as nat);
    }
    assert(add_spec(a, z, q) =~= a);
}

/// Integer round trip: encoding under a modulus larger than every input
/// leaves the sequence unchanged, so decoding — which returns the
/// coefficients exactly whenever they fit the output width — recovers the
/// original integers.
pub proof fn lemma_encode_decode_round_trip(d: Seq<int>, q: int)
    requires
        q >= 1,
        forall|i: int| 0 <= i < d.len() ==> 0 <= #[trigger] d[i] < q,
    ensures
        encode_spec(d, q) == d,
{
    assert forall|i: int| 0 <= i < d.len() implies encode_spec(d, q)[i] == d[i] by {
        lemma_small_mod(d[i] as nat, q as nat);
    }
    assert(encode_spec(d, q) =~= d);
}

/// Fixed-point round trip, the integer heart of it: a scaled magnitude
/// below the modulus is stored unchanged by the single-coefficient
/// encoding, and fits the decoder's output width, so decoding recovers it
/// exactly. The tenfold scaling and the final division are the caller's
/// and lose at most the discarded sign and the rounding error.
pub proof fn lemma_scaled_round_trip(scaled: u64, q: u128)
    requires
        q >= 1,
        (scaled as u128) < q,
    ensures
        scaled as int % q as int == scaled as int,
        scaled as int <= u64::MAX as int,
{
    lemma_small_mod(scaled as nat, q as nat);
}

/// Whether `u` is the unit polynomial of the ring: the constant `1`.
pub open spec fn is_unit_poly(u: Seq<int>) -> bool {
    &&& u.len() >= 1
    &&& u[0] == 1
    &&& forall|i: int| 1 <= i < u.len() ==> u[i] == 0
}

/// Whether every coefficient of `s` is canonical for the modulus `q`.
pub open spec fn canonical(s: Seq<int>, q: int) -> bool {
    forall|i: int| 0 <= i < s.len() ==> 0 <= #[trigger] s[i] < q
}

/// The unit polynomial is a right identity of ring multiplication on
/// canonical elements.
pub proof fn lemma_mul_spec_unit(x: Seq<int>, u: Seq<int>, q: int)
    requires
        q >= 1,
        u.len() == x.len(),
        is_unit_poly(u),
        canonical(x, q),
    ensures
        mul_spec(x, u, q) == x,
{
    let n = x.len() as int;
    assert forall|k: int| 0 <= k < n implies mul_spec(x, u, q)[k] == x[k] by {
        lemma_conv_prefix_as_sum(x, u, n, k, n);
        lemma_unique_partner(n, k, k);
        // Only the term at `i == k` survives: its partner index is
        // `(k - k) % n == 0`, where `u` is one; everywhere else `u` is zero.
        lemma_small_mod(0nat, n as nat);
        assert((k + 0) % n == k);
        assert forall|i: int| 0 <= i < n && i != k implies #[trigger] (x[i] * u[(k - i) % n])
            == 0 by {
            lemma_mod_bound(k - i, n);
            if (k - i) % n == 0 {
                assert((i + (k - i) % n) % n == k ==> i % n == k);
                lemma_add_mod_noop_right(i, k - i, n);
                lemma_small_mod(k as nat, n as nat);
                lemma_small_mod(i as nat, n as nat);
            }
        }
        lemma_sum_indicator(n, |i: int| x[i] * u[(k - i) % n], k);
        assert(x[k] * u[(k - k) % n] == x[k]);
        lemma_small_mod(x[k] as nat, q as nat);
    }
    assert(mul_spec(x, u, q) =~= x);
}

/// Every coefficient a ring multiplication produces is canonical.
pub proof fn lemma_mul_spec_canonical(a: Seq<int>, b: Seq<int>, q: int)
    requires
        q >= 1,
    ensures
        canonical(mul_spec(a, b, q), q),
{
    assert forall|i: int| 0 <= i < mul_spec(a, b, q).len() implies 0 <= #[trigger] mul_spec(
        a,
        b,
        q,
    )[i] < q by {
        lemma_mod_bound(conv(a, b, a.len() as int, i), q);
    }
}

/// Convolving the coefficient-wise negation of `a` cancels convolving `a`:
/// the two sums add to a multiple of the modulus.
proof fn lemma_conv_prefix_neg(a: Seq<int>, na: Seq<int>, r: Seq<int>, n: int, k: int, m: int, q: int)
    requires
        q >= 1,
        m <= a.len(),
        na.len() == a.len(),
        forall|i: int| 0 <= i < a.len() ==> na[i] == (q - #[trigger] a[i]) % q,
    ensures
        (conv_prefix(na, r, n, k, m) + conv_prefix(a, r, n, k, m)) % q == 0,
    decreases m,
{
    if m <= 0 {
        lemma_small_mod(0nat, q as nat);
    } else {
        lemma_conv_prefix_neg(a, na, r, n, k, m - 1, q);
        let s = conv_prefix(na, r, n, k, m - 1);
        let t = conv_prefix(a, r, n, k, m - 1);
        let rj = r[(k - (m - 1)) % n];
        let x = na[m - 1] * rj;
        let y = a[m - 1] * rj;
        // x + y is a multiple of q: the factors add to (q - a) % q + a,
        // which reduces to zero.
        lemma_mul_is_distributive_add_other_way(rj, na[m - 1], a[m - 1]);
        assert(x + y == (na[m - 1] + a[m - 1]) * rj);
        lemma_add_mod_noop(q - a[m - 1], a[m - 1], q);
        lemma_mod_twice(a[m - 1], q);
        lemma_mod_self_0(q);
        assert((na[m - 1] + a[m - 1]) % q == 0) by {
            lemma_add_mod_noop((q - a[m - 1]) % q, a[m - 1], q);
            lemma_mod_twice(q - a[m - 1], q);
        }
        lemma_mul_mod_noop_left(na[m - 1] + a[m - 1], rj, q);
        assert((x + y) % q == (((na[m - 1] + a[m - 1]) % q) * rj) % q);
        assert((x + y) % q == 0) by {
            lemma_small_mod(0nat, q as nat);
        }
        lemma_add_mod_noop(s + t, x + y, q);
        lemma_small_mod(0nat, q as nat);
        assert((s + x + (t + y)) % q == ((s + t) % q + (x + y) % q) % q);
    }
}

/// Encrypt/decrypt correctness in its exactly decryptable case. For the
/// unit secret `s = 1` and a zero error polynomial — so `b = -(a*s) mod q`
/// — decrypting `(a*r + m, b*r)` recovers a binary plaintext `m` exactly,
/// whatever blinding element `r` the encryption drew: the mask `a*r`
/// cancels against `b*r*s` coefficient by coefficient. With other secrets
/// or a non-zero error the scheme's output carries noise and no such
/// identity holds.
pub proof fn lemma_decrypt_inverts_encrypt_unit_secret(
    m: Seq<int>,
    a: Seq<int>,
    r: Seq<int>,
    s: Seq<int>,
    q: int,
)
    requires
        q >= 2,
        m.len() == a.len(),
        r.len() == a.len(),
        s.len() == a.len(),
        is_unit_poly(s),
        canonical(a, q),
        forall|i: int| 0 <= i < m.len() ==> m[i] == 0 || #[trigger] m[i] == 1,
    ensures
        decrypt_spec(
            add_spec(mul_spec(a, r, q), m, q),
            mul_spec(neg_spec(mul_spec(a, s, q), q), r, q),
            s,
            q,
        ) == m,
{
    let n = a.len() as int;
    lemma_mul_spec_unit(a, s, q);
    let b = neg_spec(a, q);
    let p = mul_spec(a, r, q);
    let c0 = add_spec(p, m, q);
    let c1 = mul_spec(b, r, q);
    lemma_mul_spec_canonical(b, r, q);
    lemma_mul_spec_unit(c1, s, q);
    let inner = add_spec(c0, c1, q);
    assert forall|k: int| 0 <= k < n implies inner[k] == m[k] by {
        assert(b[k] == (q - a[k]) % q);
        lemma_conv_prefix_neg(a, b, r, n, k, n, q);
        // c1[k] + p[k] reduces to zero ...
        lemma_add_mod_noop(conv(b, r, n, k), conv(a, r, n, k), q);
        lemma_small_mod(0nat, q as nat);
        assert((c1[k] + p[k]) % q == 0);
        // ... so the mask drops out of the decrypted coefficient.
        assert(inner[k] == ((p[k] + m[k]) % q + c1[k]) % q);
        lemma_add_mod_noop_right(c1[k], p[k] + m[k], q);
        assert(inner[k] == (m[k] + (p[k] + c1[k])) % q);
        lemma_add_mod_noop_right(m[k], p[k] + c1[k], q);
        lemma_small_mod(m[k] as nat, q as nat);
        lemma_mod_twice(m[k], q);
        assert(inner[k] == (m[k] % q + (p[k] + c1[k]) % q) % q);
    }
    assert forall|k: int| 0 <= k < n implies decrypt_spec(c0, c1, s, q)[k] == m[k] by {
        lemma_small_mod(m[k] as nat, PLAINTEXT_MODULUS as nat);
    }
    assert(decrypt_spec(c0, c1, s, q) =~= m);
}

/// Every coefficient a ring addition produces is canonical.
pub proof fn lemma_add_spec_canonical(a: Seq<int>, b: Seq<int>, q: int)
    requires
        q >= 1,
    ensures
        canonical(add_spec(a, b, q), q),
{
    assert forall|i: int| 0 <= i < add_spec(a, b, q).len() implies 0 <= #[trigger] add_spec(
        a,
        b,
        q,
    )[i] < q by {
        lemma_mod_bound(at_or_zero(a, i) + at_or_zero(b, i), q);
    }
}

/// Homomorphic addition correctness in the same exactly decryptable case
/// as `lemma_decrypt_inverts_encrypt_unit_secret`: for the unit secret and
/// a zero error polynomial, decrypting the component-wise sum of two
/// encryptions of binary plaintexts yields the coefficient-wise
/// `(m1 + m2) mod t`, whatever blinding elements the two encryptions drew.
/// With other secrets or a non-zero error, noise enters the sum and no
/// such identity holds.
pub proof fn lemma_homomorphic_add_unit_secret(
    m1: Seq<int>,
    m2: Seq<int>,
    a: Seq<int>,
    r1: Seq<int>,
    r2: Seq<int>,
    s: Seq<int>,
    q: int,
)
    requires
        q >= 2,
        m1.len() == a.len(),
        m2.len() == a.len(),
        r1.len() == a.len(),
        r2.len() == a.len(),
        s.len() == a.len(),
        is_unit_poly(s),
        canonical(a, q),
        forall|i: int| 0 <= i < m1.len() ==> m1[i] == 0 || #[trigger] m1[i] == 1,
        forall|i: int| 0 <= i < m2.len() ==> m2[i] == 0 || #[trigger] m2[i] == 1,
    ensures
        ({
            let b = neg_spec(mul_spec(a, s, q), q);
            let first = add_spec(mul_spec(a, r1, q), m1, q);
            let second = add_spec(mul_spec(a, r2, q), m2, q);
            decrypt_spec(
                add_spec(first, second, q),
                add_spec(mul_spec(b, r1, q), mul_spec(b, r2, q), q),
                s,
                q,
            ) == Seq::new(m1.len(), |k: int| (m1[k] + m2[k]) % (PLAINTEXT_MODULUS as int))
        }),
{
    let n = a.len() as int;
    lemma_mul_spec_unit(a, s, q);
    let b = neg_spec(a, q);
    let p1 = mul_spec(a, r1, q);
    let p2 = mul_spec(a, r2, q);
    let n1 = mul_spec(b, r1, q);
    let n2 = mul_spec(b, r2, q);
    let c0 = add_spec(add_spec(p1, m1, q), add_spec(p2, m2, q), q);
    let c1 = add_spec(n1, n2, q);
    lemma_add_spec_canonical(n1, n2, q);
    lemma_mul_spec_unit(c1, s, q);
    let inner = add_spec(c0, c1, q);
    assert forall|k: int| 0 <= k < n implies inner[k] == (m1[k] + m2[k]) % q by {
        assert(b[k] == (q - a[k]) % q);
        lemma_conv_prefix_neg(a, b, r1, n, k, n, q);
        lemma_conv_prefix_neg(a, b, r2, n, k, n, q);
        lemma_add_mod_noop(conv(b, r1, n, k), conv(a, r1, n, k), q);
        lemma_add_mod_noop(conv(b, r2, n, k), conv(a, r2, n, k), q);
        lemma_small_mod(0nat, q as nat);
        assert((n1[k] + p1[k]) % q == 0);
        assert((n2[k] + p2[k]) % q == 0);
        // Collect the four components under a single reduction.
        let x1 = p1[k] + m1[k];
        let x2 = p2[k] + m2[k];
        lemma_add_mod_noop(x1, x2, q);
        assert(c0[k] == (x1 + x2) % q);
        assert(c1[k] == (n1[k] + n2[k]) % q);
        lemma_add_mod_noop(x1 + x2, n1[k] + n2[k], q);
        assert(inner[k] == (x1 + x2 + (n1[k] + n2[k])) % q);
        // The two masks cancel, leaving the plaintext sum.
        lemma_add_mod_noop(p1[k] + n1[k], p2[k] + n2[k], q);
        assert(((p1[k] + n1[k]) + (p2[k] + n2[k])) % q == 0);
        lemma_add_mod_noop(m1[k] + m2[k], (p1[k] + n1[k]) + (p2[k] + n2[k]), q);
        lemma_mod_twice(m1[k] + m2[k], q);
        assert(inner[k] == ((m1[k] + m2[k]) % q + 0) % q);
        lemma_mod_twice(m1[k] + m2[k], q);
    }
    let expected = Seq::new(m1.len(), |k: int| (m1[k] + m2[k]) % (PLAINTEXT_MODULUS as int));
    assert forall|k: int| 0 <= k < n implies decrypt_spec(c0, c1, s, q)[k] == expected[k] by {
        let x = m1[k] + m2[k];
        if x < q {
            lemma_small_mod(x as nat, q as nat);
        } else {
            // Only x == 2 with q == 2 remains: both sides reduce to zero.
            lemma_mod_self_0(q);
        }
    }
    assert(decrypt_spec(c0, c1, s, q) =~= expected);
}

} // verus!
