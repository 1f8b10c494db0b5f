//! Base prime field and its quadratic extension.
//!
//! The base field is F_p for the 31-bit prime p = 15 * 2^27 + 1, whose
//! multiplicative group contains a subgroup of order 2^27, so every
//! power-of-two domain up to that size has a primitive root of unity.
//! The extension is F_p[u] / (u^2 - W) for a quadratic non-residue W;
//! its Frobenius conjugate maps a + b*u to a - b*u.
use vstd::arithmetic::div_mod::{
    lemma_add_mod_noop_right, lemma_mod_add_multiples_vanish, lemma_mod_bound,
    lemma_mul_mod_noop_general, lemma_small_mod, lemma_sub_mod_noop,
};
use vstd::arithmetic::mul::{lemma_mul_is_associative, lemma_mul_is_distributive_add};
use vstd::prelude::*;

verus! {

/// The field modulus: p = 15 * 2^27 + 1, prime.
pub const P: u64 = 2013265921;

/// A generator of the whole multiplicative group of F_p.
pub const GENERATOR: u64 = 31;

/// A quadratic non-residue defining the extension F_p[u] / (u^2 - W).
pub const W: u64 = 11;

/// Addition in F_p on mathematical integers.
pub open spec fn fadd(a: int, b: int) -> int {
    (a + b) % (P as int)
}

/// Subtraction in F_p on mathematical integers.
pub open spec fn fsub(a: int, b: int) -> int {
    (a - b) % (P as int)
}

/// Multiplication in F_p on mathematical integers.
pub open spec fn fmul(a: int, b: int) -> int {
    (a * b) % (P as int)
}

/// A canonical representative of a base-field element.
pub open spec fn f_wf(a: int) -> bool {
    0 <= a < (P as int)
}

/// An extension-field element as a pair (base component, u component).
pub open spec fn e_wf(x: (int, int)) -> bool {
    f_wf(x.0) && f_wf(x.1)
}

/// Addition in the extension field, componentwise.
pub open spec fn e_add(x: (int, int), y: (int, int)) -> (int, int) {
    (fadd(x.0, y.0), fadd(x.1, y.1))
}

/// Subtraction in the extension field, componentwise.
pub open spec fn e_sub(x: (int, int), y: (int, int)) -> (int, int) {
    (fsub(x.0, y.0), fsub(x.1, y.1))
}

/// Multiplication in the extension field: (a + b u)(c + d u) with u^2 = W.
pub open spec fn e_mul(x: (int, int), y: (int, int)) -> (int, int) {
    (
        fadd(fmul(x.0, y.0), fmul(W as int, fmul(x.1, y.1))),
        fadd(fmul(x.0, y.1), fmul(x.1, y.0)),
    )
}

/// The Frobenius conjugate a + b u |-> a - b u.
pub open spec fn e_conj(x: (int, int)) -> (int, int) {
    (x.0, fsub(0, x.1))
}

/// The additive identity of the extension field.
pub open spec fn e_zero() -> (int, int) {
    (0int, 0int)
}

/// The multiplicative identity of the extension field.
pub open spec fn e_one() -> (int, int) {
    (1int, 0int)
}

pub broadcast proof fn lemma_fadd_wf(a: int, b: int)
    ensures
        f_wf(#[trigger] fadd(a, b)),
{
    lemma_mod_bound(a + b, P as int);
}

pub broadcast proof fn lemma_fsub_wf(a: int, b: int)
    ensures
        f_wf(#[trigger] fsub(a, b)),
{
    lemma_mod_bound(a - b, P as int);
}

pub broadcast proof fn lemma_fmul_wf(a: int, b: int)
    ensures
        f_wf(#[trigger] fmul(a, b)),
{
    lemma_mod_bound(a * b, P as int);
}

/// Reducing a canonical representative changes nothing.
pub proof fn lemma_f_id(a: int)
    requires
        f_wf(a),
    ensures
        a % (P as int) == a,
{
    lemma_small_mod(a as nat, P as nat);
}

/// Multiplication in F_p is associative.
pub proof fn lemma_fmul_assoc(a: int, b: int, c: int)
    ensures
        fmul(fmul(a, b), c) == fmul(a, fmul(b, c)),
{
    lemma_mul_mod_noop_general(a * b, c, P as int);
    lemma_mul_mod_noop_general(a, b * c, P as int);
    lemma_mul_is_associative(a, b, c);
}

/// Multiplication in F_p distributes over addition.
pub proof fn lemma_fmul_fadd_dist(a: int, b: int, c: int)
    ensures
        fmul(a, fadd(b, c)) == fadd(fmul(a, b), fmul(a, c)),
{
    lemma_mul_mod_noop_general(a, b + c, P as int);
    lemma_mul_is_distributive_add(a, b, c);
    lemma_add_mod_noop_right(a * b, a * c, P as int);
    lemma_add_mod_noop_right(a * c, a * b, P as int);
    assert((a * b % (P as int) + a * c % (P as int)) % (P as int) == (a * b + a * c) % (P as int))
        by {
        lemma_add_mod_noop_right(a * b % (P as int), a * c, P as int);
        lemma_add_mod_noop_right(a * c, a * b, P as int);
    }
}

/// Sums of sums in F_p may be regrouped.
pub proof fn lemma_fadd_rearrange(a: int, b: int, c: int, d: int)
    ensures
        fadd(fadd(a, b), fadd(c, d)) == fadd(fadd(a, c), fadd(b, d)),
{
    lemma_add_mod_noop_right(a + b, c + d, P as int);
    lemma_add_mod_noop_right(a + c, b + d, P as int);
    assert(((a + b) % (P as int) + (c + d) % (P as int)) % (P as int) == (a + b + c + d) % (
    P as int)) by {
        lemma_add_mod_noop_right((a + b) % (P as int), c + d, P as int);
        lemma_add_mod_noop_right(c + d, a + b, P as int);
    }
    assert(((a + c) % (P as int) + (b + d) % (P as int)) % (P as int) == (a + c + b + d) % (
    P as int)) by {
        lemma_add_mod_noop_right((a + c) % (P as int), b + d, P as int);
        lemma_add_mod_noop_right(b + d, a + c, P as int);
    }
}

/// A base-field element, held in canonical form.
#[derive(Clone, Copy, Debug, PartialEq, Eq, Structural)]
pub struct Fe {
    pub v: u64,
}

impl View for Fe {
    type V = int;

    open spec fn view(&self) -> int {
        self.v as int
    }
}

impl Fe {
    /// The representative is reduced.
    pub open spec fn inv(&self) -> bool {
        f_wf(self@)
    }
}

/// An extension-field element a + b u with both components in canonical form.
#[derive(Clone, Copy, Debug, PartialEq, Eq, Structural)]
pub struct Ext {
    pub c0: Fe,
    pub c1: Fe,
}

impl View for Ext {
    type V = (int, int);

    open spec fn view(&self) -> (int, int) {
        (self.c0@, self.c1@)
    }
}

impl Ext {
    /// Both components are reduced.
    pub open spec fn inv(&self) -> bool {
        e_wf(self@)
    }
}

/// Builds a base-field element from a reduced representative.
pub fn fe_new(v: u64) -> (r: Fe)
    requires
        v < P,
    ensures
        r@ == v as int,
        r.inv(),
{
    Fe { v }
}

pub fn fe_add(x: Fe, y: Fe) -> (r: Fe)
    requires
        x.inv(),
        y.inv(),
    ensures
        r.inv(),
        r@ == fadd(x@, y@),
{
    proof {
        lemma_mod_bound(x@ + y@, P as int);
    }
    Fe { v: (x.v + y.v) % P }
}

pub fn fe_sub(x: Fe, y: Fe) -> (r: Fe)
    requires
        x.inv(),
        y.inv(),
    ensures
        r.inv(),
        r@ == fsub(x@, y@),
{
    proof {
        lemma_mod_bound(x@ - y@, P as int);
        lemma_mod_add_multiples_vanish(x@ - y@, P as int);
    }
    Fe { v: (x.v + (P - y.v)) % P }
}

pub fn fe_mul(x: Fe, y: Fe) -> (r: Fe)
    requires
        x.inv(),
        y.inv(),
    ensures
        r.inv(),
        r@ == fmul(x@, y@),
{
    proof {
        lemma_mod_bound(x@ * y@, P as int);
        assert(x@ * y@ < 0x4000_0000_0000_0000) by (nonlinear_arith)
            requires
                0 <= x@ < 0x8000_0000,
                0 <= y@ < 0x8000_0000,
        ;
    }
    Fe { v: (x.v * y.v) % P }
}

pub fn fe_neg(x: Fe) -> (r: Fe)
    requires
        x.inv(),
    ensures
        r.inv(),
        r@ == fsub(0, x@),
{
    proof {
        lemma_mod_bound(0 - x@, P as int);
        lemma_mod_add_multiples_vanish(0 - x@, P as int);
    }
    Fe { v: (P - x.v) % P }
}

/// Builds an extension element from reduced representatives of its components.
pub fn ext_new(c0: u64, c1: u64) -> (r: Ext)
    requires
        c0 < P,
        c1 < P,
    ensures
        r@ == (c0 as int, c1 as int),
        r.inv(),
{
    Ext { c0: Fe { v: c0 }, c1: Fe { v: c1 } }
}

/// Embeds a base-field element into the extension field.
pub fn ext_from(b: Fe) -> (r: Ext)
    requires
        b.inv(),
    ensures
        r@ == (b@, 0int),
        r.inv(),
{
    Ext { c0: b, c1: Fe { v: 0 } }
}

pub fn ext_zero() -> (r: Ext)
    ensures
        r@ == e_zero(),
        r.inv(),
{
    Ext { c0: Fe { v: 0 }, c1: Fe { v: 0 } }
}

pub fn ext_one() -> (r: Ext)
    ensures
        r@ == e_one(),
        r.inv(),
{
    Ext { c0: Fe { v: 1 }, c1: Fe { v: 0 } }
}

pub fn ext_add(x: Ext, y: Ext) -> (r: Ext)
    requires
        x.inv(),
        y.inv(),
    ensures
        r.inv(),
        r@ == e_add(x@, y@),
{
    Ext { c0: fe_add(x.c0, y.c0), c1: fe_add(x.c1, y.c1) }
}

pub fn ext_sub(x: Ext, y: Ext) -> (r: Ext)
    requires
        x.inv(),
        y.inv(),
    ensures
        r.inv(),
        r@ == e_sub(x@, y@),
{
    Ext { c0: fe_sub(x.c0, y.c0), c1: fe_sub(x.c1, y.c1) }
}

pub fn ext_mul(x: Ext, y: Ext) -> (r: Ext)
    requires
        x.inv(),
        y.inv(),
    ensures
        r.inv(),
        r@ == e_mul(x@, y@),
{
    let t = fe_mul(x.c1, y.c1);
    let c0 = fe_add(fe_mul(x.c0, y.c0), fe_mul(Fe { v: W }, t));
    let c1 = fe_add(fe_mul(x.c0, y.c1), fe_mul(x.c1, y.c0));
    Ext { c0, c1 }
}

/// The Frobenius conjugate of an extension element.
pub fn ext_conj(x: Ext) -> (r: Ext)
    requires
        x.inv(),
    ensures
        r.inv(),
        r@ == e_conj(x@),
{
    Ext { c0: x.c0, c1: fe_neg(x.c1) }
}

/// Repeated multiplication in F_p, reduced after every step.
pub open spec fn fpow(b: int, e: nat) -> int
    decreases e,
{
    if e == 0 {
        1
    } else {
        fmul(fpow(b, (e - 1) as nat), b)
    }
}

pub proof fn lemma_fpow_wf(b: int, e: nat)
    ensures
        f_wf(fpow(b, e)),
    decreases e,
{
    if e > 0 {
        lemma_fpow_wf(b, (e - 1) as nat);
        lemma_fmul_wf(fpow(b, (e - 1) as nat), b);
    }
}

/// Powers compose additively in the exponent.
pub proof fn lemma_fpow_add(b: int, e1: nat, e2: nat)
    ensures
        fpow(b, e1 + e2) == fmul(fpow(b, e1), fpow(b, e2)),
    decreases e2,
{
    if e2 == 0 {
        lemma_fpow_wf(b, e1);
        lemma_f_id(fpow(b, e1));
    } else {
        lemma_fpow_add(b, e1, (e2 - 1) as nat);
        lemma_fmul_assoc(fpow(b, e1), fpow(b, (e2 - 1) as nat), b);
    }
}

/// Repeated multiplication in the extension field.
pub open spec fn e_pow(b: (int, int), e: nat) -> (int, int)
    decreases e,
{
    if e == 0 {
        e_one()
    } else {
        e_mul(e_pow(b, (e - 1) as nat), b)
    }
}

/// Raises an extension element to a small power by repeated multiplication.
pub fn ext_pow(b: Ext, e: usize) -> (r: Ext)
    requires
        b.inv(),
    ensures
        r.inv(),
        r@ == e_pow(b@, e as nat),
{
    let mut acc = ext_one();
    let mut i: usize = 0;
    while i < e
        invariant
            i <= e,
            acc.inv(),
            b.inv(),
            acc@ == e_pow(b@, i as nat),
        decreases e - i,
    {
        acc = ext_mul(acc, b);
        i = i + 1;
    }
    acc
}

/// Powers of two.
pub open spec fn p2(e: nat) -> nat
    decreases e,
{
    if e == 0 {
        1
    } else {
        2 * p2((e - 1) as nat)
    }
}

/// The binary logarithm, rounding down.
pub open spec fn lg(n: nat) -> nat
    decreases n,
{
    if n <= 1 {
        0
    } else {
        1 + lg(n / 2)
    }
}

/// Whether n is a power of two.
pub open spec fn is_pow2(n: nat) -> bool
    decreases n,
{
    if n == 0 {
        false
    } else if n == 1 {
        true
    } else {
        n % 2 == 0 && is_pow2(n / 2)
    }
}

pub proof fn lemma_p2_pos(e: nat)
    ensures
        p2(e) >= 1,
    decreases e,
{
    if e > 0 {
        lemma_p2_pos((e - 1) as nat);
    }
}

pub proof fn lemma_p2_mono(a: nat, b: nat)
    requires
        a <= b,
    ensures
        p2(a) <= p2(b),
    decreases b,
{
    if a < b {
        lemma_p2_mono(a, (b - 1) as nat);
        lemma_p2_pos((b - 1) as nat);
    }
}

pub proof fn lemma_p2_strict(a: nat, b: nat)
    requires
        a < b,
    ensures
        p2(a) < p2(b),
{
    lemma_p2_mono(a, (b - 1) as nat);
    lemma_p2_pos(a);
}

pub proof fn lemma_p2_27()
    ensures
        p2(27) == 134217728,
{
    reveal_with_fuel(p2, 28);
}

/// On a power of two, p2 inverts lg.
pub proof fn lemma_p2_lg(n: nat)
    requires
        is_pow2(n),
    ensures
        p2(lg(n)) == n,
    decreases n,
{
    if n > 1 {
        lemma_p2_lg(n / 2);
    }
}

/// A product of powers of two is a power of two.
pub proof fn lemma_is_pow2_mul(a: nat, b: nat)
    requires
        is_pow2(a),
        is_pow2(b),
    ensures
        is_pow2(a * b),
    decreases a,
{
    if a == 1 {
        assert(a * b == b);
    } else {
        let h = a / 2;
        lemma_is_pow2_mul(h, b);
        assert(a * b == 2 * (h * b)) by (nonlinear_arith)
            requires
                a == 2 * h,
        ;
        assert((a * b) % 2 == 0 && (a * b) / 2 == h * b) by {
            lemma_mod_bound((h * b) as int, 2);
            assert(2 * (h * b) == (h * b) * 2);
        }
        assert(a * b >= 2) by (nonlinear_arith)
            requires
                a >= 2,
                b >= 1,
        ;
    }
}

/// The primitive root of unity of order 2^log_n: the group generator raised
/// to (p - 1) / 2^log_n = 15 * 2^(27 - log_n).
pub open spec fn rou(log_n: nat) -> int {
    fpow(GENERATOR as int, 15 * p2((27 - log_n) as nat))
}

/// Computes the primitive root of unity of order 2^log_n, by raising the
/// generator to the 15th power and then squaring 27 - log_n times.
pub fn get_root_of_unity(log_n: usize) -> (r: Fe)
    requires
        log_n <= 27,
    ensures
        r.inv(),
        r@ == rou(log_n as nat),
{
    let g = Fe { v: GENERATOR };
    let mut x = Fe { v: 1 };
    let mut i: usize = 0;
    while i < 15
        invariant
            i <= 15,
            g == (Fe { v: GENERATOR }),
            x.inv(),
            x@ == fpow(GENERATOR as int, i as nat),
        decreases 15 - i,
    {
        x = fe_mul(x, g);
        i = i + 1;
    }
    let k = 27 - log_n;
    let mut j: usize = 0;
    while j < k
        invariant
            j <= k,
            k == 27 - log_n,
            x.inv(),
            x@ == fpow(GENERATOR as int, 15 * p2(j as nat)),
        decreases k - j,
    {
        proof {
            lemma_fpow_add(GENERATOR as int, 15 * p2(j as nat), 15 * p2(j as nat));
            assert(p2((j + 1) as nat) == 2 * p2(j as nat));
        }
        x = fe_mul(x, x);
        j = j + 1;
    }
    x
}

/// Computes the binary logarithm of a power of two no larger than 2^27.
pub fn log2_exec(n: usize) -> (r: usize)
    requires
        is_pow2(n as nat),
        n <= 134217728,
    ensures
        r as nat == lg(n as nat),
        r <= 27,
{
    let mut m = n;
    let mut k: usize = 0;
    proof {
        assert(p2(0) == 1);
        assert(1 * (n as nat) == n as nat);
    }
    while m > 1
        invariant
            m >= 1,
            is_pow2(m as nat),
            lg(n as nat) == k as nat + lg(m as nat),
            p2(k as nat) * (m as nat) == n as nat,
            n <= 134217728,
            k <= 27,
        decreases m,
    {
        proof {
            let h = (m as nat) / 2;
            assert(p2((k + 1) as nat) * h == p2(k as nat) * (m as nat)) by (nonlinear_arith)
                requires
                    m as nat == 2 * h,
                    p2((k + 1) as nat) == 2 * p2(k as nat),
            ;
            if k + 1 > 27 {
                lemma_p2_strict(27, (k + 1) as nat);
                lemma_p2_27();
                assert(p2((k + 1) as nat) <= p2((k + 1) as nat) * h) by (nonlinear_arith)
                    requires
                        h >= 1,
                        p2((k + 1) as nat) >= 0,
                ;
            }
        }
        m = m / 2;
        k = k + 1;
    }
    k
}

} // verus!
