//! The algebraic laws the composition phases rest on, stated over the same
//! specification model that the executable contracts use.
use crate::composer::{
    acc_cols_s, buffer_s, cc_t0, cc_t1, cc_t2, col_quot_s, conj_states, deep_trace_s, next_z_s,
    states_at, CompositionCoefficients,
};
use crate::field::{
    e_add, e_conj, e_mul, e_sub, e_wf, e_zero, lemma_f_id, lemma_fadd_wf, lemma_fmul_wf,
    lemma_fsub_wf,
};
use crate::poly::{
    acc_poly_s, mul_acc_s, pe, sdq, seq_add_s, sub0_s, syn_div_s, wf_seq, zero_s,
};
use crate::field::{lemma_fadd_rearrange, lemma_fmul_fadd_dist};
use vstd::arithmetic::div_mod::{lemma_add_mod_noop, lemma_add_mod_noop_right, lemma_sub_mod_noop};
use vstd::prelude::*;

verus! {

broadcast use lemma_fadd_wf, lemma_fsub_wf, lemma_fmul_wf;

/// The quotient recurrence evaluates the tail of the polynomial: the
/// synthetic-division coefficient at i is p[i+1..] evaluated at b, and at
/// i = -1 it is the whole of p evaluated at b (the remainder).
pub proof fn lemma_sdq_is_eval(p: Seq<(int, int)>, b: (int, int), i: int)
    requires
        -1 <= i < p.len() + 1,
        i + 1 <= p.len(),
    ensures
        sdq(p, b, i) == pe(p.skip(i + 1), b),
    decreases p.len() - i,
{
    if i + 1 >= p.len() {
        assert(p.skip(i + 1).len() == 0);
    } else {
        lemma_sdq_is_eval(p, b, i + 1);
        assert(p.skip(i + 1).skip(1) =~= p.skip(i + 2));
        assert(p.skip(i + 1)[0] == p[i + 1]);
    }
}

/// An evaluation is a reduced extension element.
pub proof fn lemma_pe_wf(p: Seq<(int, int)>, x: (int, int))
    ensures
        e_wf(pe(p, x)),
    decreases p.len(),
{
    if p.len() > 0 {
        lemma_pe_wf(p.skip(1), x);
    }
}

/// Adding then subtracting commute in the extension field.
pub proof fn lemma_e_add_sub_swap(a: (int, int), v: (int, int), m: (int, int))
    requires
        e_wf(v),
    ensures
        e_add(e_sub(a, v), m) == e_sub(e_add(a, m), v),
{
    let q = crate::field::P as int;
    assert((m.0 + (a.0 - v.0) % q) % q == (m.0 + (a.0 - v.0)) % q) by {
        lemma_add_mod_noop_right(m.0, a.0 - v.0, q);
    }
    assert(((a.0 + m.0) % q - v.0) % q == (a.0 + m.0 - v.0) % q) by {
        lemma_sub_mod_noop(a.0 + m.0, v.0, q);
        lemma_f_id(v.0);
    }
    assert((m.1 + (a.1 - v.1) % q) % q == (m.1 + (a.1 - v.1)) % q) by {
        lemma_add_mod_noop_right(m.1, a.1 - v.1, q);
    }
    assert(((a.1 + m.1) % q - v.1) % q == (a.1 + m.1 - v.1) % q) by {
        lemma_sub_mod_noop(a.1 + m.1, v.1, q);
        lemma_f_id(v.1);
    }
}

/// Subtracting a constant from the constant term subtracts it from every
/// evaluation.
pub proof fn lemma_pe_sub0(p: Seq<(int, int)>, v: (int, int), z: (int, int))
    requires
        p.len() >= 1,
        e_wf(v),
    ensures
        pe(sub0_s(p, v), z) == e_sub(pe(p, z), v),
{
    let q = sub0_s(p, v);
    assert(q.skip(1) =~= p.skip(1));
    assert(q[0] == e_sub(p[0], v));
    lemma_e_add_sub_swap(p[0], v, e_mul(z, pe(p.skip(1), z)));
}

/// Division exactness: after subtracting p(z) from the constant term of p,
/// the point z is a root, and synthetic division by (x - z) leaves a zero
/// remainder.
pub proof fn lemma_division_exactness(p: Seq<(int, int)>, z: (int, int))
    requires
        p.len() >= 1,
        e_wf(z),
    ensures
        pe(sub0_s(p, pe(p, z)), z) == e_zero(),
        sdq(sub0_s(p, pe(p, z)), z, -1) == e_zero(),
{
    let v = pe(p, z);
    lemma_pe_wf(p, z);
    lemma_pe_sub0(p, v, z);
    assert(e_sub(v, v) == e_zero());
    lemma_sdq_is_eval(sub0_s(p, v), z, -1);
    assert(sub0_s(p, v).skip(0) =~= sub0_s(p, v));
}

/// Multiplying by the additive identity yields the additive identity.
pub proof fn lemma_e_mul_zero(x: (int, int))
    ensures
        e_mul(x, e_zero()) == e_zero(),
{
}

/// The buffers have the length they were seeded with.
pub proof fn lemma_buffer_len(
    tbl: Seq<Seq<int>>,
    states: Seq<(int, int)>,
    ks: Seq<(int, int)>,
    n: nat,
    m: int,
)
    requires
        n >= 1,
    ensures
        buffer_s(tbl, states, ks, n, m).len() == n,
    decreases m,
{
    if m > 0 {
        lemma_buffer_len(tbl, states, ks, n, m - 1);
    }
}

/// A buffer accumulated with all-zero coefficients stays zero.
pub proof fn lemma_buffer_zero(
    tbl: Seq<Seq<int>>,
    states: Seq<(int, int)>,
    ks: Seq<(int, int)>,
    n: nat,
    m: int,
)
    requires
        n >= 1,
        forall|j: int| 0 <= j < m ==> #[trigger] ks[j] == e_zero(),
    ensures
        buffer_s(tbl, states, ks, n, m) == zero_s(n),
    decreases m,
{
    if m > 0 {
        lemma_buffer_zero(tbl, states, ks, n, m - 1);
        let prev = buffer_s(tbl, states, ks, n, m - 1);
        let p = crate::poly::embs(tbl[m - 1]);
        lemma_e_mul_zero(states[m - 1]);
        assert(mul_acc_s(prev, p, e_zero()) =~= zero_s(n)) by {
            assert(forall|i: int|
                0 <= i < p.len() ==> e_mul(#[trigger] p[i], e_zero()) == e_zero());
        }
        assert(e_sub(e_zero(), e_zero()) == e_zero());
        assert(acc_poly_s(prev, p, states[m - 1], e_zero()) =~= zero_s(n));
    }
}

/// Synthetic division of the zero polynomial yields the zero polynomial.
pub proof fn lemma_sdq_zero(n: nat, b: (int, int), i: int)
    requires
        i >= -1,
    ensures
        sdq(zero_s(n), b, i) == e_zero(),
    decreases n - i,
{
    assert(zero_s(n).len() == n);
    if i + 1 < n {
        lemma_sdq_zero(n, b, i + 1);
        lemma_e_mul_zero(b);
        assert(e_mul(b, e_zero()) == e_zero());
    }
}

pub proof fn lemma_syn_div_zero(n: nat, b: (int, int))
    ensures
        syn_div_s(zero_s(n), b) == zero_s(n),
{
    assert forall|i: int| 0 <= i < n implies #[trigger] syn_div_s(zero_s(n), b)[i] == e_zero() by {
        lemma_sdq_zero(n, b, i);
    }
    assert(syn_div_s(zero_s(n), b) =~= zero_s(n));
}

/// Adding the zero polynomial changes nothing.
pub proof fn lemma_seq_add_zero(q: Seq<(int, int)>, n: nat)
    requires
        wf_seq(q),
        q.len() == n,
    ensures
        seq_add_s(q, zero_s(n)) == q,
{
    assert forall|i: int| 0 <= i < n implies #[trigger] seq_add_s(q, zero_s(n))[i] == q[i] by {
        assert(e_wf(q[i]));
        lemma_f_id(q[i].0);
        lemma_f_id(q[i].1);
    }
    assert(seq_add_s(q, zero_s(n)) =~= q);
}

/// Every coefficient a synthetic division produces is reduced.
pub proof fn lemma_wf_syn_div(p: Seq<(int, int)>, b: (int, int))
    ensures
        wf_seq(syn_div_s(p, b)),
{
    assert forall|i: int| 0 <= i < p.len() implies e_wf(#[trigger] syn_div_s(p, b)[i]) by {
        assert(syn_div_s(p, b)[i] == sdq(p, b, i));
        if i + 1 >= p.len() {
        }
    }
}

/// Every coefficient of a sum of reduced polynomials is reduced.
pub proof fn lemma_wf_seq_add(a: Seq<(int, int)>, b: Seq<(int, int)>)
    requires
        wf_seq(a),
    ensures
        wf_seq(seq_add_s(a, b)),
{
    assert forall|i: int| 0 <= i < a.len() implies e_wf(#[trigger] seq_add_s(a, b)[i]) by {
        assert(e_wf(a[i]));
    }
}

/// Extension toggle: when every conjugate-term coefficient is the additive
/// identity, running with the field extension enabled produces exactly the
/// polynomial of a run with it disabled — the conjugate buffer contributes
/// nothing.
pub proof fn lemma_extension_toggle(
    tbl: Seq<Seq<int>>,
    n: nat,
    z: (int, int),
    cc: CompositionCoefficients,
)
    requires
        n >= 1,
        tbl.len() <= cc.trace@.len(),
        forall|i: int| 0 <= i < cc.trace@.len() ==> (#[trigger] cc.trace@[i]).2@ == e_zero(),
    ensures
        deep_trace_s(tbl, n, z, cc, true) == deep_trace_s(tbl, n, z, cc, false),
{
    let m = tbl.len() as int;
    let nz = next_z_s(z, n);
    let s1 = states_at(tbl, z);
    let b1 = buffer_s(tbl, s1, crate::composer::cc_t0(cc), n, m);
    let b2 = buffer_s(tbl, states_at(tbl, nz), crate::composer::cc_t1(cc), n, m);
    let q = seq_add_s(syn_div_s(b1, z), syn_div_s(b2, nz));
    assert(forall|j: int| 0 <= j < m ==> #[trigger] cc_t2(cc)[j] == e_zero());
    lemma_buffer_zero(tbl, conj_states(s1), cc_t2(cc), n, m);
    lemma_syn_div_zero(n, e_conj(z));
    lemma_buffer_len(tbl, s1, crate::composer::cc_t0(cc), n, m);
    lemma_buffer_len(tbl, states_at(tbl, nz), crate::composer::cc_t1(cc), n, m);
    lemma_wf_syn_div(b1, z);
    lemma_wf_seq_add(syn_div_s(b1, z), syn_div_s(b2, nz));
    lemma_seq_add_zero(q, n);
}

/// Differences of sums in F_p may be regrouped.
pub proof fn lemma_fsub_fadd_rearrange(a: int, b: int, c: int, d: int)
    ensures
        crate::field::fsub(crate::field::fadd(a, b), crate::field::fadd(c, d)) == crate::field::fadd(
            crate::field::fsub(a, c),
            crate::field::fsub(b, d),
        ),
{
    let q = crate::field::P as int;
    lemma_sub_mod_noop(a + b, c + d, q);
    lemma_add_mod_noop(a - c, b - d, q);
}

/// Multiplication in the extension field distributes over addition in its
/// second argument.
pub proof fn lemma_e_mul_dist(x: (int, int), k1: (int, int), k2: (int, int))
    ensures
        e_mul(x, e_add(k1, k2)) == e_add(e_mul(x, k1), e_mul(x, k2)),
{
    let w = crate::field::W as int;
    lemma_fmul_fadd_dist(x.0, k1.0, k2.0);
    lemma_fmul_fadd_dist(x.1, k1.1, k2.1);
    lemma_fmul_fadd_dist(w, crate::field::fmul(x.1, k1.1), crate::field::fmul(x.1, k2.1));
    lemma_fadd_rearrange(
        crate::field::fmul(x.0, k1.0),
        crate::field::fmul(x.0, k2.0),
        crate::field::fmul(w, crate::field::fmul(x.1, k1.1)),
        crate::field::fmul(w, crate::field::fmul(x.1, k2.1)),
    );
    lemma_fmul_fadd_dist(x.0, k1.1, k2.1);
    lemma_fmul_fadd_dist(x.1, k1.0, k2.0);
    lemma_fadd_rearrange(
        crate::field::fmul(x.0, k1.1),
        crate::field::fmul(x.0, k2.1),
        crate::field::fmul(x.1, k1.0),
        crate::field::fmul(x.1, k2.0),
    );
}

/// Sums of sums in the extension field may be regrouped.
pub proof fn lemma_e_add_rearrange(a: (int, int), b: (int, int), c: (int, int), d: (int, int))
    ensures
        e_add(e_add(a, b), e_add(c, d)) == e_add(e_add(a, c), e_add(b, d)),
{
    lemma_fadd_rearrange(a.0, b.0, c.0, d.0);
    lemma_fadd_rearrange(a.1, b.1, c.1, d.1);
}

/// Differences of sums in the extension field may be regrouped.
pub proof fn lemma_e_sub_add(a: (int, int), b: (int, int), c: (int, int), d: (int, int))
    ensures
        e_sub(e_add(a, b), e_add(c, d)) == e_add(e_sub(a, c), e_sub(b, d)),
{
    lemma_fsub_fadd_rearrange(a.0, b.0, c.0, d.0);
    lemma_fsub_fadd_rearrange(a.1, b.1, c.1, d.1);
}

/// The accumulate-then-subtract step is linear in its scalar coefficient.
pub proof fn lemma_acc_poly_linear(
    a1: Seq<(int, int)>,
    a2: Seq<(int, int)>,
    p: Seq<(int, int)>,
    v: (int, int),
    k1: (int, int),
    k2: (int, int),
)
    requires
        a1.len() == a2.len(),
        a1.len() == p.len(),
        p.len() >= 1,
    ensures
        acc_poly_s(seq_add_s(a1, a2), p, v, e_add(k1, k2)) == seq_add_s(
            acc_poly_s(a1, p, v, k1),
            acc_poly_s(a2, p, v, k2),
        ),
{
    let ks = e_add(k1, k2);
    let lhs = acc_poly_s(seq_add_s(a1, a2), p, v, ks);
    let rhs = seq_add_s(acc_poly_s(a1, p, v, k1), acc_poly_s(a2, p, v, k2));
    assert forall|i: int| 0 <= i < a1.len() implies #[trigger] lhs[i] == rhs[i] by {
        lemma_e_mul_dist(p[i], k1, k2);
        lemma_e_add_rearrange(a1[i], a2[i], e_mul(p[i], k1), e_mul(p[i], k2));
        if i == 0 {
            lemma_e_mul_dist(v, k1, k2);
            lemma_e_sub_add(
                e_add(a1[0], e_mul(p[0], k1)),
                e_add(a2[0], e_mul(p[0], k2)),
                e_mul(v, k1),
                e_mul(v, k2),
            );
        }
    }
    assert(lhs =~= rhs);
}

/// Folding the registers under a summed coefficient sequence equals the
/// coefficient-wise sum of the two separate folds.
pub proof fn lemma_buffer_linear(
    tbl: Seq<Seq<int>>,
    states: Seq<(int, int)>,
    ks1: Seq<(int, int)>,
    ks2: Seq<(int, int)>,
    kss: Seq<(int, int)>,
    n: nat,
    m: int,
)
    requires
        n >= 1,
        m <= tbl.len(),
        forall|j: int| 0 <= j < m ==> #[trigger] kss[j] == e_add(ks1[j], ks2[j]),
        forall|j: int| 0 <= j < m ==> (#[trigger] tbl[j]).len() == n,
    ensures
        buffer_s(tbl, states, kss, n, m) == seq_add_s(
            buffer_s(tbl, states, ks1, n, m),
            buffer_s(tbl, states, ks2, n, m),
        ),
    decreases m,
{
    if m <= 0 {
        assert(buffer_s(tbl, states, kss, n, m) =~= seq_add_s(
            buffer_s(tbl, states, ks1, n, m),
            buffer_s(tbl, states, ks2, n, m),
        ));
    } else {
        lemma_buffer_linear(tbl, states, ks1, ks2, kss, n, m - 1);
        lemma_buffer_len(tbl, states, ks1, n, m - 1);
        lemma_buffer_len(tbl, states, ks2, n, m - 1);
        lemma_acc_poly_linear(
            buffer_s(tbl, states, ks1, n, m - 1),
            buffer_s(tbl, states, ks2, n, m - 1),
            crate::poly::embs(tbl[m - 1]),
            states[m - 1],
            ks1[m - 1],
            ks2[m - 1],
        );
    }
}

/// The synthetic-division recurrence is additive in the dividend.
pub proof fn lemma_sdq_linear(p1: Seq<(int, int)>, p2: Seq<(int, int)>, b: (int, int), i: int)
    requires
        p1.len() == p2.len(),
        -1 <= i,
    ensures
        sdq(seq_add_s(p1, p2), b, i) == e_add(sdq(p1, b, i), sdq(p2, b, i)),
    decreases p1.len() - i,
{
    if i + 1 >= p1.len() {
        assert(e_add(e_zero(), e_zero()) == e_zero());
    } else {
        lemma_sdq_linear(p1, p2, b, i + 1);
        lemma_e_mul_dist(b, sdq(p1, b, i + 1), sdq(p2, b, i + 1));
        lemma_e_add_rearrange(
            p1[i + 1],
            p2[i + 1],
            e_mul(b, sdq(p1, b, i + 1)),
            e_mul(b, sdq(p2, b, i + 1)),
        );
    }
}

/// Synthetic division is additive in the dividend.
pub proof fn lemma_syn_div_linear(p1: Seq<(int, int)>, p2: Seq<(int, int)>, b: (int, int))
    requires
        p1.len() == p2.len(),
    ensures
        syn_div_s(seq_add_s(p1, p2), b) == seq_add_s(syn_div_s(p1, b), syn_div_s(p2, b)),
{
    assert forall|i: int| 0 <= i < p1.len() implies #[trigger] syn_div_s(seq_add_s(p1, p2), b)[i]
        == seq_add_s(syn_div_s(p1, b), syn_div_s(p2, b))[i] by {
        lemma_sdq_linear(p1, p2, b, i);
    }
    assert(syn_div_s(seq_add_s(p1, p2), b) =~= seq_add_s(syn_div_s(p1, b), syn_div_s(p2, b)));
}

/// Coefficient-wise sums of sums may be regrouped.
pub proof fn lemma_seq_add_rearrange(
    a: Seq<(int, int)>,
    b: Seq<(int, int)>,
    c: Seq<(int, int)>,
    d: Seq<(int, int)>,
)
    requires
        a.len() == b.len(),
        a.len() == c.len(),
        a.len() == d.len(),
    ensures
        seq_add_s(seq_add_s(a, b), seq_add_s(c, d)) == seq_add_s(seq_add_s(a, c), seq_add_s(b, d)),
{
    assert forall|i: int| 0 <= i < a.len() implies #[trigger] seq_add_s(
        seq_add_s(a, b),
        seq_add_s(c, d),
    )[i] == seq_add_s(seq_add_s(a, c), seq_add_s(b, d))[i] by {
        lemma_e_add_rearrange(a[i], c[i], b[i], d[i]);
    }
    assert(seq_add_s(seq_add_s(a, b), seq_add_s(c, d)) =~= seq_add_s(
        seq_add_s(a, c),
        seq_add_s(b, d),
    ));
}

/// Linearity: composing the trace polynomials with the sum of two
/// coefficient bundles yields exactly the coefficient-wise sum of the two
/// polynomials composed with each bundle separately.
pub proof fn lemma_linearity(
    tbl: Seq<Seq<int>>,
    n: nat,
    z: (int, int),
    cc_a: CompositionCoefficients,
    cc_b: CompositionCoefficients,
    cc_s: CompositionCoefficients,
    ext: bool,
)
    requires
        n >= 1,
        forall|j: int| 0 <= j < tbl.len() ==> (#[trigger] tbl[j]).len() == n,
        tbl.len() <= cc_a.trace@.len(),
        cc_a.trace@.len() == cc_b.trace@.len(),
        cc_a.trace@.len() == cc_s.trace@.len(),
        forall|j: int|
            0 <= j < cc_s.trace@.len() ==> (#[trigger] cc_s.trace@[j]).0@ == e_add(
                cc_a.trace@[j].0@,
                cc_b.trace@[j].0@,
            ) && cc_s.trace@[j].1@ == e_add(cc_a.trace@[j].1@, cc_b.trace@[j].1@)
                && cc_s.trace@[j].2@ == e_add(cc_a.trace@[j].2@, cc_b.trace@[j].2@),
    ensures
        deep_trace_s(tbl, n, z, cc_s, ext) == seq_add_s(
            deep_trace_s(tbl, n, z, cc_a, ext),
            deep_trace_s(tbl, n, z, cc_b, ext),
        ),
{
    let m = tbl.len() as int;
    let nz = next_z_s(z, n);
    let s1 = states_at(tbl, z);
    let s2 = states_at(tbl, nz);
    let sc = conj_states(s1);
    assert(forall|j: int|
        0 <= j < m ==> #[trigger] cc_t0(cc_s)[j] == e_add(cc_t0(cc_a)[j], cc_t0(cc_b)[j]));
    assert(forall|j: int|
        0 <= j < m ==> #[trigger] cc_t1(cc_s)[j] == e_add(cc_t1(cc_a)[j], cc_t1(cc_b)[j]));
    assert(forall|j: int|
        0 <= j < m ==> #[trigger] cc_t2(cc_s)[j] == e_add(cc_t2(cc_a)[j], cc_t2(cc_b)[j]));
    lemma_buffer_linear(tbl, s1, cc_t0(cc_a), cc_t0(cc_b), cc_t0(cc_s), n, m);
    lemma_buffer_linear(tbl, s2, cc_t1(cc_a), cc_t1(cc_b), cc_t1(cc_s), n, m);
    lemma_buffer_linear(tbl, sc, cc_t2(cc_a), cc_t2(cc_b), cc_t2(cc_s), n, m);
    let b1a = buffer_s(tbl, s1, cc_t0(cc_a), n, m);
    let b1b = buffer_s(tbl, s1, cc_t0(cc_b), n, m);
    let b2a = buffer_s(tbl, s2, cc_t1(cc_a), n, m);
    let b2b = buffer_s(tbl, s2, cc_t1(cc_b), n, m);
    let b3a = buffer_s(tbl, sc, cc_t2(cc_a), n, m);
    let b3b = buffer_s(tbl, sc, cc_t2(cc_b), n, m);
    lemma_buffer_len(tbl, s1, cc_t0(cc_a), n, m);
    lemma_buffer_len(tbl, s1, cc_t0(cc_b), n, m);
    lemma_buffer_len(tbl, s2, cc_t1(cc_a), n, m);
    lemma_buffer_len(tbl, s2, cc_t1(cc_b), n, m);
    lemma_buffer_len(tbl, sc, cc_t2(cc_a), n, m);
    lemma_buffer_len(tbl, sc, cc_t2(cc_b), n, m);
    lemma_syn_div_linear(b1a, b1b, z);
    lemma_syn_div_linear(b2a, b2b, nz);
    lemma_syn_div_linear(b3a, b3b, e_conj(z));
    lemma_seq_add_rearrange(syn_div_s(b1a, z), syn_div_s(b2a, nz), syn_div_s(b1b, z), syn_div_s(b2b, nz));
    if ext {
        let qa = seq_add_s(syn_div_s(b1a, z), syn_div_s(b2a, nz));
        let qb = seq_add_s(syn_div_s(b1b, z), syn_div_s(b2b, nz));
        lemma_seq_add_rearrange(qa, syn_div_s(b3a, e_conj(z)), qb, syn_div_s(b3b, e_conj(z)));
    }
}

/// Accumulate-with-scalar alone is linear in its scalar coefficient.
pub proof fn lemma_mul_acc_linear(
    a1: Seq<(int, int)>,
    a2: Seq<(int, int)>,
    p: Seq<(int, int)>,
    k1: (int, int),
    k2: (int, int),
)
    requires
        a1.len() == a2.len(),
    ensures
        mul_acc_s(seq_add_s(a1, a2), p, e_add(k1, k2)) == seq_add_s(
            mul_acc_s(a1, p, k1),
            mul_acc_s(a2, p, k2),
        ),
{
    let lhs = mul_acc_s(seq_add_s(a1, a2), p, e_add(k1, k2));
    let rhs = seq_add_s(mul_acc_s(a1, p, k1), mul_acc_s(a2, p, k2));
    assert forall|i: int| 0 <= i < a1.len() implies #[trigger] lhs[i] == rhs[i] by {
        if i < p.len() {
            lemma_e_mul_dist(p[i], k1, k2);
            lemma_e_add_rearrange(a1[i], a2[i], e_mul(p[i], k1), e_mul(p[i], k2));
        }
    }
    assert(lhs =~= rhs);
}

/// The constraint-column fold keeps the length it starts from.
pub proof fn lemma_acc_cols_len(
    start: Seq<(int, int)>,
    cols: Seq<Seq<(int, int)>>,
    zm: (int, int),
    ks: Seq<(int, int)>,
    m: int,
)
    ensures
        acc_cols_s(start, cols, zm, ks, m).len() == start.len(),
    decreases m,
{
    if m > 0 {
        lemma_acc_cols_len(start, cols, zm, ks, m - 1);
    }
}

/// Linearity of the constraint composition: folding the columns onto the
/// sum of two starting vectors, under the summed per-column coefficients,
/// equals the coefficient-wise sum of the two separate folds.
pub proof fn lemma_cols_linearity(
    start1: Seq<(int, int)>,
    start2: Seq<(int, int)>,
    cols: Seq<Seq<(int, int)>>,
    zm: (int, int),
    ks1: Seq<(int, int)>,
    ks2: Seq<(int, int)>,
    kss: Seq<(int, int)>,
    m: int,
)
    requires
        start1.len() == start2.len(),
        forall|j: int| 0 <= j < m ==> #[trigger] kss[j] == e_add(ks1[j], ks2[j]),
    ensures
        acc_cols_s(seq_add_s(start1, start2), cols, zm, kss, m) == seq_add_s(
            acc_cols_s(start1, cols, zm, ks1, m),
            acc_cols_s(start2, cols, zm, ks2, m),
        ),
    decreases m,
{
    if m > 0 {
        lemma_cols_linearity(start1, start2, cols, zm, ks1, ks2, kss, m - 1);
        lemma_acc_cols_len(start1, cols, zm, ks1, m - 1);
        lemma_acc_cols_len(start2, cols, zm, ks2, m - 1);
        lemma_mul_acc_linear(
            acc_cols_s(start1, cols, zm, ks1, m - 1),
            acc_cols_s(start2, cols, zm, ks2, m - 1),
            col_quot_s(cols[m - 1], zm),
            ks1[m - 1],
            ks2[m - 1],
        );
    }
}

} // verus!
