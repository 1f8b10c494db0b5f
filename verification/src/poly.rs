//! Polynomial primitives over the extension field.
//!
//! A polynomial is a coefficient vector in ascending order of powers.
//! The specification-level model is a sequence of integer pairs, each a
//! reduced extension-field element; every operation here is stated against
//! that model: Horner evaluation, synthetic division by a linear factor,
//! accumulate-with-scalar, coefficient-wise addition, and degree.
use crate::field::{
    e_add, e_conj, e_mul, e_sub, e_wf, e_zero, ext_add, ext_from, ext_mul, ext_sub, ext_zero, Ext,
    Fe,
};
use vstd::prelude::*;

verus! {

/// The model of a coefficient vector: each element viewed as a pair.
pub open spec fn vs(s: Seq<Ext>) -> Seq<(int, int)> {
    Seq::new(s.len(), |i: int| s[i]@)
}

/// The model of a base-field coefficient vector.
pub open spec fn vb(s: Seq<Fe>) -> Seq<int> {
    Seq::new(s.len(), |i: int| s[i]@)
}

/// Embeds a base-field polynomial into the extension field.
pub open spec fn embs(s: Seq<int>) -> Seq<(int, int)> {
    Seq::new(s.len(), |i: int| (s[i], 0int))
}

/// The models of a table of base-field polynomials.
pub open spec fn vss(s: Seq<Vec<Fe>>) -> Seq<Seq<int>> {
    Seq::new(s.len(), |i: int| vb(s[i]@))
}

/// The models of a list of extension-field polynomials.
pub open spec fn vsse(s: Seq<Vec<Ext>>) -> Seq<Seq<(int, int)>> {
    Seq::new(s.len(), |i: int| vs(s[i]@))
}

/// Every element of the sequence is a reduced extension element.
pub open spec fn wf_seq(s: Seq<(int, int)>) -> bool {
    forall|i: int| 0 <= i < s.len() ==> e_wf(#[trigger] s[i])
}

/// Every element of the sequence is a reduced base element.
pub open spec fn wf_base(s: Seq<int>) -> bool {
    forall|i: int| 0 <= i < s.len() ==> 0 <= #[trigger] s[i] < (crate::field::P as int)
}

/// Horner evaluation: p(x) = p[0] + x * (p[1] + x * (...)).
pub open spec fn pe(p: Seq<(int, int)>, x: (int, int)) -> (int, int)
    decreases p.len(),
{
    if p.len() == 0 {
        e_zero()
    } else {
        e_add(p[0], e_mul(x, pe(p.skip(1), x)))
    }
}

/// The synthetic-division recurrence for dividing by (x - b): coefficient i
/// of the quotient, for 0 <= i < p.len() - 1. At i = -1 it yields the
/// remainder of the division.
pub open spec fn sdq(p: Seq<(int, int)>, b: (int, int), i: int) -> (int, int)
    decreases p.len() - i,
{
    if i + 1 >= p.len() {
        e_zero()
    } else {
        e_add(p[i + 1], e_mul(b, sdq(p, b, i + 1)))
    }
}

/// In-place synthetic division by (x - b): quotient coefficients in
/// positions 0 .. len-1, a zero in the top position; the remainder
/// (which is sdq(p, b, -1)) is discarded.
pub open spec fn syn_div_s(p: Seq<(int, int)>, b: (int, int)) -> Seq<(int, int)> {
    Seq::new(p.len(), |i: int| sdq(p, b, i))
}

/// Synthetic division of a non-empty vector; an empty one is left alone.
pub open spec fn div_or_keep_s(p: Seq<(int, int)>, b: (int, int)) -> Seq<(int, int)> {
    if p.len() == 0 {
        p
    } else {
        syn_div_s(p, b)
    }
}

/// Accumulate-with-scalar: acc[i] + p[i] * k wherever p reaches.
pub open spec fn mul_acc_s(acc: Seq<(int, int)>, p: Seq<(int, int)>, k: (int, int)) -> Seq<
    (int, int),
> {
    Seq::new(
        acc.len(),
        |i: int|
            if i < p.len() {
                e_add(acc[i], e_mul(p[i], k))
            } else {
                acc[i]
            },
    )
}

/// Subtracts a constant from the constant term.
pub open spec fn sub0_s(p: Seq<(int, int)>, v: (int, int)) -> Seq<(int, int)> {
    p.update(0, e_sub(p[0], v))
}

/// The named accumulate-then-subtract step: add p * k into the accumulator
/// and subtract value * k from its constant term, so that the accumulated
/// sum gains the term (p(x) - value) * k.
pub open spec fn acc_poly_s(
    acc: Seq<(int, int)>,
    p: Seq<(int, int)>,
    value: (int, int),
    k: (int, int),
) -> Seq<(int, int)> {
    sub0_s(mul_acc_s(acc, p, k), e_mul(value, k))
}

/// Coefficient-wise sum, keeping the length of the first argument.
pub open spec fn seq_add_s(a: Seq<(int, int)>, b: Seq<(int, int)>) -> Seq<(int, int)> {
    Seq::new(
        a.len(),
        |i: int|
            if i < b.len() {
                e_add(a[i], b[i])
            } else {
                a[i]
            },
    )
}

/// The all-zero polynomial of length n.
pub open spec fn zero_s(n: nat) -> Seq<(int, int)> {
    Seq::new(n, |i: int| e_zero())
}

/// The index of the highest non-zero coefficient; 0 for the zero or empty
/// polynomial.
pub open spec fn pdeg(p: Seq<(int, int)>) -> int
    decreases p.len(),
{
    if p.len() == 0 {
        0
    } else if p.last() != e_zero() {
        p.len() - 1
    } else {
        pdeg(p.drop_last())
    }
}

pub proof fn lemma_pdeg_bounds(p: Seq<(int, int)>)
    ensures
        0 <= pdeg(p),
        p.len() > 0 ==> pdeg(p) <= p.len() - 1,
    decreases p.len(),
{
    if p.len() > 0 && p.last() == e_zero() {
        lemma_pdeg_bounds(p.drop_last());
    }
}

/// Builds the all-zero polynomial of length n.
pub fn zeroed(n: usize) -> (r: Vec<Ext>)
    ensures
        r@.len() == n,
        vs(r@) == zero_s(n as nat),
        wf_seq(vs(r@)),
{
    let mut r: Vec<Ext> = Vec::new();
    let mut i: usize = 0;
    while i < n
        invariant
            i <= n,
            r@.len() == i,
            forall|j: int| 0 <= j < i ==> (#[trigger] r@[j])@ == e_zero(),
        decreases n - i,
    {
        r.push(ext_zero());
        i = i + 1;
    }
    proof {
        assert(vs(r@) =~= zero_s(n as nat));
    }
    r
}

/// Evaluates an extension-field polynomial at a point by Horner's rule.
pub fn eval(p: &Vec<Ext>, x: Ext) -> (r: Ext)
    requires
        wf_seq(vs(p@)),
        x.inv(),
    ensures
        r.inv(),
        r@ == pe(vs(p@), x@),
{
    let mut acc = ext_zero();
    let mut i: usize = p.len();
    while i > 0
        invariant
            i <= p@.len(),
            wf_seq(vs(p@)),
            x.inv(),
            acc.inv(),
            acc@ == pe(vs(p@).skip(i as int), x@),
        decreases i,
    {
        i = i - 1;
        proof {
            assert(vs(p@).skip(i as int).skip(1) =~= vs(p@).skip(i as int + 1));
            assert(vs(p@)[i as int] == p@[i as int]@);
        }
        acc = ext_add(ext_mul(x, acc), p[i]);
    }
    proof {
        assert(vs(p@).skip(0) =~= vs(p@));
    }
    acc
}

/// Evaluates a base-field polynomial at an extension point.
pub fn eval_base(p: &Vec<Fe>, x: Ext) -> (r: Ext)
    requires
        wf_base(vb(p@)),
        x.inv(),
    ensures
        r.inv(),
        r@ == pe(embs(vb(p@)), x@),
{
    let mut acc = ext_zero();
    let mut i: usize = p.len();
    while i > 0
        invariant
            i <= p@.len(),
            wf_base(vb(p@)),
            x.inv(),
            acc.inv(),
            acc@ == pe(embs(vb(p@)).skip(i as int), x@),
        decreases i,
    {
        i = i - 1;
        proof {
            assert(embs(vb(p@)).skip(i as int).skip(1) =~= embs(vb(p@)).skip(i as int + 1));
            assert(embs(vb(p@))[i as int] == (p@[i as int]@, 0int));
        }
        acc = ext_add(ext_mul(x, acc), ext_from(p[i]));
    }
    proof {
        assert(embs(vb(p@)).skip(0) =~= embs(vb(p@)));
    }
    acc
}

/// Divides in place by (x - b), assuming the caller knows b is a root;
/// the remainder is discarded, as in the specification model.
pub fn syn_div_in_place(p: &mut Vec<Ext>, b: Ext)
    requires
        wf_seq(vs(old(p)@)),
        b.inv(),
    ensures
        final(p)@.len() == old(p)@.len(),
        vs(final(p)@) == syn_div_s(vs(old(p)@), b@),
        wf_seq(vs(final(p)@)),
{
    let ghost orig = vs(old(p)@);
    let mut c = ext_zero();
    let mut i: usize = p.len();
    while i > 0
        invariant
            i <= p@.len(),
            p@.len() == orig.len(),
            b.inv(),
            c.inv(),
            wf_seq(orig),
            forall|j: int| 0 <= j < i ==> (#[trigger] p@[j])@ == orig[j],
            forall|j: int| i <= j < p@.len() ==> (#[trigger] p@[j])@ == sdq(orig, b@, j),
            forall|j: int| i <= j < p@.len() ==> e_wf((#[trigger] p@[j])@),
            c@ == sdq(orig, b@, i as int - 1),
        decreases i,
    {
        i = i - 1;
        proof {
            assert(p@[i as int]@ == orig[i as int]);
        }
        let t = ext_add(p[i], ext_mul(b, c));
        p[i] = c;
        c = t;
    }
    proof {
        assert(vs(p@) =~= syn_div_s(orig, b@));
    }
}

/// Divides a non-empty polynomial in place by (x - b); leaves an empty one
/// alone.
pub fn div_nonempty(p: &mut Vec<Ext>, b: Ext)
    requires
        wf_seq(vs(old(p)@)),
        b.inv(),
    ensures
        final(p)@.len() == old(p)@.len(),
        vs(final(p)@) == div_or_keep_s(vs(old(p)@), b@),
        wf_seq(vs(final(p)@)),
{
    if p.len() > 0 {
        syn_div_in_place(p, b);
    }
}

/// Adds p[i] * k into acc[i] for every index p reaches.
pub fn mul_acc(acc: &mut Vec<Ext>, p: &Vec<Ext>, k: Ext)
    requires
        wf_seq(vs(old(acc)@)),
        wf_seq(vs(p@)),
        k.inv(),
        p@.len() <= old(acc)@.len(),
    ensures
        final(acc)@.len() == old(acc)@.len(),
        vs(final(acc)@) == mul_acc_s(vs(old(acc)@), vs(p@), k@),
        wf_seq(vs(final(acc)@)),
{
    let n = p.len();
    let mut i: usize = 0;
    while i < n
        invariant
            i <= n,
            n == p@.len() <= acc@.len() == old(acc)@.len(),
            wf_seq(vs(p@)),
            k.inv(),
            forall|j: int|
                0 <= j < i ==> (#[trigger] acc@[j])@ == e_add(old(acc)@[j]@, e_mul(p@[j]@, k@)),
            forall|j: int| 0 <= j < i ==> e_wf((#[trigger] acc@[j])@),
            forall|j: int| i <= j < acc@.len() ==> acc@[j] == old(acc)@[j],
            wf_seq(vs(old(acc)@)),
        decreases n - i,
    {
        proof {
            assert(vs(old(acc)@)[i as int] == old(acc)@[i as int]@);
            assert(vs(p@)[i as int] == p@[i as int]@);
            assert(e_wf(acc@[i as int]@));
            assert(e_wf(p@[i as int]@));
        }
        let t = ext_add(acc[i], ext_mul(p[i], k));
        acc[i] = t;
        i = i + 1;
    }
    proof {
        assert(vs(acc@) =~= mul_acc_s(vs(old(acc)@), vs(p@), k@));
    }
}

/// Adds p[i] * k into acc[i] for a base-field polynomial p.
pub fn mul_acc_base(acc: &mut Vec<Ext>, p: &Vec<Fe>, k: Ext)
    requires
        wf_seq(vs(old(acc)@)),
        wf_base(vb(p@)),
        k.inv(),
        p@.len() <= old(acc)@.len(),
    ensures
        final(acc)@.len() == old(acc)@.len(),
        vs(final(acc)@) == mul_acc_s(vs(old(acc)@), embs(vb(p@)), k@),
        wf_seq(vs(final(acc)@)),
{
    let n = p.len();
    let mut i: usize = 0;
    while i < n
        invariant
            i <= n,
            n == p@.len() <= acc@.len() == old(acc)@.len(),
            wf_base(vb(p@)),
            k.inv(),
            forall|j: int|
                0 <= j < i ==> (#[trigger] acc@[j])@ == e_add(
                    old(acc)@[j]@,
                    e_mul((p@[j]@, 0int), k@),
                ),
            forall|j: int| 0 <= j < i ==> e_wf((#[trigger] acc@[j])@),
            forall|j: int| i <= j < acc@.len() ==> acc@[j] == old(acc)@[j],
            wf_seq(vs(old(acc)@)),
        decreases n - i,
    {
        proof {
            assert(vs(old(acc)@)[i as int] == old(acc)@[i as int]@);
            assert(e_wf(acc@[i as int]@));
            assert(0 <= p@[i as int]@ < (crate::field::P as int)) by {
                assert(vb(p@)[i as int] == p@[i as int]@);
            }
        }
        let t = ext_add(acc[i], ext_mul(ext_from(p[i]), k));
        acc[i] = t;
        i = i + 1;
    }
    proof {
        assert(vs(acc@) =~= mul_acc_s(vs(old(acc)@), embs(vb(p@)), k@));
    }
}

/// Coefficient-wise addition of p into acc.
pub fn add_in_place(acc: &mut Vec<Ext>, p: &Vec<Ext>)
    requires
        wf_seq(vs(old(acc)@)),
        wf_seq(vs(p@)),
        p@.len() <= old(acc)@.len(),
    ensures
        final(acc)@.len() == old(acc)@.len(),
        vs(final(acc)@) == seq_add_s(vs(old(acc)@), vs(p@)),
        wf_seq(vs(final(acc)@)),
{
    let n = p.len();
    let mut i: usize = 0;
    while i < n
        invariant
            i <= n,
            n == p@.len() <= acc@.len() == old(acc)@.len(),
            wf_seq(vs(p@)),
            forall|j: int| 0 <= j < i ==> (#[trigger] acc@[j])@ == e_add(old(acc)@[j]@, p@[j]@),
            forall|j: int| 0 <= j < i ==> e_wf((#[trigger] acc@[j])@),
            forall|j: int| i <= j < acc@.len() ==> acc@[j] == old(acc)@[j],
            wf_seq(vs(old(acc)@)),
        decreases n - i,
    {
        proof {
            assert(vs(old(acc)@)[i as int] == old(acc)@[i as int]@);
            assert(vs(p@)[i as int] == p@[i as int]@);
            assert(e_wf(acc@[i as int]@));
            assert(e_wf(p@[i as int]@));
        }
        let t = ext_add(acc[i], p[i]);
        acc[i] = t;
        i = i + 1;
    }
    proof {
        assert(vs(acc@) =~= seq_add_s(vs(old(acc)@), vs(p@)));
    }
}

/// The named helper of the trace-composition step: accumulates
/// (p(x) - value) * k into the accumulator, by an accumulate-with-scalar
/// pass followed by a constant-term correction.
pub fn acc_poly(acc: &mut Vec<Ext>, p: &Vec<Fe>, value: Ext, k: Ext)
    requires
        wf_seq(vs(old(acc)@)),
        wf_base(vb(p@)),
        value.inv(),
        k.inv(),
        p@.len() == old(acc)@.len(),
        old(acc)@.len() >= 1,
    ensures
        final(acc)@.len() == old(acc)@.len(),
        vs(final(acc)@) == acc_poly_s(vs(old(acc)@), embs(vb(p@)), value@, k@),
        wf_seq(vs(final(acc)@)),
{
    mul_acc_base(acc, p, k);
    let t = ext_mul(value, k);
    proof {
        assert(e_wf(vs(acc@)[0]));
        assert(vs(acc@)[0] == acc@[0]@);
    }
    let c = ext_sub(acc[0], t);
    acc[0] = c;
    proof {
        assert(vs(acc@) =~= acc_poly_s(vs(old(acc)@), embs(vb(p@)), value@, k@));
    }
}

/// One constraint column's share of phase two: evaluate at the point,
/// subtract the value from the constant term, divide by (x - point);
/// returns the evaluation.
pub fn process_column(p: &mut Vec<Ext>, z_m: Ext) -> (v: Ext)
    requires
        wf_seq(vs(old(p)@)),
        old(p)@.len() >= 1,
        z_m.inv(),
    ensures
        final(p)@.len() == old(p)@.len(),
        v.inv(),
        v@ == pe(vs(old(p)@), z_m@),
        vs(final(p)@) == syn_div_s(sub0_s(vs(old(p)@), pe(vs(old(p)@), z_m@)), z_m@),
        wf_seq(vs(final(p)@)),
{
    let v = eval(p, z_m);
    proof {
        assert(e_wf(vs(p@)[0]));
        assert(vs(p@)[0] == p@[0]@);
    }
    let c = ext_sub(p[0], v);
    p[0] = c;
    proof {
        assert(vs(p@) =~= sub0_s(vs(old(p)@), pe(vs(old(p)@), z_m@)));
    }
    syn_div_in_place(p, z_m);
    v
}

/// The index of the highest non-zero coefficient, scanning from the top.
pub fn degree_of(p: &Vec<Ext>) -> (r: usize)
    ensures
        r as int == pdeg(vs(p@)),
{
    let zero = ext_zero();
    let mut i: usize = p.len();
    proof {
        assert(vs(p@).take(p@.len() as int) =~= vs(p@));
    }
    while i > 0
        invariant
            i <= p@.len(),
            zero@ == e_zero(),
            zero == (Ext { c0: Fe { v: 0 }, c1: Fe { v: 0 } }),
            pdeg(vs(p@)) == pdeg(vs(p@).take(i as int)),
        decreases i,
    {
        let t = p[i - 1];
        if !(t == zero) {
            proof {
                let s = vs(p@).take(i as int);
                assert(s.last() == p@[i as int - 1]@);
                assert(s.last() != e_zero());
            }
            return i - 1;
        }
        proof {
            let s = vs(p@).take(i as int);
            assert(s.last() == p@[i as int - 1]@);
            assert(s.last() == e_zero());
            assert(s.drop_last() =~= vs(p@).take(i as int - 1));
        }
        i = i - 1;
    }
    proof {
        assert(vs(p@).take(0).len() == 0);
    }
    0
}

} // verus!
