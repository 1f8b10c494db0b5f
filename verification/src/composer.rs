//! The DEEP composition polynomial and its four phases.
//!
//! The composer owns one growing coefficient vector. Phase one folds the
//! trace polynomials in as quotients at the out-of-domain point z and its
//! shift z * g (and, under a field extension, the conjugate of z); phase
//! two folds in the constraint composition columns as quotients at z^m;
//! phase three raises the degree from trace_length - 2 to trace_length - 1;
//! phase four evaluates the result over the coset-shifted extended domain.
use crate::field::{
    e_add, e_conj, e_mul, e_pow, e_wf, ext_add, ext_conj, ext_from, ext_mul, ext_pow, fe_mul,
    fmul, fpow, get_root_of_unity, is_pow2, lemma_f_id, lemma_fmul_assoc, lemma_is_pow2_mul, lg,
    log2_exec, rou, Ext, Fe,
};
use crate::parallel::{par_divide_each, par_process_each, Strategy};
use crate::poly::{
    acc_poly, acc_poly_s, add_in_place, degree_of, embs, eval, eval_base, lemma_pdeg_bounds,
    mul_acc, mul_acc_s, pdeg, pe, process_column, seq_add_s, sub0_s, syn_div_in_place, syn_div_s,
    vb, vs, vss, vsse, wf_base, wf_seq, zero_s, zeroed,
};
use vstd::prelude::*;

verus! {

/// The options the composer reads from the proving context: whether the
/// proof runs over a non-trivial field extension, and how independent
/// per-polynomial work is scheduled.
pub struct ContextOptions {
    pub field_extension: bool,
    pub strategy: Strategy,
}

/// The coefficient bundle drawn once from the transcript: a triple per
/// trace register, one coefficient per constraint column, and a pair for
/// the final degree adjustment.
pub struct CompositionCoefficients {
    pub trace: Vec<(Ext, Ext, Ext)>,
    pub constraints: Vec<Ext>,
    pub degree: (Ext, Ext),
}

impl CompositionCoefficients {
    /// Every coefficient is a reduced extension element.
    pub open spec fn inv(&self) -> bool {
        &&& forall|i: int|
            0 <= i < self.trace@.len() ==> e_wf((#[trigger] self.trace@[i]).0@) && e_wf(
                self.trace@[i].1@,
            ) && e_wf(self.trace@[i].2@)
        &&& forall|i: int| 0 <= i < self.constraints@.len() ==> e_wf(
            (#[trigger] self.constraints@[i])@,
        )
        &&& e_wf(self.degree.0@)
        &&& e_wf(self.degree.1@)
    }
}

/// The first components of the per-register coefficient triples.
pub open spec fn cc_t0(cc: CompositionCoefficients) -> Seq<(int, int)> {
    Seq::new(cc.trace@.len(), |i: int| cc.trace@[i].0@)
}

/// The second components of the per-register coefficient triples.
pub open spec fn cc_t1(cc: CompositionCoefficients) -> Seq<(int, int)> {
    Seq::new(cc.trace@.len(), |i: int| cc.trace@[i].1@)
}

/// The third (conjugate-term) components of the per-register triples.
pub open spec fn cc_t2(cc: CompositionCoefficients) -> Seq<(int, int)> {
    Seq::new(cc.trace@.len(), |i: int| cc.trace@[i].2@)
}

/// The per-column constraint coefficients.
pub open spec fn cc_cons(cc: CompositionCoefficients) -> Seq<(int, int)> {
    Seq::new(cc.constraints@.len(), |i: int| cc.constraints@[i]@)
}

/// The out-of-domain frame: trace-register states at z and at z * g,
/// returned to the caller for inclusion in the proof transcript.
pub struct EvaluationFrame {
    pub current: Vec<Ext>,
    pub next: Vec<Ext>,
}

/// One interpolated polynomial per trace register, all of the same
/// power-of-two length.
pub struct TracePolyTable {
    pub polys: Vec<Vec<Fe>>,
}

impl TracePolyTable {
    /// At least one register; equal power-of-two lengths between 2 and
    /// 2^27; reduced coefficients.
    pub open spec fn inv(&self) -> bool {
        &&& self.polys@.len() >= 1
        &&& forall|i: int|
            0 <= i < self.polys@.len() ==> (#[trigger] self.polys@[i])@.len()
                == self.polys@[0]@.len()
        &&& is_pow2(self.polys@[0]@.len())
        &&& 2 <= self.polys@[0]@.len() <= 134217728
        &&& forall|i: int| 0 <= i < self.polys@.len() ==> wf_base(vb((#[trigger] self.polys@[i])@))
    }

    /// The shared length of the register polynomials.
    pub open spec fn spec_poly_size(&self) -> nat {
        self.polys@[0]@.len()
    }

    pub fn new(polys: Vec<Vec<Fe>>) -> (r: Self)
        requires
            (TracePolyTable { polys }).inv(),
        ensures
            r.polys == polys,
            r.inv(),
    {
        TracePolyTable { polys }
    }

    /// The length of each trace polynomial, which is the trace length.
    pub fn poly_size(&self) -> (r: usize)
        requires
            self.inv(),
        ensures
            r == self.spec_poly_size(),
    {
        self.polys[0].len()
    }

    /// The number of trace registers.
    pub fn num_polys(&self) -> (r: usize)
        ensures
            r == self.polys@.len(),
    {
        self.polys.len()
    }

    /// Evaluates every register polynomial at the point x.
    pub fn evaluate_at(&self, x: Ext) -> (r: Vec<Ext>)
        requires
            self.inv(),
            x.inv(),
        ensures
            r@.len() == self.polys@.len(),
            forall|i: int|
                0 <= i < r@.len() ==> (#[trigger] r@[i])@ == pe(embs(vb(self.polys@[i]@)), x@)
                    && r@[i].inv(),
    {
        let mut r: Vec<Ext> = Vec::new();
        let mut i: usize = 0;
        while i < self.polys.len()
            invariant
                i <= self.polys@.len(),
                r@.len() == i,
                self.inv(),
                x.inv(),
                forall|j: int|
                    0 <= j < i ==> (#[trigger] r@[j])@ == pe(embs(vb(self.polys@[j]@)), x@)
                        && r@[j].inv(),
            decreases self.polys@.len() - i,
        {
            r.push(eval_base(&self.polys[i], x));
            i = i + 1;
        }
        r
    }

    /// Surrenders the underlying polynomials.
    pub fn into_vec(self) -> (r: Vec<Vec<Fe>>)
        ensures
            r == self.polys,
    {
        self.polys
    }
}

/// The constraint composition polynomial, one column per batch of
/// constraints, all columns of the trace length.
pub struct CompositionPoly {
    pub columns: Vec<Vec<Ext>>,
}

impl CompositionPoly {
    /// At least one column; equal non-zero lengths; reduced coefficients.
    pub open spec fn inv(&self) -> bool {
        &&& self.columns@.len() >= 1
        &&& self.columns@[0]@.len() >= 1
        &&& forall|i: int|
            0 <= i < self.columns@.len() ==> (#[trigger] self.columns@[i])@.len()
                == self.columns@[0]@.len()
        &&& forall|i: int| 0 <= i < self.columns@.len() ==> wf_seq(
            vs((#[trigger] self.columns@[i])@),
        )
    }

    pub fn new(columns: Vec<Vec<Ext>>) -> (r: Self)
        requires
            (CompositionPoly { columns }).inv(),
        ensures
            r.columns == columns,
            r.inv(),
    {
        CompositionPoly { columns }
    }

    /// The number of columns.
    pub fn num_columns(&self) -> (r: usize)
        ensures
            r == self.columns@.len(),
    {
        self.columns.len()
    }

    /// Surrenders the underlying columns.
    pub fn into_columns(self) -> (r: Vec<Vec<Ext>>)
        ensures
            r == self.columns,
    {
        self.columns
    }
}

/// The extended evaluation domain: the trace length, the blow-up factor of
/// the extension, and the coset offset.
pub struct DomainDescriptor {
    pub trace_length: usize,
    pub blowup: usize,
    pub offset: Fe,
}

impl DomainDescriptor {
    /// Power-of-two sizes whose product stays within the root-of-unity
    /// table, and a reduced offset.
    pub open spec fn inv(&self) -> bool {
        &&& is_pow2(self.trace_length as nat)
        &&& is_pow2(self.blowup as nat)
        &&& self.trace_length >= 2
        &&& self.blowup >= 1
        &&& self.trace_length * self.blowup <= 134217728
        &&& self.offset.inv()
    }

    pub fn new(trace_length: usize, blowup: usize, offset: Fe) -> (r: Self)
        requires
            (DomainDescriptor { trace_length, blowup, offset }).inv(),
        ensures
            r == (DomainDescriptor { trace_length, blowup, offset }),
            r.inv(),
    {
        DomainDescriptor { trace_length, blowup, offset }
    }

    /// The coset offset of the extended domain.
    pub fn offset(&self) -> (r: Fe)
        ensures
            r == self.offset,
    {
        self.offset
    }

    /// The ratio of the extended domain size to the trace length.
    pub fn trace_to_lde_blowup(&self) -> (r: usize)
        ensures
            r == self.blowup,
    {
        self.blowup
    }
}

/// Every register polynomial of the table evaluated at x.
pub open spec fn states_at(tbl: Seq<Seq<int>>, x: (int, int)) -> Seq<(int, int)> {
    Seq::new(tbl.len(), |i: int| pe(embs(tbl[i]), x))
}

/// The conjugate of every state.
pub open spec fn conj_states(s: Seq<(int, int)>) -> Seq<(int, int)> {
    Seq::new(s.len(), |i: int| e_conj(s[i]))
}

/// The second out-of-domain point z * g, where g generates the trace
/// domain of size n.
pub open spec fn next_z_s(z: (int, int), n: nat) -> (int, int) {
    e_mul(z, (rou(lg(n)), 0int))
}

/// The first m registers folded into one buffer of length n: register i
/// contributes (T_i(x) - states[i]) * ks[i].
pub open spec fn buffer_s(
    tbl: Seq<Seq<int>>,
    states: Seq<(int, int)>,
    ks: Seq<(int, int)>,
    n: nat,
    m: int,
) -> Seq<(int, int)>
    decreases m,
{
    if m <= 0 {
        zero_s(n)
    } else {
        acc_poly_s(buffer_s(tbl, states, ks, n, m - 1), embs(tbl[m - 1]), states[m - 1], ks[m - 1])
    }
}

/// The first m buffers, each divided by its divisor, summed; empty buffers
/// are passed over without dividing.
pub open spec fn merge_s(ps: Seq<Seq<(int, int)>>, ds: Seq<(int, int)>, m: int) -> Seq<(int, int)>
    decreases m,
{
    if m <= 1 {
        syn_div_s(ps[0], ds[0])
    } else if ps[m - 1].len() == 0 {
        merge_s(ps, ds, m - 1)
    } else {
        seq_add_s(merge_s(ps, ds, m - 1), syn_div_s(ps[m - 1], ds[m - 1]))
    }
}

/// The whole of phase one: the three buffers over the trace table, each
/// divided by x - z, x - z * g, x - conj(z) respectively, summed. The
/// conjugate buffer exists only under a field extension.
pub open spec fn deep_trace_s(
    tbl: Seq<Seq<int>>,
    n: nat,
    z: (int, int),
    cc: CompositionCoefficients,
    ext: bool,
) -> Seq<(int, int)> {
    let m = tbl.len() as int;
    let nz = next_z_s(z, n);
    let s1 = states_at(tbl, z);
    let b1 = buffer_s(tbl, s1, cc_t0(cc), n, m);
    let b2 = buffer_s(tbl, states_at(tbl, nz), cc_t1(cc), n, m);
    let q = seq_add_s(syn_div_s(b1, z), syn_div_s(b2, nz));
    if ext {
        seq_add_s(q, syn_div_s(buffer_s(tbl, conj_states(s1), cc_t2(cc), n, m), e_conj(z)))
    } else {
        q
    }
}

/// One constraint column's quotient (H(x) - H(zm)) / (x - zm).
pub open spec fn col_quot_s(col: Seq<(int, int)>, zm: (int, int)) -> Seq<(int, int)> {
    syn_div_s(sub0_s(col, pe(col, zm)), zm)
}

/// The whole of phase two: the first m column quotients scaled by their
/// coefficients and accumulated onto the starting vector.
pub open spec fn acc_cols_s(
    start: Seq<(int, int)>,
    cols: Seq<Seq<(int, int)>>,
    zm: (int, int),
    ks: Seq<(int, int)>,
    m: int,
) -> Seq<(int, int)>
    decreases m,
{
    if m <= 0 {
        start
    } else {
        mul_acc_s(acc_cols_s(start, cols, zm, ks, m - 1), col_quot_s(cols[m - 1], zm), ks[m - 1])
    }
}

/// The whole of phase three: C(x) * d0 + x * C(x) * d1, truncated to the
/// original length (the top coefficient of C is zero when its degree is
/// below the top).
pub open spec fn adjust_s(p: Seq<(int, int)>, d0: (int, int), d1: (int, int)) -> Seq<(int, int)> {
    Seq::new(
        p.len(),
        |i: int|
            if i == 0 {
                e_mul(p[0], d0)
            } else {
                e_add(e_mul(p[i], d0), e_mul(p[i - 1], d1))
            },
    )
}

/// The i-th point of the extended domain of the given size: offset * g^i.
pub open spec fn lde_point(offset: int, size: nat, i: nat) -> int {
    fmul(offset, fpow(rou(lg(size)), i))
}

/// Divides each polynomial by its divisor (passing over empty ones) and
/// sums the results coefficient-wise. Serial and parallel scheduling give
/// the same result, stated by the one contract below.
pub fn merge_trace_compositions(polys: Vec<Vec<Ext>>, divisors: Vec<Ext>, strategy: Strategy) -> (r:
    Vec<Ext>)
    requires
        polys@.len() >= 1,
        divisors@.len() == polys@.len(),
        polys@[0]@.len() >= 1,
        forall|i: int|
            0 <= i < polys@.len() ==> ((#[trigger] polys@[i])@.len() == 0 || polys@[i]@.len()
                == polys@[0]@.len()),
        forall|i: int| 0 <= i < polys@.len() ==> wf_seq(vs((#[trigger] polys@[i])@)),
        forall|i: int| 0 <= i < divisors@.len() ==> (#[trigger] divisors@[i]).inv(),
    ensures
        r@.len() == polys@[0]@.len(),
        vs(r@) == merge_s(vsse(polys@), vs(divisors@), polys@.len() as int),
        wf_seq(vs(r@)),
{
    let ghost origp = polys@;
    let ghost origd = divisors@;
    let count = polys.len();
    let mut ps = polys;
    match strategy {
        Strategy::Parallel => {
            par_divide_each(&mut ps, &divisors);
        },
        Strategy::Serial => {
            let mut i: usize = 0;
            while i < count
                invariant
                    i <= count,
                    ps@.len() == count == origp.len() == origd.len(),
                    divisors@ == origd,
                    forall|j: int| 0 <= j < origp.len() ==> wf_seq(vs(#[trigger] origp[j]@)),
                    forall|j: int| 0 <= j < origd.len() ==> (#[trigger] origd[j]).inv(),
                    forall|j: int|
                        0 <= j < i ==> vs(#[trigger] ps@[j]@) == crate::poly::div_or_keep_s(
                            vs(origp[j]@),
                            origd[j]@,
                        ) && ps@[j]@.len() == origp[j]@.len() && wf_seq(vs(ps@[j]@)),
                    forall|j: int| i <= j < count ==> ps@[j] == origp[j],
                decreases count - i,
            {
                let d = divisors[i];
                proof {
                    assert(ps@[i as int] == origp[i as int]);
                }
                crate::poly::div_nonempty(&mut ps[i], d);
                i = i + 1;
            }
        },
    }
    assert(ps@.len() == count);
    assert(forall|j: int|
        0 <= j < count ==> vs(#[trigger] ps@[j]@) == crate::poly::div_or_keep_s(
            vs(origp[j]@),
            origd[j]@,
        ) && ps@[j]@.len() == origp[j]@.len() && wf_seq(vs(ps@[j]@)));
    let mut result = ps.remove(0);
    proof {
        assert(vsse(origp)[0] == vs(origp[0]@));
        assert(vs(result@) == syn_div_s(vsse(origp)[0], vs(origd)[0]));
        assert(vs(result@) == merge_s(vsse(origp), vs(origd), 1));
    }
    let mut i: usize = 1;
    while i < count
        invariant
            1 <= i <= count,
            ps@.len() == count - 1,
            count == origp.len() == origd.len(),
            result@.len() == origp[0]@.len(),
            wf_seq(vs(result@)),
            vs(result@) == merge_s(vsse(origp), vs(origd), i as int),
            forall|j: int|
                0 <= j < count - 1 ==> vs(#[trigger] ps@[j]@) == crate::poly::div_or_keep_s(
                    vs(origp[j + 1]@),
                    origd[j + 1]@,
                ) && ps@[j]@.len() == origp[j + 1]@.len() && wf_seq(vs(ps@[j]@)),
            forall|j: int|
                0 <= j < origp.len() ==> ((#[trigger] origp[j]@).len() == 0 || origp[j]@.len()
                    == origp[0]@.len()),
        decreases count - i,
    {
        let pl = ps[i - 1].len();
        proof {
            assert(vs(ps@[i as int - 1]@) == crate::poly::div_or_keep_s(
                vs(origp[i as int]@),
                origd[i as int]@,
            ));
            assert(vsse(origp)[i as int] == vs(origp[i as int]@));
        }
        if pl > 0 {
            add_in_place(&mut result, &ps[i - 1]);
            proof {
                assert(vs(ps@[i as int - 1]@) == syn_div_s(vs(origp[i as int]@), origd[i as int]@));
                assert(merge_s(vsse(origp), vs(origd), i as int + 1) == seq_add_s(
                    merge_s(vsse(origp), vs(origd), i as int),
                    syn_div_s(vsse(origp)[i as int], vs(origd)[i as int]),
                ));
            }
        } else {
            proof {
                assert(vsse(origp)[i as int].len() == 0);
                assert(merge_s(vsse(origp), vs(origd), i as int + 1) == merge_s(
                    vsse(origp),
                    vs(origd),
                    i as int,
                ));
            }
        }
        i = i + 1;
    }
    result
}

/// The DEEP composition polynomial under construction: the accumulating
/// coefficient vector together with the immutable challenge, coefficient
/// bundle, extension flag and scheduling strategy.
pub struct DeepCompositionPoly {
    pub coefficients: Vec<Ext>,
    pub cc: CompositionCoefficients,
    pub z: Ext,
    pub field_extension: bool,
    pub strategy: Strategy,
}

impl DeepCompositionPoly {
    /// The challenge, the bundle and every accumulated coefficient are
    /// reduced field elements.
    pub open spec fn inv(&self) -> bool {
        self.z.inv() && self.cc.inv() && wf_seq(vs(self.coefficients@))
    }

    /// Returns a new, empty DEEP composition polynomial, to be populated
    /// by the composition phases.
    pub fn new(context: &ContextOptions, z: Ext, cc: CompositionCoefficients) -> (r: Self)
        requires
            z.inv(),
            cc.inv(),
        ensures
            r.inv(),
            r.coefficients@.len() == 0,
            r.z == z,
            r.cc == cc,
            r.field_extension == context.field_extension,
            r.strategy == context.strategy,
    {
        DeepCompositionPoly {
            coefficients: Vec::new(),
            cc,
            z,
            field_extension: context.field_extension,
            strategy: context.strategy,
        }
    }

    /// The size of the coefficient vector.
    pub fn poly_size(&self) -> (r: usize)
        ensures
            r == self.coefficients@.len(),
    {
        self.coefficients.len()
    }

    /// The degree of the polynomial under construction.
    pub fn degree(&self) -> (r: usize)
        ensures
            r as int == pdeg(vs(self.coefficients@)),
    {
        degree_of(&self.coefficients)
    }

    /// Phase one: folds the whole trace polynomial table into the (empty)
    /// coefficient vector and returns the out-of-domain frame. The last
    /// precondition mirrors the degree check of phase one: the random
    /// coefficients must not cancel the leading term, else the composer
    /// would have to abort.
    pub fn add_trace_polys(&mut self, trace_polys: TracePolyTable) -> (frame: EvaluationFrame)
        requires
            old(self).inv(),
            old(self).coefficients@.len() == 0,
            trace_polys.inv(),
            old(self).cc.trace@.len() >= trace_polys.polys@.len(),
            pdeg(
                deep_trace_s(
                    vss(trace_polys.polys@),
                    trace_polys.spec_poly_size(),
                    old(self).z@,
                    old(self).cc,
                    old(self).field_extension,
                ),
            ) == trace_polys.spec_poly_size() - 2,
        ensures
            final(self).inv(),
            final(self).coefficients@.len() == trace_polys.spec_poly_size(),
            vs(final(self).coefficients@) == deep_trace_s(
                vss(trace_polys.polys@),
                trace_polys.spec_poly_size(),
                old(self).z@,
                old(self).cc,
                old(self).field_extension,
            ),
            pdeg(vs(final(self).coefficients@)) == trace_polys.spec_poly_size() - 2,
            final(self).cc == old(self).cc,
            final(self).z == old(self).z,
            final(self).field_extension == old(self).field_extension,
            final(self).strategy == old(self).strategy,
            frame.current@.len() == trace_polys.polys@.len(),
            frame.next@.len() == trace_polys.polys@.len(),
            forall|i: int|
                0 <= i < frame.current@.len() ==> (#[trigger] frame.current@[i])@ == states_at(
                    vss(trace_polys.polys@),
                    old(self).z@,
                )[i] && frame.current@[i].inv(),
            forall|i: int|
                0 <= i < frame.next@.len() ==> (#[trigger] frame.next@[i])@ == states_at(
                    vss(trace_polys.polys@),
                    next_z_s(old(self).z@, trace_polys.spec_poly_size()),
                )[i] && frame.next@[i].inv(),
    {
        let ghost tbl = vss(trace_polys.polys@);
        let ghost n_spec = trace_polys.spec_poly_size();
        let ghost z0 = old(self).z@;
        let nregs = trace_polys.num_polys();
        let n = trace_polys.poly_size();
        let lgn = log2_exec(n);
        let g = get_root_of_unity(lgn);
        let next_z = ext_mul(self.z, ext_from(g));
        proof {
            assert(next_z@ == next_z_s(z0, n_spec));
        }
        let state1 = trace_polys.evaluate_at(self.z);
        let state2 = trace_polys.evaluate_at(next_z);
        let ghost s1v = states_at(tbl, z0);
        let ghost s2v = states_at(tbl, next_z_s(z0, n_spec));
        proof {
            assert(forall|j: int|
                0 <= j < nregs ==> embs(vb(trace_polys.polys@[j]@)) == embs(#[trigger] tbl[j]));
            assert(forall|j: int|
                0 <= j < nregs ==> (#[trigger] state1@[j])@ == s1v[j] && state1@[j].inv());
            assert(forall|j: int|
                0 <= j < nregs ==> (#[trigger] state2@[j])@ == s2v[j] && state2@[j].inv());
        }
        let z_local = self.z;
        let zc = ext_conj(z_local);
        let ext_flag = self.field_extension;
        let polys = trace_polys.into_vec();
        let mut t1 = zeroed(n);
        let mut t2 = zeroed(n);
        let mut t3: Vec<Ext> = if ext_flag {
            zeroed(n)
        } else {
            Vec::new()
        };
        let mut i: usize = 0;
        while i < nregs
            invariant
                i <= nregs,
                *self == *old(self),
                old(self).inv(),
                polys@.len() == nregs,
                tbl == vss(polys@),
                n as nat == n_spec,
                n >= 2,
                s1v == states_at(tbl, z0),
                s2v == states_at(tbl, next_z_s(z0, n_spec)),
                z0 == old(self).z@,
                forall|j: int|
                    0 <= j < nregs ==> (#[trigger] polys@[j])@.len() == n_spec && wf_base(
                        vb(polys@[j]@),
                    ),
                state1@.len() == nregs,
                state2@.len() == nregs,
                forall|j: int|
                    0 <= j < nregs ==> (#[trigger] state1@[j])@ == s1v[j] && state1@[j].inv(),
                forall|j: int|
                    0 <= j < nregs ==> (#[trigger] state2@[j])@ == s2v[j] && state2@[j].inv(),
                old(self).cc.trace@.len() >= nregs,
                t1@.len() == n,
                t2@.len() == n,
                wf_seq(vs(t1@)),
                wf_seq(vs(t2@)),
                wf_seq(vs(t3@)),
                vs(t1@) == buffer_s(tbl, s1v, cc_t0(old(self).cc), n_spec, i as int),
                vs(t2@) == buffer_s(tbl, s2v, cc_t1(old(self).cc), n_spec, i as int),
                ext_flag == old(self).field_extension,
                ext_flag ==> t3@.len() == n && vs(t3@) == buffer_s(
                    tbl,
                    conj_states(s1v),
                    cc_t2(old(self).cc),
                    n_spec,
                    i as int,
                ),
                !ext_flag ==> t3@.len() == 0,
            decreases nregs - i,
        {
            let cci = self.cc.trace[i];
            proof {
                assert(e_wf(cci.0@) && e_wf(cci.1@) && e_wf(cci.2@));
                assert(tbl[i as int] == vb(polys@[i as int]@));
                assert(cc_t0(old(self).cc)[i as int] == cci.0@);
                assert(cc_t1(old(self).cc)[i as int] == cci.1@);
                assert(cc_t2(old(self).cc)[i as int] == cci.2@);
            }
            acc_poly(&mut t1, &polys[i], state1[i], cci.0);
            acc_poly(&mut t2, &polys[i], state2[i], cci.1);
            proof {
                assert(vs(t1@) == buffer_s(tbl, s1v, cc_t0(old(self).cc), n_spec, i as int + 1));
                assert(vs(t2@) == buffer_s(tbl, s2v, cc_t1(old(self).cc), n_spec, i as int + 1));
            }
            if ext_flag {
                let sc = ext_conj(state1[i]);
                proof {
                    assert(sc@ == conj_states(s1v)[i as int]);
                }
                acc_poly(&mut t3, &polys[i], sc, cci.2);
                proof {
                    assert(vs(t3@) == buffer_s(
                        tbl,
                        conj_states(s1v),
                        cc_t2(old(self).cc),
                        n_spec,
                        i as int + 1,
                    ));
                }
            }
            i = i + 1;
        }
        let ghost b1v = vs(t1@);
        let ghost b2v = vs(t2@);
        let ghost b3v = vs(t3@);
        let mut buffers: Vec<Vec<Ext>> = Vec::new();
        buffers.push(t1);
        buffers.push(t2);
        buffers.push(t3);
        let mut divisors: Vec<Ext> = Vec::new();
        divisors.push(z_local);
        divisors.push(next_z);
        divisors.push(zc);
        proof {
            assert(vsse(buffers@)[0] == b1v && vsse(buffers@)[1] == b2v && vsse(buffers@)[2]
                == b3v);
            assert(vs(divisors@)[0] == z0 && vs(divisors@)[1] == next_z_s(z0, n_spec) && vs(
                divisors@,
            )[2] == e_conj(z0));
        }
        let trace_poly = merge_trace_compositions(buffers, divisors, self.strategy);
        proof {
            let psv = vsse(buffers@);
            let dsv = vs(divisors@);
            assert(merge_s(psv, dsv, 1) == syn_div_s(b1v, z0));
            assert(psv[1].len() == n);
            assert(merge_s(psv, dsv, 2) == seq_add_s(
                merge_s(psv, dsv, 1),
                syn_div_s(b2v, next_z_s(z0, n_spec)),
            ));
            if ext_flag {
                assert(psv[2].len() == n);
                assert(merge_s(psv, dsv, 3) == seq_add_s(
                    merge_s(psv, dsv, 2),
                    syn_div_s(b3v, e_conj(z0)),
                ));
            } else {
                assert(psv[2].len() == 0);
                assert(merge_s(psv, dsv, 3) == merge_s(psv, dsv, 2));
            }
            assert(vs(trace_poly@) == deep_trace_s(
                tbl,
                n_spec,
                z0,
                old(self).cc,
                old(self).field_extension,
            ));
        }
        self.coefficients = trace_poly;
        EvaluationFrame { current: state1, next: state2 }
    }

    /// Phase two: folds the constraint composition columns, as quotients at
    /// z^m, into the coefficient vector; returns the column evaluations at
    /// z^m for the transcript. Requires phase one to have run, and the
    /// accumulated coefficients not to disturb the degree.
    pub fn add_composition_poly(&mut self, composition_poly: CompositionPoly) -> (r: Vec<Ext>)
        requires
            old(self).inv(),
            old(self).coefficients@.len() >= 1,
            composition_poly.inv(),
            composition_poly.columns@[0]@.len() == old(self).coefficients@.len(),
            old(self).cc.constraints@.len() >= composition_poly.columns@.len(),
            pdeg(
                acc_cols_s(
                    vs(old(self).coefficients@),
                    vsse(composition_poly.columns@),
                    e_pow(old(self).z@, composition_poly.columns@.len()),
                    cc_cons(old(self).cc),
                    composition_poly.columns@.len() as int,
                ),
            ) == old(self).coefficients@.len() - 2,
        ensures
            final(self).inv(),
            final(self).coefficients@.len() == old(self).coefficients@.len(),
            vs(final(self).coefficients@) == acc_cols_s(
                vs(old(self).coefficients@),
                vsse(composition_poly.columns@),
                e_pow(old(self).z@, composition_poly.columns@.len()),
                cc_cons(old(self).cc),
                composition_poly.columns@.len() as int,
            ),
            pdeg(vs(final(self).coefficients@)) == old(self).coefficients@.len() - 2,
            final(self).cc == old(self).cc,
            final(self).z == old(self).z,
            final(self).field_extension == old(self).field_extension,
            final(self).strategy == old(self).strategy,
            r@.len() == composition_poly.columns@.len(),
            forall|i: int|
                0 <= i < r@.len() ==> (#[trigger] r@[i])@ == pe(
                    vsse(composition_poly.columns@)[i],
                    e_pow(old(self).z@, composition_poly.columns@.len()),
                ) && r@[i].inv(),
    {
        let ghost colsv = vsse(composition_poly.columns@);
        let ghost origc = composition_poly.columns@;
        let ghost clen = composition_poly.columns@[0]@.len();
        let m = composition_poly.num_columns();
        let z_m = ext_pow(self.z, m);
        let ghost zmv = e_pow(old(self).z@, m as nat);
        let mut cols = composition_poly.into_columns();
        let values: Vec<Ext>;
        match self.strategy {
            Strategy::Parallel => {
                proof {
                    assert(forall|j: int|
                        0 <= j < m ==> wf_seq(vs(#[trigger] cols@[j]@)) && cols@[j]@.len()
                            == clen);
                }
                values = par_process_each(&mut cols, z_m);
            },
            Strategy::Serial => {
                let mut vv: Vec<Ext> = Vec::new();
                let mut i: usize = 0;
                while i < m
                    invariant
                        i <= m,
                        cols@.len() == m == origc.len() == colsv.len(),
                        vv@.len() == i,
                        z_m.inv(),
                        z_m@ == zmv,
                        colsv == vsse(origc),
                        forall|j: int|
                            0 <= j < m ==> (#[trigger] origc[j])@.len() == clen && wf_seq(
                                vs(origc[j]@),
                            ),
                        clen >= 1,
                        forall|j: int| i <= j < m ==> cols@[j] == origc[j],
                        forall|j: int|
                            0 <= j < i ==> vs(#[trigger] cols@[j]@) == col_quot_s(colsv[j], zmv)
                                && cols@[j]@.len() == clen && wf_seq(vs(cols@[j]@)),
                        forall|j: int|
                            0 <= j < i ==> (#[trigger] vv@[j])@ == pe(colsv[j], zmv)
                                && vv@[j].inv(),
                    decreases m - i,
                {
                    proof {
                        assert(cols@[i as int] == origc[i as int]);
                        assert(colsv[i as int] == vs(origc[i as int]@));
                    }
                    let v = process_column(&mut cols[i], z_m);
                    vv.push(v);
                    i = i + 1;
                }
                values = vv;
            },
        }
        proof {
            assert(forall|j: int|
                0 <= j < m ==> vs(#[trigger] cols@[j]@) == col_quot_s(colsv[j], zmv)
                    && cols@[j]@.len() == clen && wf_seq(vs(cols@[j]@)));
            assert(forall|j: int|
                0 <= j < m ==> (#[trigger] values@[j])@ == pe(colsv[j], zmv) && values@[j].inv());
        }
        let ghost start = vs(old(self).coefficients@);
        let mut i: usize = 0;
        while i < m
            invariant
                i <= m,
                cols@.len() == m,
                self.cc == old(self).cc,
                self.z == old(self).z,
                self.field_extension == old(self).field_extension,
                self.strategy == old(self).strategy,
                old(self).inv(),
                self.coefficients@.len() == old(self).coefficients@.len() == clen,
                wf_seq(vs(self.coefficients@)),
                start == vs(old(self).coefficients@),
                zmv == e_pow(old(self).z@, m as nat),
                colsv.len() == m,
                old(self).cc.constraints@.len() >= m,
                vs(self.coefficients@) == acc_cols_s(
                    start,
                    colsv,
                    zmv,
                    cc_cons(old(self).cc),
                    i as int,
                ),
                forall|j: int|
                    0 <= j < m ==> vs(#[trigger] cols@[j]@) == col_quot_s(colsv[j], zmv)
                        && cols@[j]@.len() == clen && wf_seq(vs(cols@[j]@)),
            decreases m - i,
        {
            let k = self.cc.constraints[i];
            proof {
                assert(e_wf(k@));
                assert(cc_cons(old(self).cc)[i as int] == k@);
            }
            mul_acc(&mut self.coefficients, &cols[i], k);
            proof {
                assert(vs(self.coefficients@) == acc_cols_s(
                    start,
                    colsv,
                    zmv,
                    cc_cons(old(self).cc),
                    i as int + 1,
                ));
            }
            i = i + 1;
        }
        values
    }

    /// Phase three: replaces C(x) by C(x) * d0 + x * C(x) * d1, raising the
    /// degree from trace_length - 2 to trace_length - 1. The last
    /// precondition mirrors the degree check: d1 must not cancel the new
    /// leading term.
    pub fn adjust_degree(&mut self)
        requires
            old(self).inv(),
            pdeg(vs(old(self).coefficients@)) == old(self).coefficients@.len() - 2,
            pdeg(
                adjust_s(
                    vs(old(self).coefficients@),
                    old(self).cc.degree.0@,
                    old(self).cc.degree.1@,
                ),
            ) == old(self).coefficients@.len() - 1,
        ensures
            final(self).inv(),
            final(self).coefficients@.len() == old(self).coefficients@.len(),
            vs(final(self).coefficients@) == adjust_s(
                vs(old(self).coefficients@),
                old(self).cc.degree.0@,
                old(self).cc.degree.1@,
            ),
            pdeg(vs(final(self).coefficients@)) == old(self).coefficients@.len() - 1,
            final(self).cc == old(self).cc,
            final(self).z == old(self).z,
            final(self).field_extension == old(self).field_extension,
            final(self).strategy == old(self).strategy,
    {
        proof {
            lemma_pdeg_bounds(vs(old(self).coefficients@));
        }
        let n = self.coefficients.len();
        let d0 = self.cc.degree.0;
        let d1 = self.cc.degree.1;
        let mut result: Vec<Ext> = Vec::new();
        proof {
            assert(e_wf(vs(self.coefficients@)[0]));
            assert(vs(self.coefficients@)[0] == self.coefficients@[0]@);
        }
        let c0 = self.coefficients[0];
        result.push(ext_mul(c0, d0));
        let mut i: usize = 1;
        while i < n
            invariant
                1 <= i <= n,
                *self == *old(self),
                old(self).inv(),
                n == self.coefficients@.len(),
                d0 == old(self).cc.degree.0,
                d1 == old(self).cc.degree.1,
                result@.len() == i,
                forall|j: int|
                    0 <= j < i ==> (#[trigger] result@[j])@ == adjust_s(
                        vs(old(self).coefficients@),
                        d0@,
                        d1@,
                    )[j] && result@[j].inv(),
            decreases n - i,
        {
            proof {
                assert(e_wf(vs(self.coefficients@)[i as int]));
                assert(e_wf(vs(self.coefficients@)[i as int - 1]));
                assert(vs(self.coefficients@)[i as int] == self.coefficients@[i as int]@);
                assert(vs(self.coefficients@)[i as int - 1] == self.coefficients@[i as int - 1]@);
            }
            let a = ext_mul(self.coefficients[i], d0);
            let b = ext_mul(self.coefficients[i - 1], d1);
            result.push(ext_add(a, b));
            i = i + 1;
        }
        proof {
            assert(vs(result@) =~= adjust_s(vs(old(self).coefficients@), d0@, d1@));
        }
        self.coefficients = result;
    }

    /// Phase four, terminal: evaluates the polynomial over the extended
    /// domain offset * <g>, where g generates the domain of size
    /// trace_length * blowup; consumes the composer and yields the
    /// codeword handed to the low-degree test.
    pub fn evaluate(self, domain: &DomainDescriptor) -> (r: Vec<Ext>)
        requires
            self.inv(),
            domain.inv(),
            self.coefficients@.len() == domain.trace_length,
        ensures
            r@.len() == domain.trace_length * domain.blowup,
            forall|i: int|
                0 <= i < r@.len() ==> (#[trigger] r@[i])@ == pe(
                    vs(self.coefficients@),
                    (
                        lde_point(
                            domain.offset@,
                            (domain.trace_length * domain.blowup) as nat,
                            i as nat,
                        ),
                        0int,
                    ),
                ) && r@[i].inv(),
    {
        proof {
            lemma_is_pow2_mul(domain.trace_length as nat, domain.blowup as nat);
        }
        let size = domain.trace_length * domain.blowup;
        let lgs = log2_exec(size);
        let g = get_root_of_unity(lgs);
        let mut x = domain.offset;
        proof {
            lemma_f_id(domain.offset@);
        }
        let mut r: Vec<Ext> = Vec::new();
        let mut i: usize = 0;
        while i < size
            invariant
                i <= size,
                r@.len() == i,
                self.inv(),
                x.inv(),
                g.inv(),
                g@ == rou(lg(size as nat)),
                size as int == domain.trace_length * domain.blowup,
                domain.offset.inv(),
                x@ == lde_point(domain.offset@, size as nat, i as nat),
                forall|j: int|
                    0 <= j < i ==> (#[trigger] r@[j])@ == pe(
                        vs(self.coefficients@),
                        (lde_point(domain.offset@, size as nat, j as nat), 0int),
                    ) && r@[j].inv(),
            decreases size - i,
        {
            let pt = ext_from(x);
            let v = eval(&self.coefficients, pt);
            r.push(v);
            proof {
                lemma_fmul_assoc(domain.offset@, fpow(g@, i as nat), g@);
            }
            x = fe_mul(x, g);
            i = i + 1;
        }
        r
    }
}

} // verus!
