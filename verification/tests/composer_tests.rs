use deep_composer::composer::{
    CompositionCoefficients, CompositionPoly, ContextOptions, DeepCompositionPoly,
    DomainDescriptor, TracePolyTable,
};
use deep_composer::field::{
    ext_add, ext_from, ext_mul, ext_new, ext_pow, ext_sub, ext_zero, fe_mul, fe_new,
    get_root_of_unity, log2_exec, Ext, Fe,
};
use deep_composer::parallel::Strategy;
use deep_composer::poly::{eval, eval_base, syn_div_in_place};

fn exti(a: u64) -> Ext {
    ext_new(a, 0)
}

fn fes(vals: &[u64]) -> Vec<Fe> {
    vals.iter().map(|&v| fe_new(v)).collect()
}

fn exts(vals: &[u64]) -> Vec<Ext> {
    vals.iter().map(|&v| exti(v)).collect()
}

/// Two registers of trace length 8 with full-degree polynomials.
fn make_table() -> TracePolyTable {
    TracePolyTable::new(vec![
        fes(&[0, 0, 0, 0, 0, 0, 0, 1]),
        fes(&[1, 1, 1, 1, 1, 1, 1, 2]),
    ])
}

fn make_columns() -> CompositionPoly {
    CompositionPoly::new(vec![
        exts(&[1, 2, 3, 4, 5, 6, 7, 1]),
        exts(&[2, 4, 6, 8, 1, 3, 5, 1]),
    ])
}

fn cc_uniform(nregs: usize, ncols: usize, t: (u64, u64, u64), c: u64, d: (u64, u64)) -> CompositionCoefficients {
    CompositionCoefficients {
        trace: (0..nregs).map(|_| (exti(t.0), exti(t.1), exti(t.2))).collect(),
        constraints: (0..ncols).map(|_| exti(c)).collect(),
        degree: (exti(d.0), exti(d.1)),
    }
}

fn run_phases(z: Ext, cc: CompositionCoefficients, ext: bool, strategy: Strategy) -> DeepCompositionPoly {
    let context = ContextOptions { field_extension: ext, strategy };
    let mut composer = DeepCompositionPoly::new(&context, z, cc);
    composer.add_trace_polys(make_table());
    composer.add_composition_poly(make_columns());
    composer
}

/// Degree invariants across the phases: trace length 8 gives degree 6 after
/// the trace and constraint compositions and 7 after the adjustment.
#[test]
fn degrees_through_the_phases() {
    let z = exti(3);
    let cc = cc_uniform(2, 2, (1, 1, 1), 1, (1, 1));
    let context = ContextOptions { field_extension: false, strategy: Strategy::Serial };
    let mut composer = DeepCompositionPoly::new(&context, z, cc);
    assert_eq!(composer.poly_size(), 0);
    let frame = composer.add_trace_polys(make_table());
    assert_eq!(composer.poly_size(), 8);
    assert_eq!(composer.degree(), 6);
    assert_eq!(frame.current.len(), 2);
    assert_eq!(frame.next.len(), 2);
    composer.add_composition_poly(make_columns());
    assert_eq!(composer.poly_size(), 8);
    assert_eq!(composer.degree(), 6);
    composer.adjust_degree();
    assert_eq!(composer.poly_size(), 8);
    assert_eq!(composer.degree(), 7);
}

/// Degree invariants for every trace length 2, 4, 8, 16 with one register.
#[test]
fn degrees_for_several_trace_lengths() {
    for log_n in 1..5usize {
        let n = 1usize << log_n;
        let mut poly = vec![0u64; n];
        poly[n - 1] = 1;
        let table = TracePolyTable::new(vec![fes(&poly)]);
        let cc = cc_uniform(1, 1, (1, 1, 1), 1, (1, 1));
        let context = ContextOptions { field_extension: false, strategy: Strategy::Serial };
        let mut composer = DeepCompositionPoly::new(&context, exti(3), cc);
        composer.add_trace_polys(table);
        assert_eq!(composer.poly_size(), n);
        assert_eq!(composer.degree(), n - 2);
        composer.adjust_degree();
        assert_eq!(composer.degree(), n - 1);
    }
}

/// The out-of-domain frame holds the trace states at z and z * g.
#[test]
fn frame_holds_the_out_of_domain_states() {
    let z = ext_new(3, 5);
    let cc = cc_uniform(2, 2, (1, 2, 3), 1, (1, 1));
    let context = ContextOptions { field_extension: true, strategy: Strategy::Serial };
    let mut composer = DeepCompositionPoly::new(&context, z, cc);
    let frame = composer.add_trace_polys(make_table());
    let g = get_root_of_unity(log2_exec(8));
    let next_z = ext_mul(z, ext_from(g));
    let table = make_table();
    for i in 0..2 {
        assert_eq!(frame.current[i], eval_base(&table.polys[i], z));
        assert_eq!(frame.next[i], eval_base(&table.polys[i], next_z));
    }
}

/// The returned constraint evaluations are the column values at z^m.
#[test]
fn composition_values_are_column_evaluations() {
    let z = exti(3);
    let cc = cc_uniform(2, 2, (1, 1, 1), 1, (1, 1));
    let context = ContextOptions { field_extension: false, strategy: Strategy::Serial };
    let mut composer = DeepCompositionPoly::new(&context, z, cc);
    composer.add_trace_polys(make_table());
    let values = composer.add_composition_poly(make_columns());
    let z_m = ext_pow(z, 2);
    let columns = make_columns();
    assert_eq!(values.len(), 2);
    for i in 0..2 {
        assert_eq!(values[i], eval(&columns.columns[i], z_m));
    }
}

/// Serial and data-parallel scheduling produce identical results.
#[test]
fn serial_and_parallel_agree() {
    let z = ext_new(3, 5);
    let serial = run_phases(z, cc_uniform(2, 2, (1, 2, 3), 4, (5, 6)), true, Strategy::Serial);
    let parallel = run_phases(z, cc_uniform(2, 2, (1, 2, 3), 4, (5, 6)), true, Strategy::Parallel);
    assert_eq!(serial.coefficients, parallel.coefficients);
    let mut s2 = serial;
    let mut p2 = parallel;
    s2.adjust_degree();
    p2.adjust_degree();
    assert_eq!(s2.coefficients, p2.coefficients);
}

/// With the extension disabled, the result is bit-identical to an enabled
/// run whose conjugate-term coefficients are all the additive identity.
#[test]
fn extension_toggle_matches_zero_conjugate_coefficients() {
    let z = ext_new(3, 5);
    let cc_off = cc_uniform(2, 2, (2, 7, 9), 1, (1, 1));
    let cc_zero = cc_uniform(2, 2, (2, 7, 0), 1, (1, 1));
    let context_off = ContextOptions { field_extension: false, strategy: Strategy::Serial };
    let context_on = ContextOptions { field_extension: true, strategy: Strategy::Serial };
    let mut a = DeepCompositionPoly::new(&context_off, z, cc_off);
    let mut b = DeepCompositionPoly::new(&context_on, z, cc_zero);
    a.add_trace_polys(make_table());
    b.add_trace_polys(make_table());
    assert_eq!(a.coefficients, b.coefficients);
}

/// Composing with a summed coefficient bundle equals summing the two
/// separately composed polynomials.
#[test]
fn linearity_in_the_coefficient_bundle() {
    let z = ext_new(3, 5);
    let cc_a = cc_uniform(2, 2, (1, 2, 3), 1, (1, 1));
    let cc_b = cc_uniform(2, 2, (10, 20, 30), 5, (1, 1));
    let cc_s = cc_uniform(2, 2, (11, 22, 33), 6, (1, 1));
    let context = ContextOptions { field_extension: true, strategy: Strategy::Serial };
    let mut a = DeepCompositionPoly::new(&context, z, cc_a);
    let mut b = DeepCompositionPoly::new(&context, z, cc_b);
    let mut s = DeepCompositionPoly::new(&context, z, cc_s);
    a.add_trace_polys(make_table());
    b.add_trace_polys(make_table());
    s.add_trace_polys(make_table());
    let summed: Vec<Ext> = a
        .coefficients
        .iter()
        .zip(b.coefficients.iter())
        .map(|(x, y)| ext_add(*x, *y))
        .collect();
    assert_eq!(s.coefficients, summed);
    a.add_composition_poly(make_columns());
    b.add_composition_poly(make_columns());
    s.add_composition_poly(make_columns());
    let summed2: Vec<Ext> = a
        .coefficients
        .iter()
        .zip(b.coefficients.iter())
        .map(|(x, y)| ext_add(*x, *y))
        .collect();
    assert_eq!(s.coefficients, summed2);
}

/// Division exactness: subtracting p(z) from the constant term makes z a
/// root, and multiplying the synthetic quotient back by (x - z) recovers
/// the adjusted polynomial exactly (zero remainder).
#[test]
fn division_is_exact() {
    let z = ext_new(3, 5);
    let p: Vec<Ext> = exts(&[5, 9, 2, 8, 1, 7, 4, 6]);
    let v = eval(&p, z);
    let mut adjusted = p.clone();
    adjusted[0] = ext_sub(adjusted[0], v);
    assert_eq!(eval(&adjusted, z), ext_zero());
    let mut q = adjusted.clone();
    syn_div_in_place(&mut q, z);
    assert_eq!(q[7], ext_zero());
    // (x - z) * q, coefficient by coefficient.
    for i in 0..8 {
        let shifted = if i == 0 { ext_zero() } else { q[i - 1] };
        let back = ext_sub(shifted, ext_mul(z, q[i]));
        assert_eq!(back, adjusted[i]);
    }
}

/// Round trip: the codeword of the terminal evaluation matches direct
/// polynomial evaluation at the corresponding domain points.
#[test]
fn evaluation_matches_direct_evaluation() {
    let z = exti(3);
    let mut composer = run_phases(z, cc_uniform(2, 2, (1, 1, 1), 1, (1, 1)), false, Strategy::Serial);
    composer.adjust_degree();
    let coefficients = composer.coefficients.clone();
    let domain = DomainDescriptor::new(8, 4, fe_new(7));
    let codeword = composer.evaluate(&domain);
    assert_eq!(codeword.len(), 32);
    let g = get_root_of_unity(log2_exec(32));
    let mut x = fe_new(7);
    for i in 0..32 {
        assert_eq!(codeword[i], eval(&coefficients, ext_from(x)));
        x = fe_mul(x, g);
    }
}

/// The domain descriptor hands back what it was built from.
#[test]
fn domain_descriptor_accessors() {
    let domain = DomainDescriptor::new(8, 4, fe_new(7));
    assert_eq!(domain.offset().v, 7);
    assert_eq!(domain.trace_to_lde_blowup(), 4);
}
