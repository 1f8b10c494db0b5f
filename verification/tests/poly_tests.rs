use deep_composer::composer::merge_trace_compositions;
use deep_composer::field::{ext_mul, ext_new, ext_sub, ext_zero, fe_new, Ext, P};
use deep_composer::parallel::Strategy;
use deep_composer::poly::{acc_poly, degree_of, eval, zeroed};

fn exti(a: u64) -> Ext {
    ext_new(a, 0)
}

/// The trivial register T(x) = x composed at z: accumulating T - T(z)
/// gives x - z, whose quotient by (x - z) is the constant one — the pole
/// at z is removed by construction.
#[test]
fn trivial_trace_polynomial_pole_is_removed() {
    let z = exti(3);
    let t0 = vec![fe_new(0), fe_new(1), fe_new(0), fe_new(0), fe_new(0), fe_new(0), fe_new(0), fe_new(0)];
    let mut buffer = zeroed(8);
    // T(z) = z for T(x) = x.
    acc_poly(&mut buffer, &t0, z, exti(1));
    assert_eq!(buffer[0], exti(P - 3));
    assert_eq!(buffer[1], exti(1));
    let merged = merge_trace_compositions(vec![buffer, Vec::new(), Vec::new()], vec![z, z, z], Strategy::Serial);
    assert_eq!(merged[0], exti(1));
    for i in 1..8 {
        assert_eq!(merged[i], ext_zero());
    }
    assert_eq!(degree_of(&merged), 0);
}

/// An empty conjugate buffer is passed over; the two live buffers are
/// divided and summed, serially and in parallel alike.
#[test]
fn merge_skips_empty_buffers_and_is_schedule_independent() {
    let z1 = ext_new(3, 5);
    let z2 = ext_new(7, 2);
    let b1: Vec<Ext> = vec![exti(4), exti(9), exti(2), exti(6)];
    let b2: Vec<Ext> = vec![exti(8), exti(1), exti(5), exti(3)];
    let serial = merge_trace_compositions(
        vec![b1.clone(), b2.clone(), Vec::new()],
        vec![z1, z2, z1],
        Strategy::Serial,
    );
    let parallel = merge_trace_compositions(
        vec![b1, b2, Vec::new()],
        vec![z1, z2, z1],
        Strategy::Parallel,
    );
    assert_eq!(serial, parallel);
    assert_eq!(serial.len(), 4);
}

/// The degree helper scans to the highest non-zero coefficient and reports
/// zero for the all-zero polynomial.
#[test]
fn degree_of_scans_from_the_top() {
    let p: Vec<Ext> = vec![exti(1), exti(0), exti(5), exti(0)];
    assert_eq!(degree_of(&p), 2);
    assert_eq!(degree_of(&zeroed(6)), 0);
    assert_eq!(degree_of(&Vec::new()), 0);
}

/// Horner evaluation on a known polynomial: 2 + 3x + x^2 at x = 5.
#[test]
fn evaluation_exact_value() {
    let p: Vec<Ext> = vec![exti(2), exti(3), exti(1)];
    assert_eq!(eval(&p, exti(5)), exti(42));
    let x = ext_new(0, 1);
    // u^2 = 11 in the extension field, so p(u) = (2 + 11) + 3u.
    let expected = ext_new(13, 3);
    let got = eval(&p, x);
    assert_eq!(got, expected);
    // A cross-check through the field operations themselves.
    let direct = ext_sub(got, ext_mul(x, ext_mul(x, exti(1))));
    assert_eq!(direct, ext_new(2, 3));
}
