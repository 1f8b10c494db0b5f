use deep_composer::field::{
    ext_add, ext_conj, ext_from, ext_mul, ext_new, ext_pow, ext_sub, ext_zero, fe_add, fe_mul,
    fe_new, fe_sub, get_root_of_unity, log2_exec, Ext, P,
};

fn exti(a: u64) -> Ext {
    ext_new(a, 0)
}

#[test]
fn base_field_exact_values() {
    assert_eq!(fe_mul(fe_new(12345), fe_new(67890)).v, 838102050);
    assert_eq!(fe_add(fe_new(P - 1), fe_new(5)).v, 4);
    assert_eq!(fe_sub(fe_new(3), fe_new(10)).v, 2013265914);
    assert_eq!(fe_add(fe_new(0), fe_new(0)).v, 0);
}

#[test]
fn extension_field_exact_values() {
    let x = ext_new(2, 3);
    let y = ext_new(4, 5);
    let m = ext_mul(x, y);
    assert_eq!((m.c0.v, m.c1.v), (173, 22));
    let p = ext_pow(x, 5);
    assert_eq!((p.c0.v, p.c1.v), (105962, 41523));
    let s = ext_sub(ext_add(x, y), y);
    assert_eq!((s.c0.v, s.c1.v), (2, 3));
}

#[test]
fn conjugate_is_an_involution_and_fixes_the_base() {
    let x = ext_new(7, 9);
    let c = ext_conj(x);
    assert_eq!((c.c0.v, c.c1.v), (7, P - 9));
    assert_eq!(ext_conj(c), x);
    let b = ext_from(fe_new(42));
    assert_eq!(ext_conj(b), b);
}

#[test]
fn conjugate_commutes_with_multiplication() {
    let x = ext_new(123, 456);
    let y = ext_new(789, 321);
    assert_eq!(ext_conj(ext_mul(x, y)), ext_mul(ext_conj(x), ext_conj(y)));
}

#[test]
fn root_of_unity_has_the_right_order() {
    let g8 = get_root_of_unity(3);
    assert_eq!(g8.v, 1592366214);
    let g = ext_from(g8);
    assert_eq!(ext_pow(g, 8), exti(1));
    assert_eq!(ext_pow(g, 4), exti(P - 1));
    let g32 = get_root_of_unity(5);
    assert_eq!(g32.v, 760005850);
    assert_eq!(ext_pow(ext_from(g32), 32), exti(1));
    assert_eq!(fe_mul(fe_mul(g32, g32), fe_mul(g32, g32)), g8);
}

#[test]
fn log2_of_powers_of_two() {
    assert_eq!(log2_exec(1), 0);
    assert_eq!(log2_exec(2), 1);
    assert_eq!(log2_exec(8), 3);
    assert_eq!(log2_exec(134217728), 27);
}

#[test]
fn zero_is_absorbing_and_neutral() {
    let x = ext_new(55, 66);
    assert_eq!(ext_mul(x, ext_zero()), ext_zero());
    assert_eq!(ext_add(x, ext_zero()), x);
}
