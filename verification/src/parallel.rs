//! Data-parallel execution of the independent per-polynomial steps.
//!
//! Serial and parallel scheduling are numerically interchangeable: the
//! per-element work is a verified function, and the wrappers here state
//! exactly the same element-by-element result as the serial loops, so the
//! choice of `Strategy` cannot change any coefficient.
use crate::field::{e_wf, Ext};
use crate::poly::{
    div_nonempty, div_or_keep_s, pe, process_column, sub0_s, syn_div_s, vs, wf_seq,
};
use rayon::iter::{
    IndexedParallelIterator, IntoParallelRefIterator, IntoParallelRefMutIterator,
    ParallelIterator,
};
use vstd::prelude::*;

verus! {

/// How the independent per-polynomial work of a phase is scheduled.
#[derive(Clone, Copy, Debug, PartialEq, Eq, Structural)]
pub enum Strategy {
    Serial,
    Parallel,
}

/// Relies on rayon's `for_each` over zipped indexed parallel iterators: the
/// closure runs exactly once per polynomial, paired with the divisor at the
/// same index, whatever the thread schedule; each element is left as
/// `div_nonempty` leaves it.
#[verifier::external_body]
pub(crate) fn par_divide_each(polys: &mut Vec<Vec<Ext>>, divisors: &Vec<Ext>)
    requires
        old(polys)@.len() <= divisors@.len(),
        forall|i: int| 0 <= i < old(polys)@.len() ==> wf_seq(vs(#[trigger] old(polys)@[i]@)),
        forall|i: int| 0 <= i < divisors@.len() ==> e_wf((#[trigger] divisors@[i])@),
    ensures
        final(polys)@.len() == old(polys)@.len(),
        forall|i: int|
            0 <= i < old(polys)@.len() ==> vs(#[trigger] final(polys)@[i]@) == div_or_keep_s(
                vs(old(polys)@[i]@),
                divisors@[i]@,
            ),
        forall|i: int|
            0 <= i < old(polys)@.len() ==> (#[trigger] final(polys)@[i]@).len() == old(
                polys,
            )@[i]@.len(),
        forall|i: int| 0 <= i < old(polys)@.len() ==> wf_seq(vs(#[trigger] final(polys)@[i]@)),
{
    polys.par_iter_mut().zip(divisors.par_iter()).for_each(
        |pair: (&mut Vec<Ext>, &Ext)| div_nonempty(pair.0, *pair.1),
    );
}

/// Relies on rayon's `map` + `collect` over an indexed parallel iterator:
/// `collect` keeps index order, and the closure runs exactly once per
/// column, so column i is processed in place by `process_column` and slot i
/// of the result holds the evaluation it returns.
#[verifier::external_body]
pub(crate) fn par_process_each(columns: &mut Vec<Vec<Ext>>, z_m: Ext) -> (r: Vec<Ext>)
    requires
        forall|i: int| 0 <= i < old(columns)@.len() ==> wf_seq(vs(#[trigger] old(columns)@[i]@)),
        forall|i: int| 0 <= i < old(columns)@.len() ==> (#[trigger] old(columns)@[i]@).len() >= 1,
        z_m.inv(),
    ensures
        final(columns)@.len() == old(columns)@.len(),
        r@.len() == old(columns)@.len(),
        forall|i: int|
            0 <= i < old(columns)@.len() ==> (#[trigger] r@[i])@ == pe(
                vs(old(columns)@[i]@),
                z_m@,
            ) && r@[i].inv(),
        forall|i: int|
            0 <= i < old(columns)@.len() ==> vs(#[trigger] final(columns)@[i]@) == syn_div_s(
                sub0_s(vs(old(columns)@[i]@), pe(vs(old(columns)@[i]@), z_m@)),
                z_m@,
            ),
        forall|i: int|
            0 <= i < old(columns)@.len() ==> (#[trigger] final(columns)@[i]@).len() == old(
                columns,
            )@[i]@.len(),
        forall|i: int| 0 <= i < old(columns)@.len() ==> wf_seq(vs(#[trigger] final(columns)@[i]@)),
{
    columns.par_iter_mut().map(|p: &mut Vec<Ext>| process_column(p, z_m)).collect()
}

} // verus!
