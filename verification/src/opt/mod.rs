//! Optimisations on the typed program.

pub mod range;
pub mod names;
pub mod bce;
pub mod while_unroll;
pub mod inlining;
pub mod value;
pub mod const_args;
pub mod array_opt;
pub mod recursion;
pub mod tree_view;
pub mod math_elevation;
pub mod closed_form;

use vstd::prelude::*;
use crate::opt::array_opt::{arrays_foldable, arrays_optimized};
use crate::opt::bce::program_bce;
use crate::opt::const_args::{arguments_propagated, locals_propagated};
use crate::opt::inlining::{inline_rounds, normalized_all, recursive_fns};
use crate::opt::math_elevation::function_elevated;
use crate::opt::tree_view::functions_view;
use crate::opt::while_unroll::unroll_program;
use crate::typecheck::typed_ast::{TypedFunction, TypedProgram};

verus! {

/// `q` is `p` after `const_args::optimize_program`.
pub open spec fn const_args_step(p: TypedProgram, q: TypedProgram) -> bool {
    exists|mid: Seq<TypedFunction>|
        #[trigger] locals_propagated(p.functions@, mid) && arguments_propagated(mid, q.functions@)
}

/// `q` is `p` after `inlining::optimize_program`.
pub open spec fn inlining_step(p: TypedProgram, q: TypedProgram) -> bool {
    exists|norm: Seq<TypedFunction>, cn: nat, defs: Seq<TypedFunction>|
        #[trigger] normalized_all(p.functions@, recursive_fns(p.functions@), 0, norm, cn) && functions_view(defs)
            == functions_view(norm) && #[trigger] inline_rounds(
            norm,
            defs,
            recursive_fns(p.functions@),
            0,
            4,
            q.functions@,
        )
}

/// `q` is `p` after `math_elevation::optimize_program`.
pub open spec fn elevation_step(p: TypedProgram, q: TypedProgram) -> bool {
    &&& q.functions@.len() == p.functions@.len()
    &&& forall|i: int| 0 <= i < p.functions@.len() ==> function_elevated(#[trigger] p.functions@[i], q.functions@[i])
}

/// `q` is `p` after `while_unroll::optimize_program`.
pub open spec fn unroll_step(p: TypedProgram, q: TypedProgram) -> bool {
    functions_view(q.functions@) == unroll_program(functions_view(p.functions@))
}

/// `q` is `p` after `array_opt::optimize_arrays`.
pub open spec fn arrays_step(p: TypedProgram, q: TypedProgram) -> bool {
    &&& q.functions@.len() == p.functions@.len()
    &&& forall|j: int| 0 <= j < p.functions@.len() ==> arrays_optimized(p.functions@[j], #[trigger] q.functions@[j])
}

/// The program `p5` that the passes before array folding make of `p0`.
pub open spec fn before_arrays(
    p0: TypedProgram,
    p1: TypedProgram,
    p2: TypedProgram,
    p3: TypedProgram,
    p4: TypedProgram,
    p5: TypedProgram,
    p6: TypedProgram,
) -> bool {
    &&& const_args_step(p0, p1)
    &&& const_args_step(p1, p2)
    &&& inlining_step(p2, p3)
    &&& const_args_step(p3, p4)
    &&& elevation_step(p4, p5)
    &&& unroll_step(p5, p6)
}

/// Array folding can run on whatever the passes before it make of `p0`.
pub open spec fn pipeline_foldable(p0: TypedProgram) -> bool {
    forall|p1: TypedProgram, p2: TypedProgram, p3: TypedProgram, p4: TypedProgram, p5: TypedProgram, p6: TypedProgram|
        #[trigger] before_arrays(p0, p1, p2, p3, p4, p5, p6) ==> forall|j: int|
            0 <= j < p6.functions@.len() ==> arrays_foldable(#[trigger] p6.functions@[j])
}

/// `p8` is what the whole pipeline makes of `p0`: constant arguments
/// specialised twice, inlining, constant arguments again, loop elevation,
/// bounded loop unrolling, array folding and bounds-check elimination (the
/// recursion pass leaves the program as it is).
pub open spec fn optimized(p0: TypedProgram, p8: TypedProgram) -> bool {
    exists|p1: TypedProgram, p2: TypedProgram, p3: TypedProgram, p4: TypedProgram, p5: TypedProgram, p6: TypedProgram, p7: TypedProgram|
        #[trigger] before_arrays(p0, p1, p2, p3, p4, p5, p6) && #[trigger] arrays_step(p6, p7) && program_bce(p7, p8)
}

/// Runs the optimisation passes in order (see `optimized`).
pub fn optimize_program(program: &mut TypedProgram)
    requires
        pipeline_foldable(*old(program)),
    ensures
        optimized(*old(program), *final(program)),
{
    let ghost p0 = *program;
    const_args::optimize_program(program);
    let ghost p1 = *program;
    const_args::optimize_program(program);
    let ghost p2 = *program;
    inlining::optimize_program(program);
    let ghost p3 = *program;
    const_args::optimize_program(program);
    let ghost p4 = *program;
    math_elevation::optimize_program(program);
    let ghost p5 = *program;
    while_unroll::optimize_program(program);
    let ghost p6 = *program;
    assert(before_arrays(p0, p1, p2, p3, p4, p5, p6));
    array_opt::optimize_arrays(program);
    let ghost p7 = *program;
    assert(arrays_step(p6, p7));
    bce::optimize_program(program);
    recursion::optimize_program(program);
    assert(optimized(p0, *program));
}

} // verus!
