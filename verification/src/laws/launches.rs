//! A chunk as an accelerator runs it, against the reference row by row, in fixed point.

#![allow(unused_imports)]

use vstd::prelude::*;
use crate::arith::Arith;
use crate::fixed::{abs, quotient, Fixed, ONE};
use crate::launch::{ce_losses, ce_slopes, kl_losses, kl_slopes, launch_error};
use crate::laws::kernels::tiled_cross_entropy_is_the_reference;
use crate::laws::numbers::fixed_point_is_exact;
use crate::laws::parity::{
    kl_slack, tiled_cross_entropy_gradient_is_near_the_reference,
    tiled_kl_gradient_is_near_the_reference, tiled_kl_is_near_the_reference, within,
};
use crate::laws::slopes::moderate;
use crate::reference::cross_entropy::{ce_grad, ce_loss};
use crate::reference::kl::{kl_grad_row, kl_grad_scale, kl_row};
use crate::tiles::{divides, stretched};

verus! {

/// The student's row `i` of a chunk of `n` rows, and the teacher's row, which is row `n + i`,
/// both get the cross-entropy of the reference for target `i`; the gradients are near those of
/// the reference, the student's under the student's weight and the teacher's under the
/// teacher's. Where the student runs alone there are no rows of the teacher.
pub proof fn chunk_cross_entropies_are_those_of_the_rows(
    x: Seq<Seq<i64>>,
    targets: Seq<i32>,
    ignore_index: i32,
    label_smoothing: i64,
    student_weight: i64,
    teacher_weight: i64,
    block: usize,
    v: int,
    i: int,
    j: int,
)
    requires
        0 <= i < targets.len(),
        x.len() == 2 * targets.len(),
        x[i].len() == v,
        x[targets.len() + i].len() == v,
        moderate(x[i]),
        moderate(x[targets.len() + i]),
        divides(block, v),
        targets[i] == ignore_index || 0 <= targets[i] < v,
        0 <= label_smoothing <= ONE,
        0 <= j < v,
    ensures
        ({
            let n = targets.len() as int;
            let y = targets[i] as i64;
            let ign = ignore_index as i64;
            let losses = |alone: bool|
                ce_losses::<Fixed>(
                    x,
                    targets,
                    ignore_index,
                    block as int,
                    label_smoothing,
                    alone,
                );
            let slopes = |alone: bool|
                ce_slopes::<Fixed>(
                    x,
                    targets,
                    ignore_index,
                    block as int,
                    label_smoothing,
                    alone,
                    student_weight,
                    teacher_weight,
                );
            &&& losses(false).len() == 2 * n && losses(true).len() == n
            &&& losses(false)[i] == ce_loss::<Fixed>(x[i], y, ign, label_smoothing)
            &&& losses(true)[i] == losses(false)[i]
            &&& losses(false)[n + i] == ce_loss::<Fixed>(x[n + i], y, ign, label_smoothing)
            &&& slopes(false).len() == 2 * n && slopes(true).len() == n
            &&& slopes(true)[i] == slopes(false)[i]
            &&& abs(
                slopes(false)[i][j] - ce_grad::<Fixed>(
                    x[i],
                    y,
                    ign,
                    label_smoothing,
                    student_weight,
                )[j],
            ) <= abs(student_weight as int) / ONE as int + 1
            &&& abs(
                slopes(false)[n + i][j] - ce_grad::<Fixed>(
                    x[n + i],
                    y,
                    ign,
                    label_smoothing,
                    teacher_weight,
                )[j],
            ) <= abs(teacher_weight as int) / ONE as int + 1
        }),
{
    let n = targets.len() as int;
    let y = targets[i] as i64;
    let ign = ignore_index as i64;
    fixed_point_is_exact();
    assert(<Fixed as Arith>::fint_spec(0) == 0);
    tiled_cross_entropy_is_the_reference::<Fixed>(x[i], y, ign, label_smoothing, block);
    tiled_cross_entropy_is_the_reference::<Fixed>(x[n + i], y, ign, label_smoothing, block);
    tiled_cross_entropy_gradient_is_near_the_reference(
        x[i],
        y,
        ign,
        label_smoothing,
        student_weight,
        block,
        j,
    );
    tiled_cross_entropy_gradient_is_near_the_reference(
        x[n + i],
        y,
        ign,
        label_smoothing,
        teacher_weight,
        block,
        j,
    );
}

/// Row `i` of a chunk of `n` rows gets the KL of the student's row `i` and the teacher's row,
/// which is row `n + i`, near that of the reference, and the student's gradient near it too.
pub proof fn chunk_divergences_are_those_of_the_rows(
    x: Seq<Seq<i64>>,
    targets: Seq<i32>,
    ignore_index: i32,
    kl_weight: i64,
    temperature: i64,
    t_sq: i64,
    grad_denom: i64,
    reach: int,
    block: usize,
    v: int,
    i: int,
    j: int,
)
    requires
        0 <= i < targets.len(),
        x.len() == 2 * targets.len(),
        x[i].len() == v,
        x[targets.len() + i].len() == v,
        within(stretched::<Fixed>(x[i], quotient(ONE, temperature)), reach),
        within(stretched::<Fixed>(x[targets.len() + i], quotient(ONE, temperature)), reach),
        divides(block, v),
        0 <= j < v,
    ensures
        ({
            let n = targets.len() as int;
            let inv_t = quotient(ONE, temperature);
            let factor = kl_grad_scale::<Fixed>(kl_weight, temperature, grad_denom);
            let losses = kl_losses::<Fixed>(
                x,
                targets,
                ignore_index,
                block as int,
                inv_t,
                t_sq,
            );
            let slopes = kl_slopes::<Fixed>(
                x,
                targets,
                ignore_index,
                block as int,
                inv_t,
                factor,
            );
            let row = if targets[i] == ignore_index {
                <Fixed as Arith>::dint_spec(0)
            } else {
                kl_row::<Fixed>(x[i], x[n + i], inv_t)
            };
            &&& losses.len() == n && slopes.len() == n
            &&& abs(losses[i] - <Fixed as Arith>::dmul_spec(row, t_sq)) <= (kl_slack(v, reach)
                * abs(t_sq as int)) / ONE as int + 1
            &&& abs(
                slopes[i][j] - kl_grad_row::<Fixed>(
                    x[i],
                    x[n + i],
                    targets[i] as i64,
                    ignore_index as i64,
                    kl_weight,
                    temperature,
                    grad_denom,
                )[j],
            ) <= abs(factor as int) / ONE as int + 1
        }),
{
    let n = targets.len() as int;
    let inv_t = quotient(ONE, temperature);
    assert(moderate(stretched::<Fixed>(x[i], inv_t)));
    assert(moderate(stretched::<Fixed>(x[n + i], inv_t)));
    tiled_kl_is_near_the_reference(
        x[i],
        x[n + i],
        targets[i] == ignore_index,
        inv_t,
        t_sq,
        reach,
        block,
    );
    tiled_kl_gradient_is_near_the_reference(
        x[i],
        x[n + i],
        targets[i] as i64,
        ignore_index as i64,
        kl_weight,
        temperature,
        grad_denom,
        block,
        j,
    );
}

/// A launch is accepted exactly where the tiles fill the vocabulary, the chunk has twice as many
/// rows as there are targets, and as many targets were announced.
pub proof fn what_can_be_launched(
    logits_len: usize,
    targets_len: usize,
    n_rows: usize,
    v: usize,
    block: usize,
)
    ensures
        launch_error(logits_len, targets_len, n_rows, v, block) is None <==> {
            &&& block > 0
            &&& exists|tiles: int| #[trigger] (tiles * block) == v
            &&& logits_len == (2 * targets_len) * v
            &&& targets_len == n_rows
        },
{
    let t = v as int / block as int;
    if divides(block, v as int) {
        vstd::arithmetic::div_mod::lemma_fundamental_div_mod(v as int, block as int);
        assert(t * block == v) by (nonlinear_arith)
            requires
                v == block as int * t,
        ;
    }
    if block > 0 && exists|tiles: int| #[trigger] (tiles * block) == v {
        let tiles = choose|tiles: int| #[trigger] (tiles * block) == v;
        vstd::arithmetic::div_mod::lemma_mod_multiples_basic(tiles, block as int);
    }
}

} // verus!
