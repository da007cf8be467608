//! One step over a prepared chunk of logits: the KL kernel on the clean logits, then the
//! cross-entropy kernel.
//!
//! [`launch_shape`] decides what is launched on an accelerator; [`kl_ce_on_logits_chunk`]
//! runs the same grid here, block by block.

use vstd::prelude::*;
use crate::arith::Arith;
use crate::mat::{repeat, Mat};
use crate::tiles::{exact_ce_fwdbwd, kl_from_logits_chunk};
#[allow(unused_imports)]
use crate::mat::rows_of;
#[allow(unused_imports)]
use crate::tiles::{
    ce_tile_grad, ce_tile_loss, divides, grid_rows, is_student_row, kl_tile_grad, kl_tile_loss,
    target_row,
};

verus! {

/// The sizes of a launch.
#[derive(Clone, Copy, Debug, PartialEq, Eq, Structural)]
pub struct LaunchShape {
    /// Rows of the chunk: the student's and the teacher's.
    pub chunk_rows: usize,
    /// Rows that the cross-entropy kernel scores.
    pub grid_rows: usize,
    /// One where only the student's rows are scored, else zero.
    pub student_only_flag: i32,
}

/// Why a chunk cannot be launched.
#[derive(Clone, Copy, Debug, PartialEq, Eq, Structural)]
pub enum LaunchError {
    /// The tile width does not divide the vocabulary.
    Block,
    /// The chunk is not `[2 * n_rows, V]`.
    Logits,
    /// There are not `n_rows` targets.
    Targets,
}

/// What is wrong with the sizes of a launch, if anything is.
pub open spec fn launch_error(
    logits_len: usize,
    targets_len: usize,
    n_rows: usize,
    v: usize,
    block: usize,
) -> Option<LaunchError> {
    if !divides(block, v as int) {
        Some(LaunchError::Block)
    } else if logits_len != 2 * n_rows * v {
        Some(LaunchError::Logits)
    } else if targets_len != n_rows {
        Some(LaunchError::Targets)
    } else {
        None
    }
}

/// Check the sizes of a launch, and decide the grid.
pub fn launch_shape(
    logits_len: usize,
    targets_len: usize,
    n_rows: usize,
    v: usize,
    block: usize,
    student_only: bool,
) -> (r: Result<LaunchShape, LaunchError>)
    requires
        2 * n_rows <= usize::MAX,
    ensures
        r == match launch_error(logits_len, targets_len, n_rows, v, block) {
            Some(e) => Err::<LaunchShape, LaunchError>(e),
            None => Ok(
                LaunchShape {
                    chunk_rows: (2 * n_rows) as usize,
                    grid_rows: grid_rows(n_rows as int, student_only) as usize,
                    student_only_flag: if student_only {
                        1i32
                    } else {
                        0
                    },
                },
            ),
        },
{
    if block == 0 || v % block != 0 {
        return Err(LaunchError::Block);
    }
    let chunk_rows: usize = 2 * n_rows;
    let fits = match chunk_rows.checked_mul(v) {
        Some(entries) => logits_len == entries,
        None => false,
    };
    if !fits {
        return Err(LaunchError::Logits);
    }
    if targets_len != n_rows {
        return Err(LaunchError::Targets);
    }
    let grid_rows: usize = if student_only { n_rows } else { chunk_rows };
    let student_only_flag: i32 = if student_only { 1 } else { 0 };
    Ok(LaunchShape { chunk_rows, grid_rows, student_only_flag })
}

/// What one step over a chunk yields.
#[derive(Clone, Debug)]
pub struct KlCeChunkOutput<F> {
    /// The student's KL gradient, row-major `[n_rows, V]`.
    pub grad_kl_student: Vec<F>,
    /// The KL of each row, times `T^2`; `[n_rows]`.
    pub kl_per_row: Vec<F>,
    /// The cross-entropy gradient, row-major `[grid_rows, V]`.
    pub grad_ce: Vec<F>,
    /// The cross-entropy of each row; `[grid_rows]`.
    pub ce_loss: Vec<F>,
}

/// A flat buffer holds these rows, each of `cols` entries.
pub open spec fn flat<T>(data: Seq<T>, rows: Seq<Seq<T>>, cols: int) -> bool {
    &&& data.len() == rows.len() * cols
    &&& rows_of(data, rows.len() as int, cols) == rows
}

/// The KL of each row of a chunk.
pub open spec fn kl_losses<A: Arith>(
    x: Seq<Seq<A::F>>,
    targets: Seq<i32>,
    ignore_index: i32,
    block: int,
    inv_t: A::F,
    t_sq: A::F,
) -> Seq<A::F> {
    let n = targets.len() as int;
    Seq::new(
        targets.len(),
        |i: int| kl_tile_loss::<A>(x[i], x[n + i], targets[i] == ignore_index, block, inv_t, t_sq),
    )
}

/// The student's KL gradient of each row of a chunk.
pub open spec fn kl_slopes<A: Arith>(
    x: Seq<Seq<A::F>>,
    targets: Seq<i32>,
    ignore_index: i32,
    block: int,
    inv_t: A::F,
    grad_scale: A::F,
) -> Seq<Seq<A::F>> {
    let n = targets.len() as int;
    Seq::new(
        targets.len(),
        |i: int|
            kl_tile_grad::<A>(x[i], x[n + i], targets[i] == ignore_index, block, inv_t, grad_scale),
    )
}

/// The cross-entropy of each row of the grid.
pub open spec fn ce_losses<A: Arith>(
    x: Seq<Seq<A::F>>,
    targets: Seq<i32>,
    ignore_index: i32,
    block: int,
    label_smoothing: A::F,
    student_only: bool,
) -> Seq<A::F> {
    let n = targets.len() as int;
    Seq::new(
        grid_rows(n, student_only) as nat,
        |r: int|
            {
                let target = targets[target_row(r, n, student_only)];
                ce_tile_loss::<A>(x[r], target as int, target == ignore_index, block, label_smoothing)
            },
    )
}

/// The cross-entropy gradient of each row of the grid: the student's rows with the
/// student's weight, the teacher's with the teacher's.
pub open spec fn ce_slopes<A: Arith>(
    x: Seq<Seq<A::F>>,
    targets: Seq<i32>,
    ignore_index: i32,
    block: int,
    label_smoothing: A::F,
    student_only: bool,
    student_ce_weight: A::F,
    teacher_ce_weight: A::F,
) -> Seq<Seq<A::F>> {
    let n = targets.len() as int;
    Seq::new(
        grid_rows(n, student_only) as nat,
        |r: int|
            {
                let target = targets[target_row(r, n, student_only)];
                let scale = if is_student_row(r, n, student_only) {
                    student_ce_weight
                } else {
                    teacher_ce_weight
                };
                ce_tile_grad::<A>(
                    x[r],
                    target as int,
                    target == ignore_index,
                    block,
                    label_smoothing,
                    scale,
                )
            },
    )
}

/// Run the KL kernel over the student's rows of a chunk.
fn run_kl<A: Arith>(
    x: &Mat<A::F>,
    targets: &[i32],
    block: usize,
    inv_t: A::F,
    grad_scale: A::F,
    t_sq: A::F,
    ignore_index: i32,
) -> (r: (Vec<A::F>, Mat<A::F>))
    requires
        x.wf(),
        x.rows == 2 * targets@.len(),
        divides(block, x.cols as int),
    ensures
        r.0@ == kl_losses::<A>(x@, targets@, ignore_index, block as int, inv_t, t_sq),
        r.1.wf(),
        r.1.rows == targets@.len(),
        r.1.cols == x.cols,
        r.1@ == kl_slopes::<A>(x@, targets@, ignore_index, block as int, inv_t, grad_scale),
{
    let n: usize = targets.len();
    let ghost losses = kl_losses::<A>(x@, targets@, ignore_index, block as int, inv_t, t_sq);
    let ghost slopes = kl_slopes::<A>(x@, targets@, ignore_index, block as int, inv_t, grad_scale);
    let mut kl: Vec<A::F> = Vec::new();
    let mut grads: Mat<A::F> = Mat::with_cols(x.cols);
    for i in 0..n
        invariant
            n == targets@.len(),
            x.wf(),
            x.rows == 2 * n,
            divides(block, x.cols as int),
            losses == kl_losses::<A>(x@, targets@, ignore_index, block as int, inv_t, t_sq),
            slopes == kl_slopes::<A>(x@, targets@, ignore_index, block as int, inv_t, grad_scale),
            kl@ == losses.subrange(0, i as int),
            grads.wf(),
            grads.rows == i,
            grads.cols == x.cols,
            grads@ == slopes.subrange(0, i as int),
    {
        let (loss, grad) = kl_from_logits_chunk::<A>(
            x,
            targets,
            i,
            n,
            block,
            inv_t,
            grad_scale,
            t_sq,
            ignore_index,
        );
        proof {
            x.lemma_row_len(i as int);
        }
        kl.push(loss);
        grads.push_row(grad.as_slice());
        assert(kl@ =~= losses.subrange(0, i + 1));
        assert(grads@ =~= slopes.subrange(0, i + 1));
    }
    assert(kl@ =~= losses);
    assert(grads@ =~= slopes);
    (kl, grads)
}

/// Run the cross-entropy kernel over the rows of its grid.
fn run_ce<A: Arith>(
    x: &Mat<A::F>,
    targets: &[i32],
    block: usize,
    student_ce_weight: A::F,
    teacher_ce_weight: A::F,
    label_smoothing: A::F,
    ignore_index: i32,
    student_only: bool,
) -> (r: (Vec<A::F>, Mat<A::F>))
    requires
        x.wf(),
        x.rows == 2 * targets@.len(),
        divides(block, x.cols as int),
    ensures
        r.0@ == ce_losses::<A>(
            x@,
            targets@,
            ignore_index,
            block as int,
            label_smoothing,
            student_only,
        ),
        r.1.wf(),
        r.1.rows == grid_rows(targets@.len() as int, student_only),
        r.1.cols == x.cols,
        r.1@ == ce_slopes::<A>(
            x@,
            targets@,
            ignore_index,
            block as int,
            label_smoothing,
            student_only,
            student_ce_weight,
            teacher_ce_weight,
        ),
{
    let n: usize = targets.len();
    let rows: usize = if student_only { n } else { x.rows };
    let ghost losses = ce_losses::<A>(
        x@,
        targets@,
        ignore_index,
        block as int,
        label_smoothing,
        student_only,
    );
    let ghost slopes = ce_slopes::<A>(
        x@,
        targets@,
        ignore_index,
        block as int,
        label_smoothing,
        student_only,
        student_ce_weight,
        teacher_ce_weight,
    );
    let mut nll: Vec<A::F> = Vec::new();
    let mut grads: Mat<A::F> = Mat::with_cols(x.cols);
    for r in 0..rows
        invariant
            n == targets@.len(),
            x.wf(),
            x.rows == 2 * n,
            rows == grid_rows(n as int, student_only),
            divides(block, x.cols as int),
            losses == ce_losses::<A>(
                x@,
                targets@,
                ignore_index,
                block as int,
                label_smoothing,
                student_only,
            ),
            slopes == ce_slopes::<A>(
                x@,
                targets@,
                ignore_index,
                block as int,
                label_smoothing,
                student_only,
                student_ce_weight,
                teacher_ce_weight,
            ),
            nll@ == losses.subrange(0, r as int),
            grads.wf(),
            grads.rows == r,
            grads.cols == x.cols,
            grads@ == slopes.subrange(0, r as int),
    {
        let (loss, grad) = exact_ce_fwdbwd::<A>(
            x,
            targets,
            r,
            n,
            block,
            student_only,
            student_ce_weight,
            teacher_ce_weight,
            label_smoothing,
            ignore_index,
        );
        proof {
            x.lemma_row_len(r as int);
        }
        nll.push(loss);
        grads.push_row(grad.as_slice());
        assert(nll@ =~= losses.subrange(0, r + 1));
        assert(grads@ =~= slopes.subrange(0, r + 1));
    }
    assert(nll@ =~= losses);
    assert(grads@ =~= slopes);
    (nll, grads)
}

/// Run the KL kernel and then the cross-entropy kernel over a prepared chunk.
///
/// * `logits_chunk`: row-major `[2 * n_rows, V]`, the student's rows first.
/// * `targets`: `[n_rows]` classes.
/// * `block`: the tile width, which divides `V`.
/// * `student_only`: the teacher's rows get no cross-entropy.
/// * `compute_kl`: without it, the KL and its gradient are zero.
pub fn kl_ce_on_logits_chunk<A: Arith>(
    logits_chunk: &[A::F],
    targets: &[i32],
    n_rows: usize,
    v: usize,
    block: usize,
    inv_t: A::F,
    kl_grad_scale: A::F,
    t_sq: A::F,
    student_ce_weight: A::F,
    teacher_ce_weight: A::F,
    label_smoothing: A::F,
    ignore_index: i32,
    student_only: bool,
    compute_kl: bool,
) -> (out: KlCeChunkOutput<A::F>)
    requires
        2 * n_rows <= usize::MAX,
        logits_chunk@.len() == 2 * n_rows * v,
        targets@.len() == n_rows,
        divides(block, v as int),
    ensures
        ({
            let x = rows_of(logits_chunk@, 2 * n_rows, v as int);
            let zero = Seq::new(v as nat, |j: int| A::fint_spec(0));
            &&& out.kl_per_row@ == if compute_kl {
                kl_losses::<A>(x, targets@, ignore_index, block as int, inv_t, t_sq)
            } else {
                Seq::new(n_rows as nat, |i: int| A::fint_spec(0))
            }
            &&& flat(
                out.grad_kl_student@,
                if compute_kl {
                    kl_slopes::<A>(x, targets@, ignore_index, block as int, inv_t, kl_grad_scale)
                } else {
                    Seq::new(n_rows as nat, |i: int| zero)
                },
                v as int,
            )
            &&& out.ce_loss@ == ce_losses::<A>(
                x,
                targets@,
                ignore_index,
                block as int,
                label_smoothing,
                student_only,
            )
            &&& flat(
                out.grad_ce@,
                ce_slopes::<A>(
                    x,
                    targets@,
                    ignore_index,
                    block as int,
                    label_smoothing,
                    student_only,
                    student_ce_weight,
                    teacher_ce_weight,
                ),
                v as int,
            )
        }),
{
    let entries: usize = logits_chunk.len();
    assert(n_rows * v <= entries) by (nonlinear_arith)
        requires
            entries == 2 * n_rows * v,
    ;
    let x: Mat<A::F> = Mat::from_vec(2 * n_rows, v, vstd::slice::slice_to_vec(logits_chunk));
    let (kl_per_row, grad_kl) = if compute_kl {
        run_kl::<A>(&x, targets, block, inv_t, kl_grad_scale, t_sq, ignore_index)
    } else {
        (repeat(A::fint(0), n_rows), Mat::zeros::<A>(n_rows, v))
    };
    let (ce_loss, grad_ce) = run_ce::<A>(
        &x,
        targets,
        block,
        student_ce_weight,
        teacher_ce_weight,
        label_smoothing,
        ignore_index,
        student_only,
    );
    KlCeChunkOutput {
        grad_kl_student: grad_kl.data,
        kl_per_row,
        grad_ce: grad_ce.data,
        ce_loss,
    }
}

} // verus!
