//! What the caller chooses, and what the output shows of it.

#![allow(unused_imports)]

use vstd::prelude::*;
use vstd::arithmetic::power2::pow2;
use crate::api::{answers, DistillationLossOutput};
use crate::arith::Arith;
use crate::config::KernelConfig;
use crate::laws::outputs::{lemma_same_terms, same_result};
use crate::laws::plans::{
    chunks_reach_the_limits, chunks_share_the_rows, chunks_stay_within_limits, pressed,
};
use crate::objective::Setup;
use crate::options::LossOptions;
use crate::reference::kl::counted;
use crate::resolver::ChunkSize;

verus! {

/// The plan that is reported covers the rows, and is the caller's: of the size that was given,
/// or, where none was, of no more chunks than were allowed and than there are 512 rows.
pub proof fn reported_plan_obeys_the_options<A: Arith>(
    s: Setup<A>,
    x: DistillationLossOutput<A::F>,
)
    requires
        s.student.rows > 0,
        answers(x, s),
    ensures
        ({
            let n = x.chunk_plan.num_chunks;
            let rows = x.chunk_plan.chunk_size;
            let bt = s.student.rows;
            &&& n * rows >= bt
            &&& s.opts.chunk_size matches ChunkSize::Fixed(cs) ==> {
                &&& (n - 1) * rows < bt
                &&& 1 <= cs <= bt ==> rows == cs
                &&& cs > bt ==> rows == bt
            }
            &&& s.opts.chunk_size is Auto ==> {
                &&& n * (rows - 1) < bt
                &&& n > 1 ==> 512 * n <= bt
                &&& n > 1 ==> (s.opts.config.max_chunks matches Some(m) ==> n <= m)
            }
        }),
{
    let v = s.weight.rows;
    chunks_share_the_rows(s.student.rows, s.opts.chunk_size, Some(v), s.opts.config.max_chunks);
    chunks_stay_within_limits(s.student.rows, v, s.opts.config.max_chunks);
}

/// Where the caller leaves it to the heuristic, every number of chunks that the limits and the
/// pressure of the rows and of the classes allow is reached.
pub proof fn reported_plan_uses_what_is_allowed<A: Arith>(
    s: Setup<A>,
    x: DistillationLossOutput<A::F>,
    k: nat,
    c: int,
)
    requires
        s.student.rows > 0,
        answers(x, s),
        s.opts.chunk_size is Auto,
        k <= 60,
        1 <= c <= pow2(k),
        pressed(s.student.rows, s.weight.rows, pow2(k) as int),
        512 * c <= s.student.rows,
        s.opts.config.max_chunks matches Some(m) ==> c <= m,
    ensures
        x.chunk_plan.num_chunks >= c,
{
    chunks_reach_the_limits(s.student.rows, s.weight.rows, s.opts.config.max_chunks, k, c);
}

/// `s` with another seed of the stochastic rounding.
pub open spec fn seeded<A: Arith>(s: Setup<A>, stochastic_seed: Option<u64>) -> Setup<A> {
    Setup {
        opts: LossOptions {
            config: KernelConfig { stochastic_seed, ..s.opts.config },
            ..s.opts
        },
        ..s
    }
}

/// No seed is seed zero, and without stochastic rounding the seed does not matter.
pub proof fn no_seed_is_seed_zero<A: Arith>(
    s: Setup<A>,
    seed: u64,
    x: DistillationLossOutput<A::F>,
    y: DistillationLossOutput<A::F>,
)
    requires
        answers(x, seeded(s, None)),
        answers(y, seeded(s, Some(seed))),
        seed == 0 || !s.opts.config.stochastic_rounding,
    ensures
        same_result(x, y),
        x.chunk_plan == y.chunk_plan,
{
    lemma_same_terms(seeded(s, None), seeded(s, Some(seed)));
}

/// The mean that is baked into a KL gradient is over the tokens that count, or over one where
/// there are none.
pub proof fn baked_in_mean_is_over_the_tokens(n: usize)
    ensures
        n >= 1 ==> counted(n) == n,
        n == 0 ==> counted(n) == 1,
{
}

} // verus!
