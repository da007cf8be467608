//! The choice of the chunks.

#![allow(unused_imports)]

use vstd::prelude::*;
use crate::api::{answers, DistillationLossOutput};
use crate::arith::Arith;
use crate::config::KernelConfig;
use crate::laws::outputs::{lemma_same_terms, same_result};
use crate::objective::Setup;
use crate::options::LossOptions;
use crate::resolver::ChunkSize;

verus! {

/// `s` with another way to choose the chunks.
pub open spec fn rechunked<A: Arith>(
    s: Setup<A>,
    chunk_size: ChunkSize,
    max_chunks: Option<usize>,
) -> Setup<A> {
    Setup {
        opts: LossOptions {
            chunk_size,
            config: KernelConfig { max_chunks, ..s.opts.config },
            ..s.opts
        },
        ..s
    }
}

/// The choice of the chunks changes nothing, whatever the arithmetic: every number and every
/// gradient is the same, bit for bit, for any chunk size and any limit on the number of chunks,
/// and so the same as for all rows at once.
pub proof fn chunking_does_not_change_the_result<A: Arith>(
    s: Setup<A>,
    chunk_size: ChunkSize,
    max_chunks: Option<usize>,
    x: DistillationLossOutput<A::F>,
    y: DistillationLossOutput<A::F>,
)
    requires
        answers(x, s),
        answers(y, rechunked(s, chunk_size, max_chunks)),
    ensures
        same_result(x, y),
{
    lemma_same_terms(s, rechunked(s, chunk_size, max_chunks));
}

} // verus!
