//! Where the teacher's distribution comes from.
//!
//! The modes differ only in how the teacher's logits are produced and in which gradient
//! paths exist.

use vstd::prelude::*;
use crate::arith::Arith;
use crate::mat::Mat;
#[allow(unused_imports)]
use crate::mat::row_times_transpose;

verus! {

/// How the teacher's logits are produced.
pub enum Teacher<A: Arith> {
    /// The teacher's hidden states through the student's own weight. The default weight
    /// of its cross-entropy is one.
    Tied {
        /// Hidden states `[BT, H]`.
        hidden: Mat<A::F>,
    },
    /// The teacher's hidden states through a weight of its own. The default weight of its
    /// cross-entropy is zero.
    Separate {
        /// Hidden states `[BT, H_teacher]`.
        hidden: Mat<A::F>,
        /// Projection weight `[V, H_teacher]`.
        weight: Mat<A::F>,
    },
    /// Logits given directly; they are constants, so the teacher has no gradient. The
    /// default weight of its cross-entropy is zero.
    Precomputed {
        /// Logits `[BT, V]`.
        logits: Mat<A::F>,
    },
}

/// Which of the three a teacher is.
#[derive(Clone, Copy, Debug, PartialEq, Eq, Structural)]
pub enum TeacherMode {
    Tied,
    Separate,
    Precomputed,
}

impl<A: Arith> Teacher<A> {
    /// The teacher's matrices are well formed.
    pub open spec fn wf(self) -> bool {
        match self {
            Teacher::Tied { hidden } => hidden.wf(),
            Teacher::Separate { hidden, weight } => hidden.wf() && weight.wf(),
            Teacher::Precomputed { logits } => logits.wf(),
        }
    }

    pub open spec fn mode_spec(self) -> TeacherMode {
        match self {
            Teacher::Tied { .. } => TeacherMode::Tied,
            Teacher::Separate { .. } => TeacherMode::Separate,
            Teacher::Precomputed { .. } => TeacherMode::Precomputed,
        }
    }

    /// The weight of the teacher's cross-entropy when the caller gives none.
    pub open spec fn default_weight(self) -> A::F {
        match self {
            Teacher::Tied { .. } => A::fint_spec(1),
            _ => A::fint_spec(0),
        }
    }

    /// The teacher's logits for its row `r`, given the student's weight.
    pub open spec fn logits_row(self, weight: Seq<Seq<A::F>>, r: int) -> Seq<A::F> {
        match self {
            Teacher::Tied { hidden } => row_times_transpose::<A>(hidden@[r], weight),
            Teacher::Separate { hidden, weight: own } => row_times_transpose::<A>(hidden@[r], own@),
            Teacher::Precomputed { logits } => logits@[r],
        }
    }

    /// Which kind of teacher this is.
    pub fn mode(&self) -> (m: TeacherMode)
        ensures
            m == self.mode_spec(),
    {
        match self {
            Teacher::Tied { .. } => TeacherMode::Tied,
            Teacher::Separate { .. } => TeacherMode::Separate,
            Teacher::Precomputed { .. } => TeacherMode::Precomputed,
        }
    }

    /// The weight of the teacher's cross-entropy when the caller gives none: one for a
    /// tied teacher, else zero.
    pub fn default_teacher_ce_weight(&self) -> (w: A::F)
        ensures
            w == self.default_weight(),
    {
        match self {
            Teacher::Tied { .. } => A::fint(1),
            Teacher::Separate { .. } => A::fint(0),
            Teacher::Precomputed { .. } => A::fint(0),
        }
    }
}

} // verus!
