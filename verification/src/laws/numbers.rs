//! What the laws ask of the arithmetic, and an arithmetic that has it.

#![allow(unused_imports)]

use vstd::prelude::*;
use crate::arith::Arith;
use crate::fixed::{abs, Fixed, ONE};

verus! {

/// Adding up is exact: the grouping of a sum does not matter, and zero adds nothing.
#[verifier::opaque]
pub open spec fn exact_sums<A: Arith>() -> bool {
    &&& forall|a: A::F, b: A::F, c: A::F|
        #[trigger] A::fadd_spec(A::fadd_spec(a, b), c) == A::fadd_spec(a, A::fadd_spec(b, c))
    &&& forall|a: A::F| #[trigger] A::fadd_spec(A::fint_spec(0), a) == a
    &&& forall|a: A::F| #[trigger] A::fadd_spec(a, A::fint_spec(0)) == a
}

/// The largest of several numbers does not depend on how they are grouped, and the number
/// from which it is searched is below all others.
#[verifier::opaque]
pub open spec fn exact_max<A: Arith>() -> bool {
    &&& forall|a: A::F, b: A::F, c: A::F|
        #[trigger] A::fmax_spec(A::fmax_spec(a, b), c) == A::fmax_spec(a, A::fmax_spec(b, c))
    &&& forall|a: A::F| #[trigger] A::fmax_spec(A::flowest_spec(), a) == a
}

/// A number less itself is zero, and less zero is itself; zero stays zero under products,
/// quotients and sums.
pub open spec fn cancels<A: Arith>() -> bool {
    &&& forall|a: A::D| #[trigger] A::dsub_spec(a, a) == A::dint_spec(0)
    &&& forall|a: A::D| #[trigger] A::dsub_spec(a, A::dint_spec(0)) == a
    &&& forall|a: A::D| #[trigger] A::ddiv_spec(A::dint_spec(0), a) == A::dint_spec(0)
    &&& forall|a: A::D| #[trigger] A::dmul_spec(a, A::dint_spec(0)) == A::dint_spec(0)
    &&& A::dadd_spec(A::dint_spec(0), A::dint_spec(0)) == A::dint_spec(0)
}

/// Zero is recognised as zero, in narrow and in wide numbers it is not less than itself, zero
/// plus zero is zero, and so is zero over any count, narrowed where it is wide. Floating point
/// has these properties too.
pub open spec fn zero_is_zero<A: Arith>() -> bool {
    &&& A::feq_spec(A::fint_spec(0), A::fint_spec(0))
    &&& !A::flt_spec(A::fint_spec(0), A::fint_spec(0))
    &&& !A::dlt_spec(A::dint_spec(0), A::widen_spec(A::fint_spec(0)))
    &&& A::fadd_spec(A::fint_spec(0), A::fint_spec(0)) == A::fint_spec(0)
    &&& forall|n: int|
        1 <= n <= usize::MAX ==> {
            let k = #[trigger] A::fdiv_spec(A::fint_spec(1), A::fint_spec(n));
            &&& A::fmul_spec(A::fint_spec(0), k) == A::fint_spec(0)
            &&& A::narrow_spec(A::dmul_spec(A::dint_spec(0), A::widen_spec(k))) == A::fint_spec(0)
        }
}

/// Narrow and wide numbers are computed with alike: widening goes through every operation,
/// it has narrowing as its inverse, equality is that of the numbers, and zero adds nothing and
/// times anything is zero.
#[verifier::opaque]
pub open spec fn one_precision<A: Arith>() -> bool {
    &&& forall|n: int| A::widen_spec(#[trigger] A::fint_spec(n)) == A::dint_spec(n)
    &&& A::widen_spec(A::flowest_spec()) == A::dlowest_spec()
    &&& forall|a: A::F, b: A::F|
        A::widen_spec(#[trigger] A::fadd_spec(a, b)) == A::dadd_spec(
            A::widen_spec(a),
            A::widen_spec(b),
        )
    &&& forall|a: A::F, b: A::F|
        A::widen_spec(#[trigger] A::fsub_spec(a, b)) == A::dsub_spec(
            A::widen_spec(a),
            A::widen_spec(b),
        )
    &&& forall|a: A::F, b: A::F|
        A::widen_spec(#[trigger] A::fmul_spec(a, b)) == A::dmul_spec(
            A::widen_spec(a),
            A::widen_spec(b),
        )
    &&& forall|a: A::F, b: A::F|
        A::widen_spec(#[trigger] A::fdiv_spec(a, b)) == A::ddiv_spec(
            A::widen_spec(a),
            A::widen_spec(b),
        )
    &&& forall|a: A::F, b: A::F|
        A::widen_spec(#[trigger] A::fmax_spec(a, b)) == A::dmax_spec(
            A::widen_spec(a),
            A::widen_spec(b),
        )
    &&& forall|a: A::F| A::widen_spec(#[trigger] A::fexp_spec(a)) == A::dexp_spec(A::widen_spec(a))
    &&& forall|a: A::F| A::widen_spec(#[trigger] A::fln_spec(a)) == A::dln_spec(A::widen_spec(a))
    &&& forall|a: A::F, b: A::F|
        #[trigger] A::flt_spec(a, b) == A::dlt_spec(A::widen_spec(a), A::widen_spec(b))
    &&& forall|a: A::D| A::widen_spec(#[trigger] A::narrow_spec(a)) == a
    &&& forall|a: A::F| A::narrow_spec(#[trigger] A::widen_spec(a)) == a
    &&& forall|a: A::D, b: A::D|
        #[trigger] A::dmax_spec(a, b) == if A::dlt_spec(a, b) {
            b
        } else {
            a
        }
    &&& forall|a: A::D, b: A::D| #[trigger] A::deq_spec(a, b) == (a == b)
    &&& forall|a: A::D| #[trigger] A::dadd_spec(A::dint_spec(0), a) == a
    &&& forall|a: A::D| #[trigger] A::dadd_spec(a, A::dint_spec(0)) == a
    &&& forall|a: A::D| #[trigger] A::dmul_spec(A::dint_spec(0), a) == A::dint_spec(0)
}

/// One is not zero, and multiplying by one, or by one over one, and dividing by one change
/// nothing.
pub open spec fn one_is_neutral<A: Arith>() -> bool {
    &&& A::dint_spec(1) != A::dint_spec(0)
    &&& A::fdiv_spec(A::fint_spec(1), A::fint_spec(1)) == A::fint_spec(1)
    &&& A::widen_spec(A::fint_spec(1)) == A::dint_spec(1)
    &&& forall|a: A::D| #[trigger] A::dmul_spec(a, A::dint_spec(1)) == a
    &&& forall|a: A::D| #[trigger] A::dmul_spec(A::dint_spec(1), a) == a
    &&& forall|a: A::D| #[trigger] A::ddiv_spec(a, A::dint_spec(1)) == a
}

/// Fixed-point arithmetic has all these properties.
pub proof fn fixed_point_is_exact()
    ensures
        exact_sums::<Fixed>(),
        exact_max::<Fixed>(),
        cancels::<Fixed>(),
        zero_is_zero::<Fixed>(),
        one_precision::<Fixed>(),
        one_is_neutral::<Fixed>(),
{
    reveal(exact_sums);
    reveal(exact_max);
    reveal(one_precision);
    assert forall|a: i64|
        #![trigger <Fixed as Arith>::dmul_spec(<Fixed as Arith>::dint_spec(0), a)]
        #![trigger <Fixed as Arith>::dmul_spec(a, <Fixed as Arith>::dint_spec(1))]
        #![trigger <Fixed as Arith>::dmul_spec(<Fixed as Arith>::dint_spec(1), a)]
        #![trigger <Fixed as Arith>::ddiv_spec(a, <Fixed as Arith>::dint_spec(1))]
        #![trigger <Fixed as Arith>::ddiv_spec(<Fixed as Arith>::dint_spec(0), a)]
        {
            &&& <Fixed as Arith>::dmul_spec(<Fixed as Arith>::dint_spec(0), a)
                == <Fixed as Arith>::dint_spec(0)
            &&& <Fixed as Arith>::dmul_spec(a, <Fixed as Arith>::dint_spec(1)) == a
            &&& <Fixed as Arith>::dmul_spec(<Fixed as Arith>::dint_spec(1), a) == a
            &&& <Fixed as Arith>::ddiv_spec(a, <Fixed as Arith>::dint_spec(1)) == a
            &&& <Fixed as Arith>::ddiv_spec(<Fixed as Arith>::dint_spec(0), a)
                == <Fixed as Arith>::dint_spec(0)
        } by {
        let zero = <Fixed as Arith>::dint_spec(0);
        let one = <Fixed as Arith>::dint_spec(1);
        assert(zero == 0);
        assert(one == ONE);
        assert(zero * a == 0) by (nonlinear_arith)
            requires
                zero == 0,
        ;
        let m = abs(a as int);
        assert(abs(a * one) == m * ONE) by (nonlinear_arith)
            requires
                one == ONE,
                ONE > 0,
                m == abs(a as int),
        ;
        vstd::arithmetic::div_mod::lemma_div_multiples_vanish(m, ONE as int);
        assert(ONE * m == m * ONE) by (nonlinear_arith);
        assert(one * a == a * one) by (nonlinear_arith);
        if a != 0 {
            vstd::arithmetic::div_mod::lemma_div_of0(m);
        }
    }
    assert forall|a: i64| #[trigger]
        <Fixed as Arith>::dmul_spec(a, <Fixed as Arith>::dint_spec(0)) == <Fixed as Arith>::dint_spec(
            0,
        ) by {
        let zero = <Fixed as Arith>::dint_spec(0);
        assert(zero == 0);
        assert(a * zero == 0) by (nonlinear_arith)
            requires
                zero == 0,
        ;
    }
}

pub proof fn lemma_narrow_sums<A: Arith>(a: A::F, b: A::F, c: A::F)
    requires
        exact_sums::<A>(),
    ensures
        A::fadd_spec(A::fadd_spec(a, b), c) == A::fadd_spec(a, A::fadd_spec(b, c)),
        A::fadd_spec(A::fint_spec(0), a) == a,
        A::fadd_spec(a, A::fint_spec(0)) == a,
{
    reveal(exact_sums);
}

} // verus!
