//! The arithmetic that the loss is computed with.
//!
//! Matrices hold narrow numbers (`F`, single precision in practice); the kernels
//! compute in wide ones (`D`, double precision). Everything above this module is
//! written against the operations named here and nothing else, so what is proved of
//! it holds bit for bit of any arithmetic: rounding is part of the operations, and no
//! law of the real numbers is ever used.

use vstd::prelude::*;

verus! {

/// Any function will do.
pub open spec fn unconstrained<X, Y>(f: spec_fn(Seq<char>, X) -> Y) -> bool {
    true
}

/// Some function of `x`, the same one wherever the operation `name` is meant, of which
/// nothing else is known.
pub open spec fn some_function<X, Y>(name: Seq<char>, x: X) -> Y {
    (choose|f: spec_fn(Seq<char>, X) -> Y| unconstrained(f))(name, x)
}

/// A pair of number types and their operations.
///
/// The one thing asked of an implementation is that each operation is a function:
/// given the same operands, it returns the same number. What that function is, the
/// `_spec` functions name. Of floating point this is taken for granted: the last bits of an
/// exponential or a logarithm, and those of a NaN, are left open by its documentation.
pub trait Arith: Sized {
    /// Narrow numbers: what matrices hold.
    type F: Copy;

    /// Wide numbers: what the kernels compute in.
    type D: Copy;

    open spec fn fint_spec(n: int) -> Self::F {
        some_function("fint"@, n)
    }

    /// The integer `n`, as a narrow number.
    fn fint(n: i128) -> (r: Self::F)
        ensures
            r == Self::fint_spec(n as int),
    ;

    open spec fn fsmall_spec() -> Self::F {
        some_function("fsmall"@, ())
    }

    /// The least magnitude that a quantized row is scaled by: 1e-12 in floating point.
    fn fsmall() -> (r: Self::F)
        ensures
            r == Self::fsmall_spec(),
    ;

    open spec fn fadd_spec(a: Self::F, b: Self::F) -> Self::F {
        some_function("fadd"@, (a, b))
    }

    fn fadd(a: Self::F, b: Self::F) -> (r: Self::F)
        ensures
            r == Self::fadd_spec(a, b),
    ;

    open spec fn fsub_spec(a: Self::F, b: Self::F) -> Self::F {
        some_function("fsub"@, (a, b))
    }

    fn fsub(a: Self::F, b: Self::F) -> (r: Self::F)
        ensures
            r == Self::fsub_spec(a, b),
    ;

    open spec fn fmul_spec(a: Self::F, b: Self::F) -> Self::F {
        some_function("fmul"@, (a, b))
    }

    fn fmul(a: Self::F, b: Self::F) -> (r: Self::F)
        ensures
            r == Self::fmul_spec(a, b),
    ;

    open spec fn fdiv_spec(a: Self::F, b: Self::F) -> Self::F {
        some_function("fdiv"@, (a, b))
    }

    fn fdiv(a: Self::F, b: Self::F) -> (r: Self::F)
        ensures
            r == Self::fdiv_spec(a, b),
    ;

    open spec fn fmax_spec(a: Self::F, b: Self::F) -> Self::F {
        some_function("fmax"@, (a, b))
    }

    /// The larger of two narrow numbers.
    fn fmax(a: Self::F, b: Self::F) -> (r: Self::F)
        ensures
            r == Self::fmax_spec(a, b),
    ;

    open spec fn fabs_spec(a: Self::F) -> Self::F {
        some_function("fabs"@, a)
    }

    fn fabs(a: Self::F) -> (r: Self::F)
        ensures
            r == Self::fabs_spec(a),
    ;

    open spec fn ffloor_spec(a: Self::F) -> Self::F {
        some_function("ffloor"@, a)
    }

    fn ffloor(a: Self::F) -> (r: Self::F)
        ensures
            r == Self::ffloor_spec(a),
    ;

    open spec fn flowest_spec() -> Self::F {
        some_function("flowest"@, ())
    }

    /// A narrow number far below any logit, from which a maximum is searched: -1e30 in
    /// floating point.
    fn flowest() -> (r: Self::F)
        ensures
            r == Self::flowest_spec(),
    ;

    open spec fn fexp_spec(a: Self::F) -> Self::F {
        some_function("fexp"@, a)
    }

    fn fexp(a: Self::F) -> (r: Self::F)
        ensures
            r == Self::fexp_spec(a),
    ;

    open spec fn fln_spec(a: Self::F) -> Self::F {
        some_function("fln"@, a)
    }

    fn fln(a: Self::F) -> (r: Self::F)
        ensures
            r == Self::fln_spec(a),
    ;

    open spec fn flt_spec(a: Self::F, b: Self::F) -> bool {
        some_function("flt"@, (a, b))
    }

    /// Whether `a` is less than `b`.
    fn flt(a: Self::F, b: Self::F) -> (r: bool)
        ensures
            r == Self::flt_spec(a, b),
    ;

    open spec fn fle_spec(a: Self::F, b: Self::F) -> bool {
        some_function("fle"@, (a, b))
    }

    /// Whether `a` is at most `b`.
    fn fle(a: Self::F, b: Self::F) -> (r: bool)
        ensures
            r == Self::fle_spec(a, b),
    ;

    open spec fn feq_spec(a: Self::F, b: Self::F) -> bool {
        some_function("feq"@, (a, b))
    }

    /// Whether `a` and `b` are numerically equal.
    fn feq(a: Self::F, b: Self::F) -> (r: bool)
        ensures
            r == Self::feq_spec(a, b),
    ;

    open spec fn fto_i64_spec(a: Self::F) -> i64 {
        some_function("fto_i64"@, a)
    }

    /// The integer part, as a 64-bit integer.
    fn fto_i64(a: Self::F) -> (r: i64)
        ensures
            r == Self::fto_i64_spec(a),
    ;

    open spec fn fto_i8_spec(a: Self::F) -> i8 {
        some_function("fto_i8"@, a)
    }

    /// The integer part, as an 8-bit integer.
    fn fto_i8(a: Self::F) -> (r: i8)
        ensures
            r == Self::fto_i8_spec(a),
    ;

    open spec fn widen_spec(a: Self::F) -> Self::D {
        some_function("widen"@, a)
    }

    /// A narrow number, as a wide one.
    fn widen(a: Self::F) -> (r: Self::D)
        ensures
            r == Self::widen_spec(a),
    ;

    open spec fn narrow_spec(a: Self::D) -> Self::F {
        some_function("narrow"@, a)
    }

    /// A wide number, rounded to a narrow one.
    fn narrow(a: Self::D) -> (r: Self::F)
        ensures
            r == Self::narrow_spec(a),
    ;

    open spec fn dint_spec(n: int) -> Self::D {
        some_function("dint"@, n)
    }

    /// The integer `n`, as a wide number.
    fn dint(n: i128) -> (r: Self::D)
        ensures
            r == Self::dint_spec(n as int),
    ;

    open spec fn dlowest_spec() -> Self::D {
        some_function("dlowest"@, ())
    }

    /// A wide number below all others, from which a maximum is searched.
    fn dlowest() -> (r: Self::D)
        ensures
            r == Self::dlowest_spec(),
    ;

    open spec fn dadd_spec(a: Self::D, b: Self::D) -> Self::D {
        some_function("dadd"@, (a, b))
    }

    fn dadd(a: Self::D, b: Self::D) -> (r: Self::D)
        ensures
            r == Self::dadd_spec(a, b),
    ;

    open spec fn dsub_spec(a: Self::D, b: Self::D) -> Self::D {
        some_function("dsub"@, (a, b))
    }

    fn dsub(a: Self::D, b: Self::D) -> (r: Self::D)
        ensures
            r == Self::dsub_spec(a, b),
    ;

    open spec fn dmul_spec(a: Self::D, b: Self::D) -> Self::D {
        some_function("dmul"@, (a, b))
    }

    fn dmul(a: Self::D, b: Self::D) -> (r: Self::D)
        ensures
            r == Self::dmul_spec(a, b),
    ;

    open spec fn ddiv_spec(a: Self::D, b: Self::D) -> Self::D {
        some_function("ddiv"@, (a, b))
    }

    fn ddiv(a: Self::D, b: Self::D) -> (r: Self::D)
        ensures
            r == Self::ddiv_spec(a, b),
    ;

    open spec fn dmax_spec(a: Self::D, b: Self::D) -> Self::D {
        some_function("dmax"@, (a, b))
    }

    /// The larger of two wide numbers.
    fn dmax(a: Self::D, b: Self::D) -> (r: Self::D)
        ensures
            r == Self::dmax_spec(a, b),
    ;

    open spec fn dexp_spec(a: Self::D) -> Self::D {
        some_function("dexp"@, a)
    }

    /// The exponential.
    fn dexp(a: Self::D) -> (r: Self::D)
        ensures
            r == Self::dexp_spec(a),
    ;

    open spec fn dln_spec(a: Self::D) -> Self::D {
        some_function("dln"@, a)
    }

    /// The natural logarithm.
    fn dln(a: Self::D) -> (r: Self::D)
        ensures
            r == Self::dln_spec(a),
    ;

    open spec fn dlt_spec(a: Self::D, b: Self::D) -> bool {
        some_function("dlt"@, (a, b))
    }

    /// Whether `a` is less than `b`.
    fn dlt(a: Self::D, b: Self::D) -> (r: bool)
        ensures
            r == Self::dlt_spec(a, b),
    ;

    open spec fn deq_spec(a: Self::D, b: Self::D) -> bool {
        some_function("deq"@, (a, b))
    }

    /// Whether `a` and `b` are numerically equal.
    fn deq(a: Self::D, b: Self::D) -> (r: bool)
        ensures
            r == Self::deq_spec(a, b),
    ;
}

} // verus!
