use crate::errors::DspError;
use crate::scalar::Scalar;
use vstd::prelude::*;

verus! {

/// The dot product of the first `k` elements of `xs` and `ys`: the sum
/// of elementwise products, folded left to right from the additive
/// identity.
pub open spec fn dot_prefix<T: Scalar>(xs: Seq<T>, ys: Seq<T>, k: int) -> T
    decreases k,
{
    if k <= 0 {
        T::zero_spec()
    } else {
        dot_prefix(xs, ys, k - 1).add_spec(xs[k - 1].mul_spec(ys[k - 1]))
    }
}

/// The dot product of two equal-length sequences.
pub open spec fn dot_spec<T: Scalar>(xs: Seq<T>, ys: Seq<T>) -> T
    recommends
        xs.len() == ys.len(),
{
    dot_prefix(xs, ys, xs.len() as int)
}

/// Whether every product and every running sum in the dot product of
/// the first `k` elements of `xs` and `ys` is representable in `T`.
pub open spec fn dot_ok<T: Scalar>(xs: Seq<T>, ys: Seq<T>, k: int) -> bool
    decreases k,
{
    k <= 0 || (dot_ok(xs, ys, k - 1) && xs[k - 1].mul_ok(ys[k - 1]) && dot_prefix(
        xs,
        ys,
        k - 1,
    ).add_ok(xs[k - 1].mul_spec(ys[k - 1])))
}

/// Representability of a dot product extends to every shorter prefix.
proof fn lemma_dot_ok_prefix<T: Scalar>(xs: Seq<T>, ys: Seq<T>, j: int, k: int)
    requires
        j <= k,
        dot_ok(xs, ys, k),
    ensures
        dot_ok(xs, ys, j),
    decreases k,
{
    if j < k && k > 0 {
        lemma_dot_ok_prefix(xs, ys, j, k - 1);
    }
}

/// The dot product of two slices: the sum of elementwise products, or
/// `LengthMismatch` exactly when the slices differ in length.
pub fn dot<T: Scalar>(xs: &[T], ys: &[T]) -> (r: Result<T, DspError>)
    requires
        xs@.len() == ys@.len() ==> dot_ok(xs@, ys@, xs@.len() as int),
    ensures
        r is Ok <==> xs@.len() == ys@.len(),
        r matches Ok(sum) ==> sum == dot_spec(xs@, ys@),
        r matches Err(e) ==> e == DspError::LengthMismatch,
{
    if xs.len() != ys.len() {
        return Err(DspError::LengthMismatch);
    }
    let mut sum = T::zero();
    let mut i: usize = 0;
    while i < xs.len()
        invariant
            xs@.len() == ys@.len(),
            dot_ok(xs@, ys@, xs@.len() as int),
            i <= xs@.len(),
            sum == dot_prefix(xs@, ys@, i as int),
        decreases xs@.len() - i,
    {
        proof {
            lemma_dot_ok_prefix(xs@, ys@, i + 1, xs@.len() as int);
        }
        sum = sum.add_val(xs[i].mul_val(ys[i]));
        i = i + 1;
    }
    Ok(sum)
}

} // verus!
