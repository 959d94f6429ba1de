use vstd::prelude::*;

verus! {

/// Capability bound for sample and tap values: a copyable scalar with an
/// additive identity, addition and multiplication. The `*_ok` spec
/// functions say when an operation is representable in the type, so that
/// the executable operations never overflow.
pub trait Scalar: Copy + Sized {
    /// The additive identity.
    spec fn zero_spec() -> Self;

    /// Whether the sum of `self` and `o` is representable.
    spec fn add_ok(self, o: Self) -> bool;

    /// The sum of `self` and `o`, meaningful when `add_ok` holds.
    spec fn add_spec(self, o: Self) -> Self;

    /// Whether the product of `self` and `o` is representable.
    spec fn mul_ok(self, o: Self) -> bool;

    /// The product of `self` and `o`, meaningful when `mul_ok` holds.
    spec fn mul_spec(self, o: Self) -> Self;

    fn zero() -> (r: Self)
        ensures
            r == Self::zero_spec(),
    ;

    fn add_val(self, o: Self) -> (r: Self)
        requires
            self.add_ok(o),
        ensures
            r == self.add_spec(o),
    ;

    fn mul_val(self, o: Self) -> (r: Self)
        requires
            self.mul_ok(o),
        ensures
            r == self.mul_spec(o),
    ;
}

impl Scalar for i64 {
    open spec fn zero_spec() -> i64 {
        0
    }

    open spec fn add_ok(self, o: i64) -> bool {
        i64::MIN <= self + o <= i64::MAX
    }

    open spec fn add_spec(self, o: i64) -> i64 {
        (self + o) as i64
    }

    open spec fn mul_ok(self, o: i64) -> bool {
        i64::MIN <= self * o <= i64::MAX
    }

    open spec fn mul_spec(self, o: i64) -> i64 {
        (self * o) as i64
    }

    fn zero() -> i64 {
        0
    }

    fn add_val(self, o: i64) -> i64 {
        self + o
    }

    fn mul_val(self, o: i64) -> i64 {
        self * o
    }
}

impl Scalar for i32 {
    open spec fn zero_spec() -> i32 {
        0
    }

    open spec fn add_ok(self, o: i32) -> bool {
        i32::MIN <= self + o <= i32::MAX
    }

    open spec fn add_spec(self, o: i32) -> i32 {
        (self + o) as i32
    }

    open spec fn mul_ok(self, o: i32) -> bool {
        i32::MIN <= self * o <= i32::MAX
    }

    open spec fn mul_spec(self, o: i32) -> i32 {
        (self * o) as i32
    }

    fn zero() -> i32 {
        0
    }

    fn add_val(self, o: i32) -> i32 {
        self + o
    }

    fn mul_val(self, o: i32) -> i32 {
        self * o
    }
}

} // verus!
