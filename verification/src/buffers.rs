use crate::scalar::Scalar;
use vstd::prelude::*;

verus! {

/// A fixed-capacity sliding window over the most recent samples of a
/// stream, ordered oldest to newest. The window is always fully
/// populated: it is created zero-filled and never resized.
pub struct ShiftRegister<T: Scalar> {
    qs: Vec<T>,
}

impl<T: Scalar> View for ShiftRegister<T> {
    type V = Seq<T>;

    closed spec fn view(&self) -> Seq<T> {
        self.qs@
    }
}

impl<T: Scalar> ShiftRegister<T> {
    /// Create a new shift register holding `n` copies of the additive
    /// identity. A capacity of zero yields a valid, permanently empty
    /// register.
    pub fn new(n: usize) -> (r: Self)
        ensures
            r@ == Seq::new(n as nat, |i: int| T::zero_spec()),
    {
        let mut qs: Vec<T> = Vec::new();
        let mut i: usize = 0;
        while i < n
            invariant
                i <= n,
                qs@ == Seq::new(i as nat, |j: int| T::zero_spec()),
            decreases n - i,
        {
            qs.push(T::zero());
            proof {
                assert(qs@ =~= Seq::new((i + 1) as nat, |j: int| T::zero_spec()));
            }
            i = i + 1;
        }
        ShiftRegister { qs }
    }

    /// Shift new samples into the register: afterwards it holds the last
    /// `capacity` samples of the stream seen so far (the old contents
    /// followed by `xs`). A chunk at least as long as the register
    /// replaces the contents with the chunk's tail; a shorter chunk
    /// drops that many of the oldest samples and is appended at the end;
    /// an empty chunk changes nothing.
    pub fn push(&mut self, xs: &[T])
        ensures
            final(self)@ == (old(self)@ + xs@).skip(xs@.len() as int),
            final(self)@.len() == old(self)@.len(),
            xs@.len() >= old(self)@.len() ==> final(self)@ == xs@.skip(
                xs@.len() - old(self)@.len(),
            ),
            xs@.len() < old(self)@.len() ==> final(self)@ == old(self)@.skip(xs@.len() as int)
                + xs@,
            xs@.len() == 0 ==> final(self)@ == old(self)@,
    {
        let cap = self.qs.len();
        if xs.len() >= cap {
            let pivot = xs.len() - cap;
            let mut i: usize = 0;
            while i < cap
                invariant
                    self.qs@.len() == cap,
                    pivot + cap == xs@.len(),
                    xs@.len() <= usize::MAX,
                    i <= cap,
                    forall|j: int| 0 <= j < i ==> self.qs@[j] == xs@[pivot + j],
                decreases cap - i,
            {
                self.qs[i] = xs[pivot + i];
                i = i + 1;
            }
        } else {
            let m = xs.len();
            let mut i: usize = 0;
            while i < cap - m
                invariant
                    self.qs@.len() == cap,
                    old(self)@.len() == cap,
                    m == xs@.len(),
                    m < cap,
                    i <= cap - m,
                    forall|j: int| 0 <= j < i ==> self.qs@[j] == old(self)@[j + m],
                    forall|j: int| i <= j < cap ==> self.qs@[j] == old(self)@[j],
                decreases cap - m - i,
            {
                let shifted = self.qs[i + m];
                self.qs[i] = shifted;
                i = i + 1;
            }
            while i < cap
                invariant
                    self.qs@.len() == cap,
                    old(self)@.len() == cap,
                    m == xs@.len(),
                    m < cap,
                    cap - m <= i <= cap,
                    forall|j: int| 0 <= j < cap - m ==> self.qs@[j] == old(self)@[j + m],
                    forall|j: int| cap - m <= j < i ==> self.qs@[j] == xs@[j - (cap - m)],
                decreases cap - i,
            {
                self.qs[i] = xs[i - (cap - m)];
                i = i + 1;
            }
        }
        proof {
            assert(self.qs@ =~= (old(self)@ + xs@).skip(xs@.len() as int));
            if xs@.len() >= old(self)@.len() {
                assert(self.qs@ =~= xs@.skip(xs@.len() - old(self)@.len()));
            } else {
                assert(self.qs@ =~= old(self)@.skip(xs@.len() as int) + xs@);
            }
            if xs@.len() == 0 {
                assert((old(self)@ + xs@).skip(0) =~= old(self)@);
            }
        }
    }

    /// The capacity of the register, constant for its lifetime.
    pub fn len(&self) -> (r: usize)
        ensures
            r == self@.len(),
    {
        self.qs.len()
    }

    /// The current contents, oldest first; always exactly `capacity`
    /// samples long.
    pub fn as_ref(&self) -> (r: &[T])
        ensures
            r@ == self@,
    {
        self.qs.as_slice()
    }
}

} // verus!
