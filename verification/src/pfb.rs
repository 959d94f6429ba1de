use crate::errors::DspError;
use vstd::arithmetic::div_mod::{
    lemma_div_is_ordered, lemma_div_multiples_vanish, lemma_div_pos_is_pos,
    lemma_fundamental_div_mod, lemma_fundamental_div_mod_converse, lemma_mod_bound,
};
use vstd::prelude::*;

verus! {

/// The number of taps a stride-`n` decimation starting at offset `i`
/// draws from a flat sequence of `taps_len` taps: `ceil((taps_len - i) / n)`.
pub open spec fn arm_len(taps_len: int, n: int, i: int) -> int {
    (taps_len - i + n - 1) / n
}

/// The arm at offset `i` of a polyphase decomposition of `taps` into `n`
/// arms: the taps at flat indices `i, i + n, i + 2n, ...` until the
/// source is exhausted.
pub open spec fn arm_spec<T>(taps: Seq<T>, n: int, i: int) -> Seq<T>
    recommends
        1 <= n,
        0 <= i < n,
        n <= taps.len(),
{
    Seq::new(arm_len(taps.len() as int, n, i) as nat, |j: int| taps[i + j * n])
}

/// A polyphase filter bank: an immutable partition of a flat tap
/// sequence into interleaved sub-filters ("arms"), where arm `i` holds
/// every `n`-th tap starting at flat offset `i`. The bank owns a copy of
/// the computed arms and is read-only after construction.
pub struct PFB<T> {
    pfb: Vec<Vec<T>>,
}

impl<T> View for PFB<T> {
    type V = Seq<Seq<T>>;

    closed spec fn view(&self) -> Seq<Seq<T>> {
        self.pfb@.map_values(|arm: Vec<T>| arm@)
    }
}

impl<T: Copy> PFB<T> {
    /// Create a new polyphase bank of `n` arms from a flat sequence of
    /// filter taps. Construction succeeds exactly when `1 <= n` and
    /// `n <= taps.len()`; otherwise no bank comes into being and the
    /// error reports the inconsistent pair.
    pub fn new(n: usize, taps: &[T]) -> (r: Result<PFB<T>, DspError>)
        ensures
            r is Ok <==> 1 <= n <= taps@.len(),
            r matches Ok(bank) ==> bank@.len() == n && forall|i: int|
                0 <= i < n ==> bank@[i] == arm_spec(taps@, n as int, i),
            r matches Err(e) ==> e == DspError::InsufficientTaps,
    {
        if n < 1 || taps.len() < n {
            return Err(DspError::InsufficientTaps);
        }
        let mut arms: Vec<Vec<T>> = Vec::new();
        let mut i: usize = 0;
        while i < n
            invariant
                1 <= n <= taps@.len(),
                i <= n,
                arms@.len() == i,
                forall|k: int| 0 <= k < i ==> arms@[k]@ == arm_spec(taps@, n as int, k),
            decreases n - i,
        {
            let arm = Self::extract_arm(taps, n, i);
            arms.push(arm);
            i = i + 1;
        }
        let bank = PFB { pfb: arms };
        proof {
            assert forall|k: int| 0 <= k < n implies bank@[k] == arm_spec(taps@, n as int, k) by {
                assert(bank@[k] == arms@[k]@);
            }
        }
        Ok(bank)
    }

    /// Collect every `n`-th tap starting at offset `i` into one arm.
    fn extract_arm(taps: &[T], n: usize, i: usize) -> (arm: Vec<T>)
        requires
            1 <= n <= taps@.len(),
            i < n,
        ensures
            arm@ == arm_spec(taps@, n as int, i as int),
    {
        let total = taps.len();
        let mut arm: Vec<T> = Vec::new();
        let mut k: usize = i;
        while k < total
            invariant
                total == taps@.len(),
                1 <= n <= total,
                i < n,
                k <= total,
                forall|j: int| 0 <= j < arm@.len() ==> arm@[j] == taps@[i + j * (n as int)],
                k as int == i + arm@.len() * (n as int)
                    || (k == total && i + arm@.len() * (n as int) >= total),
                arm@.len() == 0 || i + (arm@.len() - 1) * (n as int) < total,
            decreases total - k,
        {
            arm.push(taps[k]);
            proof {
                let l = arm@.len() as int;
                assert(l * (n as int) == (l - 1) * (n as int) + n) by (nonlinear_arith);
            }
            if total - k > n {
                k = k + n;
            } else {
                k = total;
            }
        }
        proof {
            let l = arm@.len() as int;
            assert(l >= 1);
            lemma_arm_count(taps@.len() as int, n as int, i as int, l);
            assert(arm@ =~= arm_spec(taps@, n as int, i as int));
        }
        arm
    }

    /// The arm at `idx`: present exactly when `idx` is below the arm
    /// count, absent otherwise — never a wrong or stale arm.
    pub fn get(&self, idx: usize) -> (r: Option<&[T]>)
        ensures
            r is Some <==> idx < self@.len(),
            r matches Some(arm) ==> arm@ == self@[idx as int],
    {
        if idx < self.pfb.len() {
            Some(self.pfb[idx].as_slice())
        } else {
            None
        }
    }

    /// Direct arm access: the arm at `idx`, or `IndexOutOfRange` when
    /// `idx` is at or past the arm count.
    pub fn index(&self, idx: usize) -> (r: Result<&[T], DspError>)
        ensures
            r is Ok <==> idx < self@.len(),
            r matches Ok(arm) ==> arm@ == self@[idx as int],
            r matches Err(e) ==> e == DspError::IndexOutOfRange,
    {
        if idx < self.pfb.len() {
            Ok(self.pfb[idx].as_slice())
        } else {
            Err(DspError::IndexOutOfRange)
        }
    }
}

/// A stride-`n` arm holds exactly `ceil((taps_len - i) / n)` taps: `l`
/// steps of `n` from offset `i` cover the source exactly when the last
/// step starts below `taps_len` and the next would not.
proof fn lemma_arm_count(taps_len: int, n: int, i: int, l: int)
    requires
        1 <= n,
        0 <= i < n,
        n <= taps_len,
        1 <= l,
        i + (l - 1) * n < taps_len,
        i + l * n >= taps_len,
    ensures
        l == arm_len(taps_len, n, i),
{
    let d = taps_len - i + n - 1;
    assert((l - 1) * n == l * n - n) by (nonlinear_arith);
    let r = d - l * n;
    assert(0 <= r < n);
    lemma_fundamental_div_mod_converse(d, n, l, r);
}

/// Round-robin interleaving of a bank's arms: element `t` of the result
/// is element `t / n` of arm `t % n`, where `n` is the number of arms.
pub open spec fn round_robin<T>(arms: Seq<Seq<T>>, total: nat) -> Seq<T>
    recommends
        1 <= arms.len(),
{
    Seq::new(total, |t: int| arms[t % (arms.len() as int)][t / (arms.len() as int)])
}

/// Law: reading the arms of a polyphase decomposition of `taps` in
/// round-robin order (arm 0 element 0, arm 1 element 0, ..., arm n-1
/// element 0, arm 0 element 1, ...) reconstructs `taps` exactly. The
/// arms of a bank built by `PFB::new(n, taps)` satisfy the hypothesis by
/// that function's contract.
pub proof fn lemma_polyphase_reconstruction<T>(taps: Seq<T>, arms: Seq<Seq<T>>)
    requires
        1 <= arms.len() <= taps.len(),
        forall|i: int| 0 <= i < arms.len() ==> arms[i] == arm_spec(taps, arms.len() as int, i),
    ensures
        round_robin(arms, taps.len()) == taps,
{
    let n = arms.len() as int;
    assert forall|t: int| 0 <= t < taps.len() implies round_robin(arms, taps.len())[t]
        == taps[t] by {
        let i = t % n;
        let q = t / n;
        lemma_fundamental_div_mod(t, n);
        lemma_mod_bound(t, n);
        lemma_div_pos_is_pos(t, n);
        assert(q * n == n * q) by (nonlinear_arith);
        assert((q + 1) * n == q * n + n) by (nonlinear_arith);
        assert(n * (q + 1) == (q + 1) * n) by (nonlinear_arith);
        lemma_div_multiples_vanish(q + 1, n);
        lemma_div_is_ordered((q + 1) * n, taps.len() - i + n - 1, n);
        assert(q < arm_len(taps.len() as int, n, i));
        assert(arms[i][q] == taps[i + q * n]);
    }
    assert(round_robin(arms, taps.len()) =~= taps);
}

} // verus!
