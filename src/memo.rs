use vstd::prelude::*;

verus! {

/// The abstract content of a `Memo`.
pub struct MemoState<T> {
    /// The value last stored.
    pub value: T,
    /// What the value depends on changed since it was stored.
    pub stale: bool,
    /// How many times the value has been recomputed.
    pub refreshes: nat,
}

/// A value computed on demand and kept until what it depends on changes, such
/// as a camera's view-projection matrix and its inverse.
pub struct Memo<T> {
    value: T,
    stale: bool,
    refreshes: Ghost<nat>,
}

impl<T> View for Memo<T> {
    type V = MemoState<T>;

    closed spec fn view(&self) -> MemoState<T> {
        MemoState { value: self.value, stale: self.stale, refreshes: self.refreshes@ }
    }
}

/// One read of a memo, from `pre` to `post`, returning `r`: a stale memo
/// stores `r`, freshly computed, and counts one recomputation; a valid memo
/// returns its value and stays as it was.
pub open spec fn read_step<T>(pre: MemoState<T>, post: MemoState<T>, r: T) -> bool {
    if pre.stale {
        post == MemoState { value: r, stale: false, refreshes: pre.refreshes + 1 }
    } else {
        post == pre && r == pre.value
    }
}

impl<T: Copy> Memo<T> {
    /// A memo that holds `placeholder` and must compute its value on the
    /// first read.
    pub fn new(placeholder: T) -> (m: Memo<T>)
        ensures
            m@ == (MemoState { value: placeholder, stale: true, refreshes: 0 }),
    {
        Memo { value: placeholder, stale: true, refreshes: Ghost(0) }
    }

    /// Marks the value out of date: the next read recomputes it.
    pub fn invalidate(&mut self)
        ensures
            final(self)@ == (MemoState { stale: true, ..old(self)@ }),
    {
        self.stale = true;
    }

    /// The next read recomputes the value.
    pub fn is_stale(&self) -> (b: bool)
        ensures
            b == self@.stale,
    {
        self.stale
    }

    /// The value, computed by `compute` first if it is out of date; `compute`
    /// runs only then.
    pub fn get<F: FnOnce() -> T>(&mut self, compute: F) -> (r: T)
        requires
            old(self)@.stale ==> compute.requires(()),
        ensures
            read_step(old(self)@, final(self)@, r),
            old(self)@.stale ==> compute.ensures((), r),
    {
        if self.stale {
            self.value = compute();
            self.stale = false;
            self.refreshes = Ghost(self.refreshes@ + 1);
        }
        self.value
    }
}

/// Two reads with no invalidation between them return the same value, leave
/// the memo as the first read left it, and recompute the value once in all
/// when it was stale, never when it was valid.
pub proof fn lemma_consecutive_reads<T>(m0: MemoState<T>, m1: MemoState<T>, m2: MemoState<T>, r1: T, r2: T)
    requires
        read_step(m0, m1, r1),
        read_step(m1, m2, r2),
    ensures
        r1 == r2,
        m2 == m1,
        !m2.stale,
        m2.refreshes == m0.refreshes + if m0.stale {
            1nat
        } else {
            0nat
        },
{
}

} // verus!
