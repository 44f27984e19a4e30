use vstd::prelude::*;
use crate::error::{Error, Result, config_error};

verus! {

/// `n` copies of `z`.
pub open spec fn zeros<T>(n: nat, z: T) -> Seq<T> {
    Seq::new(n, |i: int| z)
}

/// `z` is a value that `T::default()` returns. For the integer types this
/// pins `z` down to 0.
pub open spec fn is_default<T: Default>(z: T) -> bool {
    call_ensures(T::default, (), z)
}

/// The last `h.len()` samples of `h` followed by the first `k` samples of `xs`:
/// the contents of a window holding `h` after `xs[0..k]` were pushed into it.
pub open spec fn window_after<T>(h: Seq<T>, xs: Seq<T>, k: int) -> Seq<T> {
    (h + xs.take(k)).skip(k)
}

pub proof fn lemma_window_after_step<T>(h: Seq<T>, xs: Seq<T>, k: int)
    requires
        0 <= k < xs.len(),
        h.len() > 0,
    ensures
        window_after(h, xs, k + 1) == window_after(h, xs, k).drop_first().push(xs[k]),
        window_after(h, xs, k).len() == h.len(),
{
    assert(xs.take(k + 1) == xs.take(k).push(xs[k]));
    assert(window_after(h, xs, k + 1) =~= window_after(h, xs, k).drop_first().push(xs[k]));
}

/// The window `h` after `xs[0..k]` were pushed one at a time, each push
/// dropping the oldest sample.
pub open spec fn pushed<T>(h: Seq<T>, xs: Seq<T>, k: nat) -> Seq<T>
    decreases k,
{
    if k == 0 { h } else { pushed(h, xs, (k - 1) as nat).drop_first().push(xs[k - 1]) }
}

/// Writing a block is pushing its samples one at a time: for a window of at
/// least one sample, `window_after(h, xs, k)` (what `write` leaves) equals
/// `k` successive pushes.
pub proof fn lemma_write_is_pushes<T>(h: Seq<T>, xs: Seq<T>, k: nat)
    requires
        h.len() > 0,
        k <= xs.len(),
    ensures
        window_after(h, xs, k as int) == pushed(h, xs, k),
    decreases k,
{
    if k == 0 {
        lemma_window_after_zero(h, xs);
    } else {
        lemma_write_is_pushes(h, xs, (k - 1) as nat);
        lemma_window_after_step(h, xs, k - 1);
    }
}

/// A cleared window of `n` samples after `k` pushes of `xs` holds the last `n`
/// samples pushed, oldest first, with the zero standing for samples before the
/// first: position `j` holds `xs[k - n + j]`, or `z` where that index is negative.
pub proof fn lemma_window_after_cleared<T>(n: nat, z: T, xs: Seq<T>, k: int)
    requires
        0 <= k <= xs.len(),
    ensures
        window_after(zeros(n, z), xs, k).len() == n,
        forall|j: int| 0 <= j < n ==> #[trigger] window_after(zeros(n, z), xs, k)[j]
            == if k - n + j >= 0 { xs[k - n + j] } else { z },
{
    let a = zeros(n, z) + xs.take(k);
    assert forall|j: int| 0 <= j < n implies #[trigger] window_after(zeros(n, z), xs, k)[j]
        == if k - n + j >= 0 { xs[k - n + j] } else { z } by {
        assert(window_after(zeros(n, z), xs, k)[j] == a[k + j]);
    }
}

/// Pushing at least as many copies of `z` as the window holds leaves only `z`.
pub proof fn lemma_window_after_zeros<T>(h: Seq<T>, z: T, k: nat)
    requires
        k >= h.len(),
    ensures
        window_after(h, zeros(k, z), k as int) == zeros(h.len(), z),
{
    let xs = zeros(k, z);
    assert(xs.take(k as int) =~= xs);
    assert(window_after(h, xs, k as int) =~= zeros(h.len(), z));
}

pub proof fn lemma_window_after_zero<T>(h: Seq<T>, xs: Seq<T>)
    ensures
        window_after(h, xs, 0) == h,
{
    assert(window_after(h, xs, 0) =~= h);
}

/// Sliding window of the most recent `len` samples, oldest first.
#[derive(Clone, Debug)]
pub struct Window<T> {
    buf: Vec<T>,
    zero: T,
}

impl<T> View for Window<T> {
    type V = Seq<T>;

    closed spec fn view(&self) -> Seq<T> {
        self.buf@
    }
}

impl<T: Copy + Default> Window<T> {
    /// The value a cleared window is filled with (`T::default()`).
    pub closed spec fn zero(&self) -> T {
        self.zero
    }

    /// Creates a window of `n` samples, all equal to `T::default()`.
    pub fn new(n: usize) -> (r: Result<Self>)
        ensures
            n == 0 <==> r is Err,
            r is Err ==> r->Err_0 is Config,
            r matches Ok(w) ==> w@ == zeros(n as nat, w.zero()) && is_default(w.zero()),
    {
        if n == 0 {
            return Err(config_error("window length must be greater than zero"));
        }
        let zero = T::default();
        let mut buf: Vec<T> = Vec::new();
        let mut i: usize = 0;
        while i < n
            invariant
                i <= n,
                buf@ == zeros(i as nat, zero),
            decreases n - i,
        {
            buf.push(zero);
            i = i + 1;
            assert(buf@ =~= zeros(i as nat, zero));
        }
        Ok(Window { buf, zero })
    }

    /// Creates a window of `n` samples, all equal to `zero`, which is also the
    /// value `reset` clears to.
    pub fn new_with(n: usize, zero: T) -> (r: Result<Self>)
        ensures
            n == 0 <==> r is Err,
            r is Err ==> r->Err_0 is Config,
            r matches Ok(w) ==> w@ == zeros(n as nat, zero) && w.zero() == zero,
    {
        if n == 0 {
            return Err(config_error("window length must be greater than zero"));
        }
        let mut buf: Vec<T> = Vec::new();
        let mut i: usize = 0;
        while i < n
            invariant
                i <= n,
                buf@ == zeros(i as nat, zero),
            decreases n - i,
        {
            buf.push(zero);
            i = i + 1;
            assert(buf@ =~= zeros(i as nat, zero));
        }
        Ok(Window { buf, zero })
    }

    /// The value a cleared window is filled with.
    pub fn zero_value(&self) -> (r: T)
        ensures
            r == self.zero(),
    {
        self.zero
    }

    /// Number of samples held.
    pub fn len(&self) -> (r: usize)
        ensures
            r == self@.len(),
    {
        self.buf.len()
    }

    /// Clears the window: every sample becomes `self.zero()`.
    pub fn reset(&mut self)
        ensures
            final(self)@ == zeros(old(self)@.len(), old(self).zero()),
            final(self).zero() == old(self).zero(),
    {
        let n = self.buf.len();
        let mut i: usize = 0;
        while i < n
            invariant
                i <= n,
                n == self.buf@.len(),
                n == old(self)@.len(),
                self.zero == old(self).zero,
                forall|j: int| 0 <= j < i ==> self.buf@[j] == self.zero,
            decreases n - i,
        {
            self.buf.set(i, self.zero);
            i = i + 1;
        }
        assert(self.buf@ =~= zeros(n as nat, self.zero));
    }

    /// Shifts the oldest sample out and `x` in as the newest one.
    pub fn push(&mut self, x: T)
        requires
            old(self)@.len() > 0,
        ensures
            final(self)@ == old(self)@.drop_first().push(x),
            final(self).zero() == old(self).zero(),
    {
        self.buf.remove(0);
        self.buf.push(x);
        assert(self.buf@ =~= old(self)@.drop_first().push(x));
    }

    /// Pushes the samples of `xs` in order.
    pub fn write(&mut self, xs: &[T])
        requires
            old(self)@.len() > 0,
        ensures
            final(self)@ == window_after(old(self)@, xs@, xs@.len() as int),
            final(self).zero() == old(self).zero(),
    {
        proof { lemma_window_after_zero(old(self)@, xs@); }
        let mut i: usize = 0;
        while i < xs.len()
            invariant
                i <= xs.len(),
                old(self)@.len() > 0,
                self@ == window_after(old(self)@, xs@, i as int),
                self.zero() == old(self).zero(),
            decreases xs.len() - i,
        {
            proof { lemma_window_after_step(old(self)@, xs@, i as int); }
            self.push(xs[i]);
            i = i + 1;
        }
    }

    /// The samples held, oldest first.
    pub fn read(&self) -> (r: &[T])
        ensures
            r@ == self@,
    {
        self.buf.as_slice()
    }

    /// The sample at position `i` (0 is the oldest).
    pub fn index(&self, i: usize) -> (r: Result<T>)
        ensures
            i < self@.len() <==> r is Ok,
            r matches Ok(v) ==> v == self@[i as int],
            r is Err ==> r->Err_0 is Range,
    {
        if i >= self.buf.len() {
            return Err(Error::Range("window index exceeds window length".to_owned()));
        }
        Ok(self.buf[i])
    }

    /// Changes the length to `n`: the window is cleared, then the samples it
    /// held are pushed again, oldest first.
    pub fn resize(&mut self, n: usize) -> (r: Result<()>)
        ensures
            n == 0 <==> r is Err,
            r is Err ==> r->Err_0 is Config,
            r is Ok ==> final(self)@ == window_after(zeros(n as nat, old(self).zero()), old(self)@, old(self)@.len() as int),
            r is Err ==> final(self)@ == old(self)@,
            final(self).zero() == old(self).zero(),
    {
        if n == 0 {
            return Err(config_error("window length must be greater than zero"));
        }
        let zero = self.zero;
        let mut buf: Vec<T> = Vec::new();
        let mut i: usize = 0;
        while i < n
            invariant
                i <= n,
                buf@ == zeros(i as nat, zero),
            decreases n - i,
        {
            buf.push(zero);
            i = i + 1;
            assert(buf@ =~= zeros(i as nat, zero));
        }
        let mut w = Window { buf, zero };
        w.write(self.buf.as_slice());
        *self = w;
        Ok(())
    }
}

} // verus!
