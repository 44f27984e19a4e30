use vstd::prelude::*;
use vstd::relations::{total_ordering, sorted_by};
use vstd::seq_lib::{to_multiset_insert, to_multiset_build, lemma_sorted_unique};
use vstd::std_specs::cmp::{PartialOrdSpec, PartialOrdIs};
use crate::error::{Result, config_error};
use crate::window::{Window, zeros, is_default, window_after, lemma_window_after_step, lemma_window_after_zero};

verus! {

/// `T`'s `<=`, as its `PartialOrd` specification states it.
pub open spec fn order_le<T: PartialOrd>() -> spec_fn(T, T) -> bool {
    |a: T, b: T| a.is_le(&b)
}

/// `T`'s comparisons follow their specification, and `<=` is a total order
/// (true of the primitive integer types; floating-point `<=` is not total, so
/// for floats no contract states the outputs).
pub open spec fn total_order<T: PartialOrd>() -> bool {
    &&& T::obeys_partial_cmp_spec()
    &&& total_ordering(order_le::<T>())
}

/// `xs` in ascending order.
pub open spec fn ascending<T: PartialOrd>(xs: Seq<T>) -> Seq<T> {
    xs.sort_by(order_le::<T>())
}

/// A copy of `xs` sorted in ascending order (insertion sort; equal samples keep
/// their order).
pub fn sorted_copy<T: Copy + PartialOrd>(xs: &[T]) -> (s: Vec<T>)
    requires
        total_order::<T>(),
    ensures
        s@ == ascending(xs@),
        s@.len() == xs@.len(),
{
    let ghost le = order_le::<T>();
    let mut s: Vec<T> = Vec::new();
    proof { assert(s@ =~= xs@.take(0)); }
    let n = xs.len();
    let mut i: usize = 0;
    while i < n
        invariant
            i <= n,
            n == xs@.len(),
            le == order_le::<T>(),
            total_order::<T>(),
            s@.len() == i,
            s@.to_multiset() == xs@.take(i as int).to_multiset(),
            sorted_by(s@, le),
        decreases n - i,
    {
        let x = xs[i];
        let mut j: usize = s.len();
        while j > 0 && !(s[j - 1] <= x)
            invariant
                j <= s@.len(),
                total_order::<T>(),
                le == order_le::<T>(),
                forall|t: int| j <= t < s@.len() ==> !le(#[trigger] s@[t], x),
            decreases j,
        {
            j = j - 1;
        }
        let ghost s0 = s@;
        proof {
            assert(j > 0 ==> le(s0[j - 1], x));
            assert forall|t: int| 0 <= t < j implies le(#[trigger] s0[t], x) by {
                if t < j - 1 {
                    assert(le(s0[t], s0[j - 1]));
                }
            }
            assert forall|t: int| j <= t < s0.len() implies le(x, #[trigger] s0[t]) by {
                assert(!le(s0[t], x));
            }
        }
        s.insert(j, x);
        proof {
            to_multiset_insert(s0, j as int, x);
            assert(xs@.take(i + 1) =~= xs@.take(i as int).push(x));
            to_multiset_build(xs@.take(i as int), x);
            assert forall|a: int, b: int| 0 <= a < b < s@.len() implies #[trigger] le(s@[a], s@[b]) by {
                if b < j {
                    assert(le(s0[a], s0[b]));
                } else if b == j {
                    assert(le(s0[a], x));
                } else if a < j {
                    assert(le(s0[a], x));
                    assert(le(x, s0[b - 1]));
                } else if a == j {
                    assert(le(x, s0[b - 1]));
                } else {
                    assert(le(s0[a - 1], s0[b - 1]));
                }
            }
        }
        i = i + 1;
    }
    proof {
        assert(xs@.take(n as int) =~= xs@);
        xs@.lemma_sort_by_ensures(le);
        lemma_sorted_unique(s@, xs@.sort_by(le), le);
    }
    s
}

/// Order-statistic filter: the output is the sample of rank `rank` (0 is the
/// smallest) among the last `len` input samples.
#[derive(Clone, Debug)]
pub struct OrderStatisticFilter<T> {
    k: usize,
    buf: Window<T>,
}

impl<T: Copy + PartialOrd + Default> View for OrderStatisticFilter<T> {
    type V = Seq<T>;

    /// The samples held, oldest first.
    closed spec fn view(&self) -> Seq<T> {
        self.buf@
    }
}

impl<T: Copy + PartialOrd + Default> OrderStatisticFilter<T> {
    pub open spec fn wf(&self) -> bool {
        &&& self@.len() > 0
        &&& self.rank() < self@.len()
        &&& is_default(self.zero())
    }

    /// Rank of the output among the held samples.
    pub closed spec fn rank(&self) -> nat {
        self.k as nat
    }

    /// The value the window is cleared to (`T::default()`).
    pub closed spec fn zero(&self) -> T {
        self.buf.zero()
    }

    /// The output for the samples held: the one of rank `rank()` in ascending order.
    pub open spec fn output(&self) -> T {
        ascending(self@)[self.rank() as int]
    }

    /// The output is the sample of rank `rank()`: it is one of the held samples,
    /// and every arrangement of the held samples in ascending order has it at
    /// position `rank()`, with only samples `<=` it before and only samples `>=`
    /// it after.
    pub proof fn lemma_output_is_rank(&self)
        requires
            self.wf(),
            total_order::<T>(),
        ensures
            self@.contains(self.output()),
            forall|s: Seq<T>| s.to_multiset() == self@.to_multiset() && sorted_by(s, order_le::<T>()) ==> {
                &&& s.len() == self@.len()
                &&& s[self.rank() as int] == self.output()
                &&& forall|i: int| 0 <= i <= self.rank() ==> (order_le::<T>())(#[trigger] s[i], self.output())
                &&& forall|i: int| self.rank() <= i < s.len() ==> (order_le::<T>())(self.output(), #[trigger] s[i])
            },
    {
        let le = order_le::<T>();
        let w = self@;
        let k = self.rank() as int;
        w.lemma_sort_by_ensures(le);
        let a = ascending(w);
        vstd::seq_lib::to_multiset_len(w);
        vstd::seq_lib::to_multiset_len(a);
        assert(a.len() == w.len());
        assert(a.contains(a[k]));
        assert(w.contains(self.output()));
        assert forall|s: Seq<T>| s.to_multiset() == w.to_multiset() && sorted_by(s, le) implies {
            &&& s.len() == w.len()
            &&& s[k] == self.output()
            &&& forall|i: int| 0 <= i <= k ==> le(#[trigger] s[i], self.output())
            &&& forall|i: int| k <= i < s.len() ==> le(self.output(), #[trigger] s[i])
        } by {
            lemma_sorted_unique(s, a, le);
            assert forall|i: int| 0 <= i <= k implies le(#[trigger] s[i], self.output()) by {
                if i < k {
                    assert(le(s[i], s[k]));
                }
            }
            assert forall|i: int| k <= i < s.len() implies le(self.output(), #[trigger] s[i]) by {
                if i > k {
                    assert(le(s[k], s[i]));
                }
            }
        }
    }

    /// Creates a filter over `filter_length` samples (all `T::default()`) that
    /// outputs the one of rank `rank`. Fails if the length is zero or the rank
    /// is not below it.
    pub fn new(filter_length: usize, rank: usize) -> (r: Result<Self>)
        ensures
            (filter_length == 0 || rank >= filter_length) <==> r is Err,
            r is Err ==> r->Err_0 is Config,
            r matches Ok(q) ==> q.wf() && q.rank() == rank && q@ == zeros(filter_length as nat, q.zero())
                && is_default(q.zero()),
    {
        if filter_length == 0 {
            return Err(config_error("filter length must be greater than zero"));
        }
        if rank >= filter_length {
            return Err(config_error("filter rank must be less than the filter length"));
        }
        let buf = Window::new(filter_length)?;
        let mut q = OrderStatisticFilter { k: rank, buf };
        q.reset();
        Ok(q)
    }

    /// Creates a median filter over `2 * filter_semi_length + 1` samples. Fails
    /// if that length exceeds `usize::MAX`.
    pub fn new_medfilt(filter_semi_length: usize) -> (r: Result<Self>)
        ensures
            r is Ok <==> 2 * filter_semi_length + 1 <= usize::MAX,
            r is Err ==> r->Err_0 is Config,
            r matches Ok(q) ==> q.wf() && q.rank() == filter_semi_length
                && q@ == zeros((2 * filter_semi_length + 1) as nat, q.zero()) && is_default(q.zero()),
    {
        if filter_semi_length > (usize::MAX - 1) / 2 {
            return Err(config_error("filter length exceeds the addressable range"));
        }
        Self::new(2 * filter_semi_length + 1, filter_semi_length)
    }

    /// Clears the window: every sample becomes `zero()`.
    pub fn reset(&mut self)
        ensures
            final(self)@ == zeros(old(self)@.len(), old(self).zero()),
            final(self).rank() == old(self).rank(),
            final(self).zero() == old(self).zero(),
    {
        self.buf.reset();
    }

    /// Shifts `input` into the window, dropping the oldest sample.
    pub fn push(&mut self, input: T)
        requires
            old(self).wf(),
        ensures
            final(self).wf(),
            final(self)@ == old(self)@.drop_first().push(input),
            final(self).rank() == old(self).rank(),
            final(self).zero() == old(self).zero(),
    {
        self.buf.push(input);
    }

    /// Pushes the samples of `input` in order.
    pub fn write(&mut self, input: &[T])
        requires
            old(self).wf(),
        ensures
            final(self).wf(),
            final(self)@ == window_after(old(self)@, input@, input@.len() as int),
            final(self).rank() == old(self).rank(),
            final(self).zero() == old(self).zero(),
    {
        proof {
            lemma_window_after_zero(old(self)@, input@);
            assert forall|k: int| 0 <= k < input@.len() implies #[trigger] window_after(old(self)@, input@, k).len()
                == old(self)@.len() by {
                lemma_window_after_step(old(self)@, input@, k);
            }
            if input@.len() > 0 {
                lemma_window_after_step(old(self)@, input@, input@.len() - 1);
            }
        }
        self.buf.write(input);
    }

    /// The sample of rank `rank()` among those held.
    pub fn execute(&mut self) -> (r: Result<T>)
        requires
            old(self).wf(),
            total_order::<T>(),
        ensures
            *final(self) == *old(self),
            r == Ok::<T, crate::error::Error>(old(self).output()),
    {
        let s = sorted_copy(self.buf.read());
        Ok(s[self.k])
    }

    /// Pushes `input`, then returns the sample of rank `rank()`.
    pub fn execute_one(&mut self, input: T) -> (r: Result<T>)
        requires
            old(self).wf(),
            total_order::<T>(),
        ensures
            final(self).wf(),
            final(self)@ == old(self)@.drop_first().push(input),
            final(self).rank() == old(self).rank(),
            final(self).zero() == old(self).zero(),
            r == Ok::<T, crate::error::Error>(final(self).output()),
    {
        self.push(input);
        self.execute()
    }

    /// Runs `execute_one` on each input sample while there is room in `output`
    /// (`min(input.len(), output.len())` samples); `output[i]` is the result
    /// for `input[i]`, and the rest of `output` is left as it was.
    pub fn execute_block(&mut self, input: &[T], output: &mut [T]) -> (r: Result<()>)
        requires
            old(self).wf(),
            total_order::<T>(),
        ensures
            r is Ok,
            final(self).wf(),
            final(self).rank() == old(self).rank(),
            final(self).zero() == old(self).zero(),
            final(self)@ == window_after(old(self)@, input@, processed(input@.len(), old(output)@.len())),
            final(output)@.len() == old(output)@.len(),
            forall|i: int| 0 <= i < processed(input@.len(), old(output)@.len()) ==> #[trigger] final(output)@[i]
                == ascending(window_after(old(self)@, input@, i + 1))[old(self).rank() as int],
            forall|i: int| processed(input@.len(), old(output)@.len()) <= i < old(output)@.len()
                ==> #[trigger] final(output)@[i] == old(output)@[i],
    {
        let n = if input.len() < output.len() { input.len() } else { output.len() };
        let ghost h = old(self)@;
        proof { lemma_window_after_zero(h, input@); }
        let mut i: usize = 0;
        while i < n
            invariant
                i <= n,
                n == processed(input@.len(), old(output)@.len()),
                n <= input@.len(),
                output@.len() == old(output)@.len(),
                h == old(self)@,
                h.len() > 0,
                total_order::<T>(),
                self.wf(),
                self.rank() == old(self).rank(),
                self.zero() == old(self).zero(),
                self@ == window_after(h, input@, i as int),
                forall|j: int| 0 <= j < i ==> #[trigger] output@[j]
                    == ascending(window_after(h, input@, j + 1))[old(self).rank() as int],
                forall|j: int| n <= j < output@.len() ==> #[trigger] output@[j] == old(output)@[j],
            decreases n - i,
        {
            proof { lemma_window_after_step(h, input@, i as int); }
            output[i] = self.execute_one(input[i])?;
            i = i + 1;
        }
        Ok(())
    }
}

/// Number of samples `execute_block` processes.
pub open spec fn processed(n_in: nat, n_out: nat) -> int {
    if n_in < n_out { n_in as int } else { n_out as int }
}

} // verus!
