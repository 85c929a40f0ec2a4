//! Small helpers shared by the generator and nemesis modules: a refillable
//! countdown counter, addition that wraps into a half-open range, and the
//! evenly-spaced selection used by the ring partition.

use core::ops::Range;
use vstd::prelude::*;

verus! {

/// A countdown with a remembered refill value. A generator group uses one
/// counter per child to give each child a quota of emissions per turn.
#[derive(Debug, Clone, PartialEq, Eq)]
pub struct Counter {
    pub cur: usize,
    pub total: usize,
}

impl Counter {
    /// A fresh counter starts full.
    pub fn new(total: usize) -> (c: Counter)
        ensures
            c.cur == total,
            c.total == total,
    {
        Counter { cur: total, total }
    }

    /// Replace the refill value and refill.
    pub fn set(&mut self, total: usize)
        ensures
            final(self).cur == total,
            final(self).total == total,
    {
        self.total = total;
        self.cur = total;
    }

    pub fn get_cur(&self) -> (r: usize)
        ensures
            r == self.cur,
    {
        self.cur
    }

    pub fn get_total(&self) -> (r: usize)
        ensures
            r == self.total,
    {
        self.total
    }

    /// Spend one count. Fails exactly when the counter is already spent.
    pub fn count(&mut self) -> (r: Result<usize, &'static str>)
        ensures
            old(self).cur == 0 ==> r == Err::<usize, &'static str>("counter over") && *final(self) == *old(self),
            old(self).cur > 0 ==> {
                &&& final(self).cur == old(self).cur - 1
                &&& final(self).total == old(self).total
                &&& r == Ok::<usize, &'static str>(final(self).cur)
            },
    {
        if self.cur == 0 {
            Err("counter over")
        } else {
            self.cur = self.cur - 1;
            Ok(self.cur)
        }
    }

    /// True when the counter is spent.
    pub fn over(&self) -> (r: bool)
        ensures
            r == (self.cur == 0),
    {
        self.cur == 0
    }

    /// Refill to the remembered value.
    pub fn reset(&mut self)
        ensures
            final(self).cur == old(self).total,
            final(self).total == old(self).total,
    {
        self.cur = self.total;
    }
}

impl Default for Counter {
    /// The default counter has a quota of one.
    fn default() -> (c: Counter)
        ensures
            c.cur == 1,
            c.total == 1,
    {
        Counter::new(1)
    }
}

/// What `overflowing_add_range` returns: `num` steps forward from `x`,
/// folded back into `[range.start, range.end)`. A starting point outside the
/// range is treated as the range start reached after one step.
pub open spec fn spec_add_range(x: usize, num: usize, lo: usize, hi: usize) -> int
    recommends
        lo < hi,
{
    if lo <= x < hi {
        lo + ((x - lo) + num) % (hi - lo)
    } else if num == 0 {
        lo as int
    } else {
        lo + (num - 1) % (hi - lo)
    }
}

/// Addition that stays inside a half-open range: the result is `num` steps
/// after `x`, wrapping from `range.end - 1` back to `range.start`.
pub trait OverflowingAddRange {
    type Output;

    /// When the wrapped addition is defined (for integers: the range is
    /// non-empty).
    spec fn wrap_add_pre(&self, num: Self::Output, range: &Range<Self::Output>) -> bool;

    /// What the wrapped addition returns.
    spec fn wrap_add_post(&self, num: Self::Output, range: &Range<Self::Output>, r: Self::Output) -> bool;

    fn overflowing_add_range(&self, num: Self::Output, range: Range<Self::Output>) -> (r: Self::Output)
        requires
            self.wrap_add_pre(num, &range),
        ensures
            self.wrap_add_post(num, &range, r),
    ;
}

impl OverflowingAddRange for usize {
    type Output = usize;

    open spec fn wrap_add_pre(&self, num: usize, range: &Range<usize>) -> bool {
        range.start < range.end
    }

    open spec fn wrap_add_post(&self, num: usize, range: &Range<usize>, r: usize) -> bool {
        r == spec_add_range(*self, num, range.start, range.end)
    }

    fn overflowing_add_range(&self, num: usize, range: Range<usize>) -> usize {
        add_in_range(*self, num, range)
    }
}

/// `num` steps forward from `x`, folded back into `[range.start, range.end)`.
/// The result is always inside the range, and for `x` inside the range it
/// equals `(x - start + num) % (end - start) + start`.
pub fn add_in_range(x: usize, num: usize, range: Range<usize>) -> (r: usize)
    requires
        range.start < range.end,
    ensures
        range.start <= r < range.end,
        r == spec_add_range(x, num, range.start, range.end),
{
    let lo = range.start;
    let hi = range.end;
    let m = hi - lo;
    if lo <= x && x < hi {
        let a = x - lo;
        let b = num % m;
        assert(a + b < 2 * m);
        let folded = if b < m - a {
            a + b
        } else {
            a - (m - b)
        };
        proof {
            lemma_mod_shift(a as int, num as int, m as int);
        }
        lo + folded
    } else {
        if num == 0 {
            lo
        } else {
            lo + (num - 1) % m
        }
    }
}

/// `(a + k) % m == (a + k % m) % m`, and the fold-by-one-subtraction used in
/// `add_in_range` computes it when `a < m`.
proof fn lemma_mod_shift(a: int, k: int, m: int)
    requires
        0 <= a < m,
        0 <= k,
    ensures
        (a + k) % m == if k % m < m - a {
            a + k % m
        } else {
            a - (m - k % m)
        },
{
    let b = k % m;
    vstd::arithmetic::div_mod::lemma_fundamental_div_mod(k, m);
    let q = k / m;
    assert(k == m * q + b);
    assert(a + k == q * m + (a + b)) by {
        vstd::arithmetic::mul::lemma_mul_is_commutative(q, m);
    }
    vstd::arithmetic::div_mod::lemma_mod_multiples_vanish(q, a + b, m);
    assert((a + k) % m == (a + b) % m);
    if b < m - a {
        vstd::arithmetic::div_mod::lemma_small_mod((a + b) as nat, m as nat);
    } else {
        vstd::arithmetic::div_mod::lemma_mod_sub_multiples_vanish(a + b, m);
        vstd::arithmetic::div_mod::lemma_small_mod((a + b - m) as nat, m as nat);
    }
}

/// Pick `n` numbers out of `0 .. right_endpoint`, as evenly spaced as integer
/// steps allow. The first is always `0` and the last is always
/// `right_endpoint - 1`; the rest advance by `(right_endpoint - 1) / (n - 1)`.
pub fn select_numbers_from_range(right_endpoint: usize, n: usize) -> (r: Vec<usize>)
    requires
        n >= 2,
        right_endpoint >= 1,
    ensures
        r@.len() == n,
        forall|i: int|
            0 <= i < n - 1 ==> r@[i] == i * (((right_endpoint - 1) as int) / ((n - 1) as int)),
        r@[n - 1] == right_endpoint - 1,
{
    let last = right_endpoint - 1;
    let total_steps = n - 1;
    let step_size = last / total_steps;
    let mut ret: Vec<usize> = Vec::new();
    let mut i: usize = 0;
    proof {
        vstd::arithmetic::div_mod::lemma_fundamental_div_mod(last as int, total_steps as int);
        vstd::arithmetic::mul::lemma_mul_inequality(
            i as int,
            total_steps as int,
            step_size as int,
        );
    }
    while i <= total_steps
        invariant
            n >= 2,
            total_steps == n - 1,
            last == right_endpoint - 1,
            step_size == last as int / total_steps as int,
            total_steps * step_size <= last,
            i <= total_steps + 1,
            ret@.len() == i,
            forall|j: int| 0 <= j < i ==> ret@[j] == j * step_size,
        decreases total_steps + 1 - i,
    {
        proof {
            vstd::arithmetic::mul::lemma_mul_inequality(
                i as int,
                total_steps as int,
                step_size as int,
            );
        }
        ret.push(i * step_size);
        i = i + 1;
    }
    let end = ret.len() - 1;
    ret.set(end, last);
    ret
}

} // verus!
