use vstd::prelude::*;
use vstd::arithmetic::div_mod::{lemma_add_mod_noop, lemma_mod_self_0, lemma_small_mod};

verus! {

/// Cyclic selection over a fixed, non-empty list of view titles.
pub struct TabsState<'a> {
    pub titles: Vec<&'a str>,
    pub index: usize,
}

impl<'a> TabsState<'a> {
    /// The selection is valid: there is at least one title and the index points at one.
    pub open spec fn wf(&self) -> bool {
        0 < self.titles@.len() && self.index < self.titles@.len()
    }

    /// Starts on the first title. An empty title list is refused by the precondition.
    pub fn new(titles: Vec<&'a str>) -> (r: TabsState<'a>)
        requires
            titles@.len() > 0,
        ensures
            r.wf(),
            r.titles@ == titles@,
            r.index == 0,
    {
        TabsState { titles, index: 0 }
    }

    /// Advances to the next title, wrapping to the first after the last.
    pub fn next(&mut self)
        requires
            old(self).wf(),
        ensures
            final(self).wf(),
            final(self).titles@ == old(self).titles@,
            final(self).index as int == next_index(old(self).index as int, old(self).titles@.len() as int),
    {
        let n = self.titles.len();
        self.index = (self.index + 1) % n;
    }

    /// Steps back to the previous title, wrapping to the last from the first.
    pub fn previous(&mut self)
        requires
            old(self).wf(),
        ensures
            final(self).wf(),
            final(self).titles@ == old(self).titles@,
            final(self).index as int == prev_index(old(self).index as int, old(self).titles@.len() as int),
    {
        if self.index > 0 {
            self.index -= 1;
        } else {
            self.index = self.titles.len() - 1;
        }
    }
}

/// The index after `next` from `i` over `k` titles.
pub open spec fn next_index(i: int, k: int) -> int {
    (i + 1) % k
}

/// The index after `previous` from `i` over `k` titles.
pub open spec fn prev_index(i: int, k: int) -> int {
    if i > 0 {
        i - 1
    } else {
        k - 1
    }
}

/// The index reached from `i` by `m` successive calls of `next` over `k` titles.
pub open spec fn next_n(i: int, k: int, m: nat) -> int
    decreases m,
{
    if m == 0 {
        i
    } else {
        next_index(next_n(i, k, (m - 1) as nat), k)
    }
}

proof fn lemma_next_n_mod(i: int, k: int, m: nat)
    requires
        0 <= i < k,
    ensures
        next_n(i, k, m) == (i + m) % k,
    decreases m,
{
    if m == 0 {
        lemma_small_mod(i as nat, k as nat);
    } else {
        lemma_next_n_mod(i, k, (m - 1) as nat);
        lemma_add_mod_noop(i + m - 1, 1, k);
        lemma_add_mod_noop(next_n(i, k, (m - 1) as nat), 1, k);
        if k > 1 {
            lemma_small_mod(1, k as nat);
        }
        lemma_small_mod(next_n(i, k, (m - 1) as nat) as nat, k as nat);
    }
}

/// Cycling: over `k` titles, `k` calls of `next` bring the selection back to where it
/// started, and `previous` from the first title selects the last one.
pub proof fn lemma_tabs_cycle(t: TabsState, k: nat)
    requires
        t.wf(),
        k == t.titles@.len(),
    ensures
        next_n(t.index as int, k as int, k) == t.index,
        prev_index(0, k as int) == k - 1,
{
    lemma_next_n_mod(t.index as int, k as int, k);
    lemma_add_mod_noop(t.index as int, k as int, k as int);
    lemma_mod_self_0(k as int);
    lemma_small_mod(t.index as nat, k);
}

} // verus!
