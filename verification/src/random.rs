//! The deterministic pseudo-random generator that drives every random choice
//! of the simulation. One instance per forest; identical seeds and identical
//! call sequences yield identical outputs.

use vstd::prelude::*;

verus! {

/// Single-state xorshift-style generator.
pub struct Random {
    seed: u64,
}

/// The state transform applied after every draw: three xorshift rounds.
pub open spec fn next_state(s: u64) -> u64 {
    let a = s ^ (s << 3);
    let b = a ^ (a >> 13);
    b ^ (b << 37)
}

/// The state reached after `n` draws from state `s`.
pub open spec fn state_after(s: u64, n: nat) -> u64
    decreases n,
{
    if n == 0 {
        s
    } else {
        state_after(next_state(s), (n - 1) as nat)
    }
}

/// The index a draw in state `s` picks from a list of length `len`:
/// the state, narrowed to the platform's word, modulo the length.
pub open spec fn pick_index(s: u64, len: int) -> int {
    ((s as usize) as int) % len
}

/// One round of the in-place shuffle: pick an index from the current state,
/// swap-remove that element (the last element takes its place) and append it.
pub open spec fn shuffle_round<T>(s: Seq<T>, st: u64) -> Seq<T> {
    let idx = pick_index(st, s.len() as int);
    s.update(idx, s.last()).drop_last().push(s[idx])
}

/// The list after the first `k` shuffle rounds, starting from state `st`.
pub open spec fn shuffle_upto<T>(s: Seq<T>, st: u64, k: nat) -> Seq<T>
    decreases k,
{
    if k == 0 {
        s
    } else {
        shuffle_round(shuffle_upto(s, st, (k - 1) as nat), state_after(st, (k - 1) as nat))
    }
}

/// Drawing once more advances the state once more.
pub proof fn lemma_state_after_next(s: u64, n: nat)
    ensures
        state_after(s, n + 1) == next_state(state_after(s, n)),
    decreases n,
{
    reveal_with_fuel(state_after, 2);
    if n > 0 {
        lemma_state_after_next(next_state(s), (n - 1) as nat);
    }
}

impl View for Random {
    type V = u64;

    closed spec fn view(&self) -> u64 {
        self.seed
    }
}

impl Random {
    pub fn new(seed: u64) -> (r: Self)
        ensures
            r@ == seed,
    {
        Self { seed }
    }

    /// Returns the state as it was before the call, then advances the state.
    /// The pre-advance return order is part of the generator's contract:
    /// every downstream value depends on it.
    pub fn next(&mut self) -> (r: u64)
        ensures
            r == old(self)@,
            final(self)@ == next_state(old(self)@),
    {
        let next = self.seed;

        self.seed = self.seed ^ (self.seed << 3u64);
        self.seed = self.seed ^ (self.seed >> 13u64);
        self.seed = self.seed ^ (self.seed << 37u64);

        next
    }

    /// Uniform pick at index `state % len`; `None` on an empty list, in which
    /// case no draw is consumed.
    pub fn pick<T: Copy>(&mut self, list: &Vec<T>) -> (r: Option<T>)
        ensures
            list@.len() == 0 ==> r is None && final(self)@ == old(self)@,
            list@.len() > 0 ==> r == Some(list@[pick_index(old(self)@, list@.len() as int)])
                && final(self)@ == next_state(old(self)@),
    {
        if !list.is_empty() {
            let next = self.next() as usize;
            let idx = next % list.len();
            Some(list[idx])
        } else {
            None
        }
    }

    /// In-place shuffle: one round per element, each round swap-removing a
    /// randomly picked element to the end of the list. This exact
    /// swap-and-append pattern, not a textbook shuffle, is what every seed
    /// reproduces.
    #[verifier::loop_isolation(false)]
    pub fn shuffle<T: Copy>(&mut self, list: &mut Vec<T>)
        ensures
            final(list)@ == shuffle_upto(old(list)@, old(self)@, old(list)@.len() as nat),
            final(self)@ == state_after(old(self)@, old(list)@.len() as nat),
            final(list)@.len() == old(list)@.len(),
    {
        let n = list.len();
        for k in 0..n
            invariant
                list@.len() == n,
                list@ == shuffle_upto(old(list)@, old(self)@, k as nat),
                self@ == state_after(old(self)@, k as nat),
        {
            proof {
                lemma_state_after_next(old(self)@, k as nat);
            }
            let idx = self.next() as usize % list.len();
            let t = list.swap_remove(idx);
            list.push(t);
        }
    }
}

} // verus!
