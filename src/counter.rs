use vstd::prelude::*;
use crate::decimal::{int_string, int_text};

verus! {

/// The counter starts here when the window opens.
pub const COUNTER_START: i64 = 1;

/// The two buttons of the counter window.
#[derive(Clone, Copy, Debug, PartialEq, Eq, Structural)]
pub enum CounterButton {
    Increase,
    Decrease,
}

/// What one press of `b` adds to the count.
pub open spec fn press_delta(b: CounterButton) -> int {
    match b {
        CounterButton::Increase => 1,
        CounterButton::Decrease => -1,
    }
}

/// The count after pressing the buttons of `presses` in order, from the
/// starting value.
pub open spec fn count_after(presses: Seq<CounterButton>) -> int
    decreases presses.len(),
{
    if presses.len() == 0 {
        COUNTER_START as int
    } else {
        count_after(presses.drop_last()) + press_delta(presses.last())
    }
}

/// How many presses of `presses` are presses of `b`.
pub open spec fn presses_of(presses: Seq<CounterButton>, b: CounterButton) -> nat
    decreases presses.len(),
{
    if presses.len() == 0 {
        0
    } else {
        presses_of(presses.drop_last(), b) + if presses.last() == b { 1nat } else { 0nat }
    }
}

/// State of the counter window: the running count.
pub struct Counter {
    pub count: i64,
}

impl Counter {
    /// A counter at its starting value.
    pub fn new() -> (r: Counter)
        ensures
            r.count == COUNTER_START,
    {
        Counter { count: COUNTER_START }
    }

    /// The text the output field shows: the count in decimal, no separators.
    pub fn text(&self) -> (r: String)
        ensures
            r@ == int_text(self.count as int),
    {
        int_string(self.count)
    }

    /// Applies one press of `button` and returns the new text of the output
    /// field.
    pub fn press(&mut self, button: CounterButton) -> (r: String)
        requires
            old(self).count as int + press_delta(button) >= i64::MIN,
            old(self).count as int + press_delta(button) <= i64::MAX,
        ensures
            final(self).count == old(self).count as int + press_delta(button),
            r@ == int_text(final(self).count as int),
    {
        match button {
            CounterButton::Increase => self.count = self.count + 1,
            CounterButton::Decrease => self.count = self.count - 1,
        }
        self.text()
    }

    /// The counter after pressing the buttons of `presses` in order from the
    /// starting value, one `press` each: it shows `1 + k - m` after `k`
    /// increments and `m` decrements.
    pub fn after_presses(presses: &Vec<CounterButton>) -> (r: Counter)
        requires
            presses.len() < i64::MAX,
        ensures
            r.count == count_after(presses@),
            r.count == 1 + presses_of(presses@, CounterButton::Increase) - presses_of(
                presses@,
                CounterButton::Decrease,
            ),
    {
        let mut c = Counter::new();
        let mut i: usize = 0;
        while i < presses.len()
            invariant
                presses.len() < i64::MAX,
                i <= presses.len(),
                c.count == count_after(presses@.take(i as int)),
            decreases presses.len() - i,
        {
            proof {
                lemma_count_after_bounds(presses@.take(i as int));
                assert(presses@.take(i + 1).drop_last() =~= presses@.take(i as int));
            }
            c.press(presses[i]);
            i = i + 1;
        }
        assert(presses@.take(i as int) =~= presses@);
        proof { lemma_count_after_presses(presses@); }
        c
    }
}

proof fn lemma_count_after_bounds(presses: Seq<CounterButton>)
    ensures
        1 - presses.len() <= count_after(presses) <= 1 + presses.len(),
    decreases presses.len(),
{
    if presses.len() > 0 {
        lemma_count_after_bounds(presses.drop_last());
    }
}

/// Whatever the order of the presses, the count shown after `k` increments
/// and `m` decrements from the starting value 1 is `1 + k - m`.
pub proof fn lemma_count_after_presses(presses: Seq<CounterButton>)
    ensures
        count_after(presses) == 1 + presses_of(presses, CounterButton::Increase)
            - presses_of(presses, CounterButton::Decrease),
    decreases presses.len(),
{
    if presses.len() > 0 {
        lemma_count_after_presses(presses.drop_last());
    }
}

} // verus!
