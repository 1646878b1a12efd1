//! The single-slot exactly-once holder: a model of the cell the generated
//! block moves the subject value into. The selected arm's body takes the
//! value out at most once; the structural guarantee that only one generated
//! path ever calls the take is what lets the generated code unwrap
//! unconditionally.

use vstd::prelude::*;

verus! {

/// A slot holding at most one value, surrendered on the first take.
pub struct Slot<T> {
    value: Option<T>,
}

impl<T> Slot<T> {
    /// What the slot currently holds.
    pub closed spec fn holds(&self) -> Option<T> {
        self.value
    }

    /// Create a slot holding the subject's value.
    pub fn new(v: T) -> (s: Self)
        ensures
            s.holds() == Some(v),
    {
        Slot { value: Some(v) }
    }

    /// The one-time extraction: yields whatever the slot holds and leaves
    /// it empty.
    pub fn take(&mut self) -> (r: Option<T>)
        ensures
            r == old(self).holds(),
            final(self).holds() == None::<T>,
    {
        self.value.take()
    }
}

/// The slot state after one take, whatever it held.
pub open spec fn slot_after_take<T>(s: Option<T>) -> Option<T> {
    None
}

/// The results of `k` successive takes from a slot in state `s`.
pub open spec fn take_results<T>(s: Option<T>, k: nat) -> Seq<Option<T>>
    decreases k,
{
    if k == 0 {
        Seq::empty()
    } else {
        seq![s] + take_results(slot_after_take(s), (k - 1) as nat)
    }
}

/// After the empty slot, every take yields nothing.
pub proof fn lemma_takes_after_empty<T>(k: nat)
    ensures
        take_results(None::<T>, k).len() == k,
        forall|j: int| 0 <= j < k ==> take_results(None::<T>, k)[j] == None::<T>,
    decreases k,
{
    if k > 0 {
        lemma_takes_after_empty::<T>((k - 1) as nat);
    }
}

/// Exactly-once consumption: however many candidate paths could take from
/// a freshly filled slot, the first take yields the held value and every
/// later take yields nothing — the value is surrendered exactly once, and
/// a single taker always finds it present.
pub proof fn lemma_take_exactly_once<T>(v: T, k: nat)
    requires
        k >= 1,
    ensures
        take_results(Some(v), k).len() == k,
        take_results(Some(v), k)[0] == Some(v),
        forall|j: int| 1 <= j < k ==> take_results(Some(v), k)[j] == None::<T>,
{
    lemma_takes_after_empty::<T>((k - 1) as nat);
}

} // verus!
