//! Single-slot, latest-value-wins signal channels.
//!
//! A signal propagates the newest value of one property from scene code to
//! the node instance that renders it.  Every channel is one slot in a central
//! [`SignalTable`]; the producer handle ([`Signal`]) and the consumer handle
//! ([`NSignal`]) each hold the index of their slot.  Writing a value replaces
//! whatever unread value the slot held, so only the latest value survives;
//! the consumer's poll is non-blocking and empties the slot.

use vstd::prelude::*;

use crate::color::Color;

verus! {

/// Largest magnitude a fixed-point coordinate may take.  Keeping every
/// coordinate within this bound keeps all derived arithmetic (mesh corners,
/// interpolation products) inside `i64`.
pub const COORD_LIMIT: i64 = 1_000_000_000;

/// A value that can travel through a signal channel.
#[derive(Clone, Copy, Debug, PartialEq, Eq, Structural)]
pub enum SignalValue {
    /// A bare pulse, used by drop signals.
    Unit,
    /// One fixed-point scalar.
    Scalar(i64),
    /// A pair of fixed-point scalars, used for positions and sizes.
    Pair(i64, i64),
    /// A color.
    Color(Color),
}

impl SignalValue {
    /// Every numeric payload stays within [`COORD_LIMIT`].
    pub open spec fn wf(self) -> bool {
        match self {
            SignalValue::Unit => true,
            SignalValue::Scalar(v) => -COORD_LIMIT <= v <= COORD_LIMIT,
            SignalValue::Pair(x, y) => -COORD_LIMIT <= x <= COORD_LIMIT && -COORD_LIMIT <= y
                <= COORD_LIMIT,
            SignalValue::Color(_) => true,
        }
    }
}

/// Every undelivered value in the table is well-formed.
pub open spec fn table_wf(t: Seq<Option<SignalValue>>) -> bool {
    forall|i: int| 0 <= i < t.len() ==> (#[trigger] t[i] matches Some(v) ==> v.wf())
}

/// The storage behind every signal channel: one optional value per slot.
/// `None` means the slot holds no undelivered value.
#[derive(Debug)]
pub struct SignalTable {
    slots: Vec<Option<SignalValue>>,
}

impl View for SignalTable {
    type V = Seq<Option<SignalValue>>;

    closed spec fn view(&self) -> Seq<Option<SignalValue>> {
        self.slots@
    }
}

impl SignalTable {
    /// An empty table with no channels.
    pub fn new() -> (t: SignalTable)
        ensures
            t@ == Seq::<Option<SignalValue>>::empty(),
    {
        SignalTable { slots: Vec::new() }
    }

    /// The number of channels ever created.
    pub fn len(&self) -> (n: usize)
        ensures
            n == self@.len(),
    {
        self.slots.len()
    }

    /// Appends one fresh, empty slot and returns its index.
    fn new_slot(&mut self) -> (i: usize)
        ensures
            final(self)@ == old(self)@.push(None),
            i == old(self)@.len(),
    {
        let i = self.slots.len();
        self.slots.push(None);
        i
    }

    /// Stores `value` in `slot`, displacing any unread previous value.
    fn store(&mut self, slot: usize, value: SignalValue)
        requires
            slot < old(self)@.len(),
        ensures
            final(self)@ == old(self)@.update(slot as int, Some(value)),
    {
        self.slots.set(slot, Some(value));
    }

    /// Takes the value out of `slot`, leaving the slot empty.
    fn take(&mut self, slot: usize) -> (r: Option<SignalValue>)
        requires
            slot < old(self)@.len(),
        ensures
            r == old(self)@[slot as int],
            final(self)@ == old(self)@.update(slot as int, None),
    {
        let r = self.slots[slot];
        self.slots.set(slot, None);
        r
    }
}

/// The raw producer end of one signal channel.
#[derive(Clone, Copy, Debug, PartialEq, Eq, Structural)]
pub struct SignalInner {
    /// Index of the channel's slot in the [`SignalTable`].
    pub slot: usize,
}

/// The consumer end of one signal channel, held by a node instance.
#[derive(Clone, Copy, Debug, PartialEq, Eq, Structural)]
pub struct NSignal {
    /// Index of the channel's slot in the [`SignalTable`].
    pub slot: usize,
}

/// Creates one fresh channel and returns its producer and consumer ends.
/// Both ends name the same new slot, so no two channels ever share a slot.
pub fn create_signal(table: &mut SignalTable) -> (r: (SignalInner, NSignal))
    ensures
        final(table)@ == old(table)@.push(None),
        r.0.slot == old(table)@.len(),
        r.1.slot == old(table)@.len(),
{
    let slot = table.new_slot();
    (SignalInner { slot }, NSignal { slot })
}

/// The producer handle held by scene code: the raw end plus a cache of the
/// last value sent, so synchronous reads see the latest sent value even
/// before delivery.
#[derive(Clone, Copy, Debug, PartialEq, Eq, Structural)]
pub struct Signal {
    /// The raw producer end.
    pub inner: SignalInner,
    /// The last value sent through the channel.
    pub value: SignalValue,
}

impl Signal {
    /// The producer state after sending `value`.
    pub open spec fn spec_set(self, value: SignalValue) -> Signal {
        Signal { inner: self.inner, value }
    }

    /// Wraps a raw producer end with an initial cached value.
    pub fn new(inner: SignalInner, value: SignalValue) -> (s: Signal)
        ensures
            s == (Signal { inner, value }),
    {
        Signal { inner, value }
    }

    /// The last value sent, read synchronously from the cache.
    pub fn get(&self) -> (r: SignalValue)
        ensures
            r == self.value,
    {
        self.value
    }

    /// Sends `value`: caches it and stores it in the channel's slot,
    /// displacing any unread previous value.
    pub fn set(&mut self, table: &mut SignalTable, value: SignalValue)
        requires
            old(self).inner.slot < old(table)@.len(),
        ensures
            *final(self) == old(self).spec_set(value),
            final(table)@ == old(table)@.update(old(self).inner.slot as int, Some(value)),
    {
        table.store(self.inner.slot, value);
        self.value = value;
    }
}

impl NSignal {
    /// Non-blocking poll: returns the newest value sent since the last poll,
    /// or `None` if nothing arrived, and leaves the slot empty.
    pub fn get(&self, table: &mut SignalTable) -> (r: Option<SignalValue>)
        requires
            self.slot < old(table)@.len(),
        ensures
            r == old(table)@[self.slot as int],
            final(table)@ == old(table)@.update(self.slot as int, None),
    {
        table.take(self.slot)
    }
}

/// Latest-value-wins: if a producer sends `a` and then `b` before the
/// consumer polls, the channel slot holds only `b`, so the consumer's next
/// poll observes `b` alone; after each send the producer's synchronous read
/// returns the value just sent.
pub proof fn lemma_signal_latest_wins(
    t0: Seq<Option<SignalValue>>,
    sig: Signal,
    a: SignalValue,
    b: SignalValue,
)
    requires
        sig.inner.slot < t0.len(),
    ensures
        ({
            let s1 = sig.spec_set(a);
            let t1 = t0.update(sig.inner.slot as int, Some(a));
            let s2 = s1.spec_set(b);
            let t2 = t1.update(s1.inner.slot as int, Some(b));
            &&& s1.value == a
            &&& s2.value == b
            &&& t2[s2.inner.slot as int] == Some(b)
        }),
{
}

} // verus!
