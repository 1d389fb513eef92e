//! The shared bus: one broadcast channel of raw envelopes, which every
//! handle publishes to and every subscriber reads from.
use tokio::sync::broadcast::Sender;
use vstd::prelude::*;

verus! {

#[verifier::external_type_specification]
#[verifier::external_body]
#[verifier::reject_recursive_types(T)]
pub struct ExSender<T>(Sender<T>);

/// How many messages the bus keeps for a subscriber that has not read them.
pub const BUS_CAPACITY: usize = 32;

/// One event of the bus, as a subscriber sees it.
pub enum Delivery {
    /// The next message.
    Message(Vec<u8>),
    /// The subscriber fell behind and this many messages were lost.
    Lagged(u64),
    /// The bus is gone.
    Closed,
}

/// The messages handed to `send` on this very sender, oldest first; a new
/// sender, or a clone, has handed none.
pub uninterp spec fn handed_to(tx: Sender<Vec<u8>>) -> Seq<Seq<u8>>;

/// Which channel a sender sends on: the shared state that
/// `Sender::same_channel` compares.
pub uninterp spec fn channel_of(tx: Sender<Vec<u8>>) -> int;

/// How many slots the channel's buffer has: the capacity it was made with,
/// rounded up to a power of two.
pub uninterp spec fn slots_of(tx: Sender<Vec<u8>>) -> nat;

/// The least power of two that is at least `n`.
pub open spec fn next_power_of_two(n: nat) -> nat
    decreases n,
{
    if n <= 1 {
        1
    } else {
        2 * next_power_of_two(((n + 1) / 2) as nat)
    }
}

/// The bus that every node makes keeps exactly its capacity in slots.
pub proof fn lemma_bus_capacity_slots()
    ensures
        next_power_of_two(BUS_CAPACITY as nat) == BUS_CAPACITY,
{
    reveal_with_fuel(next_power_of_two, 7);
}

/// Relies on `tokio::sync::broadcast::channel`, which panics on a capacity of
/// 0 or above `usize::MAX / 2` and otherwise rounds the capacity up to a power
/// of two; the receiver it also makes is dropped.
#[verifier::external_body]
fn open_channel(capacity: usize) -> (r: Sender<Vec<u8>>)
    requires
        0 < capacity <= usize::MAX / 2,
    ensures
        handed_to(r) == Seq::<Seq<u8>>::empty(),
        slots_of(r) == next_power_of_two(capacity as nat),
{
    tokio::sync::broadcast::channel(capacity).0
}

/// Relies on `tokio::sync::broadcast::Sender::send`: the message is handed to
/// the channel; `Ok` holds the number of receivers, which is never 0, since
/// with no receiver it fails.
#[verifier::external_body]
fn send_on(tx: &mut Sender<Vec<u8>>, msg: Vec<u8>) -> (r: Option<usize>)
    ensures
        handed_to(*final(tx)) == handed_to(*old(tx)).push(msg@),
        channel_of(*final(tx)) == channel_of(*old(tx)),
        slots_of(*final(tx)) == slots_of(*old(tx)),
        r is Some ==> r->Some_0 > 0,
{
    tx.send(msg).ok()
}

/// Relies on `Clone` for `tokio::sync::broadcast::Sender`: another sender on
/// the same channel, which shares its buffer.
#[verifier::external_body]
fn clone_sender(tx: &Sender<Vec<u8>>) -> (r: Sender<Vec<u8>>)
    ensures
        handed_to(r) == Seq::<Seq<u8>>::empty(),
        channel_of(r) == channel_of(*tx),
        slots_of(r) == slots_of(*tx),
{
    tx.clone()
}

/// A handle on the shared bus. Its view is the sequence of messages that this
/// handle has published, oldest first.
pub struct Bus {
    tx: Sender<Vec<u8>>,
}

impl View for Bus {
    type V = Seq<Seq<u8>>;

    closed spec fn view(&self) -> Seq<Seq<u8>> {
        handed_to(self.tx)
    }
}

impl Bus {
    /// Which channel this handle publishes on.
    pub closed spec fn channel(&self) -> int {
        channel_of(self.tx)
    }

    /// How many unread messages the bus keeps for each subscriber.
    pub closed spec fn slots(&self) -> nat {
        slots_of(self.tx)
    }

    /// A bus that keeps `capacity` rounded up to a power of two unread
    /// messages for each subscriber.
    pub fn new(capacity: usize) -> (r: Self)
        requires
            0 < capacity <= usize::MAX / 2,
        ensures
            r@ == Seq::<Seq<u8>>::empty(),
            r.slots() == next_power_of_two(capacity as nat),
    {
        Bus { tx: open_channel(capacity) }
    }

    /// Another handle on the same bus, which has published nothing yet.
    pub fn handle(&self) -> (r: Bus)
        ensures
            r@ == Seq::<Seq<u8>>::empty(),
            r.channel() == self.channel(),
            r.slots() == self.slots(),
    {
        Bus { tx: clone_sender(&self.tx) }
    }

    /// Hands `msg` to every subscriber attached now; gives the count of
    /// receivers that the channel reports, 0 when there were none, which is
    /// no failure.
    pub fn publish(&mut self, msg: Vec<u8>) -> (r: usize)
        ensures
            final(self)@ == old(self)@.push(msg@),
            final(self).channel() == old(self).channel(),
            final(self).slots() == old(self).slots(),
    {
        match send_on(&mut self.tx, msg) {
            Some(n) => n,
            None => 0,
        }
    }

    /// The sending side, from which subscribers are attached.
    pub fn sender(&self) -> &Sender<Vec<u8>> {
        &self.tx
    }
}

} // verus!
