//! The connection registry: a map from live IDs to their mailboxes.
//!
//! Each accepted connection draws a fresh random 2- or 3-digit ID and
//! installs its mailbox under it; the relay looks destinations up here and
//! a closing connection removes itself. The registry never looks inside a
//! mailbox: the handle type is the caller's.

use vstd::hash_map::HashMapWithView;
use vstd::prelude::*;

use crate::wire::{ClientClientMessage, ClientDownMessage};
use crate::Id;

verus! {

/// Each connection's mailbox holds one preloaded greeting and one in-flight
/// envelope.
pub const MAILBOX_CAPACITY: usize = 2;

/// The ID pool is saturated: no connection was registered.
#[derive(Debug, Clone, Copy, PartialEq, Eq, Structural)]
pub struct ServiceUnavailable;

/// An error when relaying a message to another connection.
#[derive(Debug, Clone, Copy, PartialEq, Eq, Structural)]
pub enum SendError {
    /// The destination ID is not currently registered.
    NoSuchId(Id),
    /// The destination's mailbox closed between lookup and delivery; logged,
    /// never surfaced to the sender.
    DeliveryFailed,
}

/// Relies on `rand::random_range` over the thread-local CSPRNG: the result
/// lies in the requested closed range; nothing else is assumed of it.
#[verifier::external_body]
fn draw_candidate_id() -> (r: u16)
    ensures
        10 <= r <= 999,
{
    rand::random_range(10..=999u16)
}

/// The registry: live IDs and their mailboxes. `M` is the mailbox handle.
#[verifier::reject_recursive_types(M)]
pub struct Registry<M> {
    connections: HashMapWithView<u16, M>,
}

impl<M> View for Registry<M> {
    type V = Map<u16, M>;

    closed spec fn view(&self) -> Map<u16, M> {
        self.connections@
    }
}

impl<M> Registry<M> {
    /// An empty registry.
    pub fn new() -> (r: Self)
        ensures
            r@ == Map::<u16, M>::empty(),
    {
        Registry { connections: HashMapWithView::new() }
    }

    /// Draw a random unused ID from [10, 999]; after 100 consecutive
    /// collisions, report the pool saturated. When no ID of the range is
    /// taken, a draw cannot collide, so this succeeds.
    fn gen_id(&self) -> (r: Result<u16, ServiceUnavailable>)
        ensures
            r matches Ok(id) ==> 10 <= id <= 999 && !self@.contains_key(id),
            (forall|id: u16| 10 <= id <= 999 ==> !self@.contains_key(id)) ==> r is Ok,
    {
        let mut i: usize = 0;
        while i <= 100
            invariant
                i == 0 || exists|id: u16| 10 <= id <= 999 && #[trigger] self@.contains_key(id),
            decreases 101 - i,
        {
            let candidate = draw_candidate_id();
            if !self.connections.contains_key(&candidate) {
                return Ok(candidate);
            }
            proof {
                assert(10 <= candidate <= 999 && self@.contains_key(candidate));
            }
            i = i + 1;
        }
        Err(ServiceUnavailable)
    }

    /// Install a new connection's mailbox under a fresh random ID and return
    /// the ID, or report the pool saturated and register nothing.
    pub fn add_connection(&mut self, mailbox: M) -> (r: Result<Id, ServiceUnavailable>)
        ensures
            r matches Ok(id) ==> 10 <= id.0 <= 999 && !old(self)@.contains_key(id.0)
                && final(self)@ == old(self)@.insert(id.0, mailbox),
            r is Err ==> final(self)@ == old(self)@,
            (forall|id: u16| 10 <= id <= 999 ==> !old(self)@.contains_key(id)) ==> r is Ok,
    {
        match self.gen_id() {
            Ok(id) => {
                self.connections.insert(id, mailbox);
                Ok(Id(id))
            },
            Err(e) => Err(e),
        }
    }

    /// Find the destination of a client-to-client message and build the
    /// envelope to enqueue there. The caller delivers the envelope to the
    /// returned mailbox outside the registry, so a slow consumer never
    /// blocks the registry itself.
    pub fn send<'a>(&'a self, to: Id, from: Id, msg: ClientClientMessage) -> (r: Result<
        (&'a M, ClientDownMessage),
        SendError,
    >)
        ensures
            r matches Ok(p) ==> self@.contains_key(to.0) && *(p.0) == self@[to.0] && p.1
                == (ClientDownMessage::FromClient { from, msg }),
            r matches Err(e) ==> e == SendError::NoSuchId(to) && !self@.contains_key(to.0),
    {
        match self.connections.get(&to.0) {
            Some(mailbox) => Ok((mailbox, ClientDownMessage::FromClient { from, msg })),
            None => Err(SendError::NoSuchId(to)),
        }
    }

    /// Drop a connection; removing an absent ID is a no-op.
    pub fn drop_connection(&mut self, id: Id)
        ensures
            final(self)@ == old(self)@.remove(id.0),
    {
        let _ = self.connections.remove(&id.0);
        proof {
            if !old(self)@.contains_key(id.0) {
                assert(old(self)@.remove(id.0) =~= old(self)@);
            }
        }
    }
}

/// Once an ID is dropped it stays unknown to the registry — and so every
/// relay to it reports `NoSuchId` — until some later addition reassigns that
/// very ID: additions under other IDs do not revive it.
pub proof fn lemma_dropped_id_stays_unknown<M>(m: Map<u16, M>, id: u16, other: u16, mailbox: M)
    requires
        other != id,
    ensures
        !m.remove(id).contains_key(id),
        !m.remove(id).insert(other, mailbox).contains_key(id),
{
}

} // verus!
