//! The subscriber set of a publisher and the liveness flag that lives with
//! it, as updated by control messages from peers.

use vstd::prelude::*;
use crate::datagram::{DataGram, PeerAddr};
use crate::framing::{spec_decode, FramingError, Message, MessageView, Request};

verus! {

/// The subscribers in `order` after `peer` subscribed: a peer that is
/// already there stays where it is, a new one goes to the end.
pub open spec fn subscribed(order: Seq<PeerAddr>, peer: PeerAddr) -> Seq<PeerAddr> {
    if order.contains(peer) {
        order
    } else {
        order.push(peer)
    }
}

/// The subscribers in `order` after `peer` unsubscribed: the others, in the
/// order they had.
pub open spec fn unsubscribed(order: Seq<PeerAddr>, peer: PeerAddr) -> Seq<PeerAddr> {
    order.filter(other_than(peer))
}

/// The test that holds of every peer but `peer`.
pub open spec fn other_than(peer: PeerAddr) -> spec_fn(PeerAddr) -> bool {
    |p: PeerAddr| p != peer
}

/// A set of peer addresses that remembers the order in which they joined.
pub struct SubscriberSet {
    peers: Vec<PeerAddr>,
}

impl View for SubscriberSet {
    type V = Set<PeerAddr>;

    closed spec fn view(&self) -> Set<PeerAddr> {
        self.peers@.to_set()
    }
}

impl SubscriberSet {
    /// Nobody stands twice among the subscribers.
    pub closed spec fn wf(&self) -> bool {
        self.peers@.no_duplicates()
    }

    /// The subscribers in the order in which fan-out visits them.
    pub closed spec fn order(&self) -> Seq<PeerAddr> {
        self.peers@
    }

    /// A copy of the subscribers, in the order in which fan-out visits
    /// them, nobody twice.
    pub fn snapshot(&self) -> (peers: Vec<PeerAddr>)
        requires
            self.wf(),
        ensures
            peers@ == self.order(),
            peers@.no_duplicates(),
            peers@.to_set() == self@,
    {
        let mut peers: Vec<PeerAddr> = Vec::new();
        let mut i: usize = 0;
        while i < self.peers.len()
            invariant
                i <= self.peers.len(),
                peers@ == self.peers@.subrange(0, i as int),
            decreases self.peers.len() - i,
        {
            peers.push(self.peers[i]);
            i = i + 1;
        }
        assert(self.peers@.subrange(0, i as int) =~= self.peers@);
        peers
    }

    pub fn new() -> (set: SubscriberSet)
        ensures
            set.wf(),
            set@ == Set::<PeerAddr>::empty(),
            set.order() == Seq::<PeerAddr>::empty(),
    {
        let set = SubscriberSet { peers: Vec::new() };
        assert(set.peers@.to_set() =~= Set::<PeerAddr>::empty());
        set
    }

    pub fn len(&self) -> (n: usize)
        requires
            self.wf(),
        ensures
            n == self@.len(),
            n == self.order().len(),
    {
        proof {
            self.peers@.unique_seq_to_set();
        }
        self.peers.len()
    }

    fn position(&self, peer: PeerAddr) -> (at: Option<usize>)
        ensures
            match at {
                Some(i) => i < self.peers@.len() && self.peers@[i as int] == peer,
                None => !self.peers@.contains(peer),
            },
    {
        let mut i: usize = 0;
        while i < self.peers.len()
            invariant
                i <= self.peers.len(),
                forall|k: int| 0 <= k < i ==> self.peers@[k] != peer,
            decreases self.peers.len() - i,
        {
            if self.peers[i] == peer {
                return Some(i);
            }
            i = i + 1;
        }
        None
    }

    pub fn contains(&self, peer: PeerAddr) -> (found: bool)
        ensures
            found == self@.contains(peer),
            found == self.order().contains(peer),
    {
        self.position(peer).is_some()
    }

    /// Adds `peer`; returns whether it was new.
    pub fn insert(&mut self, peer: PeerAddr) -> (added: bool)
        requires
            old(self).wf(),
        ensures
            final(self).wf(),
            added == !old(self)@.contains(peer),
            final(self)@ == old(self)@.insert(peer),
            final(self).order() == subscribed(old(self).order(), peer),
    {
        match self.position(peer) {
            Some(_) => {
                assert(self.peers@.to_set().insert(peer) =~= self.peers@.to_set());
                false
            },
            None => {
                let ghost before = self.peers@;
                self.peers.push(peer);
                assert(self.peers@.to_set() =~= before.to_set().insert(peer)) by {
                    assert forall|p: PeerAddr|
                        self.peers@.to_set().contains(p) == before.to_set().insert(peer).contains(
                            p,
                        ) by {
                        if self.peers@.contains(p) {
                            let k = choose|k: int| 0 <= k < self.peers@.len() && self.peers@[k] == p;
                            if k < before.len() {
                                assert(before[k] == p);
                            }
                        }
                        if before.contains(p) {
                            let k = choose|k: int| 0 <= k < before.len() && before[k] == p;
                            assert(self.peers@[k] == p);
                        }
                        if p == peer {
                            assert(self.peers@[before.len() as int] == p);
                        }
                    }
                }
                true
            },
        }
    }

    /// Removes `peer`; returns whether it was there.
    pub fn remove(&mut self, peer: PeerAddr) -> (removed: bool)
        requires
            old(self).wf(),
        ensures
            final(self).wf(),
            removed == old(self)@.contains(peer),
            final(self)@ == old(self)@.remove(peer),
            final(self).order() == unsubscribed(old(self).order(), peer),
    {
        let ghost before = self.peers@;
        match self.position(peer) {
            Some(i) => {
                self.peers.remove(i);
                proof {
                    lemma_unsubscribed_present(before, peer, i as int);
                    lemma_unsubscribed_set(before, peer);
                }
                true
            },
            None => {
                proof {
                    lemma_unsubscribed_absent(before, peer);
                    assert(before.to_set().remove(peer) =~= before.to_set());
                }
                false
            },
        }
    }
}

/// What a publisher shares with the pump that reads its control messages:
/// who subscribes, and whether the publisher is still alive.
pub struct PublisherShared {
    subscribers: SubscriberSet,
    is_active: bool,
}

impl PublisherShared {
    pub closed spec fn wf(&self) -> bool {
        self.subscribers.wf()
    }

    /// The subscribers, in the order in which fan-out visits them.
    pub closed spec fn order(&self) -> Seq<PeerAddr> {
        self.subscribers.order()
    }

    /// Whether the publisher is alive.
    pub closed spec fn active(&self) -> bool {
        self.is_active
    }

    /// The state of a publisher that has just started: alive, nobody
    /// subscribed.
    pub fn new() -> (shared: PublisherShared)
        ensures
            shared.wf(),
            shared.active(),
            shared.order() == Seq::<PeerAddr>::empty(),
    {
        PublisherShared { subscribers: SubscriberSet::new(), is_active: true }
    }

    /// Whether the inbound pump should go on reading from the transport.
    pub fn is_active(&self) -> (active: bool)
        ensures
            active == self.active(),
    {
        self.is_active
    }

    /// Marks the publisher as gone. The flag never comes back.
    pub fn close(&mut self)
        ensures
            !final(self).active(),
            final(self).order() == old(self).order(),
            old(self).wf() ==> final(self).wf(),
    {
        self.is_active = false;
    }

    /// The current subscribers, in fan-out order, nobody twice.
    pub fn subscribers(&self) -> (peers: Vec<PeerAddr>)
        requires
            self.wf(),
        ensures
            peers@ == self.order(),
            peers@.no_duplicates(),
    {
        self.subscribers.snapshot()
    }
}

/// The subscribers in `order` after `message` came in from `peer`.
pub open spec fn order_after(order: Seq<PeerAddr>, message: MessageView, peer: PeerAddr) -> Seq<
    PeerAddr,
> {
    match message {
        MessageView::Request(Request::Subscribe) => subscribed(order, peer),
        MessageView::Request(Request::Unsubscribe) => unsubscribed(order, peer),
        MessageView::Data { .. } => order,
    }
}

/// Applies one datagram that came in from the transport: a subscribe request
/// adds its sender, an unsubscribe request removes it, and a data message,
/// which no publisher expects, changes nothing. Nothing is ever passed on.
pub fn handle_publisher_backend(shared: &mut PublisherShared, incoming: DataGram) -> (forward:
    Option<DataGram>)
    requires
        old(shared).wf(),
    ensures
        final(shared).wf(),
        forward is None,
        final(shared).active() == old(shared).active(),
        final(shared).order() == order_after(old(shared).order(), incoming@.message, incoming.peer),
{
    match incoming.message {
        Message::Request(Request::Subscribe) => {
            shared.subscribers.insert(incoming.peer);
        },
        Message::Request(Request::Unsubscribe) => {
            shared.subscribers.remove(incoming.peer);
        },
        Message::Data { .. } => {},
    }
    None
}

/// What became of a datagram that came in from the transport.
#[derive(Clone, Copy, Debug, PartialEq, Eq, Structural)]
pub enum Inbound {
    /// A control message; the subscribers are as it asks.
    Control(Request),
    /// A data message, which no publisher expects; it was discarded.
    UnexpectedData,
    /// No frame; it was discarded.
    Malformed(FramingError),
}

/// What [`receive`] reports of a datagram that decodes as `decoded`.
pub open spec fn inbound_of(decoded: Result<MessageView, FramingError>) -> Inbound {
    match decoded {
        Ok(MessageView::Request(request)) => Inbound::Control(request),
        Ok(MessageView::Data { .. }) => Inbound::UnexpectedData,
        Err(e) => Inbound::Malformed(e),
    }
}

/// Takes one datagram from the transport, as it came in from `from`:
/// decodes it and applies it to the subscribers. A datagram that is no
/// frame, or that carries data, changes nothing and is reported as such.
pub fn receive(shared: &mut PublisherShared, bytes: &[u8], from: PeerAddr) -> (outcome: Inbound)
    requires
        old(shared).wf(),
    ensures
        final(shared).wf(),
        final(shared).active() == old(shared).active(),
        outcome == inbound_of(spec_decode(bytes@)),
        final(shared).order() == match spec_decode(bytes@) {
            Ok(message) => order_after(old(shared).order(), message, from),
            Err(_) => old(shared).order(),
        },
{
    match Message::decode(bytes) {
        Ok(message) => {
            let outcome = match &message {
                Message::Request(request) => Inbound::Control(*request),
                Message::Data { .. } => Inbound::UnexpectedData,
            };
            handle_publisher_backend(shared, DataGram { message, peer: from });
            outcome
        },
        Err(e) => Inbound::Malformed(e),
    }
}

/// Unsubscribing a peer that is not among the subscribers changes nothing.
pub proof fn lemma_unsubscribed_absent(order: Seq<PeerAddr>, peer: PeerAddr)
    requires
        !order.contains(peer),
    ensures
        unsubscribed(order, peer) == order,
    decreases order.len(),
{
    reveal(Seq::filter);
    if order.len() > 0 {
        let init = order.drop_last();
        assert forall|k: int| 0 <= k < init.len() implies init[k] != peer by {
            assert(order[k] == init[k]);
            assert(order.contains(order[k]));
        }
        lemma_unsubscribed_absent(init, peer);
        assert(order.last() != peer) by {
            assert(order.contains(order.last()));
        }
        assert(init.push(order.last()) =~= order);
    }
}

/// Unsubscribing a peer that stands once among the subscribers, at `at`,
/// takes out that one entry.
pub proof fn lemma_unsubscribed_present(order: Seq<PeerAddr>, peer: PeerAddr, at: int)
    requires
        order.no_duplicates(),
        0 <= at < order.len(),
        order[at] == peer,
    ensures
        unsubscribed(order, peer) == order.remove(at),
        order.remove(at).no_duplicates(),
    decreases order.len(),
{
    reveal(Seq::filter);
    let init = order.drop_last();
    if at == order.len() - 1 {
        assert forall|k: int| 0 <= k < init.len() implies init[k] != peer by {
            assert(order[k] == init[k]);
        }
        if init.contains(peer) {
            let k = choose|k: int| 0 <= k < init.len() && init[k] == peer;
            assert(false);
        }
        lemma_unsubscribed_absent(init, peer);
        assert(order.remove(at) =~= init);
    } else {
        assert(init[at] == peer);
        lemma_unsubscribed_present(init, peer, at);
        assert(order.last() != peer);
        assert(init.remove(at).push(order.last()) =~= order.remove(at));
    }
    assert(order.remove(at).no_duplicates());
}

/// The set of the subscribers that are left is the set without the peer.
pub proof fn lemma_unsubscribed_set(order: Seq<PeerAddr>, peer: PeerAddr)
    ensures
        unsubscribed(order, peer).to_set() == order.to_set().remove(peer),
        !unsubscribed(order, peer).contains(peer),
{
    let keep = other_than(peer);
    let left = order.filter(keep);
    assert forall|p: PeerAddr| left.contains(p) implies order.contains(p) && p != peer by {
        let j = choose|j: int| 0 <= j < left.len() && left[j] == p;
        order.lemma_filter_pred(keep, j);
        order.lemma_filter_contains_rev(keep, p);
    }
    assert forall|p: PeerAddr| order.contains(p) && p != peer implies left.contains(p) by {
        let k = choose|k: int| 0 <= k < order.len() && order[k] == p;
        order.lemma_filter_contains(keep, k);
    }
    assert(left.to_set() =~= order.to_set().remove(peer));
}

} // verus!
