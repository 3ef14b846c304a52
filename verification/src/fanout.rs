//! Fan-out: one frame for every pair of a chunk and a subscriber.

use vstd::prelude::*;
use vstd::arithmetic::div_mod::{
    lemma_fundamental_div_mod_converse_div, lemma_fundamental_div_mod_converse_mod,
    lemma_mod_bound, lemma_multiply_divide_lt,
};
use itertools::Itertools;
use crate::datagram::{datagram_views, DataGram, DataGramView, PeerAddr};
use crate::framing::{chunk_at, chunk_count, message_views, spec_split, Generation, Message, MessageView};
use crate::subscribers::{lemma_unsubscribed_set, subscribed, unsubscribed};

verus! {

/// The frames of one submission: every message paired with every peer,
/// message by message, and within one message peer by peer.
pub open spec fn fan_out(msgs: Seq<MessageView>, peers: Seq<PeerAddr>) -> Seq<DataGramView> {
    Seq::new(
        msgs.len() * peers.len(),
        |k: int|
            DataGramView {
                message: msgs[k / (peers.len() as int)],
                peer: peers[k % (peers.len() as int)],
            },
    )
}

/// `Itertools::cartesian_product` on the messages and the peers, each pair
/// made into a datagram. The contract assumes what the adaptor's source
/// shows: it walks the first sequence once and, for each of its items, the
/// whole of the second, cloning the item for each pair.
#[verifier::external_body]
fn cartesian_product(msgs: Vec<Message>, peers: &Vec<PeerAddr>) -> (frames: Vec<DataGram>)
    requires
        msgs@.len() * peers@.len() <= usize::MAX,
    ensures
        datagram_views(frames@) == fan_out(message_views(msgs@), peers@),
{
    msgs.into_iter().cartesian_product(peers.iter().copied()).map(
        |(message, peer)| DataGram { message, peer },
    ).collect()
}

/// Pairs every message with every peer, in the order of [`fan_out`].
/// Returns `None` when there would be more frames than a vector can index.
pub fn fan_out_frames(msgs: Vec<Message>, peers: &Vec<PeerAddr>) -> (frames: Option<Vec<DataGram>>)
    ensures
        match frames {
            Some(frames) => datagram_views(frames@) == fan_out(message_views(msgs@), peers@),
            None => msgs@.len() * peers@.len() > usize::MAX,
        },
{
    match msgs.len().checked_mul(peers.len()) {
        Some(_) => Some(cartesian_product(msgs, peers)),
        None => None,
    }
}

/// Where the frame for the `i`-th message and the `j`-th peer stands.
pub proof fn lemma_fan_out_index(msgs: Seq<MessageView>, peers: Seq<PeerAddr>, i: int, j: int)
    requires
        0 <= i < msgs.len(),
        0 <= j < peers.len(),
    ensures
        0 <= i * peers.len() + j < fan_out(msgs, peers).len(),
        fan_out(msgs, peers)[i * peers.len() + j] == (DataGramView {
            message: msgs[i],
            peer: peers[j],
        }),
{
    let n = peers.len() as int;
    let k = i * n + j;
    assert(0 <= i * n && i * n + n <= msgs.len() * n) by (nonlinear_arith)
        requires
            0 <= i < msgs.len(),
            0 < n,
    ;
    lemma_fundamental_div_mod_converse_div(k, n, i, j);
    lemma_fundamental_div_mod_converse_mod(k, n, i, j);
}

/// Which message and which peer the `k`-th frame carries.
pub proof fn lemma_fan_out_frame(msgs: Seq<MessageView>, peers: Seq<PeerAddr>, k: int)
    requires
        0 <= k < fan_out(msgs, peers).len(),
    ensures
        peers.len() > 0,
        0 <= k / (peers.len() as int) < msgs.len(),
        0 <= k % (peers.len() as int) < peers.len(),
        fan_out(msgs, peers)[k].message == msgs[k / (peers.len() as int)],
        fan_out(msgs, peers)[k].peer == peers[k % (peers.len() as int)],
{
    let n = peers.len() as int;
    let m = msgs.len() as int;
    assert(n > 0) by (nonlinear_arith)
        requires
            0 <= k < m * n,
            0 <= n,
    ;
    lemma_mod_bound(k, n);
    lemma_multiply_divide_lt(k, n, m);
    assert(0 <= k / n) by (nonlinear_arith)
        requires
            0 <= k,
            0 < n,
    ;
}

/// A payload submitted to a set of subscribers gives as many frames as it
/// has chunks times the number of subscribers, every one a data frame of
/// the generation it was submitted under, addressed to a subscriber.
pub proof fn lemma_fan_out_shape(payload: Seq<u8>, generation: Generation, peers: Seq<PeerAddr>)
    ensures
        fan_out(spec_split(payload, generation), peers).len() == chunk_count(payload.len())
            * peers.len(),
        forall|k: int|
            0 <= k < fan_out(spec_split(payload, generation), peers).len() ==> {
                let frame = #[trigger] fan_out(spec_split(payload, generation), peers)[k];
                &&& frame.message == (MessageView::Data {
                    chunk: chunk_at(payload, k / (peers.len() as int)),
                    generation,
                })
                &&& peers.contains(frame.peer)
            },
{
    let msgs = spec_split(payload, generation);
    assert forall|k: int| 0 <= k < fan_out(msgs, peers).len() implies {
        let frame = #[trigger] fan_out(msgs, peers)[k];
        &&& frame.message == (MessageView::Data {
            chunk: chunk_at(payload, k / (peers.len() as int)),
            generation,
        })
        &&& peers.contains(frame.peer)
    } by {
        lemma_fan_out_frame(msgs, peers, k);
        assert(peers[k % (peers.len() as int)] == fan_out(msgs, peers)[k].peer);
    }
}

/// A peer that has subscribed gets every chunk of the next submission.
pub proof fn lemma_subscriber_gets_every_chunk(
    order: Seq<PeerAddr>,
    peer: PeerAddr,
    payload: Seq<u8>,
    generation: Generation,
    i: int,
)
    requires
        0 <= i < chunk_count(payload.len()),
    ensures
        fan_out(spec_split(payload, generation), subscribed(order, peer)).contains(
            DataGramView {
                message: MessageView::Data { chunk: chunk_at(payload, i), generation },
                peer,
            },
        ),
{
    let peers = subscribed(order, peer);
    let msgs = spec_split(payload, generation);
    assert(peers.contains(peer)) by {
        if !order.contains(peer) {
            assert(peers[order.len() as int] == peer);
        }
    }
    let j = choose|j: int| 0 <= j < peers.len() && peers[j] == peer;
    lemma_fan_out_index(msgs, peers, i, j);
}

/// A peer that has unsubscribed gets no frame of the next submission.
pub proof fn lemma_unsubscribed_gets_nothing(
    order: Seq<PeerAddr>,
    peer: PeerAddr,
    payload: Seq<u8>,
    generation: Generation,
)
    ensures
        forall|k: int|
            0 <= k < fan_out(spec_split(payload, generation), unsubscribed(order, peer)).len()
                ==> (#[trigger] fan_out(
                spec_split(payload, generation),
                unsubscribed(order, peer),
            )[k]).peer != peer,
{
    let peers = unsubscribed(order, peer);
    let msgs = spec_split(payload, generation);
    lemma_unsubscribed_set(order, peer);
    assert forall|k: int| 0 <= k < fan_out(msgs, peers).len() implies (#[trigger] fan_out(
        msgs,
        peers,
    )[k]).peer != peer by {
        lemma_fan_out_frame(msgs, peers, k);
        assert(peers.contains(peers[k % (peers.len() as int)]));
    }
}

} // verus!
