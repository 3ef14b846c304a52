//! The publisher: a sink that frames each payload, fans it out to the
//! current subscribers and feeds the frames to a bounded outbound queue,
//! holding on to what the queue has not yet taken.

use vstd::prelude::*;
use futures::channel::mpsc::Sender;
use crate::datagram::{datagram_views, DataGram, DataGramView, PeerAddr};
use crate::descriptor::{PublisherDesc, PublisherDescView};
use crate::fanout::{fan_out, fan_out_frames};
use crate::framing::{chunk_count, spec_split, FramingError, Generation, Message};
use crate::subscribers::PublisherShared;

verus! {

/// The sending half of the outbound queue.
#[verifier::external_type_specification]
#[verifier::external_body]
#[verifier::reject_recursive_types(T)]
pub struct ExSender<T>(Sender<T>);

/// What the outbound queue answered to the offer of a frame.
#[derive(Clone, Copy, Debug, PartialEq, Eq, Structural)]
pub enum Offer {
    /// The queue took the frame.
    Accepted,
    /// The queue has no room now; the frame was not taken.
    Full,
    /// Nobody reads the queue any more; the frame was not taken.
    Disconnected,
}

/// Whether a step has come to its end.
#[derive(Clone, Copy, Debug, PartialEq, Eq, Structural)]
pub enum Async {
    Ready,
    NotReady,
}

/// Whether a sink took what it was handed; if not, it is handed back.
#[derive(Debug, PartialEq, Eq)]
pub enum AsyncSink<T> {
    Ready,
    NotReady(T),
}

/// Why a submission came to nothing.
#[derive(Clone, Copy, Debug, PartialEq, Eq, Structural)]
pub enum PublisherError {
    /// The payload could not be framed.
    Framing(FramingError),
    /// The outbound queue is closed.
    QueueClosed,
    /// Chunks times subscribers is more than a vector can index.
    TooManyFrames,
    /// The generation counter has reached its last value.
    GenerationExhausted,
}

/// The frames that the queue has taken from `sink` since the sender was
/// made, in the order in which it took them.
pub uninterp spec fn taken_from(sink: Sender<DataGram>) -> Seq<DataGramView>;

/// `Sender::try_send` of the outbound queue. Which answer comes depends on
/// how far the reader of the queue has come, and nothing is assumed of
/// that. What is assumed is what the source shows of each answer: the call
/// returns `Ok` only after it has put the message at the end of the queue,
/// and otherwise leaves the queue alone.
#[verifier::external_body]
fn try_send(sink: &mut Sender<DataGram>, frame: DataGram) -> (outcome: Offer)
    ensures
        taken_from(*final(sink)) == if outcome == Offer::Accepted {
            taken_from(*old(sink)).push(frame@)
        } else {
            taken_from(*old(sink))
        },
{
    match sink.try_send(frame) {
        Ok(()) => Offer::Accepted,
        Err(refused) => if refused.is_full() {
            Offer::Full
        } else {
            Offer::Disconnected
        },
    }
}

/// Mathematical value of a [`Publisher`].
pub struct PublisherState {
    /// The tag of the submission under way, or of the next one.
    pub generation: Generation,
    /// The frames of the submission under way that the queue has not yet
    /// taken, the next one first; `None` between submissions.
    pub pending: Option<Seq<DataGramView>>,
    /// Whether the queue was full at the last offer.
    pub flushing: bool,
    /// Every frame that the queue has taken from the publisher's sender,
    /// in the order in which it took them.
    pub sent: Seq<DataGramView>,
}

impl PublisherState {
    /// Generations start at one; a submission under way has frames left and
    /// a generation that can still be followed by another; only a
    /// submission under way can be flushing.
    pub open spec fn wf(self) -> bool {
        &&& self.generation >= 1
        &&& self.pending matches Some(frames) ==> frames.len() > 0 && self.generation < u64::MAX
        &&& self.flushing ==> self.pending is Some
    }

    /// The state once every frame of the submission under way has been
    /// taken, in order: nothing pending, and the generation one further.
    pub open spec fn completed(self) -> PublisherState {
        match self.pending {
            None => self,
            Some(frames) => PublisherState {
                generation: (self.generation + 1) as Generation,
                pending: None,
                flushing: false,
                sent: self.sent + frames,
            },
        }
    }

    /// The state after the submission under way has been given up.
    pub open spec fn reset(self) -> PublisherState {
        PublisherState {
            generation: self.generation,
            pending: None,
            flushing: false,
            sent: self.sent,
        }
    }

    /// The state after note was taken of the answer `outcome` to the offer
    /// of the next frame. Taking note sends nothing.
    pub open spec fn after_offer(self, outcome: Offer) -> PublisherState {
        match self.pending {
            None => self,
            Some(frames) => match outcome {
                Offer::Accepted => if frames.len() <= 1 {
                    PublisherState {
                        generation: (self.generation + 1) as Generation,
                        pending: None,
                        flushing: false,
                        sent: self.sent,
                    }
                } else {
                    PublisherState {
                        generation: self.generation,
                        pending: Some(frames.drop_first()),
                        flushing: false,
                        sent: self.sent,
                    }
                },
                Offer::Full => PublisherState {
                    generation: self.generation,
                    pending: self.pending,
                    flushing: true,
                    sent: self.sent,
                },
                Offer::Disconnected => self,
            },
        }
    }

    /// The state after the next frame was offered to the queue and the
    /// queue answered `outcome`: a frame that was accepted is the last that
    /// the queue has taken.
    pub open spec fn after_send(self, outcome: Offer) -> PublisherState {
        let noted = self.after_offer(outcome);
        PublisherState {
            generation: noted.generation,
            pending: noted.pending,
            flushing: noted.flushing,
            sent: match self.pending {
                Some(frames) if outcome == Offer::Accepted => self.sent.push(frames.first()),
                _ => self.sent,
            },
        }
    }

    /// What offering the next frame reports when the queue answers
    /// `outcome`.
    pub open spec fn offer_result(self, outcome: Offer) -> Result<Async, PublisherError> {
        match self.pending {
            None => Ok(Async::Ready),
            Some(_) => match outcome {
                Offer::Accepted => Ok(Async::Ready),
                Offer::Full => Ok(Async::NotReady),
                Offer::Disconnected => Err(PublisherError::QueueClosed),
            },
        }
    }

    /// The state with the first `taken` frames of the submission under way
    /// taken by the queue and the next one refused for lack of room.
    pub open spec fn stalled_after(self, taken: int) -> PublisherState {
        PublisherState {
            generation: self.generation,
            pending: Some(self.pending->0.skip(taken)),
            flushing: true,
            sent: self.sent + self.pending->0.take(taken),
        }
    }

    /// The state with the first `taken` frames of the submission under way
    /// taken by the queue and the rest given up.
    pub open spec fn abandoned_after(self, taken: int) -> PublisherState {
        PublisherState {
            generation: self.generation,
            pending: None,
            flushing: false,
            sent: self.sent + self.pending->0.take(taken),
        }
    }

    /// Whether draining from state `self` can end in state `post` with the
    /// report `r`: all frames taken; or some taken, in order, and the queue
    /// full at the next; or the queue closed and the submission given up.
    pub open spec fn drains_to(self, post: PublisherState, r: Result<Async, PublisherError>) -> bool {
        match r {
            Ok(Async::Ready) => post == self.completed(),
            Ok(Async::NotReady) => self.pending is Some && exists|taken: int|
                0 <= taken < self.pending->0.len() && post == #[trigger] self.stalled_after(taken),
            Err(e) => e == PublisherError::QueueClosed && self.pending is Some && exists|
                taken: int,
            |
                0 <= taken < self.pending->0.len() && post == #[trigger] self.abandoned_after(
                    taken,
                ),
        }
    }

    /// Whether submitting `item` to the subscribers in `order` from state
    /// `self` can end in state `post` with the report `r`.
    pub open spec fn starts_to(
        self,
        order: Seq<PeerAddr>,
        item: Vec<u8>,
        post: PublisherState,
        r: Result<AsyncSink<Vec<u8>>, PublisherError>,
    ) -> bool {
        let frames = fan_out(spec_split(item@, self.generation), order);
        if self.pending is Some {
            r == Ok::<AsyncSink<Vec<u8>>, PublisherError>(AsyncSink::NotReady(item)) && post == self
        } else if self.generation == u64::MAX {
            r == Err::<AsyncSink<Vec<u8>>, PublisherError>(PublisherError::GenerationExhausted)
                && post == self
        } else if chunk_count(item@.len()) * order.len() > usize::MAX {
            r == Err::<AsyncSink<Vec<u8>>, PublisherError>(PublisherError::TooManyFrames) && post
                == self
        } else if frames.len() == 0 {
            r == Ok::<AsyncSink<Vec<u8>>, PublisherError>(AsyncSink::Ready) && post
                == self.submitted(frames).completed()
        } else {
            match r {
                Ok(AsyncSink::Ready) => self.submitted(frames).drains_to(post, Ok(Async::Ready))
                    || self.submitted(frames).drains_to(post, Ok(Async::NotReady)),
                Ok(AsyncSink::NotReady(_)) => false,
                Err(e) => self.submitted(frames).drains_to(post, Err(e)),
            }
        }
    }

    /// The state with `frames` stored for a new submission.
    pub open spec fn submitted(self, frames: Seq<DataGramView>) -> PublisherState {
        PublisherState {
            generation: self.generation,
            pending: Some(frames),
            flushing: false,
            sent: self.sent,
        }
    }
}

/// The fan-out sink of one publisher.
pub struct Publisher {
    desc: PublisherDesc,
    sink: Sender<DataGram>,
    generation: Generation,
    /// The frames that the queue has not yet taken, the next one last.
    current_send: Option<Vec<DataGram>>,
    in_poll: bool,
}

impl View for Publisher {
    type V = PublisherState;

    closed spec fn view(&self) -> PublisherState {
        PublisherState {
            generation: self.generation,
            pending: match self.current_send {
                None => None,
                Some(frames) => Some(datagram_views(frames@).reverse()),
            },
            flushing: self.in_poll,
            sent: taken_from(self.sink),
        }
    }
}

/// Turns a vector round.
fn reversed(frames: Vec<DataGram>) -> (turned: Vec<DataGram>)
    ensures
        turned@ == frames@.reverse(),
        datagram_views(turned@) == datagram_views(frames@).reverse(),
{
    let ghost all = frames@;
    let mut rest: Vec<DataGram> = frames;
    let mut turned: Vec<DataGram> = Vec::new();
    while rest.len() > 0
        invariant
            rest@.len() <= all.len(),
            rest@ == all.subrange(0, rest@.len() as int),
            turned@ == all.subrange(rest@.len() as int, all.len() as int).reverse(),
        decreases rest@.len(),
    {
        let frame: Option<DataGram> = rest.pop();
        match frame {
            Some(frame) => {
                turned.push(frame);
                assert(turned@ =~= all.subrange(rest@.len() as int, all.len() as int).reverse());
            },
            None => {},
        }
    }
    assert(turned@ =~= all.reverse());
    assert(datagram_views(turned@) =~= datagram_views(all).reverse());
    turned
}

impl Publisher {
    /// The state is well formed.
    pub open spec fn wf(&self) -> bool {
        self@.wf()
    }

    /// The descriptor under which the publisher is registered.
    pub closed spec fn desc(&self) -> PublisherDesc {
        self.desc
    }

    /// The publisher of `desc` once its transport is bound: generation
    /// one, nothing pending, feeding `sink`.
    pub fn from_description(desc: PublisherDesc, sink: Sender<DataGram>) -> (publisher: Publisher)
        ensures
            publisher.wf(),
            publisher.desc() == desc,
            publisher@ == (PublisherState {
                generation: 1,
                pending: None,
                flushing: false,
                sent: taken_from(sink),
            }),
    {
        Publisher { desc, sink, generation: 1, current_send: None, in_poll: false }
    }

    pub fn description(&self) -> (desc: &PublisherDesc)
        ensures
            *desc == self.desc(),
    {
        &self.desc
    }

    pub fn generation(&self) -> (generation: Generation)
        ensures
            generation == self@.generation,
    {
        self.generation
    }

    /// Whether a submission is under way.
    pub fn is_pending(&self) -> (pending: bool)
        ensures
            pending == self@.pending is Some,
    {
        self.current_send.is_some()
    }

    /// How many frames of the submission under way the queue has not yet
    /// taken.
    pub fn pending_len(&self) -> (n: usize)
        ensures
            n == match self@.pending {
                Some(frames) => frames.len(),
                None => 0,
            },
    {
        match &self.current_send {
            Some(frames) => frames.len(),
            None => 0,
        }
    }

    pub fn is_flushing(&self) -> (flushing: bool)
        ensures
            flushing == self@.flushing,
    {
        self.in_poll
    }

    /// Gives up the submission under way, if any. The generation stays.
    pub fn reset_stream(&mut self)
        ensures
            final(self)@ == old(self)@.reset(),
            final(self).desc() == old(self).desc(),
            old(self).wf() ==> final(self).wf(),
    {
        self.in_poll = false;
        self.current_send = None;
    }

    /// Takes note of the queue's answer to the offer of the next frame. On
    /// `Accepted` the frame leaves the pending ones, and with the last frame
    /// the submission is complete and the generation moves on. On `Full` the
    /// frame stays where it is, to be offered again. On `Disconnected`
    /// nothing changes and the closure is reported. Nothing is sent.
    pub fn settle(&mut self, outcome: Offer) -> (r: Result<Async, PublisherError>)
        requires
            old(self).wf(),
        ensures
            final(self).wf(),
            final(self)@ == old(self)@.after_offer(outcome),
            r == old(self)@.offer_result(outcome),
            final(self).desc() == old(self).desc(),
    {
        let ghost before = self@;
        match self.current_send.take() {
            None => Ok(Async::Ready),
            Some(mut frames) => {
                let ghost stored = frames@;
                assert(before.pending == Some(datagram_views(stored).reverse()));
                match outcome {
                    Offer::Accepted => {
                        frames.pop();
                        if frames.len() == 0 {
                            self.generation = self.generation + 1;
                        } else {
                            assert(datagram_views(frames@).reverse() =~= datagram_views(
                                stored,
                            ).reverse().drop_first());
                            self.current_send = Some(frames);
                        }
                        self.in_poll = false;
                        Ok(Async::Ready)
                    },
                    Offer::Full => {
                        self.current_send = Some(frames);
                        self.in_poll = true;
                        Ok(Async::NotReady)
                    },
                    Offer::Disconnected => {
                        self.current_send = Some(frames);
                        Err(PublisherError::QueueClosed)
                    },
                }
            },
        }
    }

    /// Offers the next pending frame to the queue and settles the answer.
    /// With nothing pending, nothing is offered.
    pub fn do_send(&mut self) -> (r: Result<Async, PublisherError>)
        requires
            old(self).wf(),
        ensures
            final(self).wf(),
            final(self).desc() == old(self).desc(),
            exists|outcome: Offer|
                final(self)@ == #[trigger] old(self)@.after_send(outcome) && r == old(
                    self,
                )@.offer_result(outcome),
    {
        let ghost before = self@;
        let outcome: Offer = match &self.current_send {
            None => Offer::Accepted,
            Some(frames) => {
                let next: usize = frames.len() - 1;
                assert(frames@[next as int]@ == datagram_views(frames@).reverse().first());
                try_send(&mut self.sink, frames[next].clone())
            },
        };
        let r = self.settle(outcome);
        assert(self@ == before.after_send(outcome));
        r
    }

    /// Drains the submission under way into the queue, frame by frame in
    /// order, until all are taken, the queue is full, or the queue is found
    /// closed, in which case the submission is given up.
    pub fn poll_complete(&mut self) -> (r: Result<Async, PublisherError>)
        requires
            old(self).wf(),
        ensures
            final(self).wf(),
            old(self)@.drains_to(final(self)@, r),
            final(self).desc() == old(self).desc(),
    {
        let ghost before = self@;
        let ghost mut sent: int = 0;
        if self.current_send.is_none() {
            return Ok(Async::Ready);
        }
        loop
            invariant
                self.wf(),
                self.desc() == old(self).desc(),
                before == old(self)@,
                before.wf(),
                before.pending is Some,
                0 <= sent < before.pending->0.len(),
                self@.pending == Some(before.pending->0.skip(sent)),
                self@.sent == before.sent + before.pending->0.take(sent),
                self@.generation == before.generation,
            decreases before.pending->0.len() - sent,
        {
            let ghost here = self@;
            match self.do_send() {
                Err(e) => {
                    self.reset_stream();
                    assert(self@ == before.abandoned_after(sent));
                    return Err(e);
                },
                Ok(Async::NotReady) => {
                    assert(self@ == before.stalled_after(sent));
                    return Ok(Async::NotReady);
                },
                Ok(Async::Ready) => {
                    assert(self@ == here.after_send(Offer::Accepted));
                    proof {
                        let frames = before.pending->0;
                        assert(frames.skip(sent).first() == frames[sent]);
                        assert(frames.take(sent).push(frames[sent]) =~= frames.take(sent + 1));
                        assert((before.sent + frames.take(sent)).push(frames[sent]) =~= before.sent
                            + frames.take(sent + 1));
                        if self.current_send.is_none() {
                            assert(frames.skip(sent).len() == 1);
                            assert(frames.take(sent + 1) =~= frames);
                            assert(before.sent + frames.take(sent) + frames.skip(sent)
                                =~= before.sent + frames);
                        } else {
                            assert(frames.skip(sent).drop_first() =~= frames.skip(sent + 1));
                        }
                    }
                    if self.current_send.is_none() {
                        return Ok(Async::Ready);
                    }
                    proof {
                        sent = sent + 1;
                    }
                },
            }
        }
    }

    /// Submits a payload. While another submission is under way the payload
    /// is handed back untouched. Otherwise it is split into chunks under the
    /// current generation, every chunk is paired with every subscriber, and
    /// the frames are drained into the queue as far as it has room; what is
    /// left stays pending for [`Publisher::poll_complete`].
    pub fn start_send(&mut self, shared: &PublisherShared, item: Vec<u8>) -> (r: Result<
        AsyncSink<Vec<u8>>,
        PublisherError,
    >)
        requires
            old(self).wf(),
            shared.wf(),
        ensures
            final(self).wf(),
            old(self)@.starts_to(shared.order(), item, final(self)@, r),
            final(self).desc() == old(self).desc(),
    {
        if self.current_send.is_some() {
            return Ok(AsyncSink::NotReady(item));
        }
        if self.generation == u64::MAX {
            return Err(PublisherError::GenerationExhausted);
        }
        let msgs: Vec<Message> = match Message::split_data_msgs(item.as_slice(), self.generation) {
            Ok(msgs) => msgs,
            Err(e) => {
                return Err(PublisherError::Framing(e));
            },
        };
        let peers = shared.subscribers();
        let frames: Vec<DataGram> = match fan_out_frames(msgs, &peers) {
            Some(frames) => frames,
            None => {
                return Err(PublisherError::TooManyFrames);
            },
        };
        let ghost made = datagram_views(frames@);
        assert(made == fan_out(spec_split(item@, self.generation), shared.order()));
        assert(made.len() == frames@.len());
        assert(made.len() == chunk_count(item@.len()) * shared.order().len());
        if frames.len() == 0 {
            self.generation = self.generation + 1;
            return Ok(AsyncSink::Ready);
        }
        self.current_send = Some(reversed(frames));
        assert(made.reverse().reverse() =~= made);
        assert(self@ == old(self)@.submitted(made));
        match self.poll_complete() {
            Ok(_) => Ok(AsyncSink::Ready),
            Err(e) => Err(e),
        }
    }
}

/// What a submission is followed by once the queue has taken `n` of its
/// frames without a refusal in between.
pub open spec fn after_accepts(state: PublisherState, n: nat) -> PublisherState
    decreases n,
{
    if n == 0 {
        state
    } else {
        after_accepts(state, (n - 1) as nat).after_send(Offer::Accepted)
    }
}

/// The generation moves on with the last frame and not before: while frames
/// are left, taking one leaves the generation as it was and the rest
/// pending in order; taking the last one completes the submission, one
/// generation further. The queue has then taken the frames in their order.
/// A refusal changes neither the generation nor what is pending or taken.
pub proof fn lemma_generation_moves_with_last_frame(state: PublisherState, n: nat)
    requires
        state.wf(),
        state.pending is Some,
        n <= state.pending->0.len(),
    ensures
        after_accepts(state, n).wf(),
        0 < n < state.pending->0.len() ==> after_accepts(state, n) == (PublisherState {
            generation: state.generation,
            pending: Some(state.pending->0.skip(n as int)),
            flushing: false,
            sent: state.sent + state.pending->0.take(n as int),
        }),
        n == state.pending->0.len() ==> after_accepts(state, n) == state.completed(),
        n == state.pending->0.len() ==> after_accepts(state, n).generation == state.generation
            + 1,
        after_accepts(state, n).after_send(Offer::Full).generation == after_accepts(
            state,
            n,
        ).generation,
        after_accepts(state, n).after_send(Offer::Full).pending == after_accepts(state, n).pending,
        after_accepts(state, n).after_send(Offer::Full).sent == after_accepts(state, n).sent,
    decreases n,
{
    let frames = state.pending->0;
    if n > 0 {
        lemma_generation_moves_with_last_frame(state, (n - 1) as nat);
        let before = after_accepts(state, (n - 1) as nat);
        if n == 1 {
            assert(before == state);
        }
        assert(before.pending == Some(frames.skip(n - 1)));
        assert(before.sent =~= state.sent + frames.take(n - 1));
        assert(frames.skip(n - 1).first() == frames[n - 1]);
        assert((state.sent + frames.take(n - 1)).push(frames[n - 1]) =~= state.sent + frames.take(
            n as int,
        ));
        if n == frames.len() {
            assert(frames.take(n as int) =~= frames);
            assert(state.sent + frames.take(n - 1) + frames.skip(n - 1) =~= state.sent + frames);
        } else {
            assert(frames.skip(n - 1).drop_first() =~= frames.skip(n as int));
        }
    }
}

/// A submission runs under one generation: from the moment its frames are
/// stored until the queue has taken the last of them the generation is the
/// one it started with, and with the last frame it is one further. By
/// then the queue has taken one frame for every pair of a chunk and a
/// subscriber, in fan-out order, and nothing else.
pub proof fn lemma_submission_runs_under_one_generation(
    state: PublisherState,
    order: Seq<PeerAddr>,
    payload: Seq<u8>,
    n: nat,
)
    requires
        state.wf(),
        state.pending is None,
        state.generation < u64::MAX,
        n <= fan_out(spec_split(payload, state.generation), order).len(),
        fan_out(spec_split(payload, state.generation), order).len() > 0,
    ensures
        fan_out(spec_split(payload, state.generation), order).len() == chunk_count(payload.len())
            * order.len(),
        n < fan_out(spec_split(payload, state.generation), order).len() ==> {
            let frames = fan_out(spec_split(payload, state.generation), order);
            let now = after_accepts(state.submitted(frames), n);
            &&& now.generation == state.generation
            &&& now.pending == Some(frames.skip(n as int))
            &&& now.sent == state.sent + frames.take(n as int)
        },
        n == fan_out(spec_split(payload, state.generation), order).len() ==> {
            let frames = fan_out(spec_split(payload, state.generation), order);
            let now = after_accepts(state.submitted(frames), n);
            &&& now.generation == state.generation + 1
            &&& now.pending is None
            &&& now.sent == state.sent + frames
        },
{
    let frames = fan_out(spec_split(payload, state.generation), order);
    let stored = state.submitted(frames);
    lemma_generation_moves_with_last_frame(stored, n);
    if n == 0 {
        assert(frames.skip(0) =~= frames);
        assert(state.sent + frames.take(0) =~= state.sent);
    }
}

/// The registration that a new publisher asks of the registry at
/// `find_uri`.
#[derive(Debug, PartialEq, Eq)]
pub struct RegisterRequest {
    pub find_uri: String,
    pub desc: PublisherDesc,
}

impl Publisher {
    /// Begins the setup of a publisher called `name` that will listen on
    /// `host_name` and `port`: the descriptor, and the request that
    /// registers it with the registry at `find_uri`.
    pub fn new(name: String, host_name: String, port: u16, find_uri: &str) -> (setup: PublisherSetup<
        RegisterRequest,
    >)
        ensures
            setup.desc()@ == (PublisherDescView { name: name@, host_name: host_name@, port }),
            setup.request().desc@ == setup.desc()@,
            setup.request().find_uri@ == find_uri@,
    {
        let desc = PublisherDesc { name, host_name, port };
        let request = RegisterRequest { find_uri: find_uri.to_owned(), desc: desc.clone() };
        PublisherSetup::new(desc, request)
    }
}

/// The first phase of starting a publisher: its descriptor, and the
/// registration request that has to complete before the transport is bound.
pub struct PublisherSetup<R> {
    desc: PublisherDesc,
    request: R,
}

/// What to do next while a publisher is being set up.
pub enum SetupPoll<E> {
    /// The registration is still under way.
    NotReady,
    /// The registration failed; so does the setup.
    Failed(E),
    /// The registration is done: bind the transport for this descriptor.
    Registered(PublisherDesc),
}

impl<R> PublisherSetup<R> {
    pub closed spec fn desc(&self) -> PublisherDesc {
        self.desc
    }

    pub closed spec fn request(&self) -> R {
        self.request
    }

    pub fn new(desc: PublisherDesc, request: R) -> (setup: PublisherSetup<R>)
        ensures
            setup.desc() == desc,
            setup.request() == request,
    {
        PublisherSetup { desc, request }
    }

    pub fn description(&self) -> (desc: &PublisherDesc)
        ensures
            *desc == self.desc(),
    {
        &self.desc
    }

    pub fn request_ref(&self) -> (request: &R)
        ensures
            *request == self.request(),
    {
        &self.request
    }

    /// The request, to be driven by the caller.
    pub fn request_mut(&mut self) -> (request: &mut R)
        ensures
            *request == old(self).request(),
            final(self).request() == *final(request),
            final(self).desc() == old(self).desc(),
    {
        &mut self.request
    }

    /// Decides on the next step from what the registration request
    /// reported when it was last driven.
    pub fn poll<E>(&self, request: Result<Async, E>) -> (step: SetupPoll<E>)
        ensures
            match request {
                Ok(Async::NotReady) => step is NotReady,
                Ok(Async::Ready) => step matches SetupPoll::Registered(desc) && desc@
                    == self.desc()@,
                Err(e) => step == SetupPoll::<E>::Failed(e),
            },
    {
        match request {
            Ok(Async::NotReady) => SetupPoll::NotReady,
            Ok(Async::Ready) => SetupPoll::Registered(self.desc.clone()),
            Err(e) => SetupPoll::Failed(e),
        }
    }
}

} // verus!
