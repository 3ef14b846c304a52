//! Framing codec: the wire form of a [`Message`] and the chunking of payloads.
//!
//! A frame starts with a one-byte tag. Control frames are the tag alone. A
//! data frame carries the generation as eight little-endian bytes, followed by
//! the chunk, which runs to the end of the datagram.

use vstd::prelude::*;
use vstd::bytes::{
    lemma_auto_spec_u64_to_from_le_bytes, spec_u64_from_le_bytes, spec_u64_to_le_bytes,
    u64_from_le_bytes, u64_to_le_bytes,
};
use vstd::slice::{slice_subrange, slice_to_vec};

verus! {

/// Tag of the send-batch a chunk belongs to.
pub type Generation = u64;

/// Largest number of payload bytes carried by one data frame.
pub const MAX_CHUNK_LEN: usize = 1024;

/// Bytes of a data frame that precede the chunk: the tag and the generation.
pub const DATA_HEADER_LEN: usize = 9;

/// Largest encoded frame that [`split_data_msgs`] gives rise to.
pub const MAX_FRAME_LEN: usize = 1033;

pub const TAG_SUBSCRIBE: u8 = 1;

pub const TAG_UNSUBSCRIBE: u8 = 2;

pub const TAG_DATA: u8 = 3;

/// A control message; only the sender's address matters.
#[derive(Clone, Copy, Debug, PartialEq, Eq, Structural)]
pub enum Request {
    Subscribe,
    Unsubscribe,
}

/// The unit that the codec encodes and decodes.
#[derive(Debug, PartialEq, Eq)]
pub enum Message {
    Request(Request),
    Data { chunk: Vec<u8>, generation: Generation },
}

/// Mathematical value of a [`Message`].
pub enum MessageView {
    Request(Request),
    Data { chunk: Seq<u8>, generation: Generation },
}

impl View for Message {
    type V = MessageView;

    open spec fn view(&self) -> MessageView {
        match *self {
            Message::Request(r) => MessageView::Request(r),
            Message::Data { chunk, generation } => MessageView::Data { chunk: chunk@, generation },
        }
    }
}

impl Clone for Message {
    fn clone(&self) -> (copy: Message)
        ensures
            copy@ == self@,
    {
        match self {
            Message::Request(request) => Message::Request(*request),
            Message::Data { chunk, generation } => {
                let copy: Vec<u8> = chunk.clone();
                assert(copy@ =~= chunk@);
                Message::Data { chunk: copy, generation: *generation }
            },
        }
    }
}

/// Why a datagram is not a frame.
#[derive(Clone, Copy, Debug, PartialEq, Eq, Structural)]
pub enum FramingError {
    /// The datagram ends before the frame does.
    Truncated,
    /// The first byte is not a known tag.
    UnknownTag(u8),
    /// A control frame is followed by further bytes.
    TrailingBytes,
}

/// The bytes that stand for `m` on the wire.
pub open spec fn spec_encode(m: MessageView) -> Seq<u8> {
    match m {
        MessageView::Request(Request::Subscribe) => seq![TAG_SUBSCRIBE],
        MessageView::Request(Request::Unsubscribe) => seq![TAG_UNSUBSCRIBE],
        MessageView::Data { chunk, generation } => seq![TAG_DATA] + spec_u64_to_le_bytes(
            generation,
        ) + chunk,
    }
}

/// The message that `bytes` stand for, or the reason they stand for none.
pub open spec fn spec_decode(bytes: Seq<u8>) -> Result<MessageView, FramingError> {
    if bytes.len() == 0 {
        Err(FramingError::Truncated)
    } else if bytes[0] == TAG_SUBSCRIBE {
        if bytes.len() == 1 {
            Ok(MessageView::Request(Request::Subscribe))
        } else {
            Err(FramingError::TrailingBytes)
        }
    } else if bytes[0] == TAG_UNSUBSCRIBE {
        if bytes.len() == 1 {
            Ok(MessageView::Request(Request::Unsubscribe))
        } else {
            Err(FramingError::TrailingBytes)
        }
    } else if bytes[0] == TAG_DATA {
        if bytes.len() < DATA_HEADER_LEN {
            Err(FramingError::Truncated)
        } else {
            Ok(
                MessageView::Data {
                    chunk: bytes.subrange(DATA_HEADER_LEN as int, bytes.len() as int),
                    generation: spec_u64_from_le_bytes(bytes.subrange(1, DATA_HEADER_LEN as int)),
                },
            )
        }
    } else {
        Err(FramingError::UnknownTag(bytes[0]))
    }
}

/// The view of a decoding result.
pub open spec fn decoded_view(r: Result<Message, FramingError>) -> Result<
    MessageView,
    FramingError,
> {
    match r {
        Ok(m) => Ok(m@),
        Err(e) => Err(e),
    }
}

impl Message {
    /// Encodes the message as one datagram.
    pub fn encode(&self) -> (bytes: Vec<u8>)
        ensures
            bytes@ == spec_encode(self@),
    {
        match self {
            Message::Request(Request::Subscribe) => {
                let mut bytes: Vec<u8> = Vec::new();
                bytes.push(TAG_SUBSCRIBE);
                assert(bytes@ =~= seq![TAG_SUBSCRIBE]);
                bytes
            },
            Message::Request(Request::Unsubscribe) => {
                let mut bytes: Vec<u8> = Vec::new();
                bytes.push(TAG_UNSUBSCRIBE);
                assert(bytes@ =~= seq![TAG_UNSUBSCRIBE]);
                bytes
            },
            Message::Data { chunk, generation } => {
                let mut bytes: Vec<u8> = Vec::new();
                bytes.push(TAG_DATA);
                let mut tag: Vec<u8> = u64_to_le_bytes(*generation);
                bytes.append(&mut tag);
                let mut i: usize = 0;
                while i < chunk.len()
                    invariant
                        i <= chunk.len(),
                        bytes@ == seq![TAG_DATA] + spec_u64_to_le_bytes(*generation)
                            + chunk@.subrange(0, i as int),
                    decreases chunk.len() - i,
                {
                    bytes.push(chunk[i]);
                    i = i + 1;
                }
                assert(chunk@.subrange(0, i as int) =~= chunk@);
                bytes
            },
        }
    }

    /// Decodes one datagram. Fails on an empty, truncated or unrecognized
    /// frame and on a control frame with trailing bytes.
    pub fn decode(bytes: &[u8]) -> (r: Result<Message, FramingError>)
        ensures
            decoded_view(r) == spec_decode(bytes@),
    {
        if bytes.len() == 0 {
            return Err(FramingError::Truncated);
        }
        let tag: u8 = bytes[0];
        if tag == TAG_SUBSCRIBE {
            if bytes.len() == 1 {
                Ok(Message::Request(Request::Subscribe))
            } else {
                Err(FramingError::TrailingBytes)
            }
        } else if tag == TAG_UNSUBSCRIBE {
            if bytes.len() == 1 {
                Ok(Message::Request(Request::Unsubscribe))
            } else {
                Err(FramingError::TrailingBytes)
            }
        } else if tag == TAG_DATA {
            if bytes.len() < DATA_HEADER_LEN {
                Err(FramingError::Truncated)
            } else {
                let generation: Generation = u64_from_le_bytes(
                    slice_subrange(bytes, 1, DATA_HEADER_LEN),
                );
                let chunk: Vec<u8> = slice_to_vec(
                    slice_subrange(bytes, DATA_HEADER_LEN, bytes.len()),
                );
                Ok(Message::Data { chunk, generation })
            }
        } else {
            Err(FramingError::UnknownTag(tag))
        }
    }
}

/// Number of data frames that a payload of `len` bytes is split into: one
/// for an empty payload, else as many as it takes with full chunks.
pub open spec fn chunk_count(len: nat) -> nat {
    if len == 0 {
        1
    } else {
        ((len + MAX_CHUNK_LEN - 1) / (MAX_CHUNK_LEN as int)) as nat
    }
}

/// The bytes of `payload` that its `i`-th chunk carries.
pub open spec fn chunk_at(payload: Seq<u8>, i: int) -> Seq<u8> {
    let lo = i * MAX_CHUNK_LEN;
    let hi = if lo + MAX_CHUNK_LEN < payload.len() {
        lo + MAX_CHUNK_LEN
    } else {
        payload.len() as int
    };
    payload.subrange(lo, hi)
}

/// The data messages that carry `payload`, in order, each tagged `generation`.
pub open spec fn spec_split(payload: Seq<u8>, generation: Generation) -> Seq<MessageView> {
    Seq::new(
        chunk_count(payload.len()),
        |i: int| MessageView::Data { chunk: chunk_at(payload, i), generation },
    )
}

/// The views of a sequence of messages, element by element.
pub open spec fn message_views(msgs: Seq<Message>) -> Seq<MessageView> {
    Seq::new(msgs.len(), |i: int| msgs[i]@)
}

/// The chunks of a sequence of data messages, joined in order.
pub open spec fn joined_chunks(msgs: Seq<MessageView>) -> Seq<u8>
    decreases msgs.len(),
{
    if msgs.len() == 0 {
        Seq::empty()
    } else {
        let rest = joined_chunks(msgs.drop_last());
        match msgs.last() {
            MessageView::Data { chunk, .. } => rest + chunk,
            MessageView::Request(_) => rest,
        }
    }
}

impl Message {
    /// Splits `payload` into data messages of at most [`MAX_CHUNK_LEN`] bytes
    /// each, all tagged `generation`, in payload order. An empty payload
    /// gives one message with an empty chunk. Never fails.
    pub fn split_data_msgs(payload: &[u8], generation: Generation) -> (r: Result<
        Vec<Message>,
        FramingError,
    >)
        ensures
            r matches Ok(msgs) && message_views(msgs@) == spec_split(payload@, generation),
    {
        let len: usize = payload.len();
        let mut msgs: Vec<Message> = Vec::new();
        if len == 0 {
            msgs.push(Message::Data { chunk: Vec::new(), generation });
            assert(chunk_at(payload@, 0) =~= Seq::<u8>::empty());
            assert(message_views(msgs@) =~= spec_split(payload@, generation));
            return Ok(msgs);
        }
        let count: usize = (len - 1) / MAX_CHUNK_LEN + 1;
        let mut i: usize = 0;
        while i < count
            invariant
                len == payload@.len(),
                len > 0,
                count == chunk_count(len as nat),
                i <= count,
                msgs@.len() == i,
                forall|k: int|
                    0 <= k < i ==> (#[trigger] msgs@[k])@ == (MessageView::Data {
                        chunk: chunk_at(payload@, k),
                        generation,
                    }),
            decreases count - i,
        {
            let lo: usize = i * MAX_CHUNK_LEN;
            let hi: usize = if len - lo > MAX_CHUNK_LEN {
                lo + MAX_CHUNK_LEN
            } else {
                len
            };
            let chunk: Vec<u8> = slice_to_vec(slice_subrange(payload, lo, hi));
            msgs.push(Message::Data { chunk, generation });
            i = i + 1;
        }
        assert(message_views(msgs@) =~= spec_split(payload@, generation));
        Ok(msgs)
    }
}

/// Every chunk of a split payload fits one frame, and only the last may be
/// short.
pub proof fn lemma_chunk_len(payload: Seq<u8>, i: int)
    requires
        0 <= i < chunk_count(payload.len()),
    ensures
        chunk_at(payload, i).len() <= MAX_CHUNK_LEN,
        i + 1 < chunk_count(payload.len()) ==> chunk_at(payload, i).len() == MAX_CHUNK_LEN,
        spec_encode(spec_split(payload, 0)[i]).len() <= MAX_FRAME_LEN,
{
    lemma_auto_spec_u64_to_from_le_bytes();
}

/// The first `n` chunks of a split payload, joined, are the payload's bytes
/// up to the end of the `n`-th chunk.
proof fn lemma_joined_prefix(payload: Seq<u8>, generation: Generation, n: int)
    requires
        0 <= n <= chunk_count(payload.len()),
    ensures
        joined_chunks(spec_split(payload, generation).subrange(0, n)) == payload.subrange(
            0,
            if n * MAX_CHUNK_LEN < payload.len() {
                n * MAX_CHUNK_LEN
            } else {
                payload.len() as int
            },
        ),
    decreases n,
{
    let all = spec_split(payload, generation);
    let head = all.subrange(0, n);
    if n == 0 {
        assert(joined_chunks(head) =~= payload.subrange(0, 0));
    } else {
        lemma_joined_prefix(payload, generation, n - 1);
        assert(head.drop_last() =~= all.subrange(0, n - 1));
        assert(head.last() == all[n - 1]);
        let end = if n * MAX_CHUNK_LEN < payload.len() {
            n * MAX_CHUNK_LEN
        } else {
            payload.len() as int
        };
        assert(payload.subrange(0, (n - 1) * MAX_CHUNK_LEN) + chunk_at(payload, n - 1)
            =~= payload.subrange(0, end));
    }
}

/// Splitting loses nothing and adds nothing: the chunks of a split payload,
/// joined in order, are the payload.
pub proof fn lemma_split_partitions(payload: Seq<u8>, generation: Generation)
    ensures
        joined_chunks(spec_split(payload, generation)) == payload,
        spec_split(payload, generation).len() >= 1,
        forall|i: int|
            0 <= i < spec_split(payload, generation).len() ==> (#[trigger] spec_split(
                payload,
                generation,
            )[i]) == (MessageView::Data { chunk: chunk_at(payload, i), generation }),
{
    let all = spec_split(payload, generation);
    let n = chunk_count(payload.len()) as int;
    lemma_joined_prefix(payload, generation, n);
    assert(all.subrange(0, n) =~= all);
    assert(payload.subrange(0, payload.len() as int) =~= payload);
}

/// Decoding undoes encoding, for every message.
pub proof fn lemma_decode_encode(m: MessageView)
    ensures
        spec_decode(spec_encode(m)) == Ok::<MessageView, FramingError>(m),
{
    lemma_auto_spec_u64_to_from_le_bytes();
    match m {
        MessageView::Request(_) => {},
        MessageView::Data { chunk, generation } => {
            let bytes = spec_encode(m);
            let tag = spec_u64_to_le_bytes(generation);
            assert(bytes.subrange(1, DATA_HEADER_LEN as int) =~= tag);
            assert(bytes.subrange(DATA_HEADER_LEN as int, bytes.len() as int) =~= chunk);
        },
    }
}

/// A datagram that decodes is the encoding of what it decodes to: no two
/// datagrams stand for the same message.
pub proof fn lemma_encode_decode(bytes: Seq<u8>, m: MessageView)
    requires
        spec_decode(bytes) == Ok::<MessageView, FramingError>(m),
    ensures
        spec_encode(m) == bytes,
{
    lemma_auto_spec_u64_to_from_le_bytes();
    match m {
        MessageView::Request(_) => {
            assert(spec_encode(m) =~= bytes);
        },
        MessageView::Data { chunk, generation } => {
            let tag = bytes.subrange(1, DATA_HEADER_LEN as int);
            assert(spec_u64_to_le_bytes(spec_u64_from_le_bytes(tag)) == tag);
            assert(spec_encode(m) =~= bytes);
        },
    }
}

} // verus!
