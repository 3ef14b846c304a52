use futures::channel::mpsc::{channel, Receiver};
use meetup::datagram::{DataGram, PeerAddr};
use meetup::descriptor::PublisherDesc;
use meetup::fanout::fan_out_frames;
use meetup::framing::{Message, Request, MAX_CHUNK_LEN};
use meetup::publisher::{
    Async, AsyncSink, Offer, Publisher, PublisherError, PublisherSetup, RegisterRequest, SetupPoll,
};
use meetup::framing::FramingError;
use meetup::subscribers::{handle_publisher_backend, receive, Inbound, PublisherShared, SubscriberSet};

fn peer(last: u8, port: u16) -> PeerAddr {
    PeerAddr::V4 { ip: 0x0a00_0000 | last as u32, port }
}

fn desc(name: &str) -> PublisherDesc {
    PublisherDesc { name: name.to_string(), host_name: "127.0.0.1".to_string(), port: 4000 }
}

fn control(request: Request, from: PeerAddr) -> DataGram {
    DataGram { message: Message::Request(request), peer: from }
}

fn data(chunk: &[u8], generation: u64) -> Message {
    Message::Data { chunk: chunk.to_vec(), generation }
}

fn publisher_with_queue(buffer: usize) -> (Publisher, Receiver<DataGram>) {
    let (sink, stream) = channel::<DataGram>(buffer);
    (Publisher::from_description(desc("pub"), sink), stream)
}

fn shared_with(peers: &[PeerAddr]) -> PublisherShared {
    let mut shared = PublisherShared::new();
    for p in peers {
        handle_publisher_backend(&mut shared, control(Request::Subscribe, *p));
    }
    shared
}

fn drain(stream: &mut Receiver<DataGram>) -> Vec<DataGram> {
    let mut got = Vec::new();
    while let Ok(frame) = stream.try_recv() {
        got.push(frame);
    }
    got
}

#[test]
fn subscriber_set_holds_each_peer_once_in_joining_order() {
    let mut set = SubscriberSet::new();
    assert_eq!(set.len(), 0);
    assert!(set.insert(peer(1, 10)));
    assert!(set.insert(peer(2, 10)));
    assert!(!set.insert(peer(1, 10)));
    assert_eq!(set.len(), 2);
    assert!(set.contains(peer(1, 10)));
    assert!(!set.contains(peer(1, 11)));
    assert_eq!(set.snapshot(), vec![peer(1, 10), peer(2, 10)]);
}

#[test]
fn subscriber_set_remove_keeps_the_order_of_the_rest() {
    let mut set = SubscriberSet::new();
    for last in 1..=4 {
        set.insert(peer(last, 1));
    }
    assert!(set.remove(peer(2, 1)));
    assert!(!set.remove(peer(2, 1)));
    assert_eq!(set.snapshot(), vec![peer(1, 1), peer(3, 1), peer(4, 1)]);
}

#[test]
fn peers_differ_by_any_field() {
    let mut set = SubscriberSet::new();
    set.insert(PeerAddr::V6 { ip6: 1, port: 9, flowinfo: 0, scope_id: 0 });
    assert!(!set.contains(PeerAddr::V6 { ip6: 1, port: 9, flowinfo: 0, scope_id: 1 }));
    assert!(!set.contains(PeerAddr::V6 { ip6: 1, port: 9, flowinfo: 1, scope_id: 0 }));
    assert!(!set.contains(PeerAddr::V4 { ip: 1, port: 9 }));
    assert!(set.contains(PeerAddr::V6 { ip6: 1, port: 9, flowinfo: 0, scope_id: 0 }));
}

#[test]
fn backend_subscribe_adds_and_unsubscribe_removes() {
    let mut shared = PublisherShared::new();
    assert!(shared.is_active());
    assert_eq!(handle_publisher_backend(&mut shared, control(Request::Subscribe, peer(1, 1))), None);
    assert_eq!(handle_publisher_backend(&mut shared, control(Request::Subscribe, peer(2, 1))), None);
    assert_eq!(shared.subscribers(), vec![peer(1, 1), peer(2, 1)]);
    assert_eq!(handle_publisher_backend(&mut shared, control(Request::Unsubscribe, peer(1, 1))), None);
    assert_eq!(shared.subscribers(), vec![peer(2, 1)]);
    assert!(shared.is_active());
}

#[test]
fn backend_discards_data_messages() {
    let mut shared = shared_with(&[peer(1, 1)]);
    let incoming = DataGram { message: data(&[1, 2], 3), peer: peer(9, 9) };
    assert_eq!(handle_publisher_backend(&mut shared, incoming), None);
    assert_eq!(shared.subscribers(), vec![peer(1, 1)]);
}

#[test]
fn receive_applies_control_frames_from_their_sender() {
    let mut shared = PublisherShared::new();
    assert_eq!(receive(&mut shared, &[1], peer(1, 1)), Inbound::Control(Request::Subscribe));
    assert_eq!(receive(&mut shared, &[1], peer(2, 1)), Inbound::Control(Request::Subscribe));
    assert_eq!(receive(&mut shared, &[1], peer(1, 1)), Inbound::Control(Request::Subscribe));
    assert_eq!(shared.subscribers(), vec![peer(1, 1), peer(2, 1)]);
    assert_eq!(receive(&mut shared, &[2], peer(1, 1)), Inbound::Control(Request::Unsubscribe));
    assert_eq!(shared.subscribers(), vec![peer(2, 1)]);
    assert_eq!(receive(&mut shared, &[2], peer(9, 9)), Inbound::Control(Request::Unsubscribe));
    assert_eq!(shared.subscribers(), vec![peer(2, 1)]);
}

#[test]
fn receive_discards_data_and_malformed_datagrams() {
    let mut shared = shared_with(&[peer(1, 1)]);
    let frame = data(&[1, 2, 3], 4).encode();
    assert_eq!(receive(&mut shared, &frame, peer(5, 5)), Inbound::UnexpectedData);
    assert_eq!(receive(&mut shared, &[], peer(5, 5)), Inbound::Malformed(FramingError::Truncated));
    assert_eq!(receive(&mut shared, &[9], peer(5, 5)), Inbound::Malformed(FramingError::UnknownTag(9)));
    assert_eq!(receive(&mut shared, &[1, 1], peer(5, 5)), Inbound::Malformed(FramingError::TrailingBytes));
    assert_eq!(shared.subscribers(), vec![peer(1, 1)]);
    assert!(shared.is_active());
}

#[test]
fn close_clears_the_liveness_flag_for_good() {
    let mut shared = shared_with(&[peer(1, 1)]);
    shared.close();
    assert!(!shared.is_active());
    handle_publisher_backend(&mut shared, control(Request::Subscribe, peer(2, 1)));
    assert!(!shared.is_active());
    shared.close();
    assert!(!shared.is_active());
}

#[test]
fn fan_out_pairs_every_message_with_every_peer_message_first() {
    let msgs = vec![data(&[1], 4), data(&[2], 4), data(&[3], 4)];
    let peers = vec![peer(1, 1), peer(2, 1)];
    let frames = fan_out_frames(msgs, &peers).unwrap();
    let expected: Vec<DataGram> = vec![
        DataGram { message: data(&[1], 4), peer: peer(1, 1) },
        DataGram { message: data(&[1], 4), peer: peer(2, 1) },
        DataGram { message: data(&[2], 4), peer: peer(1, 1) },
        DataGram { message: data(&[2], 4), peer: peer(2, 1) },
        DataGram { message: data(&[3], 4), peer: peer(1, 1) },
        DataGram { message: data(&[3], 4), peer: peer(2, 1) },
    ];
    assert_eq!(frames, expected);
}

#[test]
fn fan_out_with_no_peer_or_no_message_is_empty() {
    assert_eq!(fan_out_frames(vec![data(&[1], 1)], &vec![]), Some(vec![]));
    assert_eq!(fan_out_frames(vec![], &vec![peer(1, 1)]), Some(vec![]));
}

#[test]
fn new_publisher_starts_at_generation_one_and_idle() {
    let (publisher, _stream) = publisher_with_queue(4);
    assert_eq!(publisher.generation(), 1);
    assert!(!publisher.is_pending());
    assert!(!publisher.is_flushing());
    assert_eq!(publisher.pending_len(), 0);
    assert_eq!(publisher.description(), &desc("pub"));
}

#[test]
fn large_payload_to_two_subscribers_gives_chunks_times_two_frames() {
    let (mut publisher, mut stream) = publisher_with_queue(64);
    let shared = shared_with(&[peer(1, 1), peer(2, 1)]);
    let payload: Vec<u8> = (0..(2 * MAX_CHUNK_LEN + 10)).map(|i| (i % 256) as u8).collect();
    assert_eq!(publisher.start_send(&shared, payload.clone()), Ok(AsyncSink::Ready));
    assert!(!publisher.is_pending());
    assert_eq!(publisher.generation(), 2);
    let frames = drain(&mut stream);
    assert_eq!(frames.len(), 3 * 2);
    let chunks = Message::split_data_msgs(&payload, 1).unwrap();
    for (k, frame) in frames.iter().enumerate() {
        assert_eq!(frame.message, chunks[k / 2]);
        assert_eq!(frame.peer, [peer(1, 1), peer(2, 1)][k % 2]);
        match &frame.message {
            Message::Data { generation, .. } => assert_eq!(*generation, 1),
            Message::Request(_) => panic!("only data frames are fanned out"),
        }
    }
}

#[test]
fn next_submission_carries_the_next_generation() {
    let (mut publisher, mut stream) = publisher_with_queue(8);
    let shared = shared_with(&[peer(1, 1)]);
    assert_eq!(publisher.start_send(&shared, vec![1]), Ok(AsyncSink::Ready));
    assert_eq!(publisher.start_send(&shared, vec![2]), Ok(AsyncSink::Ready));
    assert_eq!(publisher.generation(), 3);
    let frames = drain(&mut stream);
    assert_eq!(
        frames,
        vec![
            DataGram { message: data(&[1], 1), peer: peer(1, 1) },
            DataGram { message: data(&[2], 2), peer: peer(1, 1) },
        ]
    );
}

#[test]
fn subscribed_peer_gets_every_chunk_and_nothing_after_unsubscribing() {
    let (mut publisher, mut stream) = publisher_with_queue(64);
    let p = peer(7, 70);
    let mut shared = shared_with(&[peer(1, 1)]);
    handle_publisher_backend(&mut shared, control(Request::Subscribe, p));
    let payload = vec![5u8; MAX_CHUNK_LEN + 1];
    assert_eq!(publisher.start_send(&shared, payload.clone()), Ok(AsyncSink::Ready));
    let to_p: Vec<Message> =
        drain(&mut stream).into_iter().filter(|f| f.peer == p).map(|f| f.message).collect();
    assert_eq!(to_p, Message::split_data_msgs(&payload, 1).unwrap());

    handle_publisher_backend(&mut shared, control(Request::Unsubscribe, p));
    assert_eq!(publisher.start_send(&shared, payload), Ok(AsyncSink::Ready));
    let frames = drain(&mut stream);
    assert_eq!(frames.len(), 2);
    assert!(frames.iter().all(|f| f.peer != p));
}

#[test]
fn submission_without_subscribers_completes_at_once() {
    let (mut publisher, mut stream) = publisher_with_queue(1);
    let shared = PublisherShared::new();
    assert_eq!(publisher.start_send(&shared, vec![1, 2, 3]), Ok(AsyncSink::Ready));
    assert!(!publisher.is_pending());
    assert_eq!(publisher.generation(), 2);
    assert!(drain(&mut stream).is_empty());
}

#[test]
fn backpressure_holds_the_second_frame_and_the_generation() {
    // One sender on a queue without buffer: room for one frame.
    let (mut publisher, mut stream) = publisher_with_queue(0);
    let shared = shared_with(&[peer(1, 1), peer(2, 1)]);
    assert_eq!(publisher.start_send(&shared, vec![9, 9]), Ok(AsyncSink::Ready));
    assert!(publisher.is_pending());
    assert!(publisher.is_flushing());
    assert_eq!(publisher.pending_len(), 1);
    assert_eq!(publisher.generation(), 1);

    assert_eq!(publisher.poll_complete(), Ok(Async::NotReady));
    assert_eq!(publisher.pending_len(), 1);
    assert_eq!(publisher.generation(), 1);

    assert_eq!(stream.try_recv().ok(), Some(DataGram { message: data(&[9, 9], 1), peer: peer(1, 1) }));
    assert_eq!(publisher.poll_complete(), Ok(Async::Ready));
    assert!(!publisher.is_pending());
    assert!(!publisher.is_flushing());
    assert_eq!(publisher.generation(), 2);
    assert_eq!(stream.try_recv().ok(), Some(DataGram { message: data(&[9, 9], 1), peer: peer(2, 1) }));
}

#[test]
fn submission_while_one_is_pending_is_handed_back() {
    let (mut publisher, mut stream) = publisher_with_queue(0);
    let shared = shared_with(&[peer(1, 1), peer(2, 1)]);
    assert_eq!(publisher.start_send(&shared, vec![1]), Ok(AsyncSink::Ready));
    assert_eq!(publisher.start_send(&shared, vec![2, 3]), Ok(AsyncSink::NotReady(vec![2, 3])));
    assert_eq!(publisher.pending_len(), 1);
    assert_eq!(publisher.generation(), 1);
    assert_eq!(drain(&mut stream).len(), 1);
    assert_eq!(publisher.poll_complete(), Ok(Async::Ready));
    assert_eq!(publisher.generation(), 2);
    assert_eq!(publisher.start_send(&shared, vec![2, 3]), Ok(AsyncSink::Ready));
    assert_eq!(publisher.pending_len(), 2);
    assert_eq!(drain(&mut stream), vec![DataGram { message: data(&[1], 1), peer: peer(2, 1) }]);
    assert_eq!(publisher.poll_complete(), Ok(Async::NotReady));
    assert_eq!(drain(&mut stream), vec![DataGram { message: data(&[2, 3], 2), peer: peer(1, 1) }]);
    assert_eq!(publisher.poll_complete(), Ok(Async::Ready));
    assert_eq!(drain(&mut stream), vec![DataGram { message: data(&[2, 3], 2), peer: peer(2, 1) }]);
    assert_eq!(publisher.generation(), 3);
}

#[test]
fn closed_queue_gives_up_the_submission_and_keeps_the_generation() {
    let (mut publisher, stream) = publisher_with_queue(4);
    drop(stream);
    let shared = shared_with(&[peer(1, 1)]);
    assert_eq!(publisher.start_send(&shared, vec![1]), Err(PublisherError::QueueClosed));
    assert!(!publisher.is_pending());
    assert!(!publisher.is_flushing());
    assert_eq!(publisher.generation(), 1);
}

#[test]
fn poll_complete_with_nothing_pending_is_ready() {
    let (mut publisher, _stream) = publisher_with_queue(1);
    assert_eq!(publisher.poll_complete(), Ok(Async::Ready));
    assert_eq!(publisher.do_send(), Ok(Async::Ready));
    assert_eq!(publisher.generation(), 1);
}

#[test]
fn settle_follows_the_answer_of_the_queue() {
    let (mut publisher, _stream) = publisher_with_queue(0);
    let shared = shared_with(&[peer(1, 1), peer(2, 1), peer(3, 1)]);
    assert_eq!(publisher.start_send(&shared, vec![1]), Ok(AsyncSink::Ready));
    assert_eq!(publisher.pending_len(), 2);

    assert_eq!(publisher.settle(Offer::Full), Ok(Async::NotReady));
    assert_eq!((publisher.pending_len(), publisher.generation(), publisher.is_flushing()), (2, 1, true));
    assert_eq!(publisher.settle(Offer::Disconnected), Err(PublisherError::QueueClosed));
    assert_eq!((publisher.pending_len(), publisher.generation(), publisher.is_flushing()), (2, 1, true));
    assert_eq!(publisher.settle(Offer::Accepted), Ok(Async::Ready));
    assert_eq!((publisher.pending_len(), publisher.generation(), publisher.is_flushing()), (1, 1, false));
    assert_eq!(publisher.settle(Offer::Accepted), Ok(Async::Ready));
    assert_eq!((publisher.pending_len(), publisher.generation(), publisher.is_flushing()), (0, 2, false));
    assert_eq!(publisher.settle(Offer::Accepted), Ok(Async::Ready));
    assert_eq!((publisher.pending_len(), publisher.generation()), (0, 2));
}

#[test]
fn reset_stream_drops_what_is_pending() {
    let (mut publisher, _stream) = publisher_with_queue(0);
    let shared = shared_with(&[peer(1, 1), peer(2, 1)]);
    assert_eq!(publisher.start_send(&shared, vec![1]), Ok(AsyncSink::Ready));
    publisher.reset_stream();
    assert!(!publisher.is_pending());
    assert!(!publisher.is_flushing());
    assert_eq!(publisher.generation(), 1);
}

#[test]
fn new_publisher_setup_holds_descriptor_and_registration_request() {
    let setup = Publisher::new("svc".to_string(), "127.0.0.1".to_string(), 4000, "http://registry:50051");
    assert_eq!(setup.description(), &desc("svc"));
    assert_eq!(
        setup.request_ref(),
        &RegisterRequest { find_uri: "http://registry:50051".to_string(), desc: desc("svc") }
    );
}

#[test]
fn setup_waits_for_the_registration_and_then_hands_out_the_descriptor() {
    let mut setup = PublisherSetup::new(desc("svc"), 17u32);
    assert_eq!(setup.description(), &desc("svc"));
    assert_eq!(*setup.request_ref(), 17);
    assert!(matches!(setup.poll::<String>(Ok(Async::NotReady)), SetupPoll::NotReady));
    *setup.request_mut() += 1;
    assert_eq!(*setup.request_mut(), 18);
    match setup.poll::<String>(Ok(Async::Ready)) {
        SetupPoll::Registered(d) => assert_eq!(d, desc("svc")),
        _ => panic!("a finished registration hands out the descriptor"),
    }
    match setup.poll(Err("refused".to_string())) {
        SetupPoll::Failed(e) => assert_eq!(e, "refused"),
        _ => panic!("a failed registration fails the setup"),
    }
}
