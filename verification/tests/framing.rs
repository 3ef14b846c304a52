use meetup::framing::{
    FramingError, Message, Request, DATA_HEADER_LEN, MAX_CHUNK_LEN, MAX_FRAME_LEN,
};

fn data(chunk: &[u8], generation: u64) -> Message {
    Message::Data { chunk: chunk.to_vec(), generation }
}

#[test]
fn encode_subscribe_is_one_tag_byte() {
    assert_eq!(Message::Request(Request::Subscribe).encode(), vec![1u8]);
}

#[test]
fn encode_unsubscribe_is_one_tag_byte() {
    assert_eq!(Message::Request(Request::Unsubscribe).encode(), vec![2u8]);
}

#[test]
fn encode_data_is_tag_generation_chunk() {
    let bytes = data(&[0xaa, 0xbb], 0x0102_0304_0506_0708).encode();
    assert_eq!(bytes, vec![3u8, 8, 7, 6, 5, 4, 3, 2, 1, 0xaa, 0xbb]);
}

#[test]
fn encode_data_with_empty_chunk_is_header_only() {
    let bytes = data(&[], 1).encode();
    assert_eq!(bytes, vec![3u8, 1, 0, 0, 0, 0, 0, 0, 0]);
    assert_eq!(bytes.len(), DATA_HEADER_LEN);
}

#[test]
fn decode_undoes_encode_for_requests() {
    for m in [Message::Request(Request::Subscribe), Message::Request(Request::Unsubscribe)] {
        assert_eq!(Message::decode(&m.encode()), Ok(m));
    }
}

#[test]
fn decode_undoes_encode_for_data() {
    for m in [data(&[], 1), data(&[1, 2, 3], 7), data(&[0u8; 1024], u64::MAX), data(&[9u8; 5000], 0)] {
        assert_eq!(Message::decode(&m.encode()), Ok(m));
    }
}

#[test]
fn decode_keeps_generation_byte_order() {
    let m = Message::decode(&[3, 0x10, 0x20, 0, 0, 0, 0, 0, 0, 0xff]).unwrap();
    assert_eq!(m, data(&[0xff], 0x2010));
}

#[test]
fn decode_empty_datagram_is_truncated() {
    assert_eq!(Message::decode(&[]), Err(FramingError::Truncated));
}

#[test]
fn decode_short_data_header_is_truncated() {
    assert_eq!(Message::decode(&[3]), Err(FramingError::Truncated));
    assert_eq!(Message::decode(&[3, 1, 2, 3, 4, 5, 6, 7]), Err(FramingError::Truncated));
}

#[test]
fn decode_unknown_tag_is_reported_with_the_tag() {
    assert_eq!(Message::decode(&[0]), Err(FramingError::UnknownTag(0)));
    assert_eq!(Message::decode(&[4, 1, 2]), Err(FramingError::UnknownTag(4)));
    assert_eq!(Message::decode(&[255]), Err(FramingError::UnknownTag(255)));
}

#[test]
fn decode_request_with_trailing_bytes_fails() {
    assert_eq!(Message::decode(&[1, 0]), Err(FramingError::TrailingBytes));
    assert_eq!(Message::decode(&[2, 2]), Err(FramingError::TrailingBytes));
}

#[test]
fn encode_of_decoded_bytes_is_the_bytes() {
    let frames: [&[u8]; 4] = [&[1], &[2], &[3, 1, 2, 3, 4, 5, 6, 7, 8], &[3, 0, 0, 0, 0, 0, 0, 0, 0, 42, 43]];
    for bytes in frames {
        assert_eq!(Message::decode(bytes).unwrap().encode(), bytes.to_vec());
    }
}

#[test]
fn split_empty_payload_gives_one_empty_chunk() {
    assert_eq!(Message::split_data_msgs(&[], 5), Ok(vec![data(&[], 5)]));
}

#[test]
fn split_small_payload_gives_one_chunk() {
    assert_eq!(Message::split_data_msgs(&[1, 2, 3], 9), Ok(vec![data(&[1, 2, 3], 9)]));
}

#[test]
fn split_full_chunk_is_not_followed_by_an_empty_one() {
    let payload = vec![7u8; MAX_CHUNK_LEN];
    assert_eq!(Message::split_data_msgs(&payload, 1), Ok(vec![data(&payload, 1)]));
}

#[test]
fn split_one_byte_over_gives_two_chunks() {
    let mut payload = vec![7u8; MAX_CHUNK_LEN];
    payload.push(8);
    let msgs = Message::split_data_msgs(&payload, 3).unwrap();
    assert_eq!(msgs, vec![data(&[7u8; 1024], 3), data(&[8], 3)]);
}

#[test]
fn split_chunks_join_to_the_payload_in_order() {
    let payload: Vec<u8> = (0..2500u32).map(|i| (i % 251) as u8).collect();
    let msgs = Message::split_data_msgs(&payload, 11).unwrap();
    assert_eq!(msgs.len(), 3);
    let mut joined: Vec<u8> = Vec::new();
    let mut sizes: Vec<usize> = Vec::new();
    for m in &msgs {
        match m {
            Message::Data { chunk, generation } => {
                assert_eq!(*generation, 11);
                sizes.push(chunk.len());
                joined.extend_from_slice(chunk);
            }
            Message::Request(_) => panic!("a split payload holds data messages only"),
        }
    }
    assert_eq!(sizes, vec![1024, 1024, 452]);
    assert_eq!(joined, payload);
}

#[test]
fn split_frames_fit_the_frame_limit() {
    let payload = vec![1u8; 4 * MAX_CHUNK_LEN + 17];
    for m in Message::split_data_msgs(&payload, 2).unwrap() {
        assert!(m.encode().len() <= MAX_FRAME_LEN);
    }
    assert_eq!(MAX_FRAME_LEN, MAX_CHUNK_LEN + DATA_HEADER_LEN);
}
