use camera_client::frame::decode_frame;
use camera_client::state::ErrorKind;
use camera_client::state::StreamMessage;
use camera_client::state::StreamUpdate;
use camera_client::state::Worker;

/// A complete baseline JPEG of a uniform mid-gray 64x48 still image:
/// every coefficient quantizes to zero, so every decoded sample is
/// exactly 128.
fn gray_64x48_jpeg() -> Vec<u8> {
    vec![
        255, 216, 255, 219, 0, 67, 0, 1, 1, 1, 1, 1, 1, 1, 1, 1,
        1, 1, 1, 1, 1, 1, 1, 1, 1, 1, 1, 1, 1, 1, 1, 1,
        1, 1, 1, 1, 1, 1, 1, 1, 1, 1, 1, 1, 1, 1, 1, 1,
        1, 1, 1, 1, 1, 1, 1, 1, 1, 1, 1, 1, 1, 1, 1, 1,
        1, 1, 1, 1, 1, 1, 1, 255, 192, 0, 11, 8, 0, 48, 0, 64,
        1, 1, 17, 0, 255, 196, 0, 20, 0, 1, 0, 0, 0, 0, 0, 0,
        0, 0, 0, 0, 0, 0, 0, 0, 0, 0, 255, 196, 0, 20, 16, 1,
        0, 0, 0, 0, 0, 0, 0, 0, 0, 0, 0, 0, 0, 0, 0, 0,
        255, 218, 0, 8, 1, 1, 0, 0, 63, 0, 0, 0, 0, 0, 0, 0,
        0, 0, 0, 0, 0, 0, 255, 217,
    ]
}

#[test]
fn binary_message_updates_current_frame() {
    let mut w = Worker::new();
    w.process_login(
        String::from("localhost:3000"),
        200,
        Some(String::from("token-1")),
        Some(String::from("bob")),
    );
    let update = w.handle_stream_message(StreamMessage::Binary(gray_64x48_jpeg()));
    match update {
        StreamUpdate::ShowFrame(f) => {
            assert_eq!(f.width, 64);
            assert_eq!(f.height, 48);
            assert_eq!(f.data.len(), 64 * 48 * 3);
            assert!(f.data.iter().all(|&b| b == 128));
        }
        _ => panic!("expected a frame update"),
    }
}

#[test]
fn frame_decode_is_deterministic() {
    let payload = gray_64x48_jpeg();
    let a = decode_frame(&payload).unwrap();
    let b = decode_frame(&payload).unwrap();
    assert_eq!(a.width, b.width);
    assert_eq!(a.height, b.height);
    assert_eq!(a.data, b.data);
}

#[test]
fn malformed_frame_fails_the_same_way_each_time() {
    let junk: Vec<u8> = vec![0, 1, 2, 3, 4, 5];
    assert!(decode_frame(&junk).is_none());
    assert!(decode_frame(&junk).is_none());
}

#[test]
fn bad_frame_is_dropped_without_ending_the_stream() {
    let mut w = Worker::new();
    w.process_login(
        String::from("localhost:3000"),
        200,
        Some(String::from("token-1")),
        Some(String::from("bob")),
    );
    let update = w.handle_stream_message(StreamMessage::Binary(vec![255, 216, 0]));
    match update {
        StreamUpdate::Drop { error } => assert_eq!(error, ErrorKind::DecodeFailure),
        _ => panic!("expected the frame to be dropped"),
    }
    // the stream survives: the next good frame still shows
    let update = w.handle_stream_message(StreamMessage::Binary(gray_64x48_jpeg()));
    assert!(matches!(update, StreamUpdate::ShowFrame(_)));
}
