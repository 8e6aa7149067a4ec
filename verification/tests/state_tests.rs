use camera_client::state::AuthStep;
use camera_client::state::ErrorKind;
use camera_client::state::RegisterStep;
use camera_client::state::Screen;
use camera_client::state::StreamMessage;
use camera_client::state::StreamUpdate;
use camera_client::state::Worker;
use camera_client::state::WorkerState;

#[test]
fn login_success_enters_streaming_and_requests_cameras_screen() {
    let mut w = Worker::new();
    let step = w.process_login(
        String::from("localhost:3000"),
        200,
        Some(String::from("token-1")),
        Some(String::from("bob")),
    );
    assert_eq!(step, AuthStep::Authenticated { screen: Screen::Cameras });
    assert_eq!(w.state, WorkerState::Streaming);
    let session = w.session.as_ref().unwrap();
    assert_eq!(session.token, "token-1");
    assert_eq!(session.server_address, "localhost:3000");
    assert_eq!(session.username, "bob");
}

#[test]
fn login_rejection_sets_error_once_and_stays_idle() {
    let mut w = Worker::new();
    let step = w.process_login(String::from("localhost:3000"), 401, None, None);
    assert_eq!(step, AuthStep::Rejected { error: ErrorKind::AuthenticationFailure });
    assert_eq!(w.state, WorkerState::Idle);
    assert!(w.session.is_none());
}

#[test]
fn login_missing_token_is_an_authentication_failure() {
    let mut w = Worker::new();
    let step = w.process_login(String::from("localhost:3000"), 200, None, None);
    assert_eq!(step, AuthStep::Rejected { error: ErrorKind::AuthenticationFailure });
    assert_eq!(w.state, WorkerState::Idle);
    assert!(w.session.is_none());
}

#[test]
fn login_profile_failure_sets_error_once_and_stays_idle() {
    let mut w = Worker::new();
    let step = w.process_login(
        String::from("localhost:3000"),
        200,
        Some(String::from("token-1")),
        None,
    );
    assert_eq!(step, AuthStep::Rejected { error: ErrorKind::ProfileFetchFailure });
    assert_eq!(w.state, WorkerState::Idle);
    assert!(w.session.is_none());
}

#[test]
fn register_success_requests_login_screen() {
    // AttemptRegister{username:"bob", email:"b@x.com", password:"pw"}: the
    // transport reports the server's 200, and the decision depends on the
    // status alone.
    let mut w = Worker::new();
    let step = w.process_register(200);
    assert_eq!(step, RegisterStep::Registered { screen: Screen::Login });
    assert_eq!(w.state, WorkerState::Idle);
}

#[test]
fn register_failure_sets_error_and_keeps_screen() {
    let mut w = Worker::new();
    let step = w.process_register(400);
    assert_eq!(step, RegisterStep::Rejected { error: ErrorKind::RegistrationFailure });
    assert_eq!(w.state, WorkerState::Idle);
}

#[test]
fn device_list_message_replaces_list_with_rendered_labels() {
    let mut w = Worker::new();
    w.process_login(
        String::from("localhost:3000"),
        200,
        Some(String::from("token-1")),
        Some(String::from("bob")),
    );
    let text = "{\"type\":\"devices\",\"devices\":[{\"id\":{\"type\":\"Buffer\",\"data\":[1,2,3]},\"createdAt\":\"t\"}]}";
    let update = w.handle_stream_message(StreamMessage::Text(text.as_bytes().to_vec()));
    match update {
        StreamUpdate::ReplaceDevices { labels } => {
            assert_eq!(labels.len(), 1);
            assert_eq!(String::from_utf8(labels[0].clone()).unwrap(), "[1, 2, 3]");
        }
        _ => panic!("expected a device-list replacement"),
    }
    assert_eq!(w.devices.len(), 1);
    assert_eq!(w.devices[0].id, vec![1, 2, 3]);
}

#[test]
fn device_list_replace_is_idempotent() {
    let mut w = Worker::new();
    w.process_login(
        String::from("localhost:3000"),
        200,
        Some(String::from("token-1")),
        Some(String::from("bob")),
    );
    let text = "{\"type\":\"devices\",\"devices\":[{\"id\":{\"type\":\"Buffer\",\"data\":[5]},\"createdAt\":\"x\"},{\"id\":{\"type\":\"Buffer\",\"data\":[6]},\"createdAt\":\"y\"}]}";
    let first = match w.handle_stream_message(StreamMessage::Text(text.as_bytes().to_vec())) {
        StreamUpdate::ReplaceDevices { labels } => labels,
        _ => panic!("expected a device-list replacement"),
    };
    let second = match w.handle_stream_message(StreamMessage::Text(text.as_bytes().to_vec())) {
        StreamUpdate::ReplaceDevices { labels } => labels,
        _ => panic!("expected a device-list replacement"),
    };
    assert_eq!(first, second);
    assert_eq!(w.devices.len(), 2);
}

#[test]
fn unparseable_text_is_dropped_and_list_kept() {
    let mut w = Worker::new();
    w.process_login(
        String::from("localhost:3000"),
        200,
        Some(String::from("token-1")),
        Some(String::from("bob")),
    );
    let text = "{\"type\":\"devices\",\"devices\":[{\"id\":{\"type\":\"Buffer\",\"data\":[9]},\"createdAt\":\"t\"}]}";
    w.handle_stream_message(StreamMessage::Text(text.as_bytes().to_vec()));
    let update = w.handle_stream_message(StreamMessage::Text(b"nonsense".to_vec()));
    match update {
        StreamUpdate::Drop { error } => assert_eq!(error, ErrorKind::ProtocolParseFailure),
        _ => panic!("expected the message to be dropped"),
    }
    assert_eq!(w.devices.len(), 1);
    assert_eq!(w.devices[0].id, vec![9]);
}

#[test]
fn select_device_takes_id_from_current_row() {
    let mut w = Worker::new();
    w.process_login(
        String::from("localhost:3000"),
        200,
        Some(String::from("token-1")),
        Some(String::from("bob")),
    );
    let text = "{\"type\":\"devices\",\"devices\":[{\"id\":{\"type\":\"Buffer\",\"data\":[1]},\"createdAt\":\"a\"},{\"id\":{\"type\":\"Buffer\",\"data\":[2,3]},\"createdAt\":\"b\"}]}";
    w.handle_stream_message(StreamMessage::Text(text.as_bytes().to_vec()));
    assert_eq!(w.select_device(0).unwrap(), vec![1]);
    assert_eq!(w.select_device(1).unwrap(), vec![2, 3]);
    assert!(w.select_device(2).is_none());
}

#[test]
fn stream_loss_returns_to_idle_with_disconnect_error() {
    let mut w = Worker::new();
    w.process_login(
        String::from("localhost:3000"),
        200,
        Some(String::from("token-1")),
        Some(String::from("bob")),
    );
    let e = w.stream_lost();
    assert_eq!(e, ErrorKind::StreamingConnectionFailure);
    assert_eq!(w.state, WorkerState::Idle);
    assert!(w.session.is_none());
}

#[test]
fn cancellation_terminates_without_message() {
    let mut w = Worker::new();
    w.cancel();
    assert_eq!(w.state, WorkerState::Terminated);
}
