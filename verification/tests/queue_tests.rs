use camera_client::queue::BoundedQueue;
use camera_client::LoginData;
use camera_client::RegistrationData;
use camera_client::WorkerMessage;

#[test]
fn producer_is_blocked_at_capacity_and_resumes_after_drain() {
    let mut q: BoundedQueue<u32> = BoundedQueue::new(3);
    assert!(q.try_push(1).is_none());
    assert!(q.try_push(2).is_none());
    assert!(q.try_push(3).is_none());
    // full: the offer is refused and the element handed back, not dropped
    assert_eq!(q.try_push(4), Some(4));
    assert_eq!(q.len(), 3);
    // one drain frees exactly one slot
    assert_eq!(q.pop(), Some(1));
    assert!(q.try_push(4).is_none());
    assert_eq!(q.try_push(5), Some(5));
}

#[test]
fn queue_delivers_in_submission_order() {
    let mut q: BoundedQueue<u32> = BoundedQueue::new(100);
    for v in 0..10u32 {
        assert!(q.try_push(v).is_none());
    }
    for v in 0..10u32 {
        assert_eq!(q.pop(), Some(v));
    }
    assert_eq!(q.pop(), None);
}

#[test]
fn worker_messages_travel_the_command_queue() {
    let mut q: BoundedQueue<WorkerMessage> = BoundedQueue::new(100);
    let login = WorkerMessage::AttemptLogin(LoginData {
        email: String::from("b@x.com"),
        password: String::from("pw"),
    });
    let register = WorkerMessage::AttemptRegister(RegistrationData {
        username: String::from("bob"),
        email: String::from("b@x.com"),
        password: String::from("pw"),
    });
    assert!(q.try_push(login).is_none());
    assert!(q.try_push(register).is_none());
    match q.pop().unwrap() {
        WorkerMessage::AttemptLogin(data) => {
            assert_eq!(data.email, "b@x.com");
            assert_eq!(data.password, "pw");
        }
        _ => panic!("expected the login intent first"),
    }
    match q.pop().unwrap() {
        WorkerMessage::AttemptRegister(data) => {
            assert_eq!(data.username, "bob");
            assert_eq!(data.email, "b@x.com");
        }
        _ => panic!("expected the registration intent second"),
    }
}
