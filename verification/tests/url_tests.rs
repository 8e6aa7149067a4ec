use camera_client::urls::login_url;
use camera_client::urls::register_url;
use camera_client::urls::self_user_url;
use camera_client::urls::stream_url;

#[test]
fn request_urls_are_built_from_the_address_at_call_time() {
    let address = b"localhost:3000".to_vec();
    assert_eq!(
        String::from_utf8(login_url(&address)).unwrap(),
        "http://localhost:3000/login"
    );
    assert_eq!(
        String::from_utf8(register_url(&address)).unwrap(),
        "http://localhost:3000/register/user"
    );
    assert_eq!(
        String::from_utf8(self_user_url(&address)).unwrap(),
        "http://localhost:3000/self_user"
    );
    let other = b"10.0.0.2:80".to_vec();
    assert_eq!(
        String::from_utf8(login_url(&other)).unwrap(),
        "http://10.0.0.2:80/login"
    );
}

#[test]
fn stream_url_carries_the_username_query() {
    let address = b"localhost:3000".to_vec();
    let username = b"bob".to_vec();
    assert_eq!(
        String::from_utf8(stream_url(&address, &username)).unwrap(),
        "ws://localhost:3000/web-socket?username=bob"
    );
}
