//! The endpoints the transport talks to, built as byte strings from
//! the server address (and, for the streaming channel, the username)
//! read at call time: the HTTP login, registration and self-user
//! requests, and the websocket the frames and control messages travel
//! over.
use vstd::prelude::*;

verus! {

/// The scheme of the request/response endpoints: `http://`.
pub open spec fn http_scheme() -> Seq<u8> {
    seq![104u8, 116u8, 116u8, 112u8, 58u8, 47u8, 47u8]
}

/// The scheme of the streaming channel: `ws://`.
pub open spec fn ws_scheme() -> Seq<u8> {
    seq![119u8, 115u8, 58u8, 47u8, 47u8]
}

/// The login endpoint's path: `/login`.
pub open spec fn login_path() -> Seq<u8> {
    seq![47u8, 108u8, 111u8, 103u8, 105u8, 110u8]
}

/// The registration endpoint's path: `/register/user`.
pub open spec fn register_path() -> Seq<u8> {
    seq![47u8, 114u8, 101u8, 103u8, 105u8, 115u8, 116u8, 101u8, 114u8, 47u8, 117u8, 115u8,
        101u8, 114u8]
}

/// The profile endpoint's path: `/self_user`.
pub open spec fn self_user_path() -> Seq<u8> {
    seq![47u8, 115u8, 101u8, 108u8, 102u8, 95u8, 117u8, 115u8, 101u8, 114u8]
}

/// The streaming channel's path with its username query:
/// `/web-socket?username=`.
pub open spec fn stream_path() -> Seq<u8> {
    seq![47u8, 119u8, 101u8, 98u8, 45u8, 115u8, 111u8, 99u8, 107u8, 101u8, 116u8, 63u8, 117u8,
        115u8, 101u8, 114u8, 110u8, 97u8, 109u8, 101u8, 61u8]
}

/// The login URL for a server address.
pub open spec fn login_url_of(address: Seq<u8>) -> Seq<u8> {
    http_scheme() + address + login_path()
}

/// The registration URL for a server address.
pub open spec fn register_url_of(address: Seq<u8>) -> Seq<u8> {
    http_scheme() + address + register_path()
}

/// The profile URL for a server address.
pub open spec fn self_user_url_of(address: Seq<u8>) -> Seq<u8> {
    http_scheme() + address + self_user_path()
}

/// The streaming-channel URL for a server address and username.
pub open spec fn stream_url_of(address: Seq<u8>, username: Seq<u8>) -> Seq<u8> {
    ws_scheme() + address + stream_path() + username
}

/// Append every byte of `xs`.
fn push_all(out: &mut Vec<u8>, xs: &Vec<u8>)
    ensures
        final(out)@ == old(out)@ + xs@,
{
    let mut i: usize = 0;
    while i < xs.len()
        invariant
            0 <= i <= xs@.len(),
            out@ == old(out)@ + xs@.subrange(0, i as int),
        decreases xs@.len() - i,
    {
        out.push(xs[i]);
        assert(old(out)@ + xs@.subrange(0, i as int) + seq![xs@[i as int]] =~= old(out)@
            + xs@.subrange(0, i + 1));
        i = i + 1;
    }
    assert(xs@.subrange(0, xs@.len() as int) =~= xs@);
}

/// `http://` as a vector.
fn http_scheme_bytes() -> (r: Vec<u8>)
    ensures
        r@ == http_scheme(),
{
    let r: Vec<u8> = vec![104u8, 116u8, 116u8, 112u8, 58u8, 47u8, 47u8];
    assert(r@ =~= http_scheme());
    r
}

/// Build the login URL: the scheme, the address as given, the path.
pub fn login_url(address: &Vec<u8>) -> (r: Vec<u8>)
    ensures
        r@ == login_url_of(address@),
{
    let mut out = http_scheme_bytes();
    push_all(&mut out, address);
    let path: Vec<u8> = vec![47u8, 108u8, 111u8, 103u8, 105u8, 110u8];
    assert(path@ =~= login_path());
    push_all(&mut out, &path);
    assert(out@ =~= login_url_of(address@));
    out
}

/// Build the registration URL: the scheme, the address as given, the
/// path.
pub fn register_url(address: &Vec<u8>) -> (r: Vec<u8>)
    ensures
        r@ == register_url_of(address@),
{
    let mut out = http_scheme_bytes();
    push_all(&mut out, address);
    let path: Vec<u8> = vec![
        47u8, 114u8, 101u8, 103u8, 105u8, 115u8, 116u8, 101u8, 114u8, 47u8, 117u8, 115u8,
        101u8, 114u8,
    ];
    assert(path@ =~= register_path());
    push_all(&mut out, &path);
    assert(out@ =~= register_url_of(address@));
    out
}

/// Build the profile URL: the scheme, the address as given, the path.
pub fn self_user_url(address: &Vec<u8>) -> (r: Vec<u8>)
    ensures
        r@ == self_user_url_of(address@),
{
    let mut out = http_scheme_bytes();
    push_all(&mut out, address);
    let path: Vec<u8> = vec![47u8, 115u8, 101u8, 108u8, 102u8, 95u8, 117u8, 115u8, 101u8, 114u8];
    assert(path@ =~= self_user_path());
    push_all(&mut out, &path);
    assert(out@ =~= self_user_url_of(address@));
    out
}

/// Build the streaming-channel URL: the websocket scheme, the address,
/// the path, and the username as the query value.
pub fn stream_url(address: &Vec<u8>, username: &Vec<u8>) -> (r: Vec<u8>)
    ensures
        r@ == stream_url_of(address@, username@),
{
    let mut out: Vec<u8> = vec![119u8, 115u8, 58u8, 47u8, 47u8];
    assert(out@ =~= ws_scheme());
    push_all(&mut out, address);
    let path: Vec<u8> = vec![
        47u8, 119u8, 101u8, 98u8, 45u8, 115u8, 111u8, 99u8, 107u8, 101u8, 116u8, 63u8, 117u8,
        115u8, 101u8, 114u8, 110u8, 97u8, 109u8, 101u8, 61u8,
    ];
    assert(path@ =~= stream_path());
    push_all(&mut out, &path);
    push_all(&mut out, username);
    assert(out@ =~= stream_url_of(address@, username@));
    out
}

} // verus!
