//! Plain value types exchanged between the UI, the worker and the server.
use vstd::prelude::*;

verus! {

/// Credentials submitted from the login form, consumed once by the
/// transport when posting to the login endpoint.
pub struct LoginData {
    pub email: String,
    pub password: String,
}

/// Fields submitted from the registration form, consumed once by the
/// transport when posting to the registration endpoint.
pub struct RegistrationData {
    pub username: String,
    pub email: String,
    pub password: String,
}

/// A user intent carried from the UI thread to the session worker over
/// the bounded command queue.
pub enum WorkerMessage {
    AttemptLogin(LoginData),
    AttemptRegister(RegistrationData),
}

/// One selectable camera as announced by the server: the id is the byte
/// sequence used verbatim to request that device; the creation timestamp
/// is kept as the server sent it.
pub struct DeviceDescriptor {
    pub id: Vec<u8>,
    pub created_at: Vec<u8>,
}

impl DeviceDescriptor {
    /// The mathematical value of a descriptor: its id bytes and timestamp bytes.
    pub open spec fn view(self) -> (Seq<u8>, Seq<u8>) {
        (self.id@, self.created_at@)
    }
}

} // verus!
