//! Verified core of a camera-streaming desktop client: the session worker's
//! state machine, the wire codec for control messages, the frame-decoder
//! integration and the bounded command queue. The surrounding process
//! (UI event loop, HTTP and websocket I/O) lives outside the library and
//! talks to it through plain values.
pub mod codec;
pub mod data;
pub mod devices;
pub mod frame;
pub mod num;
pub mod queue;
pub mod state;
pub mod urls;

pub use data::DeviceDescriptor;
pub use data::LoginData;
pub use data::RegistrationData;
pub use data::WorkerMessage;
