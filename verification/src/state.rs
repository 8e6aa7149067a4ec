//! The session worker's state machine.
//!
//! The worker drives one login-to-disconnect span: it consumes user
//! intents from the command queue, decides each authentication outcome,
//! and while streaming turns every inbound message into one UI update.
//! The process around the library performs the HTTP and websocket I/O
//! and hands the plain outcomes (status codes, payload bytes) to these
//! functions; every decision is made here.
use vstd::prelude::*;

use crate::codec::label_of;
use crate::codec::render_device_label;
use crate::data::DeviceDescriptor;
use crate::devices::devices_view;
use crate::devices::parse_device_list;
use crate::devices::spec_parse_device_list;
use crate::frame::decode_frame;
use crate::frame::frame_of;
use crate::frame::Frame;

verus! {

/// The screen the UI is asked to show.
#[derive(Clone, Copy, Debug, PartialEq, Eq, Structural)]
pub enum Screen {
    Register,
    Login,
    Cameras,
}

/// The failure taxonomy. Exactly one of these is reported to the UI's
/// single error slot per failed operation; the presentation layer maps
/// the kind to its text.
#[derive(Clone, Copy, Debug, PartialEq, Eq, Structural)]
pub enum ErrorKind {
    AuthenticationFailure,
    RegistrationFailure,
    ProfileFetchFailure,
    StreamingConnectionFailure,
    DecodeFailure,
    ProtocolParseFailure,
}

/// The worker's lifecycle state.
#[derive(Clone, Copy, Debug, PartialEq, Eq, Structural)]
pub enum WorkerState {
    /// Waiting on the command queue for a login or registration intent.
    Idle,
    /// Authenticated, with the duplex stream supervised.
    Streaming,
    /// Shut down after cooperative cancellation; no further commands.
    Terminated,
}

/// The outcome of one login attempt, carrying its single UI effect.
#[derive(Clone, Copy, Debug, PartialEq, Eq, Structural)]
pub enum AuthStep {
    /// Show this screen once and open the streaming connection.
    Authenticated { screen: Screen },
    /// Set the UI error slot once to this kind; nothing is opened.
    Rejected { error: ErrorKind },
}

/// The outcome of one registration attempt, carrying its single UI
/// effect. Registration never enters streaming.
#[derive(Clone, Copy, Debug, PartialEq, Eq, Structural)]
pub enum RegisterStep {
    /// Show this screen once; the error slot is left untouched.
    Registered { screen: Screen },
    /// Set the UI error slot once to this kind.
    Rejected { error: ErrorKind },
}

/// One message received on the streaming channel.
pub enum StreamMessage {
    /// A compressed still image: one frame.
    Binary(Vec<u8>),
    /// A JSON control message: the device list.
    Text(Vec<u8>),
}

/// The single UI update an inbound message turns into.
pub enum StreamUpdate {
    /// Write this frame to the UI's current-frame slot.
    ShowFrame(Frame),
    /// Replace the UI's device list wholesale with these labels.
    ReplaceDevices { labels: Vec<Vec<u8>> },
    /// Drop the message; the stream continues. The kind says why.
    Drop { error: ErrorKind },
}

/// What the device list is after a replacement: the message alone
/// decides it; the prior list plays no part.
pub open spec fn replaced_devices(
    prior: Seq<DeviceDescriptor>,
    msg: Seq<DeviceDescriptor>,
) -> Seq<DeviceDescriptor> {
    msg
}

/// The authenticated context, valid for one login-to-disconnect span:
/// created on a successful login, destroyed when the streaming span
/// ends.
pub struct Session {
    pub token: String,
    pub server_address: String,
    pub username: String,
}

/// The session worker: its lifecycle state, the session it holds while
/// streaming, and the device list it last announced to the UI.
pub struct Worker {
    pub state: WorkerState,
    pub session: Option<Session>,
    pub devices: Vec<DeviceDescriptor>,
}

impl Worker {
    /// The worker holds a session exactly while it is streaming.
    pub open spec fn wf(self) -> bool {
        self.session is Some <==> self.state is Streaming
    }

    /// A fresh worker: idle, no session, no devices known.
    pub fn new() -> (w: Worker)
        ensures
            w.wf(),
            w.state is Idle,
            w.session is None,
            w.devices@ == Seq::<DeviceDescriptor>::empty(),
    {
        Worker { state: WorkerState::Idle, session: None, devices: Vec::new() }
    }

    /// Decide one login attempt from its plain outcomes: the server
    /// address the request went to, the HTTP status of the login
    /// request, the token from its authorization header, and the
    /// username the profile fetch that follows a 200 yielded (the last
    /// two are read only when `status` is 200). A 200 carrying a token
    /// and a username authenticates: the session is created from
    /// exactly those values, the worker enters `Streaming`, and the
    /// device-selection screen is requested exactly once. Any other
    /// status is an authentication failure, as is a 200 without a
    /// token; a failed profile fetch is a profile failure. On every
    /// failure the error slot is set exactly once and the worker
    /// returns to `Idle` with no session and no streaming connection.
    pub fn process_login(
        &mut self,
        address: String,
        status: u16,
        token: Option<String>,
        username: Option<String>,
    ) -> (r: AuthStep)
        requires
            old(self).wf(),
            old(self).state is Idle,
        ensures
            final(self).wf(),
            final(self).devices == old(self).devices,
            status == 200 && token is Some && username is Some ==> final(self).state is Streaming
                && (final(self).session matches Some(s) && s.token == token.unwrap()
                && s.server_address == address && s.username == username.unwrap()) && r
                == (AuthStep::Authenticated { screen: Screen::Cameras }),
            status != 200 || token is None ==> final(self).state is Idle && final(self).session
                is None && r == (AuthStep::Rejected {
                error: ErrorKind::AuthenticationFailure,
            }),
            status == 200 && token is Some && username is None ==> final(self).state is Idle
                && final(self).session is None && r == (AuthStep::Rejected {
                error: ErrorKind::ProfileFetchFailure,
            }),
    {
        if status != 200 {
            self.state = WorkerState::Idle;
            self.session = None;
            AuthStep::Rejected { error: ErrorKind::AuthenticationFailure }
        } else {
            match token {
                None => {
                    self.state = WorkerState::Idle;
                    self.session = None;
                    AuthStep::Rejected { error: ErrorKind::AuthenticationFailure }
                },
                Some(token) => match username {
                    None => {
                        self.state = WorkerState::Idle;
                        self.session = None;
                        AuthStep::Rejected { error: ErrorKind::ProfileFetchFailure }
                    },
                    Some(username) => {
                        self.state = WorkerState::Streaming;
                        self.session = Some(Session { token, server_address: address, username });
                        AuthStep::Authenticated { screen: Screen::Cameras }
                    },
                },
            }
        }
    }

    /// Decide one registration attempt from the HTTP status. A 200
    /// requests the login screen exactly once and leaves the error
    /// slot untouched; any other status sets the error slot exactly
    /// once. Either way the worker stays `Idle`: registration never
    /// opens a streaming connection.
    pub fn process_register(&mut self, status: u16) -> (r: RegisterStep)
        requires
            old(self).wf(),
            old(self).state is Idle,
        ensures
            final(self).wf(),
            final(self).state is Idle,
            final(self).session is None,
            final(self).devices == old(self).devices,
            status == 200 ==> r == (RegisterStep::Registered { screen: Screen::Login }),
            status != 200 ==> r == (RegisterStep::Rejected {
                error: ErrorKind::RegistrationFailure,
            }),
    {
        if status == 200 {
            RegisterStep::Registered { screen: Screen::Login }
        } else {
            RegisterStep::Rejected { error: ErrorKind::RegistrationFailure }
        }
    }

    /// The streaming connection could not be opened or was lost: the
    /// session is destroyed and the worker returns to `Idle`, the UI
    /// told once, rather than the whole worker terminating.
    pub fn stream_lost(&mut self) -> (e: ErrorKind)
        requires
            old(self).state is Streaming,
        ensures
            final(self).wf(),
            final(self).state is Idle,
            final(self).session is None,
            final(self).devices == old(self).devices,
            e == ErrorKind::StreamingConnectionFailure,
    {
        self.state = WorkerState::Idle;
        self.session = None;
        ErrorKind::StreamingConnectionFailure
    }

    /// Cooperative cancellation: a clean, expected terminal transition
    /// with no user-visible message. The session ends with the worker;
    /// no further commands are processed.
    pub fn cancel(&mut self)
        ensures
            final(self).wf(),
            final(self).state is Terminated,
            final(self).session is None,
            final(self).devices == old(self).devices,
    {
        self.state = WorkerState::Terminated;
        self.session = None;
    }

    /// Replace the device list wholesale with the announced one — the
    /// prior list plays no part — and render the label under which
    /// each device is displayed, in order.
    pub fn replace_devices(&mut self, list: Vec<DeviceDescriptor>) -> (labels: Vec<Vec<u8>>)
        requires
            old(self).state is Streaming,
        ensures
            final(self).state == old(self).state,
            final(self).session == old(self).session,
            final(self).devices@ == replaced_devices(old(self).devices@, list@),
            labels@.len() == list@.len(),
            forall|i: int| 0 <= i < labels@.len() ==> labels@[i]@ == label_of(list@[i].id@),
    {
        let mut labels: Vec<Vec<u8>> = Vec::new();
        let mut i: usize = 0;
        while i < list.len()
            invariant
                0 <= i <= list@.len(),
                labels@.len() == i,
                forall|j: int| 0 <= j < i ==> labels@[j]@ == label_of(list@[j].id@),
            decreases list@.len() - i,
        {
            let label = render_device_label(&list[i].id);
            labels.push(label);
            i = i + 1;
        }
        self.devices = list;
        labels
    }

    /// The command for the device the user picked: the id of the
    /// device at the selected row of the currently rendered list,
    /// byte for byte, or nothing when the row is out of range.
    pub fn select_device(&self, row: usize) -> (r: Option<Vec<u8>>)
        ensures
            r is Some <==> row < self.devices@.len(),
            r matches Some(id) ==> id@ == self.devices@[row as int].id@,
    {
        if row < self.devices.len() {
            let mut id: Vec<u8> = Vec::new();
            let src = &self.devices[row].id;
            let mut p: usize = 0;
            while p < src.len()
                invariant
                    0 <= p <= src@.len(),
                    id@ == src@.subrange(0, p as int),
                    src@ == self.devices@[row as int].id@,
                    row < self.devices@.len(),
                decreases src@.len() - p,
            {
                id.push(src[p]);
                assert(id@ =~= src@.subrange(0, p + 1));
                p = p + 1;
            }
            assert(id@ =~= src@);
            Some(id)
        } else {
            None
        }
    }

    /// Turn one inbound streaming message into its single UI update.
    /// A binary message is a frame: decoded per `frame_of`, shown when
    /// it decodes, dropped as a decode failure when it does not — the
    /// stream survives a bad frame. A text message is a device-list
    /// update: a parseable one replaces the device list wholesale and
    /// carries the rendered labels; an unparseable one is dropped as a
    /// protocol parse failure, the only wholly local recovery.
    pub fn handle_stream_message(&mut self, msg: StreamMessage) -> (r: StreamUpdate)
        requires
            old(self).state is Streaming,
        ensures
            final(self).state == old(self).state,
            final(self).session == old(self).session,
            match msg {
                StreamMessage::Binary(b) => final(self).devices == old(self).devices && (match
                    frame_of(b@) {
                    Some((w, h, pix)) => r matches StreamUpdate::ShowFrame(f) && f.wf()
                        && f.width == w && f.height == h && f.data@ == pix,
                    None => r == (StreamUpdate::Drop { error: ErrorKind::DecodeFailure }),
                }),
                StreamMessage::Text(t) => match spec_parse_device_list(t@) {
                    Some(l) => devices_view(final(self).devices@) == l && (r matches
                        StreamUpdate::ReplaceDevices { labels } && labels@.len() == l.len()
                        && forall|i: int|
                            0 <= i < labels@.len() ==> labels@[i]@ == label_of(l[i].0)),
                    None => final(self).devices == old(self).devices && r == (StreamUpdate::Drop {
                        error: ErrorKind::ProtocolParseFailure,
                    }),
                },
            },
    {
        match msg {
            StreamMessage::Binary(b) => match decode_frame(&b) {
                Some(f) => StreamUpdate::ShowFrame(f),
                None => StreamUpdate::Drop { error: ErrorKind::DecodeFailure },
            },
            StreamMessage::Text(t) => match parse_device_list(&t) {
                Some(list) => {
                    let ghost l = spec_parse_device_list(t@).unwrap();
                    let labels = self.replace_devices(list);
                    proof {
                        assert(forall|i: int|
                            0 <= i < labels@.len() ==> labels@[i]@ == label_of(
                                #[trigger] l[i].0,
                            ));
                    }
                    StreamUpdate::ReplaceDevices { labels }
                },
                None => StreamUpdate::Drop { error: ErrorKind::ProtocolParseFailure },
            },
        }
    }
}

/// Wholesale, idempotent device-list replacement: the resulting list
/// is decided by the message alone, whatever list was rendered before,
/// and applying the same message twice leaves exactly the list that
/// applying it once leaves — a replacement, never a merge.
pub proof fn lemma_device_list_replace(
    prior1: Seq<DeviceDescriptor>,
    prior2: Seq<DeviceDescriptor>,
    msg: Seq<DeviceDescriptor>,
)
    ensures
        replaced_devices(prior1, msg) == replaced_devices(prior2, msg),
        replaced_devices(replaced_devices(prior1, msg), msg) == replaced_devices(prior1, msg),
{
}

} // verus!
