//! What the desktop client and the background service say to each other, and
//! what the client makes of it.
//!
//! The types here are the plain values that the client's logic works on. The
//! service's answers are turned into messages for the user interface by
//! [`on_reply`], its event stream by [`on_frame`].

use vstd::prelude::*;
use vstd::string::*;

verus! {

/// A member of the network, as the service reports it.
#[derive(Clone, Debug)]
pub struct MemberView {
    pub node_id: String,
    pub hostname: Option<String>,
    /// The friendly name, if one was set.
    pub label: Option<String>,
    pub virtual_ip: Option<String>,
    pub online: bool,
    /// Whether the connection is direct; `None` when there is none to speak of.
    pub direct: Option<bool>,
    /// Milliseconds since the Unix epoch; zero for never.
    pub last_seen: u64,
    pub observed_addr: Option<String>,
    pub is_self: bool,
}

/// The state of the network, as the service reports it.
#[derive(Clone, Debug)]
pub struct NetworkStatus {
    pub name: String,
    pub members: Vec<MemberView>,
    pub online: bool,
    pub routing: bool,
    pub self_label: Option<String>,
    pub self_ip: Option<String>,
    pub self_node_id: String,
    pub is_originator: bool,
    pub frozen: bool,
    pub home_relay: Option<String>,
}

/// A request to the service.
#[derive(Clone, Debug)]
pub enum IpcRequest {
    Hello { version: u32 },
    Subscribe,
    Connect,
    Disconnect,
    GetTicket,
    CreateNetwork { name: String },
    Join { ticket: String },
    SetNetworkName { name: String },
    SetLabel { label: Option<String> },
    SetFrozen { frozen: bool },
    ApproveJoin { node_id: String },
    DenyJoin { node_id: String },
    RemoveMember { node_id: String },
    RotateNetwork,
    ExportOriginatorKey,
    ImportOriginatorKey { code: String },
    DeleteNetwork,
    LeaveNetwork,
}

/// An answer of the service.
#[derive(Clone, Debug)]
pub enum IpcResponse {
    /// The request was carried out.
    Done,
    /// The request failed, for the given reason.
    Failed(String),
    Ticket(String),
    Recovery(String),
    Hello { version: u32 },
    /// Any answer that the client has no use for.
    Other,
}

/// Something that the service reports on its own.
#[derive(Clone, Debug)]
pub enum IpcEvent {
    Status(Option<NetworkStatus>),
    JoinSas { sas: Vec<String> },
    JoinRequest { node_id: String, hostname: String, sas: Vec<String> },
}

/// What a frame carries.
#[derive(Clone, Debug)]
pub enum Message {
    Request(IpcRequest),
    Response(IpcResponse),
    Event(IpcEvent),
}

/// One frame on the socket.
#[derive(Clone, Debug)]
pub struct Frame {
    pub id: u64,
    pub body: Message,
}

/// A message for the user interface.
#[derive(Clone, Debug)]
pub enum UiMsg {
    Status(Option<NetworkStatus>),
    Ticket(String),
    JoinSas(Vec<String>),
    JoinRequest { node_id: String, hostname: String, sas: Vec<String> },
    Recovery(String),
    Toast(String),
    /// Re-render the current status (e.g. after a pending-join change).
    Refresh,
    DaemonDown,
    VersionMismatch { daemon: u32, gui: u32 },
}

/// The service could not be reached, or the connection broke.
#[derive(Clone, Copy, Debug)]
pub struct Unreachable;

// ---------------------------------------------------------------------------
// Answers
// ---------------------------------------------------------------------------

/// Whether a message is a toast with this text.
pub open spec fn toasts(m: Option<UiMsg>, text: Seq<char>) -> bool {
    m matches Some(UiMsg::Toast(t)) && t@ == text
}

/// The toast for a request that was carried out; none where none is shown.
pub open spec fn success_text(req: IpcRequest) -> Option<Seq<char>> {
    match req {
        IpcRequest::SetNetworkName { .. } => Some("Network renamed"@),
        IpcRequest::SetFrozen { frozen } => if frozen {
            Some("Membership frozen"@)
        } else {
            Some("Membership unfrozen"@)
        },
        IpcRequest::ApproveJoin { .. } => Some("Approved"@),
        IpcRequest::RemoveMember { .. } => Some("Member removed"@),
        IpcRequest::Join { .. } => Some("Joined!"@),
        IpcRequest::SetLabel { .. } => Some("Name updated"@),
        IpcRequest::ImportOriginatorKey { .. } => Some("Originator access restored"@),
        _ => None,
    }
}

/// What stands before the reason when a request fails; none for a request whose
/// failure is not shown.
pub open spec fn failure_prefix(req: IpcRequest) -> Option<Seq<char>> {
    match req {
        IpcRequest::CreateNetwork { .. } => Some("create failed: "@),
        IpcRequest::Join { .. } => Some("join failed: "@),
        IpcRequest::Hello { .. } => None,
        IpcRequest::Subscribe => None,
        IpcRequest::Disconnect => None,
        IpcRequest::DenyJoin { .. } => None,
        _ => Some(""@),
    }
}

/// Whether `m` is what the user interface is told about the answer to `req`.
pub open spec fn reply_shown(req: IpcRequest, reply: Result<IpcResponse, Unreachable>, m: Option<UiMsg>) -> bool {
    match reply {
        Err(_) => if req is CreateNetwork || req is Join {
            m == Some(UiMsg::DaemonDown)
        } else {
            m is None
        },
        Ok(IpcResponse::Failed(e)) => match failure_prefix(req) {
            Some(prefix) => toasts(m, prefix + e@),
            None => m is None,
        },
        Ok(IpcResponse::Done) => match success_text(req) {
            Some(text) => toasts(m, text),
            None => m is None,
        },
        Ok(IpcResponse::Ticket(t)) => if req is GetTicket || req is RotateNetwork {
            m == Some(UiMsg::Ticket(t))
        } else if req is CreateNetwork {
            toasts(m, "Network created"@)
        } else {
            m is None
        },
        Ok(IpcResponse::Recovery(code)) => if req is ExportOriginatorKey {
            m == Some(UiMsg::Recovery(code))
        } else {
            m is None
        },
        Ok(_) => m is None,
    }
}

/// The toast for a request that was carried out.
fn done_text(req: &IpcRequest) -> (r: Option<&'static str>)
    ensures
        match r {
            Some(t) => success_text(*req) == Some(t@),
            None => success_text(*req) is None,
        },
{
    match req {
        IpcRequest::SetNetworkName { .. } => Some("Network renamed"),
        IpcRequest::SetFrozen { frozen } => if *frozen {
            Some("Membership frozen")
        } else {
            Some("Membership unfrozen")
        },
        IpcRequest::ApproveJoin { .. } => Some("Approved"),
        IpcRequest::RemoveMember { .. } => Some("Member removed"),
        IpcRequest::Join { .. } => Some("Joined!"),
        IpcRequest::SetLabel { .. } => Some("Name updated"),
        IpcRequest::ImportOriginatorKey { .. } => Some("Originator access restored"),
        _ => None,
    }
}

/// What stands before the reason when a request fails.
fn failed_text(req: &IpcRequest) -> (r: Option<&'static str>)
    ensures
        match r {
            Some(t) => failure_prefix(*req) == Some(t@),
            None => failure_prefix(*req) is None,
        },
{
    match req {
        IpcRequest::CreateNetwork { .. } => Some("create failed: "),
        IpcRequest::Join { .. } => Some("join failed: "),
        IpcRequest::Hello { .. } => None,
        IpcRequest::Subscribe => None,
        IpcRequest::Disconnect => None,
        IpcRequest::DenyJoin { .. } => None,
        _ => Some(""),
    }
}

/// What to tell the user interface about the answer to a request.
pub fn on_reply(req: &IpcRequest, reply: Result<IpcResponse, Unreachable>) -> (r: Option<UiMsg>)
    ensures
        reply_shown(*req, reply, r),
{
    match reply {
        Err(_) => match req {
            IpcRequest::CreateNetwork { .. } => Some(UiMsg::DaemonDown),
            IpcRequest::Join { .. } => Some(UiMsg::DaemonDown),
            _ => None,
        },
        Ok(IpcResponse::Failed(e)) => match failed_text(req) {
            Some(prefix) => Some(UiMsg::Toast(String::from_str(prefix).concat(e.as_str()))),
            None => None,
        },
        Ok(IpcResponse::Done) => match done_text(req) {
            Some(text) => Some(UiMsg::Toast(String::from_str(text))),
            None => None,
        },
        Ok(IpcResponse::Ticket(t)) => match req {
            IpcRequest::GetTicket => Some(UiMsg::Ticket(t)),
            IpcRequest::RotateNetwork => Some(UiMsg::Ticket(t)),
            IpcRequest::CreateNetwork { .. } => Some(UiMsg::Toast(String::from_str("Network created"))),
            _ => None,
        },
        Ok(IpcResponse::Recovery(code)) => match req {
            IpcRequest::ExportOriginatorKey => Some(UiMsg::Recovery(code)),
            _ => None,
        },
        Ok(_) => None,
    }
}

// ---------------------------------------------------------------------------
// The event stream
// ---------------------------------------------------------------------------

/// How far the event stream has come.
#[derive(Clone, Copy, PartialEq, Eq, Structural, Debug)]
pub enum Phase {
    /// The greeting was sent and has not been answered.
    Greeting,
    /// The versions agree; events are being listened to.
    Listening,
    /// The stream is to be closed.
    Closed,
}

/// What to do on the event stream next.
pub enum StreamAction {
    /// Read the next frame.
    Wait,
    /// Write this frame, then read the next.
    Write(Frame),
    /// Hand this message to the user interface.
    Deliver(UiMsg),
    /// Nothing more.
    Stop,
}

/// The greeting that opens the event stream. A version mismatch is surfaced
/// clearly, instead of failing on an unknown message later.
pub open spec fn greeting(version: u32) -> Frame {
    Frame { id: 2, body: Message::Request(IpcRequest::Hello { version }) }
}

/// The request for events.
pub open spec fn subscription() -> Frame {
    Frame { id: 1, body: Message::Request(IpcRequest::Subscribe) }
}

/// The message for an event.
pub open spec fn event_message(ev: IpcEvent) -> UiMsg {
    match ev {
        IpcEvent::Status(s) => UiMsg::Status(s),
        IpcEvent::JoinSas { sas } => UiMsg::JoinSas(sas),
        IpcEvent::JoinRequest { node_id, hostname, sas } => UiMsg::JoinRequest {
            node_id,
            hostname,
            sas,
        },
    }
}

/// The next phase and action after a frame, or after the end of the stream.
/// The client speaks protocol `version`.
pub open spec fn stream_step(phase: Phase, version: u32, frame: Option<Frame>) -> (Phase, StreamAction) {
    match (phase, frame) {
        (Phase::Closed, _) => (Phase::Closed, StreamAction::Stop),
        (_, None) => (Phase::Closed, StreamAction::Stop),
        (Phase::Greeting, Some(f)) => match f.body {
            Message::Response(IpcResponse::Hello { version: theirs }) => if theirs == version {
                (Phase::Listening, StreamAction::Write(subscription()))
            } else {
                (
                    Phase::Closed,
                    StreamAction::Deliver(UiMsg::VersionMismatch { daemon: theirs, gui: version }),
                )
            },
            _ => (Phase::Greeting, StreamAction::Wait),
        },
        (Phase::Listening, Some(f)) => match f.body {
            Message::Event(ev) => (Phase::Listening, StreamAction::Deliver(event_message(ev))),
            _ => (Phase::Listening, StreamAction::Wait),
        },
    }
}

/// The frame that opens the event stream.
pub fn open_stream(version: u32) -> (r: (Phase, Frame))
    ensures
        r == (Phase::Greeting, greeting(version)),
{
    (Phase::Greeting, Frame { id: 2, body: Message::Request(IpcRequest::Hello { version }) })
}

/// What to do after a frame, or after the end of the stream.
pub fn on_frame(phase: Phase, version: u32, frame: Option<Frame>) -> (r: (Phase, StreamAction))
    ensures
        r == stream_step(phase, version, frame),
{
    let f = match frame {
        None => {
            return (Phase::Closed, StreamAction::Stop);
        },
        Some(f) => f,
    };
    match phase {
        Phase::Closed => (Phase::Closed, StreamAction::Stop),
        Phase::Greeting => match f.body {
            Message::Response(IpcResponse::Hello { version: theirs }) => {
                if theirs != version {
                    let m = UiMsg::VersionMismatch { daemon: theirs, gui: version };
                    (Phase::Closed, StreamAction::Deliver(m))
                } else {
                    let sub = Frame { id: 1, body: Message::Request(IpcRequest::Subscribe) };
                    (Phase::Listening, StreamAction::Write(sub))
                }
            },
            _ => (Phase::Greeting, StreamAction::Wait),
        },
        Phase::Listening => match f.body {
            Message::Event(ev) => {
                let m = match ev {
                    IpcEvent::Status(s) => UiMsg::Status(s),
                    IpcEvent::JoinSas { sas } => UiMsg::JoinSas(sas),
                    IpcEvent::JoinRequest { node_id, hostname, sas } => UiMsg::JoinRequest {
                        node_id,
                        hostname,
                        sas,
                    },
                };
                (Phase::Listening, StreamAction::Deliver(m))
            },
            _ => (Phase::Listening, StreamAction::Wait),
        },
    }
}

/// How long to wait before the event stream is opened again, in seconds. Between
/// the end of a stream and the next attempt the user interface is told
/// [`UiMsg::DaemonDown`].
pub const RECONNECT_SECS: u64 = 2;

// ---------------------------------------------------------------------------
// Laws
// ---------------------------------------------------------------------------

/// The phase after a run of frames.
pub open spec fn phase_after(version: u32, frames: Seq<Frame>) -> Phase
    decreases frames.len(),
{
    if frames.len() == 0 {
        Phase::Greeting
    } else {
        stream_step(phase_after(version, frames.drop_last()), version, Some(frames.last())).0
    }
}

/// Whether a frame is the service's greeting with this version.
pub open spec fn greets(f: Frame, version: u32) -> bool {
    f.body matches Message::Response(IpcResponse::Hello { version: v }) && v == version
}

/// Events are listened to only once the service has greeted with the client's
/// own version.
pub proof fn law_no_events_before_the_greeting(version: u32, frames: Seq<Frame>)
    requires
        phase_after(version, frames) == Phase::Listening,
    ensures
        exists|i: int| 0 <= i < frames.len() && greets(#[trigger] frames[i], version),
    decreases frames.len(),
{
    if frames.len() > 0 {
        let rest = frames.drop_last();
        if phase_after(version, rest) == Phase::Listening {
            law_no_events_before_the_greeting(version, rest);
            let i = choose|i: int| 0 <= i < rest.len() && greets(#[trigger] rest[i], version);
            assert(frames[i] == rest[i]);
        } else {
            assert(greets(frames[frames.len() - 1], version));
        }
    }
}

/// Whatever is delivered outside of the listening phase is the news of a version
/// mismatch, and then the stream is over.
pub proof fn law_mismatch_ends_the_stream(phase: Phase, version: u32, frame: Option<Frame>)
    requires
        phase != Phase::Listening,
        stream_step(phase, version, frame).1 is Deliver,
    ensures
        stream_step(phase, version, frame).1->Deliver_0 is VersionMismatch,
        stream_step(phase, version, frame).1->Deliver_0->gui == version,
        stream_step(phase, version, frame).1->Deliver_0->daemon != version,
        stream_step(phase, version, frame).0 == Phase::Closed,
{
}

/// While listening, every event is delivered, and listening goes on.
pub proof fn law_every_event_is_delivered(version: u32, f: Frame)
    requires
        f.body is Event,
    ensures
        stream_step(Phase::Listening, version, Some(f)) == (
            Phase::Listening,
            StreamAction::Deliver(event_message(f.body->Event_0)),
        ),
{
}

/// A failed request whose failure is shown always shows the service's reason.
pub proof fn law_failures_show_the_reason(req: IpcRequest, e: String, m: Option<UiMsg>)
    requires
        reply_shown(req, Ok(IpcResponse::Failed(e)), m),
        failure_prefix(req) is Some,
    ensures
        m matches Some(UiMsg::Toast(t)) && e@.is_suffix_of(t@),
{
    let t = m->0->Toast_0;
    let prefix = failure_prefix(req)->0;
    assert(t@.subrange(t@.len() - e@.len(), t@.len() as int) =~= e@);
}

/// While listening, a status is handed on as it came: the whole report where there
/// is a network, and that there is none where there is none.
pub proof fn law_status_is_handed_on(
    version: u32,
    id: u64,
    status: Option<NetworkStatus>,
    r: (Phase, StreamAction),
)
    requires
        call_ensures(
            on_frame,
            (
                Phase::Listening,
                version,
                Some(Frame { id, body: Message::Event(IpcEvent::Status(status)) }),
            ),
            r,
        ),
    ensures
        r == (Phase::Listening, StreamAction::Deliver(UiMsg::Status(status))),
        status matches Some(s) ==> r.1 == StreamAction::Deliver(UiMsg::Status(Some(s))),
{
}

/// While listening, the words to compare with the other device are handed on as
/// they came.
pub proof fn law_words_are_handed_on(version: u32, id: u64, sas: Vec<String>, r: (Phase, StreamAction))
    requires
        call_ensures(
            on_frame,
            (Phase::Listening, version, Some(Frame { id, body: Message::Event(IpcEvent::JoinSas { sas }) })),
            r,
        ),
    ensures
        r == (Phase::Listening, StreamAction::Deliver(UiMsg::JoinSas(sas))),
{
}

/// While listening, a request to join is handed on with the device, its name and
/// the words, as they came.
pub proof fn law_join_request_is_handed_on(
    version: u32,
    id: u64,
    node_id: String,
    hostname: String,
    sas: Vec<String>,
    r: (Phase, StreamAction),
)
    requires
        call_ensures(
            on_frame,
            (
                Phase::Listening,
                version,
                Some(
                    Frame {
                        id,
                        body: Message::Event(IpcEvent::JoinRequest { node_id, hostname, sas }),
                    },
                ),
            ),
            r,
        ),
    ensures
        r == (
            Phase::Listening,
            StreamAction::Deliver(UiMsg::JoinRequest { node_id, hostname, sas }),
        ),
{
}

/// Different events give different messages: nothing of an event is lost on the
/// way to the user interface.
pub proof fn law_events_are_told_apart(
    version: u32,
    id: u64,
    a: IpcEvent,
    b: IpcEvent,
    r: (Phase, StreamAction),
)
    requires
        call_ensures(
            on_frame,
            (Phase::Listening, version, Some(Frame { id, body: Message::Event(a) })),
            r,
        ),
        call_ensures(
            on_frame,
            (Phase::Listening, version, Some(Frame { id, body: Message::Event(b) })),
            r,
        ),
    ensures
        a == b,
{
}

/// A stream is opened with the client's version, and is then waiting for the
/// answer; an answer with the same version subscribes to the events, one with any
/// other version is reported and ends the stream, and any other frame is passed
/// over.
pub proof fn law_versions_are_compared_first(
    version: u32,
    opened: (Phase, Frame),
    frame: Frame,
    r: (Phase, StreamAction),
)
    requires
        call_ensures(open_stream, (version,), opened),
        call_ensures(on_frame, (opened.0, version, Some(frame)), r),
    ensures
        opened.1 == (Frame { id: 2, body: Message::Request(IpcRequest::Hello { version }) }),
        match frame.body {
            Message::Response(IpcResponse::Hello { version: theirs }) => if theirs == version {
                r == (
                    Phase::Listening,
                    StreamAction::Write(Frame { id: 1, body: Message::Request(IpcRequest::Subscribe) }),
                )
            } else {
                r == (
                    Phase::Closed,
                    StreamAction::Deliver(UiMsg::VersionMismatch { daemon: theirs, gui: version }),
                )
            },
            _ => r == (opened.0, StreamAction::Wait),
        },
{
}

/// While listening, a frame that is no event is passed over; at the end of the
/// stream, and once the stream is closed, nothing more is done.
pub proof fn law_everything_else_is_passed_over(
    phase: Phase,
    version: u32,
    frame: Option<Frame>,
    r: (Phase, StreamAction),
)
    requires
        call_ensures(on_frame, (phase, version, frame), r),
    ensures
        frame is None || phase == Phase::Closed ==> r == (Phase::Closed, StreamAction::Stop),
        phase == Phase::Listening && (frame matches Some(f) && !(f.body is Event)) ==> r == (
            Phase::Listening,
            StreamAction::Wait,
        ),
{
}

/// Whether a message shows this text in passing.
pub open spec fn shows_text(m: Option<UiMsg>, text: Seq<char>) -> bool {
    m is Some && m->0 is Toast && m->0->Toast_0@ == text
}

/// What is shown when a request was carried out, request by request.
pub proof fn law_success_is_announced(req: &IpcRequest, m: Option<UiMsg>)
    requires
        call_ensures(on_reply, (req, Ok::<IpcResponse, Unreachable>(IpcResponse::Done)), m),
    ensures
        *req is SetNetworkName ==> shows_text(m, "Network renamed"@),
        *req matches IpcRequest::SetFrozen { frozen } ==> (frozen ==> shows_text(m, "Membership frozen"@)),
        *req matches IpcRequest::SetFrozen { frozen } ==> (!frozen ==> shows_text(
            m,
            "Membership unfrozen"@,
        )),
        *req is ApproveJoin ==> shows_text(m, "Approved"@),
        *req is RemoveMember ==> shows_text(m, "Member removed"@),
        *req is Join ==> shows_text(m, "Joined!"@),
        *req is SetLabel ==> shows_text(m, "Name updated"@),
        *req is ImportOriginatorKey ==> shows_text(m, "Originator access restored"@),
        *req is Hello || *req is Subscribe || *req is Connect || *req is Disconnect || *req is GetTicket
            || *req is CreateNetwork || *req is DenyJoin || *req is RotateNetwork
            || *req is ExportOriginatorKey || *req is DeleteNetwork || *req is LeaveNetwork ==> m is None,
{
}

/// What is shown when a request failed, request by request: the reason as it was
/// given, after a word on what failed where a network is created or joined.
pub proof fn law_failure_is_announced(req: &IpcRequest, e: String, m: Option<UiMsg>)
    requires
        call_ensures(on_reply, (req, Ok::<IpcResponse, Unreachable>(IpcResponse::Failed(e))), m),
    ensures
        *req is CreateNetwork ==> shows_text(m, "create failed: "@ + e@),
        *req is Join ==> shows_text(m, "join failed: "@ + e@),
        *req is SetNetworkName || *req is SetFrozen || *req is ApproveJoin || *req is RemoveMember
            || *req is SetLabel || *req is ImportOriginatorKey || *req is Connect || *req is GetTicket
            || *req is RotateNetwork || *req is ExportOriginatorKey || *req is DeleteNetwork
            || *req is LeaveNetwork ==> shows_text(m, e@),
        *req is Hello || *req is Subscribe || *req is Disconnect || *req is DenyJoin ==> m is None,
{
    reveal_strlit("");
    assert(""@ + e@ =~= e@);
}

/// Where the service cannot be reached, that is said of creating and joining a
/// network, and nothing is said of any other request.
pub proof fn law_silence_is_announced(req: &IpcRequest, u: Unreachable, m: Option<UiMsg>)
    requires
        call_ensures(on_reply, (req, Err::<IpcResponse, Unreachable>(u)), m),
    ensures
        *req is CreateNetwork || *req is Join ==> m == Some(UiMsg::DaemonDown),
        !(*req is CreateNetwork || *req is Join) ==> m is None,
{
}

/// A ticket and a recovery code are shown as they came to whoever asked for them;
/// the ticket of a network that was just created is announced instead, and other
/// answers show nothing.
pub proof fn law_codes_are_handed_on(req: &IpcRequest, reply: IpcResponse, m: Option<UiMsg>)
    requires
        call_ensures(on_reply, (req, Ok::<IpcResponse, Unreachable>(reply)), m),
    ensures
        reply matches IpcResponse::Ticket(t) ==> {
            &&& *req is GetTicket || *req is RotateNetwork ==> m == Some(UiMsg::Ticket(t))
            &&& *req is CreateNetwork ==> shows_text(m, "Network created"@)
            &&& !(*req is GetTicket || *req is RotateNetwork || *req is CreateNetwork) ==> m is None
        },
        reply matches IpcResponse::Recovery(code) ==> {
            &&& *req is ExportOriginatorKey ==> m == Some(UiMsg::Recovery(code))
            &&& !(*req is ExportOriginatorKey) ==> m is None
        },
        reply is Hello || reply is Other ==> m is None,
{
}

} // verus!
