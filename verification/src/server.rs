//! What the server does about its clients, the lab and the tutor.

use crate::codex::CodexCommand;
use crate::debugger::DebuggerCommand;
use crate::json::{items_json, lemma_array_tree, Json, JsonTree};
use crate::kernel::KernelCommand;
use crate::protocol::{
    AuthState, ClientMessage, CodexEvent, DebuggerSnapshot, DebuggerSnapshotView, FullState,
    KernelStatus, KernelStatusView, LabConfig, LabConfigView, LabRecord, LabStatus, LabStatusView,
    ServerMessage, ServerMessageView, GDB_PTY_CHANNEL,
};
use crate::store::{found, Store};
use crate::text::{decimal, decimal_text, join2, same, texts_view};
use rand::Rng;
use vstd::prelude::*;

verus! {

/// `rand::Rng::fill` on the generator of `rand::rng` fills an array with random bytes. Nothing is
/// said of them.
#[verifier::external_body]
fn random_bytes() -> (r: [u8; 24]) {
    let mut bytes = [0u8; 24];
    rand::rng().fill(&mut bytes);
    bytes
}

/// The hexadecimal digit with a value, in lower case.
pub open spec fn hex_digit(value: nat) -> char {
    if value < 10 {
        (48 + value) as char
    } else {
        (87 + value) as char
    }
}

/// Whether a character is a hexadecimal digit in lower case.
pub open spec fn is_hex(c: char) -> bool {
    '0' <= c <= '9' || 'a' <= c <= 'f'
}

/// Some bytes in hexadecimal, two digits for each.
pub open spec fn hex(bytes: Seq<u8>) -> Seq<char>
    decreases bytes.len(),
{
    if bytes.len() == 0 {
        seq![]
    } else {
        hex(bytes.drop_last()) + seq![
            hex_digit((bytes.last() / 16) as nat),
            hex_digit((bytes.last() % 16) as nat),
        ]
    }
}

/// The hexadecimal digit with a value, in lower case.
fn digit_of(value: u8) -> (r: char)
    requires
        value < 16,
    ensures
        r == hex_digit(value as nat),
{
    if value < 10 {
        (48 + value) as char
    } else {
        (87 + value) as char
    }
}

/// Some bytes in hexadecimal, two digits for each.
pub fn hex_text(bytes: &[u8]) -> (r: String)
    ensures
        r@ == hex(bytes@),
{
    let mut out = String::new();
    let mut i: usize = 0;
    assert(bytes@.take(0) =~= seq![]);
    while i < bytes.len()
        invariant
            i <= bytes@.len(),
            out@ == hex(bytes@.take(i as int)),
        decreases bytes@.len() - i,
    {
        let ghost before = out@;
        out.push(digit_of(bytes[i] / 16));
        out.push(digit_of(bytes[i] % 16));
        assert(bytes@.take(i + 1).drop_last() =~= bytes@.take(i as int));
        i += 1;
        assert(out@ =~= hex(bytes@.take(i as int)));
    }
    assert(bytes@.take(i as int) =~= bytes@);
    out
}

/// A hexadecimal text holds two digits for each byte, and nothing else.
pub proof fn law_hex_holds_digits_alone(bytes: Seq<u8>)
    ensures
        hex(bytes).len() == 2 * bytes.len(),
        forall|i: int| 0 <= i < hex(bytes).len() ==> is_hex(#[trigger] hex(bytes)[i]),
    decreases bytes.len(),
{
    if bytes.len() > 0 {
        law_hex_holds_digits_alone(bytes.drop_last());
    }
}

/// Different bytes have different hexadecimal texts.
pub proof fn law_hex_tells_bytes_apart(a: Seq<u8>, b: Seq<u8>)
    requires
        hex(a) == hex(b),
    ensures
        a == b,
    decreases a.len(),
{
    law_hex_holds_digits_alone(a);
    law_hex_holds_digits_alone(b);
    if a.len() > 0 {
        let n = hex(a).len() as int;
        law_hex_holds_digits_alone(a.drop_last());
        law_hex_holds_digits_alone(b.drop_last());
        assert(hex(a).take(n - 2) =~= hex(a.drop_last()));
        assert(hex(b).take(n - 2) =~= hex(b.drop_last()));
        law_hex_tells_bytes_apart(a.drop_last(), b.drop_last());
        assert(hex(a)[n - 2] == hex_digit((a.last() / 16) as nat));
        assert(hex(a)[n - 1] == hex_digit((a.last() % 16) as nat));
        assert(hex(b)[n - 2] == hex_digit((b.last() / 16) as nat));
        assert(hex(b)[n - 1] == hex_digit((b.last() % 16) as nat));
        assert(a.last() == b.last());
        assert(a =~= a.drop_last().push(a.last()));
        assert(b =~= b.drop_last().push(b.last()));
    } else {
        assert(a =~= b);
    }
}

/// The token that a client must show: random bytes in hexadecimal.
pub fn random_token() -> (r: String)
    ensures
        r@.len() == 48,
        forall|i: int| 0 <= i < r@.len() ==> is_hex(#[trigger] r@[i]),
        exists|bytes: Seq<u8>| bytes.len() == 24 && r@ == #[trigger] hex(bytes),
{
    let bytes = random_bytes();
    proof {
        law_hex_holds_digits_alone(bytes@);
    }
    hex_text(&bytes)
}

/// Whether a text is the identifier of a new lab: hexadecimal digits in groups of 8, 4, 4, 4 and
/// 12, with hyphens between them, the third group beginning with a 4 and the fourth with one of 8,
/// 9, a and b.
pub open spec fn is_lab_id(text: Seq<char>) -> bool {
    &&& text.len() == 36
    &&& forall|i: int|
        0 <= i < 36 ==> if i == 8 || i == 13 || i == 18 || i == 23 {
            #[trigger] text[i] == '-'
        } else {
            is_hex(text[i])
        }
    &&& text[14] == '4'
    &&& text[19] == '8' || text[19] == '9' || text[19] == 'a' || text[19] == 'b'
}

/// `uuid::Uuid::new_v4` makes a random identifier of version 4, and its `Display` writes it in
/// lower case with hyphens. Which identifier comes is left to chance.
#[verifier::external_body]
pub(crate) fn new_lab_id() -> (r: String)
    ensures
        is_lab_id(r@),
{
    uuid::Uuid::new_v4().to_string()
}

/// Whether a client may connect.
#[derive(Debug, Clone, Copy, PartialEq, Eq, Structural)]
pub enum Access {
    Granted,
    /// The client does not know the token.
    Unauthorized,
    /// The client was loaded from elsewhere.
    Forbidden,
}

/// Whether a page from an origin may connect to the server at a port.
pub open spec fn allowed_origin(origin: Seq<char>, port: u16) -> bool {
    ||| origin == "http://127.0.0.1:"@ + decimal(port as nat)
    ||| origin == "http://localhost:"@ + decimal(port as nat)
    ||| origin == "http://127.0.0.1:5173"@
}

/// Whether a client with a token and an origin may connect. A client that names no origin is no
/// web page.
pub open spec fn access_of(
    expected: Seq<char>,
    token: Seq<char>,
    origin: Option<Seq<char>>,
    port: u16,
) -> Access {
    if token != expected {
        Access::Unauthorized
    } else {
        match origin {
            Some(origin) => if allowed_origin(origin, port) {
                Access::Granted
            } else {
                Access::Forbidden
            },
            None => Access::Granted,
        }
    }
}

/// Whether a client may connect.
pub fn check_access(expected: &str, token: &str, origin: Option<&str>, port: u16) -> (r: Access)
    ensures
        r == access_of(
            expected@,
            token@,
            match origin {
                Some(origin) => Some(origin@),
                None => None,
            },
            port,
        ),
{
    if !same(token, expected) {
        return Access::Unauthorized;
    }
    match origin {
        Some(origin) => {
            let digits = decimal_text(port as u64);
            let allowed = same(origin, &join2("http://127.0.0.1:", &digits)) || same(
                origin,
                &join2("http://localhost:", &digits),
            ) || same(origin, "http://127.0.0.1:5173");
            if allowed {
                Access::Granted
            } else {
                Access::Forbidden
            }
        },
        None => Access::Granted,
    }
}

/// A client that does not know the token is never let in, wherever it comes from.
pub proof fn law_the_token_is_needed(
    expected: Seq<char>,
    token: Seq<char>,
    origin: Option<Seq<char>>,
    port: u16,
)
    ensures
        access_of(expected, token, origin, port) == Access::Granted ==> token == expected,
        access_of(expected, token, origin, port) == Access::Unauthorized <==> token != expected,
{
}

/// A frame with bytes of the debugger's terminal.
pub open spec fn framed(data: Seq<u8>) -> Seq<u8> {
    seq![GDB_PTY_CHANNEL] + data
}

/// Puts bytes of the debugger's terminal into a frame.
pub fn pty_frame(data: &[u8]) -> (r: Vec<u8>)
    ensures
        r@ == framed(data@),
{
    let mut frame: Vec<u8> = Vec::new();
    frame.push(GDB_PTY_CHANNEL);
    frame.extend_from_slice(data);
    assert(frame@ =~= framed(data@));
    frame
}

/// The frame that shows a new client what the terminal has shown, where it has shown anything.
pub fn replay_frame(replay: &[u8]) -> (r: Option<Vec<u8>>)
    ensures
        match r {
            Some(frame) => replay@.len() > 0 && frame@ == framed(replay@),
            None => replay@.len() == 0,
        },
{
    if replay.len() == 0 {
        None
    } else {
        Some(pty_frame(replay))
    }
}

/// The bytes in a frame for the debugger's terminal.
pub open spec fn unframed(frame: Seq<u8>) -> Option<Seq<u8>> {
    if frame.len() > 0 && frame[0] == GDB_PTY_CHANNEL {
        Some(frame.skip(1))
    } else {
        None
    }
}

/// Takes the bytes for the debugger's terminal out of a frame.
pub fn pty_input(frame: &[u8]) -> (r: Option<Vec<u8>>)
    ensures
        match r {
            Some(data) => unframed(frame@) == Some(data@),
            None => unframed(frame@) is None,
        },
{
    if frame.len() > 0 && frame[0] == GDB_PTY_CHANNEL {
        let mut data: Vec<u8> = Vec::new();
        let rest = &frame[1..frame.len()];
        data.extend_from_slice(rest);
        assert(data@ =~= frame@.skip(1));
        Some(data)
    } else {
        None
    }
}

/// What is put into a frame comes out of it again.
pub proof fn law_frames_give_back_their_bytes(data: Seq<u8>, frame: Seq<u8>)
    ensures
        unframed(framed(data)) == Some(data),
        unframed(frame) is Some ==> framed(unframed(frame)->Some_0) == frame,
{
    assert(framed(data).skip(1) =~= data);
    if unframed(frame) is Some {
        assert(framed(frame.skip(1)) =~= frame);
    }
}

/// Why a request is refused.
#[derive(Debug, Clone, Copy, PartialEq, Eq, Structural)]
pub enum RequestError {
    NoLab,
    LabNotFound,
    LabGone,
}

/// What is said of a request that is refused.
pub open spec fn request_error_text(error: RequestError) -> Seq<char> {
    match error {
        RequestError::NoLab => "no active lab"@,
        RequestError::LabNotFound => "saved lab not found"@,
        RequestError::LabGone => "lab stopped during restart"@,
    }
}

impl RequestError {
    /// What is said of a request that is refused.
    pub fn message(self) -> (r: &'static str)
        ensures
            r@ == request_error_text(self),
    {
        match self {
            RequestError::NoLab => "no active lab",
            RequestError::LabNotFound => "saved lab not found",
            RequestError::LabGone => "lab stopped during restart",
        }
    }
}

/// Where a request of a client goes.
#[derive(Debug)]
pub enum Route {
    /// Start a lab.
    Start(LabConfig),
    /// Start a lab that was saved.
    Resume(String),
    /// Stop the lab.
    Stop,
    /// Hand a request to the debugger.
    Debugger(DebuggerCommand),
    /// Hand a request to the kernel.
    Kernel(KernelCommand),
    /// Put another kernel in the place of the lab's.
    RestartKernel,
    /// Ask the tutor, with what is observed in the lab.
    Ask(String),
    /// Have the tutor write up the lab.
    Writeup,
    /// Hand a request to the tutor.
    Tutor(CodexCommand),
}

/// Whether a request is about the lab that is running.
pub open spec fn needs_lab(message: ClientMessage) -> bool {
    match message {
        ClientMessage::LabStart(_)
        | ClientMessage::LabResume { .. }
        | ClientMessage::LabStop
        | ClientMessage::CodexInterrupt
        | ClientMessage::CodexNewThread
        | ClientMessage::AuthLogin => false,
        _ => true,
    }
}

/// Where a request goes that is not refused.
pub open spec fn destination(message: ClientMessage) -> Route {
    match message {
        ClientMessage::LabStart(config) => Route::Start(config),
        ClientMessage::LabResume { lab_id } => Route::Resume(lab_id),
        ClientMessage::LabStop => Route::Stop,
        ClientMessage::TerminalResize { cols, rows } => Route::Debugger(
            DebuggerCommand::Resize { cols, rows },
        ),
        ClientMessage::DebuggerRefresh => Route::Debugger(DebuggerCommand::Refresh),
        ClientMessage::KernelExecute { cell_id, code } => Route::Kernel(
            KernelCommand::Execute { cell_id, code },
        ),
        ClientMessage::KernelInterrupt => Route::Kernel(KernelCommand::Interrupt),
        ClientMessage::KernelRestart => Route::RestartKernel,
        ClientMessage::KernelInputReply { request_id, value } => Route::Kernel(
            KernelCommand::InputReply { request_id, value },
        ),
        ClientMessage::CodexSend { text } => Route::Ask(text),
        ClientMessage::GenerateWriteup => Route::Writeup,
        ClientMessage::CodexInterrupt => Route::Tutor(CodexCommand::Interrupt),
        ClientMessage::CodexNewThread => Route::Tutor(CodexCommand::NewThread),
        ClientMessage::AuthLogin => Route::Tutor(CodexCommand::Login),
    }
}

/// Where a request of a client goes. One that is about the lab is refused where none is running.
pub fn route(message: ClientMessage, lab_running: bool) -> (r: Result<Route, RequestError>)
    ensures
        r == if needs_lab(message) && !lab_running {
            Err::<Route, RequestError>(RequestError::NoLab)
        } else {
            Ok::<Route, RequestError>(destination(message))
        },
{
    let r = match message {
        ClientMessage::LabStart(config) => {
            return Ok(Route::Start(config));
        },
        ClientMessage::LabResume { lab_id } => {
            return Ok(Route::Resume(lab_id));
        },
        ClientMessage::LabStop => {
            return Ok(Route::Stop);
        },
        ClientMessage::CodexInterrupt => {
            return Ok(Route::Tutor(CodexCommand::Interrupt));
        },
        ClientMessage::CodexNewThread => {
            return Ok(Route::Tutor(CodexCommand::NewThread));
        },
        ClientMessage::AuthLogin => {
            return Ok(Route::Tutor(CodexCommand::Login));
        },
        ClientMessage::TerminalResize { cols, rows } => Route::Debugger(
            DebuggerCommand::Resize { cols, rows },
        ),
        ClientMessage::DebuggerRefresh => Route::Debugger(DebuggerCommand::Refresh),
        ClientMessage::KernelExecute { cell_id, code } => Route::Kernel(
            KernelCommand::Execute { cell_id, code },
        ),
        ClientMessage::KernelInterrupt => Route::Kernel(KernelCommand::Interrupt),
        ClientMessage::KernelRestart => Route::RestartKernel,
        ClientMessage::KernelInputReply { request_id, value } => Route::Kernel(
            KernelCommand::InputReply { request_id, value },
        ),
        ClientMessage::CodexSend { text } => Route::Ask(text),
        ClientMessage::GenerateWriteup => Route::Writeup,
    };
    if lab_running {
        Ok(r)
    } else {
        Err(RequestError::NoLab)
    }
}

/// The lab that a client wants to resume.
pub fn saved_lab(store: &Store, id: &str) -> (r: Result<LabRecord, RequestError>)
    ensures
        match r {
            Ok(lab) => found(store@, id@) == Some(lab@),
            Err(error) => found(store@, id@) is None && error == RequestError::LabNotFound,
        },
{
    match store.get(id) {
        Some(lab) => Ok(lab),
        None => Err(RequestError::LabNotFound),
    }
}

/// What a client sent.
#[derive(Debug)]
pub enum Incoming {
    /// A text, read as a request, or why it is none.
    Text(Result<ClientMessage, String>),
    /// A frame.
    Binary(Vec<u8>),
    /// The end of the connection.
    Closed,
    /// Something else.
    Other,
}

/// What is to be done about what a client sent.
#[derive(Debug)]
pub enum Response {
    /// Do what the client asks for.
    Handle(ClientMessage),
    /// Tell the clients of an error.
    Report(ServerMessage),
    /// Hand bytes to the debugger, where a lab is running.
    Type(DebuggerCommand),
    /// End the connection.
    Leave,
    /// Nothing.
    Ignore,
}

/// What the clients are told of an error.
pub fn error_message(scope: &str, message: String) -> (r: ServerMessage)
    ensures
        r@ == (ServerMessageView::Error { scope: scope@, message: message@ }),
{
    ServerMessage::Error { scope: scope.to_owned(), message }
}

/// What is to be done about what a client sent.
pub fn receive(incoming: Incoming) -> (r: Response)
    ensures
        match incoming {
            Incoming::Text(Ok(message)) => r == Response::Handle(message),
            Incoming::Text(Err(reason)) => r is Report && r->Report_0@ == (
            ServerMessageView::Error { scope: "protocol"@, message: reason@ }),
            Incoming::Binary(frame) => match unframed(frame@) {
                Some(data) => r matches Response::Type(DebuggerCommand::Input(typed)) && typed@
                    == data,
                None => r == Response::Ignore,
            },
            Incoming::Closed => r == Response::Leave,
            Incoming::Other => r == Response::Ignore,
        },
{
    match incoming {
        Incoming::Text(Ok(message)) => Response::Handle(message),
        Incoming::Text(Err(reason)) => Response::Report(error_message("protocol", reason)),
        Incoming::Binary(frame) => match pty_input(&frame) {
            Some(data) => Response::Type(DebuggerCommand::Input(data)),
            None => Response::Ignore,
        },
        Incoming::Closed => Response::Leave,
        Incoming::Other => Response::Ignore,
    }
}

/// What the server has for a client.
#[derive(Debug)]
pub enum Feed {
    /// A message.
    Message(ServerMessage),
    /// Messages were lost because the client was too slow.
    Lagged,
    /// There will be no more messages.
    Closed,
}

/// What is sent to a client.
#[derive(Debug)]
pub enum Delivery {
    /// The message; where it cannot be sent, the connection ends.
    Send(ServerMessage),
    /// All that the client shows.
    SendAll,
    /// Nothing; the connection ends.
    Leave,
}

/// What is sent to a client. One that lost messages is shown everything anew.
pub fn deliver(feed: Feed) -> (r: Delivery)
    ensures
        r == match feed {
            Feed::Message(message) => Delivery::Send(message),
            Feed::Lagged => Delivery::SendAll,
            Feed::Closed => Delivery::Leave,
        },
{
    match feed {
        Feed::Message(message) => Delivery::Send(message),
        Feed::Lagged => Delivery::SendAll,
        Feed::Closed => Delivery::Leave,
    }
}

/// The status while no lab is running.
pub open spec fn idle_status() -> LabStatusView {
    LabStatusView { phase: "idle"@, ..LabStatusView::none() }
}

/// The status while a lab starts.
pub open spec fn starting_status(config: LabConfigView) -> LabStatusView {
    LabStatusView { phase: "starting"@, config: Some(config), ..LabStatusView::none() }
}

/// The status while a lab is running.
pub open spec fn running_status(id: Seq<char>, config: LabConfigView) -> LabStatusView {
    LabStatusView {
        phase: "running"@,
        lab_id: Some(id),
        config: Some(config),
        ..LabStatusView::none()
    }
}

/// The status while no lab is running.
fn idle() -> (r: LabStatus)
    ensures
        r@ == idle_status(),
{
    LabStatus { phase: "idle".to_owned(), lab_id: None, config: None, message: None }
}

/// The status while a lab starts.
pub(crate) fn starting(config: &LabConfig) -> (r: LabStatus)
    ensures
        r@ == starting_status(config@),
{
    LabStatus {
        phase: "starting".to_owned(),
        lab_id: None,
        config: Some(config.clone()),
        message: None,
    }
}

/// The status while a lab is running.
pub(crate) fn running(id: &str, config: &LabConfig) -> (r: LabStatus)
    ensures
        r@ == running_status(id@, config@),
{
    LabStatus {
        phase: "running".to_owned(),
        lab_id: Some(id.to_owned()),
        config: Some(config.clone()),
        message: None,
    }
}

/// A lab that is running.
#[derive(Debug)]
pub struct RunningLab {
    pub id: String,
    pub config: LabConfig,
    pub debugger: DebuggerSnapshot,
    pub kernel: KernelStatus,
}

/// All that a client shows.
pub fn full_state(lab: Option<RunningLab>, auth: AuthState, recent_labs: Vec<LabRecord>) -> (r:
    FullState)
    ensures
        r.auth == auth,
        r.recent_labs == recent_labs,
        match lab {
            Some(lab) => {
                &&& r.lab@ == running_status(lab.id@, lab.config@)
                &&& r.debugger == lab.debugger
                &&& r.kernel == lab.kernel
            },
            None => {
                &&& r.lab@ == idle_status()
                &&& r.debugger@ == DebuggerSnapshotView::none()
                &&& r.kernel@ == KernelStatusView::none()
            },
        },
{
    match lab {
        Some(lab) => FullState {
            lab: running(&lab.id, &lab.config),
            debugger: lab.debugger,
            kernel: lab.kernel,
            auth,
            recent_labs,
        },
        None => FullState {
            lab: idle(),
            debugger: Default::default(),
            kernel: Default::default(),
            auth,
            recent_labs,
        },
    }
}

/// A step in stopping a lab.
#[derive(Debug)]
pub enum StopAction {
    StopKernel(KernelCommand),
    StopDebugger(DebuggerCommand),
    Announce(ServerMessage),
}

/// How a lab is stopped. Where none is running there is nothing to do.
pub fn stop_actions(lab_running: bool) -> (r: Vec<StopAction>)
    ensures
        !lab_running ==> r@.len() == 0,
        lab_running ==> {
            &&& r@.len() == 3
            &&& r@[0] == StopAction::StopKernel(KernelCommand::Stop)
            &&& r@[1] == StopAction::StopDebugger(DebuggerCommand::Stop)
            &&& r@[2] is Announce
            &&& r@[2]->Announce_0@ == ServerMessageView::LabStatus(idle_status())
        },
{
    let mut actions: Vec<StopAction> = Vec::new();
    if lab_running {
        actions.push(StopAction::StopKernel(KernelCommand::Stop));
        actions.push(StopAction::StopDebugger(DebuggerCommand::Stop));
        actions.push(StopAction::Announce(ServerMessage::LabStatus(idle())));
    }
    actions
}

/// What is done about an event of the conversation with the tutor.
#[derive(Debug)]
pub enum Forward {
    /// Save the lab with the thread of its conversation.
    Save { id: String, config: LabConfig, thread_id: Option<String> },
    /// Tell the clients.
    Send(ServerMessage),
}

/// What is done about an event of the conversation with the tutor: a new thread is saved with the
/// lab that is running, and the clients are told of the event and of the account.
pub fn forward_codex(event: CodexEvent, lab: Option<(String, LabConfig)>, auth: AuthState) -> (r:
    Vec<Forward>)
    ensures
        r@ == match (event, lab) {
            (CodexEvent::Thread { thread_id }, Some((id, config))) => seq![
                Forward::Save { id, config, thread_id: Some(thread_id) },
                Forward::Send(ServerMessage::CodexEvent(event)),
                Forward::Send(ServerMessage::AuthState(auth)),
            ],
            _ => seq![
                Forward::Send(ServerMessage::CodexEvent(event)),
                Forward::Send(ServerMessage::AuthState(auth)),
            ],
        },
{
    let mut forwards: Vec<Forward> = Vec::new();
    if let CodexEvent::Thread { thread_id } = &event {
        if let Some((id, config)) = lab {
            forwards.push(Forward::Save { id, config, thread_id: Some(thread_id.clone()) });
        }
    }
    forwards.push(Forward::Send(ServerMessage::CodexEvent(event)));
    forwards.push(Forward::Send(ServerMessage::AuthState(auth)));
    forwards
}

/// Some texts as JSON.
pub open spec fn texts_tree(texts: Seq<Seq<char>>) -> JsonTree {
    JsonTree::Array(texts.map_values(|text: Seq<char>| JsonTree::Text(text)))
}

/// Some texts as JSON.
fn texts_json(texts: &Vec<String>) -> (r: Json)
    ensures
        r.tree() == texts_tree(texts_view(texts@)),
{
    broadcast use lemma_array_tree;

    let mut items: Vec<Json> = Vec::new();
    let mut i: usize = 0;
    while i < texts.len()
        invariant
            i <= texts@.len(),
            items@.len() == i,
            forall|j: int| 0 <= j < i ==> (#[trigger] items@[j]).tree() == JsonTree::Text(
                texts@[j]@,
            ),
        decreases texts@.len() - i,
    {
        items.push(Json::text(&texts[i]));
        i += 1;
    }
    assert(items_json(items@) =~= texts_view(texts@).map_values(
        |text: Seq<char>| JsonTree::Text(text),
    ));
    Json::Array(items)
}

/// What the tutor is told of a lab: its objective and its target, what is known of the debugged
/// program, what the debugger's terminal shows, and what was run in the kernel.
pub open spec fn observed(
    config: LabConfigView,
    debugger: JsonTree,
    terminal: Seq<char>,
    kernel: JsonTree,
) -> JsonTree {
    JsonTree::object().with("objective"@, JsonTree::Text(config.objective)).with(
        "target"@,
        JsonTree::object().with("workspace"@, JsonTree::Text(config.workspace)).with(
            "program"@,
            JsonTree::Text(config.program),
        ).with("args"@, texts_tree(config.args)),
    ).with("debugger"@, debugger).with(
        "debuggerTerminal"@,
        JsonTree::object().with(
            "format"@,
            JsonTree::Text("plain text with ANSI/control sequences removed"@),
        ).with("tail"@, JsonTree::Text(terminal)),
    ).with("ipython"@, kernel)
}

/// What the tutor is told of a lab.
pub fn tutor_context(config: &LabConfig, debugger: Json, terminal: &str, kernel: Json) -> (r: Json)
    ensures
        r.tree() == observed(config@, debugger.tree(), terminal@, kernel.tree()),
{
    let target = Json::object().with("workspace", Json::text(&config.workspace)).with(
        "program",
        Json::text(&config.program),
    ).with("args", texts_json(&config.args));
    let shown = Json::object().with(
        "format",
        Json::text("plain text with ANSI/control sequences removed"),
    ).with("tail", Json::text(terminal));
    Json::object().with("objective", Json::text(&config.objective)).with("target", target).with(
        "debugger",
        debugger,
    ).with("debuggerTerminal", shown).with("ipython", kernel)
}

} // verus!
