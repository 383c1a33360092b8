//! The messages between the server and its clients, and the state that they carry.

use crate::json::{number_of, Json, JsonTree};
use crate::text::{copy_opt, copy_texts, opt_view, texts_view, views};
use vstd::prelude::*;

verus! {

/// The version of the protocol, which every message to a client carries.
pub const PROTOCOL_VERSION: u8 = 1;

/// The channel of the debugger's terminal in binary frames.
pub const GDB_PTY_CHANNEL: u8 = 1;

/// What a lab is about: the program to debug and the tools to debug it with.
#[derive(Debug, PartialEq, Eq)]
pub struct LabConfig {
    pub workspace: String,
    pub program: String,
    pub args: Vec<String>,
    pub debugger: String,
    pub python: String,
    pub objective: String,
}

/// `LabConfig` over mathematical values.
#[verifier::ext_equal]
pub struct LabConfigView {
    pub workspace: Seq<char>,
    pub program: Seq<char>,
    pub args: Seq<Seq<char>>,
    pub debugger: Seq<char>,
    pub python: Seq<char>,
    pub objective: Seq<char>,
}

impl View for LabConfig {
    type V = LabConfigView;

    open spec fn view(&self) -> LabConfigView {
        LabConfigView {
            workspace: self.workspace@,
            program: self.program@,
            args: texts_view(self.args@),
            debugger: self.debugger@,
            python: self.python@,
            objective: self.objective@,
        }
    }
}

impl Clone for LabConfig {
    fn clone(&self) -> (r: Self)
        ensures
            r@ == self@,
    {
        LabConfig {
            workspace: self.workspace.clone(),
            program: self.program.clone(),
            args: copy_texts(&self.args),
            debugger: self.debugger.clone(),
            python: self.python.clone(),
            objective: self.objective.clone(),
        }
    }
}

/// A request from a client.
#[derive(Debug)]
pub enum ClientMessage {
    LabStart(LabConfig),
    LabResume { lab_id: String },
    LabStop,
    TerminalResize { cols: u16, rows: u16 },
    DebuggerRefresh,
    KernelExecute { cell_id: String, code: String },
    KernelInterrupt,
    KernelRestart,
    KernelInputReply { request_id: String, value: String },
    CodexSend { text: String },
    GenerateWriteup,
    CodexInterrupt,
    CodexNewThread,
    AuthLogin,
}

/// `ClientMessage` over mathematical values.
#[verifier::ext_equal]
pub enum ClientMessageView {
    LabStart(LabConfigView),
    LabResume { lab_id: Seq<char> },
    LabStop,
    TerminalResize { cols: u16, rows: u16 },
    DebuggerRefresh,
    KernelExecute { cell_id: Seq<char>, code: Seq<char> },
    KernelInterrupt,
    KernelRestart,
    KernelInputReply { request_id: Seq<char>, value: Seq<char> },
    CodexSend { text: Seq<char> },
    GenerateWriteup,
    CodexInterrupt,
    CodexNewThread,
    AuthLogin,
}

impl View for ClientMessage {
    type V = ClientMessageView;

    open spec fn view(&self) -> ClientMessageView {
        match *self {
            ClientMessage::LabStart(value) => ClientMessageView::LabStart(value@),
            ClientMessage::LabResume { lab_id } => ClientMessageView::LabResume {
                lab_id: lab_id@,
            },
            ClientMessage::LabStop => ClientMessageView::LabStop,
            ClientMessage::TerminalResize { cols, rows } => ClientMessageView::TerminalResize {
                cols,
                rows,
            },
            ClientMessage::DebuggerRefresh => ClientMessageView::DebuggerRefresh,
            ClientMessage::KernelExecute { cell_id, code } => ClientMessageView::KernelExecute {
                cell_id: cell_id@,
                code: code@,
            },
            ClientMessage::KernelInterrupt => ClientMessageView::KernelInterrupt,
            ClientMessage::KernelRestart => ClientMessageView::KernelRestart,
            ClientMessage::KernelInputReply { request_id, value } => ClientMessageView::KernelInputReply {
                request_id: request_id@,
                value: value@,
            },
            ClientMessage::CodexSend { text } => ClientMessageView::CodexSend {
                text: text@,
            },
            ClientMessage::GenerateWriteup => ClientMessageView::GenerateWriteup,
            ClientMessage::CodexInterrupt => ClientMessageView::CodexInterrupt,
            ClientMessage::CodexNewThread => ClientMessageView::CodexNewThread,
            ClientMessage::AuthLogin => ClientMessageView::AuthLogin,
        }
    }
}

/// A message to the clients.
#[derive(Debug)]
pub enum ServerMessage {
    StateFull(FullState),
    LabStatus(LabStatus),
    DebuggerState(DebuggerSnapshot),
    KernelEvent(KernelEvent),
    CodexEvent(CodexEvent),
    AuthState(AuthState),
    Error { scope: String, message: String },
}

/// `ServerMessage` over mathematical values.
#[verifier::ext_equal]
pub enum ServerMessageView {
    StateFull(FullStateView),
    LabStatus(LabStatusView),
    DebuggerState(DebuggerSnapshotView),
    KernelEvent(KernelEventView),
    CodexEvent(CodexEventView),
    AuthState(AuthStateView),
    Error { scope: Seq<char>, message: Seq<char> },
}

impl View for ServerMessage {
    type V = ServerMessageView;

    open spec fn view(&self) -> ServerMessageView {
        match *self {
            ServerMessage::StateFull(value) => ServerMessageView::StateFull(value@),
            ServerMessage::LabStatus(value) => ServerMessageView::LabStatus(value@),
            ServerMessage::DebuggerState(value) => ServerMessageView::DebuggerState(value@),
            ServerMessage::KernelEvent(value) => ServerMessageView::KernelEvent(value@),
            ServerMessage::CodexEvent(value) => ServerMessageView::CodexEvent(value@),
            ServerMessage::AuthState(value) => ServerMessageView::AuthState(value@),
            ServerMessage::Error { scope, message } => ServerMessageView::Error {
                scope: scope@,
                message: message@,
            },
        }
    }
}

impl Clone for ServerMessage {
    fn clone(&self) -> (r: Self)
        ensures
            r@ == self@,
    {
        match self {
            ServerMessage::StateFull(value) => ServerMessage::StateFull(value.clone()),
            ServerMessage::LabStatus(value) => ServerMessage::LabStatus(value.clone()),
            ServerMessage::DebuggerState(value) => ServerMessage::DebuggerState(value.clone()),
            ServerMessage::KernelEvent(value) => ServerMessage::KernelEvent(value.clone()),
            ServerMessage::CodexEvent(value) => ServerMessage::CodexEvent(value.clone()),
            ServerMessage::AuthState(value) => ServerMessage::AuthState(value.clone()),
            ServerMessage::Error { scope, message } => ServerMessage::Error {
                scope: scope.clone(),
                message: message.clone(),
            },
        }
    }
}

/// All that a client shows.
#[derive(Debug)]
pub struct FullState {
    pub lab: LabStatus,
    pub debugger: DebuggerSnapshot,
    pub kernel: KernelStatus,
    pub auth: AuthState,
    pub recent_labs: Vec<LabRecord>,
}

/// `FullState` over mathematical values.
#[verifier::ext_equal]
pub struct FullStateView {
    pub lab: LabStatusView,
    pub debugger: DebuggerSnapshotView,
    pub kernel: KernelStatusView,
    pub auth: AuthStateView,
    pub recent_labs: Seq<LabRecordView>,
}

impl View for FullState {
    type V = FullStateView;

    open spec fn view(&self) -> FullStateView {
        FullStateView {
            lab: self.lab@,
            debugger: self.debugger@,
            kernel: self.kernel@,
            auth: self.auth@,
            recent_labs: views(self.recent_labs@),
        }
    }
}

impl Clone for FullState {
    fn clone(&self) -> (r: Self)
        ensures
            r@ == self@,
    {
        let r = FullState {
            lab: self.lab.clone(),
            debugger: self.debugger.clone(),
            kernel: self.kernel.clone(),
            auth: self.auth.clone(),
            recent_labs: self.recent_labs.clone(),
        };
        assert(r@.recent_labs =~= self@.recent_labs);
        r
    }
}

/// Whether a lab is running, and which.
#[derive(Debug)]
pub struct LabStatus {
    pub phase: String,
    pub lab_id: Option<String>,
    pub config: Option<LabConfig>,
    pub message: Option<String>,
}

/// `LabStatus` over mathematical values.
#[verifier::ext_equal]
pub struct LabStatusView {
    pub phase: Seq<char>,
    pub lab_id: Option<Seq<char>>,
    pub config: Option<LabConfigView>,
    pub message: Option<Seq<char>>,
}

impl View for LabStatus {
    type V = LabStatusView;

    open spec fn view(&self) -> LabStatusView {
        LabStatusView {
            phase: self.phase@,
            lab_id: opt_view(self.lab_id),
            config: match self.config {
                Some(item) => Some(item@),
                None => None,
            },
            message: opt_view(self.message),
        }
    }
}

impl Clone for LabStatus {
    fn clone(&self) -> (r: Self)
        ensures
            r@ == self@,
    {
        LabStatus {
            phase: self.phase.clone(),
            lab_id: copy_opt(&self.lab_id),
            config: match &self.config {
                Some(config) => Some(config.clone()),
                None => None,
            },
            message: copy_opt(&self.message),
        }
    }
}

impl Default for LabStatus {
    fn default() -> (r: Self)
        ensures
            r@ == LabStatusView::none(),
    {
        LabStatus { phase: String::new(), lab_id: None, config: None, message: None }
    }
}

impl LabStatusView {
    /// A status in which nothing is set.
    pub open spec fn none() -> LabStatusView {
        LabStatusView { phase: seq![], lab_id: None, config: None, message: None }
    }
}

/// What is known of the debugged program.
#[derive(Debug)]
pub struct DebuggerSnapshot {
    pub revision: u64,
    pub state: String,
    pub stop_reason: Option<String>,
    pub stale: bool,
    pub frame: Option<Frame>,
    pub frames: Vec<Frame>,
    pub registers: Vec<Register>,
    pub disassembly: Vec<Instruction>,
    pub breakpoints: Vec<Breakpoint>,
    pub stack: Option<MemoryBlock>,
    pub error: Option<String>,
}

/// `DebuggerSnapshot` over mathematical values.
#[verifier::ext_equal]
pub struct DebuggerSnapshotView {
    pub revision: u64,
    pub state: Seq<char>,
    pub stop_reason: Option<Seq<char>>,
    pub stale: bool,
    pub frame: Option<FrameView>,
    pub frames: Seq<FrameView>,
    pub registers: Seq<RegisterView>,
    pub disassembly: Seq<InstructionView>,
    pub breakpoints: Seq<BreakpointView>,
    pub stack: Option<MemoryBlockView>,
    pub error: Option<Seq<char>>,
}

impl View for DebuggerSnapshot {
    type V = DebuggerSnapshotView;

    open spec fn view(&self) -> DebuggerSnapshotView {
        DebuggerSnapshotView {
            revision: self.revision,
            state: self.state@,
            stop_reason: opt_view(self.stop_reason),
            stale: self.stale,
            frame: match self.frame {
                Some(item) => Some(item@),
                None => None,
            },
            frames: views(self.frames@),
            registers: views(self.registers@),
            disassembly: views(self.disassembly@),
            breakpoints: views(self.breakpoints@),
            stack: match self.stack {
                Some(item) => Some(item@),
                None => None,
            },
            error: opt_view(self.error),
        }
    }
}

impl Clone for DebuggerSnapshot {
    fn clone(&self) -> (r: Self)
        ensures
            r@ == self@,
    {
        let r = DebuggerSnapshot {
            revision: self.revision,
            state: self.state.clone(),
            stop_reason: copy_opt(&self.stop_reason),
            stale: self.stale,
            frame: match &self.frame {
                Some(frame) => Some(frame.clone()),
                None => None,
            },
            frames: self.frames.clone(),
            registers: self.registers.clone(),
            disassembly: self.disassembly.clone(),
            breakpoints: self.breakpoints.clone(),
            stack: match &self.stack {
                Some(stack) => Some(stack.clone()),
                None => None,
            },
            error: copy_opt(&self.error),
        };
        assert(r@.frames =~= self@.frames);
        assert(r@.registers =~= self@.registers);
        assert(r@.disassembly =~= self@.disassembly);
        assert(r@.breakpoints =~= self@.breakpoints);
        r
    }
}

impl Default for DebuggerSnapshot {
    fn default() -> (r: Self)
        ensures
            r@ == DebuggerSnapshotView::none(),
    {
        let r = DebuggerSnapshot {
            revision: 0,
            state: String::new(),
            stop_reason: None,
            stale: false,
            frame: None,
            frames: Vec::new(),
            registers: Vec::new(),
            disassembly: Vec::new(),
            breakpoints: Vec::new(),
            stack: None,
            error: None,
        };
        assert(r@.frames =~= seq![]);
        assert(r@.registers =~= seq![]);
        assert(r@.disassembly =~= seq![]);
        assert(r@.breakpoints =~= seq![]);
        r
    }
}

impl DebuggerSnapshotView {
    /// A snapshot in which nothing is known.
    pub open spec fn none() -> DebuggerSnapshotView {
        DebuggerSnapshotView {
            revision: 0,
            state: seq![],
            stop_reason: None,
            stale: false,
            frame: None,
            frames: seq![],
            registers: seq![],
            disassembly: seq![],
            breakpoints: seq![],
            stack: None,
            error: None,
        }
    }
}

/// A frame of the call stack.
#[derive(Debug)]
pub struct Frame {
    pub level: Option<u32>,
    pub address: String,
    pub function: Option<String>,
    pub file: Option<String>,
    pub line: Option<u32>,
}

/// `Frame` over mathematical values.
#[verifier::ext_equal]
pub struct FrameView {
    pub level: Option<u32>,
    pub address: Seq<char>,
    pub function: Option<Seq<char>>,
    pub file: Option<Seq<char>>,
    pub line: Option<u32>,
}

impl View for Frame {
    type V = FrameView;

    open spec fn view(&self) -> FrameView {
        FrameView {
            level: self.level,
            address: self.address@,
            function: opt_view(self.function),
            file: opt_view(self.file),
            line: self.line,
        }
    }
}

impl Clone for Frame {
    fn clone(&self) -> (r: Self)
        ensures
            r@ == self@,
    {
        Frame {
            level: self.level,
            address: self.address.clone(),
            function: copy_opt(&self.function),
            file: copy_opt(&self.file),
            line: self.line,
        }
    }
}

/// A register and its value.
#[derive(Debug)]
pub struct Register {
    pub name: String,
    pub value: String,
}

/// `Register` over mathematical values.
#[verifier::ext_equal]
pub struct RegisterView {
    pub name: Seq<char>,
    pub value: Seq<char>,
}

impl View for Register {
    type V = RegisterView;

    open spec fn view(&self) -> RegisterView {
        RegisterView {
            name: self.name@,
            value: self.value@,
        }
    }
}

impl Clone for Register {
    fn clone(&self) -> (r: Self)
        ensures
            r@ == self@,
    {
        Register { name: self.name.clone(), value: self.value.clone() }
    }
}

/// A disassembled instruction.
#[derive(Debug)]
pub struct Instruction {
    pub address: String,
    pub function: Option<String>,
    pub offset: Option<String>,
    pub instruction: String,
}

/// `Instruction` over mathematical values.
#[verifier::ext_equal]
pub struct InstructionView {
    pub address: Seq<char>,
    pub function: Option<Seq<char>>,
    pub offset: Option<Seq<char>>,
    pub instruction: Seq<char>,
}

impl View for Instruction {
    type V = InstructionView;

    open spec fn view(&self) -> InstructionView {
        InstructionView {
            address: self.address@,
            function: opt_view(self.function),
            offset: opt_view(self.offset),
            instruction: self.instruction@,
        }
    }
}

impl Clone for Instruction {
    fn clone(&self) -> (r: Self)
        ensures
            r@ == self@,
    {
        Instruction {
            address: self.address.clone(),
            function: copy_opt(&self.function),
            offset: copy_opt(&self.offset),
            instruction: self.instruction.clone(),
        }
    }
}

/// A breakpoint.
#[derive(Debug)]
pub struct Breakpoint {
    pub number: String,
    pub enabled: bool,
    pub address: Option<String>,
    pub location: Option<String>,
}

/// `Breakpoint` over mathematical values.
#[verifier::ext_equal]
pub struct BreakpointView {
    pub number: Seq<char>,
    pub enabled: bool,
    pub address: Option<Seq<char>>,
    pub location: Option<Seq<char>>,
}

impl View for Breakpoint {
    type V = BreakpointView;

    open spec fn view(&self) -> BreakpointView {
        BreakpointView {
            number: self.number@,
            enabled: self.enabled,
            address: opt_view(self.address),
            location: opt_view(self.location),
        }
    }
}

impl Clone for Breakpoint {
    fn clone(&self) -> (r: Self)
        ensures
            r@ == self@,
    {
        Breakpoint {
            number: self.number.clone(),
            enabled: self.enabled,
            address: copy_opt(&self.address),
            location: copy_opt(&self.location),
        }
    }
}

/// Bytes of memory, in hexadecimal, and where they start.
#[derive(Debug)]
pub struct MemoryBlock {
    pub address: String,
    pub bytes: String,
}

/// `MemoryBlock` over mathematical values.
#[verifier::ext_equal]
pub struct MemoryBlockView {
    pub address: Seq<char>,
    pub bytes: Seq<char>,
}

impl View for MemoryBlock {
    type V = MemoryBlockView;

    open spec fn view(&self) -> MemoryBlockView {
        MemoryBlockView {
            address: self.address@,
            bytes: self.bytes@,
        }
    }
}

impl Clone for MemoryBlock {
    fn clone(&self) -> (r: Self)
        ensures
            r@ == self@,
    {
        MemoryBlock { address: self.address.clone(), bytes: self.bytes.clone() }
    }
}

/// The state of the IPython kernel.
#[derive(Debug)]
pub struct KernelStatus {
    pub state: String,
    pub execution_count: Option<u32>,
}

/// `KernelStatus` over mathematical values.
#[verifier::ext_equal]
pub struct KernelStatusView {
    pub state: Seq<char>,
    pub execution_count: Option<u32>,
}

impl View for KernelStatus {
    type V = KernelStatusView;

    open spec fn view(&self) -> KernelStatusView {
        KernelStatusView {
            state: self.state@,
            execution_count: self.execution_count,
        }
    }
}

impl Clone for KernelStatus {
    fn clone(&self) -> (r: Self)
        ensures
            r@ == self@,
    {
        KernelStatus { state: self.state.clone(), execution_count: self.execution_count }
    }
}

impl Default for KernelStatus {
    fn default() -> (r: Self)
        ensures
            r@ == KernelStatusView::none(),
    {
        KernelStatus { state: String::new(), execution_count: None }
    }
}

impl KernelStatusView {
    /// A status in which nothing is set.
    pub open spec fn none() -> KernelStatusView {
        KernelStatusView { state: seq![], execution_count: None }
    }
}

/// Something that happened in the IPython kernel.
#[derive(Debug)]
pub enum KernelEvent {
    Status { state: String },
    Started { cell_id: String, request_id: String },
    Stream { cell_id: Option<String>, name: String, text: String },
    Result { cell_id: Option<String>, execution_count: Option<u32>, text: Option<String>, image_png: Option<String> },
    Error { cell_id: Option<String>, name: String, value: String, traceback: Vec<String> },
    InputRequest { request_id: String, prompt: String, password: bool },
    Completed { cell_id: Option<String>, execution_count: Option<u32>, status: String },
    Restarted,
}

/// `KernelEvent` over mathematical values.
#[verifier::ext_equal]
pub enum KernelEventView {
    Status { state: Seq<char> },
    Started { cell_id: Seq<char>, request_id: Seq<char> },
    Stream { cell_id: Option<Seq<char>>, name: Seq<char>, text: Seq<char> },
    Result { cell_id: Option<Seq<char>>, execution_count: Option<u32>, text: Option<Seq<char>>, image_png: Option<Seq<char>> },
    Error { cell_id: Option<Seq<char>>, name: Seq<char>, value: Seq<char>, traceback: Seq<Seq<char>> },
    InputRequest { request_id: Seq<char>, prompt: Seq<char>, password: bool },
    Completed { cell_id: Option<Seq<char>>, execution_count: Option<u32>, status: Seq<char> },
    Restarted,
}

impl View for KernelEvent {
    type V = KernelEventView;

    open spec fn view(&self) -> KernelEventView {
        match *self {
            KernelEvent::Status { state } => KernelEventView::Status {
                state: state@,
            },
            KernelEvent::Started { cell_id, request_id } => KernelEventView::Started {
                cell_id: cell_id@,
                request_id: request_id@,
            },
            KernelEvent::Stream { cell_id, name, text } => KernelEventView::Stream {
                cell_id: opt_view(cell_id),
                name: name@,
                text: text@,
            },
            KernelEvent::Result { cell_id, execution_count, text, image_png } => KernelEventView::Result {
                cell_id: opt_view(cell_id),
                execution_count,
                text: opt_view(text),
                image_png: opt_view(image_png),
            },
            KernelEvent::Error { cell_id, name, value, traceback } => KernelEventView::Error {
                cell_id: opt_view(cell_id),
                name: name@,
                value: value@,
                traceback: texts_view(traceback@),
            },
            KernelEvent::InputRequest { request_id, prompt, password } => KernelEventView::InputRequest {
                request_id: request_id@,
                prompt: prompt@,
                password,
            },
            KernelEvent::Completed { cell_id, execution_count, status } => KernelEventView::Completed {
                cell_id: opt_view(cell_id),
                execution_count,
                status: status@,
            },
            KernelEvent::Restarted => KernelEventView::Restarted,
        }
    }
}

impl Clone for KernelEvent {
    fn clone(&self) -> (r: Self)
        ensures
            r@ == self@,
    {
        match self {
            KernelEvent::Status { state } => KernelEvent::Status {
                state: state.clone(),
            },
            KernelEvent::Started { cell_id, request_id } => KernelEvent::Started {
                cell_id: cell_id.clone(),
                request_id: request_id.clone(),
            },
            KernelEvent::Stream { cell_id, name, text } => KernelEvent::Stream {
                cell_id: copy_opt(cell_id),
                name: name.clone(),
                text: text.clone(),
            },
            KernelEvent::Result { cell_id, execution_count, text, image_png } => KernelEvent::Result {
                cell_id: copy_opt(cell_id),
                execution_count: *execution_count,
                text: copy_opt(text),
                image_png: copy_opt(image_png),
            },
            KernelEvent::Error { cell_id, name, value, traceback } => KernelEvent::Error {
                cell_id: copy_opt(cell_id),
                name: name.clone(),
                value: value.clone(),
                traceback: copy_texts(traceback),
            },
            KernelEvent::InputRequest { request_id, prompt, password } => KernelEvent::InputRequest {
                request_id: request_id.clone(),
                prompt: prompt.clone(),
                password: *password,
            },
            KernelEvent::Completed { cell_id, execution_count, status } => KernelEvent::Completed {
                cell_id: copy_opt(cell_id),
                execution_count: *execution_count,
                status: status.clone(),
            },
            KernelEvent::Restarted => KernelEvent::Restarted,
        }
    }
}

/// Something that happened in the conversation with the tutor.
#[derive(Debug)]
pub enum CodexEvent {
    User { text: String },
    Delta { text: String },
    Completed { status: String },
    Thread { thread_id: String },
    LoginUrl { url: String },
    Notice { text: String },
    WriteupStarted,
    WriteupDelta { text: String },
    WriteupCompleted { status: String },
    WriteupSaved { path: String },
    Activity { state: String, detail: Option<String> },
    TurnMetrics { purpose: String, context_bytes: usize, acknowledgement_ms: Option<u64>, first_response_ms: Option<u64>, total_ms: u64 },
}

/// `CodexEvent` over mathematical values.
#[verifier::ext_equal]
pub enum CodexEventView {
    User { text: Seq<char> },
    Delta { text: Seq<char> },
    Completed { status: Seq<char> },
    Thread { thread_id: Seq<char> },
    LoginUrl { url: Seq<char> },
    Notice { text: Seq<char> },
    WriteupStarted,
    WriteupDelta { text: Seq<char> },
    WriteupCompleted { status: Seq<char> },
    WriteupSaved { path: Seq<char> },
    Activity { state: Seq<char>, detail: Option<Seq<char>> },
    TurnMetrics { purpose: Seq<char>, context_bytes: usize, acknowledgement_ms: Option<u64>, first_response_ms: Option<u64>, total_ms: u64 },
}

impl View for CodexEvent {
    type V = CodexEventView;

    open spec fn view(&self) -> CodexEventView {
        match *self {
            CodexEvent::User { text } => CodexEventView::User {
                text: text@,
            },
            CodexEvent::Delta { text } => CodexEventView::Delta {
                text: text@,
            },
            CodexEvent::Completed { status } => CodexEventView::Completed {
                status: status@,
            },
            CodexEvent::Thread { thread_id } => CodexEventView::Thread {
                thread_id: thread_id@,
            },
            CodexEvent::LoginUrl { url } => CodexEventView::LoginUrl {
                url: url@,
            },
            CodexEvent::Notice { text } => CodexEventView::Notice {
                text: text@,
            },
            CodexEvent::WriteupStarted => CodexEventView::WriteupStarted,
            CodexEvent::WriteupDelta { text } => CodexEventView::WriteupDelta {
                text: text@,
            },
            CodexEvent::WriteupCompleted { status } => CodexEventView::WriteupCompleted {
                status: status@,
            },
            CodexEvent::WriteupSaved { path } => CodexEventView::WriteupSaved {
                path: path@,
            },
            CodexEvent::Activity { state, detail } => CodexEventView::Activity {
                state: state@,
                detail: opt_view(detail),
            },
            CodexEvent::TurnMetrics { purpose, context_bytes, acknowledgement_ms, first_response_ms, total_ms } => CodexEventView::TurnMetrics {
                purpose: purpose@,
                context_bytes,
                acknowledgement_ms,
                first_response_ms,
                total_ms,
            },
        }
    }
}

impl Clone for CodexEvent {
    fn clone(&self) -> (r: Self)
        ensures
            r@ == self@,
    {
        match self {
            CodexEvent::User { text } => CodexEvent::User {
                text: text.clone(),
            },
            CodexEvent::Delta { text } => CodexEvent::Delta {
                text: text.clone(),
            },
            CodexEvent::Completed { status } => CodexEvent::Completed {
                status: status.clone(),
            },
            CodexEvent::Thread { thread_id } => CodexEvent::Thread {
                thread_id: thread_id.clone(),
            },
            CodexEvent::LoginUrl { url } => CodexEvent::LoginUrl {
                url: url.clone(),
            },
            CodexEvent::Notice { text } => CodexEvent::Notice {
                text: text.clone(),
            },
            CodexEvent::WriteupStarted => CodexEvent::WriteupStarted,
            CodexEvent::WriteupDelta { text } => CodexEvent::WriteupDelta {
                text: text.clone(),
            },
            CodexEvent::WriteupCompleted { status } => CodexEvent::WriteupCompleted {
                status: status.clone(),
            },
            CodexEvent::WriteupSaved { path } => CodexEvent::WriteupSaved {
                path: path.clone(),
            },
            CodexEvent::Activity { state, detail } => CodexEvent::Activity {
                state: state.clone(),
                detail: copy_opt(detail),
            },
            CodexEvent::TurnMetrics { purpose, context_bytes, acknowledgement_ms, first_response_ms, total_ms } => CodexEvent::TurnMetrics {
                purpose: purpose.clone(),
                context_bytes: *context_bytes,
                acknowledgement_ms: *acknowledgement_ms,
                first_response_ms: *first_response_ms,
                total_ms: *total_ms,
            },
        }
    }
}

/// Whether the tutor's account is signed in.
#[derive(Debug)]
pub struct AuthState {
    pub authenticated: bool,
    pub mode: Option<String>,
    pub plan: Option<String>,
}

/// `AuthState` over mathematical values.
#[verifier::ext_equal]
pub struct AuthStateView {
    pub authenticated: bool,
    pub mode: Option<Seq<char>>,
    pub plan: Option<Seq<char>>,
}

impl View for AuthState {
    type V = AuthStateView;

    open spec fn view(&self) -> AuthStateView {
        AuthStateView {
            authenticated: self.authenticated,
            mode: opt_view(self.mode),
            plan: opt_view(self.plan),
        }
    }
}

impl Clone for AuthState {
    fn clone(&self) -> (r: Self)
        ensures
            r@ == self@,
    {
        AuthState {
            authenticated: self.authenticated,
            mode: copy_opt(&self.mode),
            plan: copy_opt(&self.plan),
        }
    }
}

impl Default for AuthState {
    fn default() -> (r: Self)
        ensures
            r@ == AuthStateView::none(),
    {
        AuthState { authenticated: false, mode: None, plan: None }
    }
}

impl AuthStateView {
    /// No account is signed in.
    pub open spec fn none() -> AuthStateView {
        AuthStateView { authenticated: false, mode: None, plan: None }
    }
}

/// A lab that can be resumed.
#[derive(Debug)]
pub struct LabRecord {
    pub id: String,
    pub config: LabConfig,
    pub thread_id: Option<String>,
    pub updated_at: u64,
}

/// `LabRecord` over mathematical values.
#[verifier::ext_equal]
pub struct LabRecordView {
    pub id: Seq<char>,
    pub config: LabConfigView,
    pub thread_id: Option<Seq<char>>,
    pub updated_at: u64,
}

impl View for LabRecord {
    type V = LabRecordView;

    open spec fn view(&self) -> LabRecordView {
        LabRecordView {
            id: self.id@,
            config: self.config@,
            thread_id: opt_view(self.thread_id),
            updated_at: self.updated_at,
        }
    }
}

impl Clone for LabRecord {
    fn clone(&self) -> (r: Self)
        ensures
            r@ == self@,
    {
        LabRecord {
            id: self.id.clone(),
            config: self.config.clone(),
            thread_id: copy_opt(&self.thread_id),
            updated_at: self.updated_at,
        }
    }
}

/// A message to the clients, with the version of the protocol on it.
pub open spec fn enveloped(message: JsonTree) -> JsonTree {
    message.with("v"@, JsonTree::Number(number_of(PROTOCOL_VERSION as u64)))
}

/// Puts the version of the protocol on a message to the clients.
pub fn envelope(message: Json) -> (r: Json)
    requires
        message.tree() is Object,
    ensures
        r.tree() == enveloped(message.tree()),
        r.tree().get("v"@).unwrap().as_u64() == Some(PROTOCOL_VERSION as u64),
{
    message.with("v", Json::number(PROTOCOL_VERSION as u64))
}

/// The envelope changes nothing else of a message.
pub proof fn law_envelope_keeps_the_message(message: JsonTree, name: Seq<char>)
    requires
        message is Object,
        name != "v"@,
    ensures
        enveloped(message).get(name) == message.get(name),
        enveloped(message).get("v"@) == Some(
            JsonTree::Number(number_of(PROTOCOL_VERSION as u64)),
        ),
{
}

/// The protocol is in its first version, and says so in each message.
pub proof fn law_messages_say_their_version(message: JsonTree)
    requires
        message is Object,
    ensures
        enveloped(message).get("v"@) == Some(JsonTree::Number(number_of(1))),
{
}

/// Where nothing is known, nobody is signed in, and there is no kernel and no lab.
pub proof fn law_nothing_is_shown_where_nothing_is_known()
    ensures
        AuthStateView::none() == (AuthStateView { authenticated: false, mode: None, plan: None }),
        KernelStatusView::none().state.len() == 0,
        KernelStatusView::none().execution_count is None,
        LabStatusView::none().phase.len() == 0,
        LabStatusView::none().lab_id is None,
        LabStatusView::none().config is None,
        LabStatusView::none().message is None,
{
}

} // verus!
