//! The conversation with the bridge to the IPython kernel, which speaks JSON messages, one per
//! line.

use crate::fields::Fields;
use crate::json::{displayed, items_json, parsed, str_of, Json, JsonTree};
use crate::protocol::{KernelEvent, KernelEventView, KernelStatus, KernelStatusView};
use crate::text::{
    chars_of, join3, lemma_filter_map_of_longer_prefix, opt_view, push_found, same, text_of,
    texts_view,
};
use vstd::prelude::*;
use vstd::utf8::*;

verus! {

/// How much output of a cell is kept.
pub const OUTPUT_LIMIT: usize = 8192;

/// A request to the kernel.
#[derive(Debug)]
pub enum KernelCommand {
    Execute { cell_id: String, code: String },
    InputReply { request_id: String, value: String },
    Interrupt,
    Stop,
}

/// `KernelCommand` over mathematical values.
pub enum KernelCommandView {
    Execute { cell_id: Seq<char>, code: Seq<char> },
    InputReply { request_id: Seq<char>, value: Seq<char> },
    Interrupt,
    Stop,
}

impl View for KernelCommand {
    type V = KernelCommandView;

    open spec fn view(&self) -> KernelCommandView {
        match *self {
            KernelCommand::Execute { cell_id, code } => KernelCommandView::Execute {
                cell_id: cell_id@,
                code: code@,
            },
            KernelCommand::InputReply { request_id, value } => KernelCommandView::InputReply {
                request_id: request_id@,
                value: value@,
            },
            KernelCommand::Interrupt => KernelCommandView::Interrupt,
            KernelCommand::Stop => KernelCommandView::Stop,
        }
    }
}

/// A request over mathematical values, or that there is none.
pub open spec fn command_view(command: Option<KernelCommand>) -> Option<KernelCommandView> {
    match command {
        Some(command) => Some(command@),
        None => None,
    }
}

/// A piece of code that was run, and what came of it.
#[derive(Debug, PartialEq, Eq)]
pub struct KernelHistory {
    pub code: String,
    pub output: String,
    pub status: String,
}

/// `KernelHistory` over mathematical values.
#[verifier::ext_equal]
pub struct KernelHistoryView {
    pub code: Seq<char>,
    pub output: Seq<char>,
    pub status: Seq<char>,
}

impl View for KernelHistory {
    type V = KernelHistoryView;

    open spec fn view(&self) -> KernelHistoryView {
        KernelHistoryView { code: self.code@, output: self.output@, status: self.status@ }
    }
}

impl Clone for KernelHistory {
    fn clone(&self) -> (r: Self)
        ensures
            r@ == self@,
    {
        KernelHistory {
            code: self.code.clone(),
            output: self.output.clone(),
            status: self.status.clone(),
        }
    }
}

/// A history over mathematical values.
pub open spec fn history_view(items: Seq<KernelHistory>) -> Seq<KernelHistoryView> {
    items.map_values(|item: KernelHistory| item@)
}

/// The text under a name of an object.
pub open spec fn text_at(message: JsonTree, name: Seq<char>) -> Option<Seq<char>> {
    str_of(message.get(name))
}

/// The number of the execution that a message speaks of.
pub open spec fn count_at(message: JsonTree) -> Option<u32> {
    match message.get("executionCount"@) {
        Some(count) => match count.as_u64() {
            Some(count) => if count <= u32::MAX {
                Some(count as u32)
            } else {
                None
            },
            None => None,
        },
        None => None,
    }
}

/// The texts in an array.
pub open spec fn texts_in(items: Seq<JsonTree>) -> Seq<Seq<char>> {
    items.filter_map(|item: JsonTree| item.as_str())
}

/// The array under a name of an object.
pub open spec fn array_at(message: JsonTree, name: Seq<char>) -> Option<Seq<JsonTree>> {
    match message.get(name) {
        Some(value) => value.as_array(),
        None => None,
    }
}

/// The event that a message of the bridge reports.
pub open spec fn event_of(message: JsonTree) -> Option<KernelEventView> {
    let kind = text_at(message, "kind"@);
    if kind == Some("status"@) {
        match text_at(message, "state"@) {
            Some(state) => Some(KernelEventView::Status { state }),
            None => None,
        }
    } else if kind == Some("started"@) {
        match (text_at(message, "cellId"@), text_at(message, "requestId"@)) {
            (Some(cell_id), Some(request_id)) => Some(
                KernelEventView::Started { cell_id, request_id },
            ),
            _ => None,
        }
    } else if kind == Some("stream"@) {
        match (text_at(message, "name"@), text_at(message, "text"@)) {
            (Some(name), Some(text)) => Some(
                KernelEventView::Stream { cell_id: text_at(message, "cellId"@), name, text },
            ),
            _ => None,
        }
    } else if kind == Some("result"@) {
        Some(
            KernelEventView::Result {
                cell_id: text_at(message, "cellId"@),
                execution_count: count_at(message),
                text: text_at(message, "text"@),
                image_png: text_at(message, "imagePng"@),
            },
        )
    } else if kind == Some("error"@) {
        match (
            text_at(message, "name"@),
            text_at(message, "value"@),
            array_at(message, "traceback"@),
        ) {
            (Some(name), Some(value), Some(traceback)) => Some(
                KernelEventView::Error {
                    cell_id: text_at(message, "cellId"@),
                    name,
                    value,
                    traceback: texts_in(traceback),
                },
            ),
            _ => None,
        }
    } else if kind == Some("inputRequest"@) {
        match (text_at(message, "requestId"@), text_at(message, "prompt"@)) {
            (Some(request_id), Some(prompt)) => Some(
                KernelEventView::InputRequest {
                    request_id,
                    prompt,
                    password: message.get("password"@) == Some(JsonTree::Bool(true)),
                },
            ),
            _ => None,
        }
    } else if kind == Some("completed"@) {
        match text_at(message, "status"@) {
            Some(status) => Some(
                KernelEventView::Completed {
                    cell_id: text_at(message, "cellId"@),
                    execution_count: count_at(message),
                    status,
                },
            ),
            None => None,
        }
    } else {
        None
    }
}

/// A copy of the text under a name of an object.
fn text_field(message: &Json, name: &str) -> (r: Option<String>)
    ensures
        opt_view(r) == text_at(message.tree(), name@),
{
    match message.get(name) {
        Some(value) => match value.as_str() {
            Some(text) => Some(text.clone()),
            None => None,
        },
        None => None,
    }
}

/// The number of the execution that a message speaks of.
fn count_field(message: &Json) -> (r: Option<u32>)
    ensures
        r == count_at(message.tree()),
{
    match message.get("executionCount") {
        Some(count) => match count.as_u64() {
            Some(count) => if count <= u32::MAX as u64 {
                Some(count as u32)
            } else {
                None
            },
            None => None,
        },
        None => None,
    }
}

/// Copies of the texts in an array.
fn texts_from(items: &Vec<Json>) -> (r: Vec<String>)
    ensures
        texts_view(r@) == texts_in(items_json(items@)),
{
    let ghost trees = items_json(items@);
    let ghost f = |item: JsonTree| item.as_str();
    let mut out: Vec<String> = Vec::new();
    let mut i: usize = 0;
    assert(trees.take(0) =~= seq![]);
    assert(texts_view(out@) =~= trees.take(0).filter_map(f));
    while i < items.len()
        invariant
            i <= items@.len(),
            trees == items_json(items@),
            f == |item: JsonTree| item.as_str(),
            texts_view(out@) == trees.take(i as int).filter_map(f),
        decreases items@.len() - i,
    {
        proof {
            lemma_filter_map_of_longer_prefix(trees, i as int, f);
        }
        let found = match items[i].as_str() {
            Some(text) => Some(text.clone()),
            None => None,
        };
        push_found(&mut out, found);
        i += 1;
    }
    assert(trees.take(i as int) =~= trees);
    out
}

/// Whether the value under a name is `true`.
fn is_true(message: &Json, name: &str) -> (r: bool)
    ensures
        r == (message.tree().get(name@) == Some(JsonTree::Bool(true))),
{
    match message.get(name) {
        Some(value) => match value.as_bool() {
            Some(value) => value,
            None => false,
        },
        None => false,
    }
}

/// The event that a message of the bridge reports.
pub fn parse(message: &Json) -> (r: Option<KernelEvent>)
    ensures
        match r {
            Some(event) => event_of(message.tree()) == Some(event@),
            None => event_of(message.tree()) is None,
        },
{
    let kind = match text_field(message, "kind") {
        Some(kind) => kind,
        None => {
            return None;
        },
    };
    if same(&kind, "status") {
        match text_field(message, "state") {
            Some(state) => Some(KernelEvent::Status { state }),
            None => None,
        }
    } else if same(&kind, "started") {
        match (text_field(message, "cellId"), text_field(message, "requestId")) {
            (Some(cell_id), Some(request_id)) => Some(KernelEvent::Started { cell_id, request_id }),
            _ => None,
        }
    } else if same(&kind, "stream") {
        match (text_field(message, "name"), text_field(message, "text")) {
            (Some(name), Some(text)) => Some(
                KernelEvent::Stream { cell_id: text_field(message, "cellId"), name, text },
            ),
            _ => None,
        }
    } else if same(&kind, "result") {
        Some(
            KernelEvent::Result {
                cell_id: text_field(message, "cellId"),
                execution_count: count_field(message),
                text: text_field(message, "text"),
                image_png: text_field(message, "imagePng"),
            },
        )
    } else if same(&kind, "error") {
        let traceback = match message.get("traceback") {
            Some(traceback) => match traceback.as_array() {
                Some(items) => texts_from(items),
                None => {
                    return None;
                },
            },
            None => {
                return None;
            },
        };
        match (text_field(message, "name"), text_field(message, "value")) {
            (Some(name), Some(value)) => Some(
                KernelEvent::Error {
                    cell_id: text_field(message, "cellId"),
                    name,
                    value,
                    traceback,
                },
            ),
            _ => None,
        }
    } else if same(&kind, "inputRequest") {
        match (text_field(message, "requestId"), text_field(message, "prompt")) {
            (Some(request_id), Some(prompt)) => Some(
                KernelEvent::InputRequest {
                    request_id,
                    prompt,
                    password: is_true(message, "password"),
                },
            ),
            _ => None,
        }
    } else if same(&kind, "completed") {
        match text_field(message, "status") {
            Some(status) => Some(
                KernelEvent::Completed {
                    cell_id: text_field(message, "cellId"),
                    execution_count: count_field(message),
                    status,
                },
            ),
            None => None,
        }
    } else {
        None
    }
}

/// What an event says of a cell: more output, or another status.
pub struct Change {
    pub cell: Option<Seq<char>>,
    pub text: Option<Seq<char>>,
    pub status: Option<Seq<char>>,
}

/// What an event says of a cell, where it says anything.
pub open spec fn change_of(event: KernelEventView) -> Option<Change> {
    match event {
        KernelEventView::Stream { cell_id, text, .. } => Some(
            Change { cell: cell_id, text: Some(text), status: None },
        ),
        KernelEventView::Result { cell_id, text, .. } => Some(
            Change { cell: cell_id, text, status: None },
        ),
        KernelEventView::Error { cell_id, name, value, .. } => Some(
            Change { cell: cell_id, text: None, status: Some(name + ": "@ + value) },
        ),
        KernelEventView::Completed { cell_id, status, .. } => Some(
            Change { cell: cell_id, text: None, status: Some(status) },
        ),
        _ => None,
    }
}

/// How many more characters are kept behind an output: as many as the output has bytes less than
/// the limit.
pub open spec fn room_behind(output: Seq<char>) -> nat {
    let bytes = encode_utf8(output).len();
    if bytes < OUTPUT_LIMIT {
        (OUTPUT_LIMIT - bytes) as nat
    } else {
        0
    }
}

/// An output with as much of a text behind it as there is room for.
pub open spec fn extended(output: Seq<char>, text: Seq<char>) -> Seq<char> {
    let room = room_behind(output);
    if text.len() <= room {
        output + text
    } else {
        output + text.take(room as int)
    }
}

/// An item of the history after a change.
pub open spec fn changed(item: KernelHistoryView, change: Change) -> KernelHistoryView {
    KernelHistoryView {
        code: item.code,
        output: match change.text {
            Some(text) => extended(item.output, text),
            None => item.output,
        },
        status: match change.status {
            Some(status) => status,
            None => item.status,
        },
    }
}

/// The item of the history that an event changes.
pub open spec fn changed_item(
    len: nat,
    cells: Map<Seq<char>, usize>,
    event: KernelEventView,
) -> Option<int> {
    match change_of(event) {
        Some(change) => match change.cell {
            Some(cell) => if cells.contains_key(cell) && cells[cell] < len {
                Some(cells[cell] as int)
            } else {
                None
            },
            None => None,
        },
        None => None,
    }
}

/// The history after an event.
pub open spec fn updated(
    items: Seq<KernelHistoryView>,
    cells: Map<Seq<char>, usize>,
    event: KernelEventView,
) -> Seq<KernelHistoryView> {
    match changed_item(items.len(), cells, event) {
        Some(i) => items.update(i, changed(items[i], change_of(event).unwrap())),
        None => items,
    }
}

/// An output with as much of a text behind it as there is room for.
fn extend(output: &str, text: &str) -> (r: String)
    ensures
        r@ == extended(output@, text@),
{
    let bytes = output.as_bytes().len();
    let room: usize = if bytes < OUTPUT_LIMIT {
        OUTPUT_LIMIT - bytes
    } else {
        0
    };
    let chars = chars_of(text);
    let count: usize = if chars.len() <= room {
        chars.len()
    } else {
        room
    };
    let mut r = output.to_owned();
    let kept = &chars[0..count];
    assert(kept@ =~= text@.take(count as int));
    assert(text@.take(text@.len() as int) =~= text@);
    r.append(&text_of(kept));
    r
}

/// Adds what an event says of a cell to the history.
pub fn update(items: &mut Vec<KernelHistory>, cells: &Fields<usize>, event: &KernelEvent)
    ensures
        history_view(final(items)@) == updated(history_view(old(items)@), cells@, event@),
{
    let (cell, text, status): (&Option<String>, Option<&String>, Option<String>) = match event {
        KernelEvent::Stream { cell_id, text, .. } => (cell_id, Some(text), None),
        KernelEvent::Result { cell_id, text, .. } => (cell_id, text.as_ref(), None),
        KernelEvent::Error { cell_id, name, value, .. } => (
            cell_id,
            None,
            Some(join3(name, ": ", value)),
        ),
        KernelEvent::Completed { cell_id, status, .. } => (cell_id, None, Some(status.clone())),
        _ => {
            return ;
        },
    };
    let i: usize = match cell {
        Some(id) => match cells.get(id) {
            Some(i) => *i,
            None => {
                return ;
            },
        },
        None => {
            return ;
        },
    };
    if i >= items.len() {
        return ;
    }
    let output = match text {
        Some(text) => extend(&items[i].output, text),
        None => items[i].output.clone(),
    };
    let status = match status {
        Some(status) => status,
        None => items[i].status.clone(),
    };
    let item = KernelHistory { code: items[i].code.clone(), output, status };
    let ghost before = items@;
    items.set(i, item);
    assert(history_view(items@) =~= history_view(before).update(i as int, item@));
}

/// The last items of a history.
pub open spec fn last_items(
    items: Seq<KernelHistoryView>,
    limit: nat,
) -> Seq<KernelHistoryView> {
    if items.len() <= limit {
        items
    } else {
        items.skip(items.len() - limit)
    }
}

/// The last items of a history, no more than `limit` of them.
pub fn context_history(items: &[KernelHistory], limit: usize) -> (r: Vec<KernelHistory>)
    ensures
        history_view(r@) == last_items(history_view(items@), limit as nat),
{
    let start: usize = if items.len() <= limit {
        0
    } else {
        items.len() - limit
    };
    let mut out: Vec<KernelHistory> = Vec::new();
    let mut i: usize = start;
    while i < items.len()
        invariant
            start <= i <= items@.len(),
            out@.len() == i - start,
            forall|j: int| 0 <= j < out@.len() ==> (#[trigger] out@[j])@ == items@[start + j]@,
        decreases items@.len() - i,
    {
        out.push(items[i].clone());
        i += 1;
    }
    assert(history_view(out@) =~= history_view(items@).skip(start as int));
    assert(history_view(items@).skip(0) =~= history_view(items@));
    out
}

/// What the kernel has been asked, what came of it, and how the kernel is.
#[derive(Debug)]
pub struct KernelSession {
    pub items: Vec<KernelHistory>,
    pub cells: Fields<usize>,
    pub status: KernelStatus,
}

/// `KernelSession` over mathematical values.
#[verifier::ext_equal]
pub struct KernelView {
    pub items: Seq<KernelHistoryView>,
    pub cells: Map<Seq<char>, usize>,
    pub status: KernelStatusView,
}

impl View for KernelSession {
    type V = KernelView;

    open spec fn view(&self) -> KernelView {
        KernelView { items: history_view(self.items@), cells: self.cells@, status: self.status@ }
    }
}

impl KernelView {
    /// A session with a kernel that has said nothing yet.
    pub open spec fn start() -> KernelView {
        KernelView {
            items: seq![],
            cells: Map::empty(),
            status: KernelStatusView { state: "starting"@, execution_count: None },
        }
    }

    /// The session after code was handed to the kernel.
    pub open spec fn executing(self, cell_id: Seq<char>, code: Seq<char>) -> KernelView {
        KernelView {
            items: self.items.push(KernelHistoryView { code, output: seq![], status: "running"@ }),
            cells: self.cells.insert(cell_id, self.items.len() as usize),
            ..self
        }
    }

    /// The status of the kernel after an event.
    pub open spec fn status_after(self, event: KernelEventView) -> KernelStatusView {
        match event {
            KernelEventView::Status { state } => KernelStatusView {
                state,
                execution_count: self.status.execution_count,
            },
            KernelEventView::Completed { execution_count, .. } => KernelStatusView {
                state: "idle"@,
                execution_count,
            },
            _ => self.status,
        }
    }

    /// The session after an event.
    pub open spec fn after_event(self, event: KernelEventView) -> KernelView {
        KernelView {
            items: updated(self.items, self.cells, event),
            cells: self.cells,
            status: self.status_after(event),
        }
    }

    /// The session after what the bridge reports.
    pub open spec fn after_report(self, report: KernelReportView) -> KernelView {
        match report {
            KernelReportView::Event { event, .. } => self.after_event(event),
            _ => self,
        }
    }

    /// The session after a request.
    pub open spec fn after_command(self, command: Option<KernelCommandView>) -> KernelView {
        match command {
            Some(KernelCommandView::Execute { cell_id, code }) => self.executing(cell_id, code),
            _ => self,
        }
    }
}

/// Whether an event tells the status of the kernel.
pub open spec fn tells_status(event: KernelEventView) -> bool {
    event is Status || event is Completed
}

/// What a bridge that fails says of it, as JSON.
pub open spec fn bridge_error(message: JsonTree) -> Seq<char> {
    match message.get("message"@) {
        Some(text) => displayed(text),
        None => displayed(JsonTree::Null),
    }
}

/// What a message of the bridge reports.
pub open spec fn message_report(message: JsonTree) -> KernelReportView {
    match event_of(message) {
        Some(event) => KernelReportView::Event { event, status: tells_status(event) },
        None => if text_at(message, "kind"@) == Some("bridgeError"@) {
            KernelReportView::BridgeError(bridge_error(message))
        } else {
            KernelReportView::Nothing
        },
    }
}

/// What a line of the bridge reports. A line that is not JSON reports nothing.
pub open spec fn line_report(line: Seq<char>) -> KernelReportView {
    match parsed(line) {
        Some(message) => message_report(message),
        None => KernelReportView::Nothing,
    }
}

/// What the bridge reports.
#[derive(Debug)]
pub enum KernelReport {
    /// Something happened in the kernel.
    Event {
        /// What happened.
        event: KernelEvent,
        /// Whether the status of the kernel is to be published.
        status: bool,
    },
    /// The bridge failed, with what it says of that.
    BridgeError(String),
    /// Nothing.
    Nothing,
}

/// `KernelReport` over mathematical values.
pub enum KernelReportView {
    Event { event: KernelEventView, status: bool },
    BridgeError(Seq<char>),
    Nothing,
}

impl View for KernelReport {
    type V = KernelReportView;

    open spec fn view(&self) -> KernelReportView {
        match *self {
            KernelReport::Event { event, status } => KernelReportView::Event {
                event: event@,
                status,
            },
            KernelReport::BridgeError(text) => KernelReportView::BridgeError(text@),
            KernelReport::Nothing => KernelReportView::Nothing,
        }
    }
}

/// The message that passes a request on to the bridge. It is told to stop where there are no more
/// requests.
pub open spec fn command_message(command: Option<KernelCommandView>) -> JsonTree {
    match command {
        Some(KernelCommandView::Execute { cell_id, code }) => JsonTree::object().with(
            "type"@,
            JsonTree::Text("execute"@),
        ).with("cellId"@, JsonTree::Text(cell_id)).with("code"@, JsonTree::Text(code)),
        Some(KernelCommandView::InputReply { request_id, value }) => JsonTree::object().with(
            "type"@,
            JsonTree::Text("inputReply"@),
        ).with("requestId"@, JsonTree::Text(request_id)).with("value"@, JsonTree::Text(value)),
        Some(KernelCommandView::Interrupt) => JsonTree::object().with(
            "type"@,
            JsonTree::Text("interrupt"@),
        ),
        Some(KernelCommandView::Stop) | None => JsonTree::object().with(
            "type"@,
            JsonTree::Text("stop"@),
        ),
    }
}

/// What is to be done about a request to the kernel.
#[derive(Debug)]
pub struct KernelDispatch {
    /// The message to write to the bridge, as one line.
    pub message: Json,
    /// Whether the history has changed.
    pub recorded: bool,
    /// Whether the bridge is to be ended.
    pub end: bool,
}

impl KernelSession {
    /// A session with a kernel that has said nothing yet.
    pub fn new() -> (r: Self)
        ensures
            r@ == KernelView::start(),
    {
        let r = KernelSession {
            items: Vec::new(),
            cells: Fields::new(),
            status: KernelStatus { state: "starting".to_owned(), execution_count: None },
        };
        assert(r@.items =~= seq![]);
        r
    }

    /// What is to be done about a request, or about there being no more of them.
    pub fn handle_command(&mut self, command: Option<KernelCommand>) -> (r: KernelDispatch)
        ensures
            final(self)@ == old(self)@.after_command(command_view(command)),
            r.message.tree() == command_message(command_view(command)),
            r.recorded == (command matches Some(KernelCommand::Execute { .. })),
            r.end == (command is None || command == Some(KernelCommand::Stop)),
    {
        match command {
            Some(KernelCommand::Execute { cell_id, code }) => {
                let message = Json::object().with("type", Json::text("execute")).with(
                    "cellId",
                    Json::text(&cell_id),
                ).with("code", Json::text(&code));
                let mut cells = Fields::new();
                std::mem::swap(&mut cells, &mut self.cells);
                self.cells = cells.insert(cell_id, self.items.len());
                let item = KernelHistory {
                    code,
                    output: String::new(),
                    status: "running".to_owned(),
                };
                self.items.push(item);
                assert(self@.items =~= old(self)@.items.push(item@));
                KernelDispatch { message, recorded: true, end: false }
            },
            Some(KernelCommand::InputReply { request_id, value }) => KernelDispatch {
                message: Json::object().with("type", Json::text("inputReply")).with(
                    "requestId",
                    Json::Text(request_id),
                ).with("value", Json::Text(value)),
                recorded: false,
                end: false,
            },
            Some(KernelCommand::Interrupt) => KernelDispatch {
                message: Json::object().with("type", Json::text("interrupt")),
                recorded: false,
                end: false,
            },
            Some(KernelCommand::Stop) | None => KernelDispatch {
                message: Json::object().with("type", Json::text("stop")),
                recorded: false,
                end: true,
            },
        }
    }

    /// Takes in an event.
    pub fn handle_event(&mut self, event: &KernelEvent)
        ensures
            final(self)@ == old(self)@.after_event(event@),
    {
        update(&mut self.items, &self.cells, event);
        match event {
            KernelEvent::Status { state } => {
                self.status.state = state.clone();
            },
            KernelEvent::Completed { execution_count, .. } => {
                self.status = KernelStatus {
                    state: "idle".to_owned(),
                    execution_count: *execution_count,
                };
            },
            _ => {},
        }
    }

    /// Takes in a message of the bridge, and gives what it reports.
    pub fn handle_message(&mut self, message: &Json) -> (r: KernelReport)
        ensures
            r@ == message_report(message.tree()),
            final(self)@ == old(self)@.after_report(r@),
    {
        if let Some(event) = parse(message) {
            self.handle_event(&event);
            let status = match &event {
                KernelEvent::Status { .. } | KernelEvent::Completed { .. } => true,
                _ => false,
            };
            return KernelReport::Event { event, status };
        }
        match text_field(message, "kind") {
            Some(kind) => if same(&kind, "bridgeError") {
                let text = match message.get("message") {
                    Some(text) => text.show(),
                    None => Json::Null.show(),
                };
                KernelReport::BridgeError(text)
            } else {
                KernelReport::Nothing
            },
            None => KernelReport::Nothing,
        }
    }

    /// Takes in a line of the bridge, and gives what it reports.
    pub fn handle_line(&mut self, line: &str) -> (r: KernelReport)
        ensures
            r@ == line_report(line@),
            final(self)@ == old(self)@.after_report(r@),
    {
        match Json::parse(line) {
            Some(message) => self.handle_message(&message),
            None => KernelReport::Nothing,
        }
    }

    /// Takes in that the kernel has exited.
    pub fn handle_exit(&mut self)
        ensures
            final(self)@ == (KernelView {
                status: KernelStatusView { state: "dead"@, execution_count: None },
                ..old(self)@
            }),
    {
        self.status = KernelStatus { state: "dead".to_owned(), execution_count: None };
    }
}

/// Whether every cell stands for an item of the history.
pub open spec fn cells_are_recorded(session: KernelView) -> bool {
    forall|cell: Seq<char>| #[trigger]
        session.cells.contains_key(cell) ==> session.cells[cell] < session.items.len()
}

/// Whether no output is longer than the limit.
pub open spec fn outputs_are_bounded(items: Seq<KernelHistoryView>) -> bool {
    forall|i: int| 0 <= i < items.len() ==> (#[trigger] items[i]).output.len() <= OUTPUT_LIMIT
}

proof fn lemma_no_fewer_bytes_than_chars(text: Seq<char>)
    ensures
        encode_utf8(text).len() >= text.len(),
    decreases text.len(),
{
    if text.len() > 0 {
        reveal_with_fuel(encode_utf8, 2);
        lemma_no_fewer_bytes_than_chars(text.drop_first());
    }
}

/// The cells that code was run under stand for items of the history, whatever is asked and
/// whatever happens. Code that is run stands in the item of its cell, running and without output.
pub proof fn law_cells_stay_recorded(
    session: KernelView,
    command: Option<KernelCommandView>,
    event: KernelEventView,
)
    requires
        cells_are_recorded(session),
        session.items.len() < usize::MAX,
    ensures
        cells_are_recorded(KernelView::start()),
        cells_are_recorded(session.after_command(command)),
        cells_are_recorded(session.after_event(event)),
        command matches Some(KernelCommandView::Execute { cell_id, code }) ==> {
            let after = session.after_command(command);
            &&& after.cells.contains_key(cell_id)
            &&& after.items[after.cells[cell_id] as int] == (KernelHistoryView {
                code,
                output: seq![],
                status: "running"@,
            })
        },
{
}

/// However much a cell puts out, no more than the limit is kept of it.
pub proof fn law_outputs_stay_bounded(
    session: KernelView,
    command: Option<KernelCommandView>,
    event: KernelEventView,
)
    requires
        outputs_are_bounded(session.items),
    ensures
        outputs_are_bounded(KernelView::start().items),
        outputs_are_bounded(session.after_command(command).items),
        outputs_are_bounded(session.after_event(event).items),
{
    let after = session.after_event(event).items;
    assert forall|i: int| 0 <= i < after.len() implies (#[trigger] after[i]).output.len()
        <= OUTPUT_LIMIT by {
        lemma_no_fewer_bytes_than_chars(session.items[i].output);
        assert(session.items[i].output.len() <= OUTPUT_LIMIT);
    }
}

/// What the bridge reports changes the status of the kernel only with an event that tells it, and
/// the status is published with each such event.
pub proof fn law_status_is_published_where_it_is_told(session: KernelView, message: JsonTree)
    ensures
        match message_report(message) {
            KernelReportView::Event { event, status } => {
                &&& event_of(message) == Some(event)
                &&& status == tells_status(event)
                &&& !status ==> session.after_event(event).status == session.status
            },
            report => event_of(message) is None && session.after_report(report) == session,
        },
{
}

/// An event changes nothing of the history but the item of the cell that it speaks of; there the
/// code stays, and output is only added at the end.
pub proof fn law_an_event_changes_its_cell_alone(session: KernelView, event: KernelEventView)
    ensures
        session.after_event(event).cells == session.cells,
        session.after_event(event).items.len() == session.items.len(),
        forall|i: int|
            #![trigger session.after_event(event).items[i]]
            0 <= i < session.items.len() ==> {
                let before = session.items[i];
                let after = session.after_event(event).items[i];
                &&& after.code == before.code
                &&& before.output.is_prefix_of(after.output)
                &&& changed_item(session.items.len(), session.cells, event) != Some(i) ==> after
                    == before
            },
{
}

/// The last items of a history are its end, and as many of them as there are, up to the limit.
pub proof fn law_last_items_are_the_end(items: Seq<KernelHistoryView>, limit: nat)
    ensures
        last_items(items, limit).is_suffix_of(items),
        last_items(items, limit).len() == if items.len() <= limit {
            items.len()
        } else {
            limit
        },
{
    assert(last_items(items, limit).is_suffix_of(items));
}

} // verus!
