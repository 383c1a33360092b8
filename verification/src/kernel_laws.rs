//! What holds of the conversation with the IPython kernel: which message reports which event, and
//! what is kept of the code that was run.

use crate::json::{displayed, number_value, parsed, JsonTree};
use crate::kernel::{
    array_at, command_message, count_at, event_of, line_report, message_report, text_at, texts_in,
    KernelCommandView, KernelHistoryView, KernelReportView, KernelView,
};
use crate::protocol::{KernelEventView, KernelStatusView};
use vstd::prelude::*;
use vstd::utf8::*;

verus! {

/// Whether a message holds a text under a name, or none.
pub open spec fn holds_text(message: JsonTree, name: Seq<char>, text: Option<Seq<char>>) -> bool {
    match text {
        Some(text) => message.get(name) == Some(JsonTree::Text(text)),
        None => !(message.get(name) matches Some(JsonTree::Text(_))),
    }
}

/// Whether a message holds the number of an execution, or none that fits in 32 bits.
pub open spec fn holds_count(message: JsonTree, count: Option<u32>) -> bool {
    match message.get("executionCount"@) {
        Some(JsonTree::Number(number)) => match count {
            Some(count) => number_value(number) == Some(count as u64),
            None => !(number_value(number) matches Some(n) && n < 4294967296),
        },
        _ => count is None,
    }
}

/// Whether some texts are those in an array, in their order. What is no text is passed over.
pub open spec fn are_texts_in(texts: Seq<Seq<char>>, items: Seq<JsonTree>) -> bool
    decreases items.len(),
{
    if items.len() == 0 {
        texts.len() == 0
    } else {
        match items.last() {
            JsonTree::Text(text) => {
                &&& texts.len() > 0
                &&& texts.last() == text
                &&& are_texts_in(texts.drop_last(), items.drop_last())
            },
            _ => are_texts_in(texts, items.drop_last()),
        }
    }
}

/// Whether a message reports an event: by its kind, and by what it holds under the names that
/// belong to the kind.
pub open spec fn reports(message: JsonTree, event: KernelEventView) -> bool {
    match event {
        KernelEventView::Status { state } => {
            &&& holds_text(message, "kind"@, Some("status"@))
            &&& holds_text(message, "state"@, Some(state))
        },
        KernelEventView::Started { cell_id, request_id } => {
            &&& holds_text(message, "kind"@, Some("started"@))
            &&& holds_text(message, "cellId"@, Some(cell_id))
            &&& holds_text(message, "requestId"@, Some(request_id))
        },
        KernelEventView::Stream { cell_id, name, text } => {
            &&& holds_text(message, "kind"@, Some("stream"@))
            &&& holds_text(message, "cellId"@, cell_id)
            &&& holds_text(message, "name"@, Some(name))
            &&& holds_text(message, "text"@, Some(text))
        },
        KernelEventView::Result { cell_id, execution_count, text, image_png } => {
            &&& holds_text(message, "kind"@, Some("result"@))
            &&& holds_text(message, "cellId"@, cell_id)
            &&& holds_count(message, execution_count)
            &&& holds_text(message, "text"@, text)
            &&& holds_text(message, "imagePng"@, image_png)
        },
        KernelEventView::Error { cell_id, name, value, traceback } => {
            &&& holds_text(message, "kind"@, Some("error"@))
            &&& holds_text(message, "cellId"@, cell_id)
            &&& holds_text(message, "name"@, Some(name))
            &&& holds_text(message, "value"@, Some(value))
            &&& message.get("traceback"@) matches Some(JsonTree::Array(items)) && are_texts_in(
                traceback,
                items,
            )
        },
        KernelEventView::InputRequest { request_id, prompt, password } => {
            &&& holds_text(message, "kind"@, Some("inputRequest"@))
            &&& holds_text(message, "requestId"@, Some(request_id))
            &&& holds_text(message, "prompt"@, Some(prompt))
            &&& password <==> message.get("password"@) == Some(JsonTree::Bool(true))
        },
        KernelEventView::Completed { cell_id, execution_count, status } => {
            &&& holds_text(message, "kind"@, Some("completed"@))
            &&& holds_text(message, "cellId"@, cell_id)
            &&& holds_count(message, execution_count)
            &&& holds_text(message, "status"@, Some(status))
        },
        KernelEventView::Restarted => false,
    }
}

proof fn lemma_kinds_differ()
    ensures
        "status"@ != "started"@,
        "status"@ != "stream"@,
        "status"@ != "result"@,
        "status"@ != "error"@,
        "status"@ != "inputRequest"@,
        "status"@ != "completed"@,
        "status"@ != "bridgeError"@,
        "started"@ != "stream"@,
        "started"@ != "result"@,
        "started"@ != "error"@,
        "started"@ != "inputRequest"@,
        "started"@ != "completed"@,
        "started"@ != "bridgeError"@,
        "stream"@ != "result"@,
        "stream"@ != "error"@,
        "stream"@ != "inputRequest"@,
        "stream"@ != "completed"@,
        "stream"@ != "bridgeError"@,
        "result"@ != "error"@,
        "result"@ != "inputRequest"@,
        "result"@ != "completed"@,
        "result"@ != "bridgeError"@,
        "error"@ != "inputRequest"@,
        "error"@ != "completed"@,
        "error"@ != "bridgeError"@,
        "inputRequest"@ != "completed"@,
        "inputRequest"@ != "bridgeError"@,
        "completed"@ != "bridgeError"@,
{
    reveal_strlit("status");
    reveal_strlit("started");
    reveal_strlit("stream");
    reveal_strlit("result");
    reveal_strlit("error");
    reveal_strlit("inputRequest");
    reveal_strlit("completed");
    reveal_strlit("bridgeError");
    assert("status"@.len() == 6);
    assert("started"@.len() == 7);
    assert("stream"@.len() == 6);
    assert("result"@.len() == 6);
    assert("error"@.len() == 5);
    assert("inputRequest"@.len() == 12);
    assert("completed"@.len() == 9);
    assert("bridgeError"@.len() == 11);
    assert("status"@[2] != "stream"@[2]);
    assert("status"@[0] != "result"@[0]);
    assert("stream"@[0] != "result"@[0]);
}

proof fn lemma_texts_in(items: Seq<JsonTree>, texts: Seq<Seq<char>>)
    ensures
        are_texts_in(texts, items) <==> texts == texts_in(items),
    decreases items.len(),
{
    reveal(Seq::filter_map);
    let f = |item: JsonTree| item.as_str();
    if items.len() == 0 {
        assert(texts_in(items) =~= seq![]);
        if texts.len() == 0 {
            assert(texts =~= seq![]);
        }
    } else {
        let front = items.drop_last();
        assert(texts_in(items) == match f(items.last()) {
            Some(text) => texts_in(front).push(text),
            None => texts_in(front),
        });
        match items.last() {
            JsonTree::Text(text) => {
                lemma_texts_in(front, texts.drop_last());
                assert(texts_in(front).push(text).drop_last() =~= texts_in(front));
                if texts.len() > 0 {
                    assert(texts =~= texts.drop_last().push(texts.last()));
                }
            },
            _ => {
                lemma_texts_in(front, texts);
            },
        }
    }
}

/// A message of the bridge reports an event if and only if it is of the event's kind and holds what
/// belongs to it. Nothing is read from elsewhere, and nothing is made up.
pub proof fn law_messages_report_what_they_hold(message: JsonTree, event: KernelEventView)
    ensures
        event_of(message) == Some(event) <==> reports(message, event),
{
    lemma_kinds_differ();
    if let KernelEventView::Error { traceback, .. } = event {
        if let Some(items) = array_at(message, "traceback"@) {
            lemma_texts_in(items, traceback);
        }
    }
    assert forall|name: Seq<char>, text: Option<Seq<char>>| #[trigger]
        holds_text(message, name, text) <==> text_at(message, name) == text by {}
    assert forall|count: Option<u32>| #[trigger] holds_count(message, count) <==> count_at(message)
        == count by {}
}

/// What a message reports besides events: a bridge that fails says why, and other messages report
/// nothing. Each event comes with whether it tells the status of the kernel.
pub proof fn law_reports_are_events_or_failures(message: JsonTree, event: KernelEventView)
    ensures
        reports(message, event) ==> message_report(message) == (KernelReportView::Event {
            event,
            status: event is Status || event is Completed,
        }),
        holds_text(message, "kind"@, Some("bridgeError"@)) ==> message_report(message)
            == KernelReportView::BridgeError(
            displayed(
                match message.get("message"@) {
                    Some(text) => text,
                    None => JsonTree::Null,
                },
            ),
        ),
        (forall|e: KernelEventView| !(#[trigger] reports(message, e))) && !holds_text(
            message,
            "kind"@,
            Some("bridgeError"@),
        ) ==> message_report(message) == KernelReportView::Nothing,
{
    lemma_kinds_differ();
    law_messages_report_what_they_hold(message, event);
    if let Some(e) = event_of(message) {
        law_messages_report_what_they_hold(message, e);
        assert(reports(message, e));
    }
}

/// A line reports what the message in it reports, and nothing where it holds none.
pub proof fn law_lines_report_their_messages(line: Seq<char>)
    ensures
        match parsed(line) {
            Some(message) => line_report(line) == message_report(message),
            None => line_report(line) == KernelReportView::Nothing,
        },
{
}

/// Whether a cell is recorded at an item of the history.
pub open spec fn recorded_at(session: KernelView, cell: Seq<char>, i: int) -> bool {
    session.cells.contains_key(cell) && session.cells[cell] == i && 0 <= i < session.items.len()
}

/// As much of a text as there is room for behind an output: up to 8192, of which the output takes
/// up its bytes and the text its characters.
pub open spec fn fitting(output: Seq<char>, text: Seq<char>) -> Seq<char> {
    let bytes = encode_utf8(output).len();
    if bytes + text.len() <= 8192 {
        text
    } else if bytes < 8192 {
        text.take(8192 - bytes)
    } else {
        seq![]
    }
}

/// What a cell puts out is added to the end of its output, whatever the stream is called, as far as
/// there is room for it. Nothing else changes.
pub proof fn law_streams_are_kept(
    session: KernelView,
    cell: Seq<char>,
    i: int,
    name: Seq<char>,
    text: Seq<char>,
)
    requires
        recorded_at(session, cell, i),
    ensures
        session.after_event(KernelEventView::Stream { cell_id: Some(cell), name, text }) == (
        KernelView {
            items: session.items.update(
                i,
                KernelHistoryView {
                    output: session.items[i].output + fitting(session.items[i].output, text),
                    ..session.items[i]
                },
            ),
            ..session
        }),
        encode_utf8(session.items[i].output).len() + text.len() <= 8192 ==> session.after_event(
            KernelEventView::Stream { cell_id: Some(cell), name, text },
        ).items[i].output == session.items[i].output + text,
{
    let output = session.items[i].output;
    assert(output + Seq::<char>::empty() =~= output);
    assert(output + text.take(0) =~= output);
}

/// The text of a result is kept like that of a stream, and a result without a text changes
/// nothing, whatever else it holds.
pub proof fn law_results_are_kept(
    session: KernelView,
    cell: Seq<char>,
    i: int,
    name: Seq<char>,
    text: Seq<char>,
    execution_count: Option<u32>,
    image_png: Option<Seq<char>>,
)
    requires
        recorded_at(session, cell, i),
    ensures
        session.after_event(
            KernelEventView::Result {
                cell_id: Some(cell),
                execution_count,
                text: Some(text),
                image_png,
            },
        ) == session.after_event(KernelEventView::Stream { cell_id: Some(cell), name, text }),
        session.after_event(
            KernelEventView::Result { cell_id: Some(cell), execution_count, text: None, image_png },
        ) == session,
{
    assert(session.items.update(i, session.items[i]) =~= session.items);
}

/// An error becomes the status of its cell, by its name and its value, and a completion the status
/// that it tells. The code and the output of the cell stay, and so do all other cells.
pub proof fn law_cells_have_their_status(
    session: KernelView,
    cell: Seq<char>,
    i: int,
    name: Seq<char>,
    value: Seq<char>,
    traceback: Seq<Seq<char>>,
    execution_count: Option<u32>,
    status: Seq<char>,
)
    requires
        recorded_at(session, cell, i),
    ensures
        session.after_event(
            KernelEventView::Error { cell_id: Some(cell), name, value, traceback },
        ) == (KernelView {
            items: session.items.update(
                i,
                KernelHistoryView { status: name + ": "@ + value, ..session.items[i] },
            ),
            ..session
        }),
        session.after_event(
            KernelEventView::Completed { cell_id: Some(cell), execution_count, status },
        ) == (KernelView {
            items: session.items.update(i, KernelHistoryView { status, ..session.items[i] }),
            status: KernelStatusView { state: "idle"@, execution_count },
            ..session
        }),
{
}

/// The cell that an event speaks of.
pub open spec fn cell_of(event: KernelEventView) -> Option<Seq<char>> {
    match event {
        KernelEventView::Stream { cell_id, .. } => cell_id,
        KernelEventView::Result { cell_id, .. } => cell_id,
        KernelEventView::Error { cell_id, .. } => cell_id,
        KernelEventView::Completed { cell_id, .. } => cell_id,
        _ => None,
    }
}

/// An event that speaks of no cell, or of one that was not run, leaves the history as it was. The
/// status of the kernel is what was told last: by itself, or idle behind a completion, with the
/// number of that execution.
pub proof fn law_other_events_leave_the_history(session: KernelView, event: KernelEventView)
    requires
        match cell_of(event) {
            Some(cell) => !session.cells.contains_key(cell),
            None => true,
        },
    ensures
        session.after_event(event) == (KernelView {
            status: match event {
                KernelEventView::Status { state } => KernelStatusView { state, ..session.status },
                KernelEventView::Completed { execution_count, .. } => KernelStatusView {
                    state: "idle"@,
                    execution_count,
                },
                _ => session.status,
            },
            ..session
        }),
{
}

/// Code that is run becomes the last item of the history: with its code, its output as far as there
/// is room for it, and the status that it ends with. The items before stay as they were, and the
/// cell stands for the new item from now on, though it was run before.
pub proof fn law_a_run_is_recorded(
    session: KernelView,
    cell: Seq<char>,
    code: Seq<char>,
    name: Seq<char>,
    text: Seq<char>,
    execution_count: Option<u32>,
    status: Seq<char>,
)
    requires
        session.items.len() < usize::MAX,
        text.len() <= 8192,
    ensures
        ({
            let run = session.after_command(
                Some(KernelCommandView::Execute { cell_id: cell, code }),
            );
            let heard = run.after_event(
                KernelEventView::Stream { cell_id: Some(cell), name, text },
            );
            let done = heard.after_event(
                KernelEventView::Completed { cell_id: Some(cell), execution_count, status },
            );
            &&& run.items == session.items.push(
                KernelHistoryView { code, output: seq![], status: "running"@ },
            )
            &&& heard.items == session.items.push(
                KernelHistoryView { code, output: text, status: "running"@ },
            )
            &&& done.items == session.items.push(KernelHistoryView { code, output: text, status })
            &&& done.status == (KernelStatusView { state: "idle"@, execution_count })
            &&& recorded_at(done, cell, session.items.len() as int)
            &&& forall|other: Seq<char>|
                other != cell ==> {
                    &&& #[trigger] done.cells.contains_key(other) == session.cells.contains_key(
                        other,
                    )
                    &&& done.cells[other] == session.cells[other]
                }
        }),
{
    let i = session.items.len() as int;
    let run = session.after_command(Some(KernelCommandView::Execute { cell_id: cell, code }));
    assert(encode_utf8(Seq::<char>::empty()).len() == 0) by {
        reveal_with_fuel(encode_utf8, 2);
    }
    law_streams_are_kept(run, cell, i, name, text);
    let heard = run.after_event(KernelEventView::Stream { cell_id: Some(cell), name, text });
    assert(Seq::<char>::empty() + text =~= text);
    law_cells_have_their_status(
        heard,
        cell,
        i,
        seq![],
        seq![],
        seq![],
        execution_count,
        status,
    );
    let done = heard.after_event(
        KernelEventView::Completed { cell_id: Some(cell), execution_count, status },
    );
    assert(heard.items =~= session.items.push(
        KernelHistoryView { code, output: text, status: "running"@ },
    ));
    assert(done.items =~= session.items.push(KernelHistoryView { code, output: text, status }));
}

/// Requests that run no code leave the session as it was.
pub proof fn law_only_code_is_recorded(session: KernelView, command: Option<KernelCommandView>)
    requires
        !(command matches Some(KernelCommandView::Execute { .. })),
    ensures
        session.after_command(command) == session,
{
}

proof fn lemma_names_differ()
    ensures
        "type"@ != "cellId"@,
        "type"@ != "code"@,
        "cellId"@ != "code"@,
        "type"@ != "requestId"@,
        "type"@ != "value"@,
        "requestId"@ != "value"@,
{
    reveal_strlit("type");
    reveal_strlit("cellId");
    reveal_strlit("code");
    reveal_strlit("requestId");
    reveal_strlit("value");
    assert("type"@.len() == 4);
    assert("cellId"@.len() == 6);
    assert("code"@.len() == 4);
    assert("requestId"@.len() == 9);
    assert("value"@.len() == 5);
    assert("type"@[0] != "code"@[0]);
}

/// What is asked of the kernel is passed on as it was asked: code with its cell, and the answer to
/// a question with the question. Where there are no more requests, the bridge is told to stop.
pub proof fn law_requests_are_passed_on(
    cell_id: Seq<char>,
    code: Seq<char>,
    request_id: Seq<char>,
    value: Seq<char>,
)
    ensures
        ({
            let message = command_message(Some(KernelCommandView::Execute { cell_id, code }));
            &&& message.get("type"@) == Some(JsonTree::Text("execute"@))
            &&& message.get("cellId"@) == Some(JsonTree::Text(cell_id))
            &&& message.get("code"@) == Some(JsonTree::Text(code))
        }),
        ({
            let message = command_message(
                Some(KernelCommandView::InputReply { request_id, value }),
            );
            &&& message.get("type"@) == Some(JsonTree::Text("inputReply"@))
            &&& message.get("requestId"@) == Some(JsonTree::Text(request_id))
            &&& message.get("value"@) == Some(JsonTree::Text(value))
        }),
        command_message(Some(KernelCommandView::Interrupt)).get("type"@) == Some(
            JsonTree::Text("interrupt"@),
        ),
        command_message(Some(KernelCommandView::Stop)).get("type"@) == Some(
            JsonTree::Text("stop"@),
        ),
        command_message(None).get("type"@) == Some(JsonTree::Text("stop"@)),
{
    lemma_names_differ();
}

/// A conversation begins with a kernel that is starting, and nothing was run.
pub proof fn law_nothing_was_run_at_first()
    ensures
        KernelView::start().items.len() == 0,
        KernelView::start().cells == Map::<Seq<char>, usize>::empty(),
        KernelView::start().status == (KernelStatusView {
            state: "starting"@,
            execution_count: None,
        }),
{
}

} // verus!
