//! What holds of the server: who may connect, where requests go, and what clients and the tutor are
//! shown.

use crate::codex::CodexCommand;
use crate::debugger::DebuggerCommand;
use crate::json::JsonTree;
use crate::kernel::KernelCommand;
use crate::protocol::{ClientMessage, LabConfigView, LabStatusView};
use crate::server::{
    access_of, destination, framed, hex, hex_digit, idle_status, law_hex_holds_digits_alone,
    needs_lab, observed, request_error_text, running_status, starting_status, unframed, Access,
    RequestError, Route,
};
use crate::text::decimal;
use vstd::prelude::*;

verus! {

/// Whether an origin is one that the server itself serves, at its port under either of its names,
/// or the one at which its pages are developed.
pub open spec fn is_own_origin(origin: Seq<char>, port: u16) -> bool {
    ||| origin == "http://127.0.0.1:"@ + decimal(port as nat)
    ||| origin == "http://localhost:"@ + decimal(port as nat)
    ||| origin == "http://127.0.0.1:5173"@
}

/// A client may connect if and only if it shows the token and comes from nowhere else. One that
/// shows another token is told that first.
pub proof fn law_access_needs_the_token_and_the_origin(
    expected: Seq<char>,
    token: Seq<char>,
    origin: Option<Seq<char>>,
    port: u16,
)
    ensures
        access_of(expected, token, origin, port) == Access::Granted <==> token == expected && (
        origin matches Some(origin) ==> is_own_origin(origin, port)),
        access_of(expected, token, origin, port) == Access::Unauthorized <==> token != expected,
        access_of(expected, token, origin, port) == Access::Forbidden <==> token == expected && (
        origin matches Some(origin) && !is_own_origin(origin, port)),
{
}

/// The value of a hexadecimal digit in lower case.
pub open spec fn digit_value(c: char) -> int {
    if '0' <= c <= '9' {
        c as int - '0' as int
    } else {
        c as int - 'a' as int + 10
    }
}

/// Each byte is written with two hexadecimal digits, of which the first counts sixteenfold, in the
/// order of the bytes.
pub proof fn law_hex_digits_make_up_the_bytes(bytes: Seq<u8>, i: int)
    requires
        0 <= i < bytes.len(),
    ensures
        hex(bytes).len() == 2 * bytes.len(),
        16 * digit_value(hex(bytes)[2 * i]) + digit_value(hex(bytes)[2 * i + 1]) == bytes[i],
        0 <= digit_value(hex(bytes)[2 * i]) < 16,
        0 <= digit_value(hex(bytes)[2 * i + 1]) < 16,
    decreases bytes.len(),
{
    let front = bytes.drop_last();
    law_hex_holds_digits_alone(bytes);
    law_hex_holds_digits_alone(front);
    if i < front.len() {
        law_hex_digits_make_up_the_bytes(front, i);
        assert(hex(bytes)[2 * i] == hex(front)[2 * i]);
        assert(hex(bytes)[2 * i + 1] == hex(front)[2 * i + 1]);
    } else {
        assert(hex(bytes)[2 * i] == hex_digit((bytes[i] / 16) as nat));
        assert(hex(bytes)[2 * i + 1] == hex_digit((bytes[i] % 16) as nat));
    }
}

/// A frame with bytes of the terminal begins with a one, and the bytes follow. Frames that begin
/// otherwise hold none.
pub proof fn law_frames_begin_with_their_channel(data: Seq<u8>, first: u8)
    ensures
        framed(data) == seq![1u8] + data,
        unframed(seq![1u8] + data) == Some(data),
        first != 1 ==> unframed(seq![first] + data) is None,
        unframed(seq![]) is None,
{
    assert((seq![1u8] + data).skip(1) =~= data);
}

/// A request goes where it belongs, with all that it holds: those about the program to the
/// debugger, those about code to the kernel, and those about the conversation to the tutor.
pub proof fn law_requests_go_where_they_belong(message: ClientMessage)
    ensures
        match message {
            ClientMessage::LabStart(config) => destination(message) == Route::Start(config),
            ClientMessage::LabResume { lab_id } => destination(message) == Route::Resume(lab_id),
            ClientMessage::LabStop => destination(message) == Route::Stop,
            ClientMessage::TerminalResize { cols, rows } => destination(message)
                == Route::Debugger(DebuggerCommand::Resize { cols, rows }),
            ClientMessage::DebuggerRefresh => destination(message) == Route::Debugger(
                DebuggerCommand::Refresh,
            ),
            ClientMessage::KernelExecute { cell_id, code } => destination(message)
                == Route::Kernel(KernelCommand::Execute { cell_id, code }),
            ClientMessage::KernelInterrupt => destination(message) == Route::Kernel(
                KernelCommand::Interrupt,
            ),
            ClientMessage::KernelRestart => destination(message) == Route::RestartKernel,
            ClientMessage::KernelInputReply { request_id, value } => destination(message)
                == Route::Kernel(KernelCommand::InputReply { request_id, value }),
            ClientMessage::CodexSend { text } => destination(message) == Route::Ask(text),
            ClientMessage::GenerateWriteup => destination(message) == Route::Writeup,
            ClientMessage::CodexInterrupt => destination(message) == Route::Tutor(
                CodexCommand::Interrupt,
            ),
            ClientMessage::CodexNewThread => destination(message) == Route::Tutor(
                CodexCommand::NewThread,
            ),
            ClientMessage::AuthLogin => destination(message) == Route::Tutor(CodexCommand::Login),
        },
        needs_lab(message) <==> {
            ||| destination(message) is Debugger
            ||| destination(message) is Kernel
            ||| destination(message) is RestartKernel
            ||| destination(message) is Ask
            ||| destination(message) is Writeup
        },
{
}

/// What is said of a request that is refused.
pub proof fn law_refused_requests_are_told_why()
    ensures
        request_error_text(RequestError::NoLab) == "no active lab"@,
        request_error_text(RequestError::LabNotFound) == "saved lab not found"@,
        request_error_text(RequestError::LabGone) == "lab stopped during restart"@,
{
}

/// The status of a lab tells its phase, its configuration from when it starts, and its identifier
/// while it runs.
pub proof fn law_statuses_tell_the_phase(id: Seq<char>, config: LabConfigView)
    ensures
        idle_status() == (LabStatusView {
            phase: "idle"@,
            lab_id: None,
            config: None,
            message: None,
        }),
        starting_status(config) == (LabStatusView {
            phase: "starting"@,
            lab_id: None,
            config: Some(config),
            message: None,
        }),
        running_status(id, config) == (LabStatusView {
            phase: "running"@,
            lab_id: Some(id),
            config: Some(config),
            message: None,
        }),
{
}

proof fn lemma_observed_names_differ()
    ensures
        "objective"@ != "target"@,
        "objective"@ != "debugger"@,
        "objective"@ != "debuggerTerminal"@,
        "objective"@ != "ipython"@,
        "target"@ != "debugger"@,
        "target"@ != "debuggerTerminal"@,
        "target"@ != "ipython"@,
        "debugger"@ != "debuggerTerminal"@,
        "debugger"@ != "ipython"@,
        "debuggerTerminal"@ != "ipython"@,
{
    reveal_strlit("objective");
    reveal_strlit("target");
    reveal_strlit("debugger");
    reveal_strlit("debuggerTerminal");
    reveal_strlit("ipython");
    assert("objective"@.len() == 9);
    assert("target"@.len() == 6);
    assert("debugger"@.len() == 8);
    assert("debuggerTerminal"@.len() == 16);
    assert("ipython"@.len() == 7);
}

proof fn lemma_target_names_differ()
    ensures
        "workspace"@ != "program"@,
        "workspace"@ != "args"@,
        "program"@ != "args"@,
        "format"@ != "tail"@,
{
    reveal_strlit("workspace");
    reveal_strlit("program");
    reveal_strlit("args");
    reveal_strlit("format");
    reveal_strlit("tail");
    assert("workspace"@.len() == 9);
    assert("program"@.len() == 7);
    assert("args"@.len() == 4);
    assert("format"@.len() == 6);
    assert("tail"@.len() == 4);
}


/// The tutor is shown the lab as it is: what the learner wants, the program with its arguments in
/// their order, what is known of it, what the terminal shows, and what was run.
pub proof fn law_the_tutor_sees_the_lab(
    config: LabConfigView,
    debugger: JsonTree,
    terminal: Seq<char>,
    kernel: JsonTree,
)
    ensures
        ({
            let context = observed(config, debugger, terminal, kernel);
            &&& context.get("objective"@) == Some(JsonTree::Text(config.objective))
            &&& context.get2("target"@, "workspace"@) == Some(JsonTree::Text(config.workspace))
            &&& context.get2("target"@, "program"@) == Some(JsonTree::Text(config.program))
            &&& context.get2("target"@, "args"@) matches Some(JsonTree::Array(args)) && {
                &&& args.len() == config.args.len()
                &&& forall|i: int|
                    0 <= i < args.len() ==> #[trigger] args[i] == JsonTree::Text(config.args[i])
            }
            &&& context.get("debugger"@) == Some(debugger)
            &&& context.get2("debuggerTerminal"@, "format"@) == Some(
                JsonTree::Text("plain text with ANSI/control sequences removed"@),
            )
            &&& context.get2("debuggerTerminal"@, "tail"@) == Some(JsonTree::Text(terminal))
            &&& context.get("ipython"@) == Some(kernel)
        }),
{
    lemma_observed_names_differ();
    lemma_target_names_differ();
}

} // verus!
