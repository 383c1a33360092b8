use kuebiko::codex::CodexCommand;
use kuebiko::debugger::DebuggerCommand;
use kuebiko::json::Json;
use kuebiko::kernel::KernelCommand;
use kuebiko::protocol::{
    AuthState, ClientMessage, CodexEvent, DebuggerSnapshot, KernelStatus, LabConfig, ServerMessage,
};
use kuebiko::server::{
    check_access, deliver, error_message, forward_codex, full_state, hex_text, pty_frame,
    pty_input, random_token, receive, replay_frame, route, saved_lab, stop_actions, tutor_context,
    Access, Delivery, Feed, Forward, Incoming, RequestError, Response, Route, RunningLab,
    StopAction,
};
use kuebiko::store::Store;

fn config() -> LabConfig {
    LabConfig {
        workspace: "/lab".to_string(),
        program: "/lab/a.out".to_string(),
        args: vec!["1".to_string(), "2".to_string()],
        debugger: "gdb".to_string(),
        python: "python3".to_string(),
        objective: "x".to_string(),
    }
}

#[test]
fn bytes_are_written_in_hexadecimal() {
    assert_eq!(hex_text(&[0, 9, 10, 127, 255]), "00090a7fff");
}

#[test]
fn tokens_are_random() {
    let token = random_token();
    assert_eq!(token.len(), 48);
    assert!(token.bytes().all(|b| b.is_ascii_digit() || (b'a'..=b'f').contains(&b)));
    assert_ne!(token, random_token());
}

#[test]
fn a_client_needs_the_token_and_an_origin_of_its_own() {
    assert_eq!(check_access("t", "t", None, 7878), Access::Granted);
    assert_eq!(check_access("t", "x", None, 7878), Access::Unauthorized);
    assert_eq!(check_access("t", "x", Some("http://127.0.0.1:7878"), 7878), Access::Unauthorized);
    for origin in ["http://127.0.0.1:7878", "http://localhost:7878", "http://127.0.0.1:5173"] {
        assert_eq!(check_access("t", "t", Some(origin), 7878), Access::Granted, "{origin}");
    }
    for origin in ["http://127.0.0.1:787", "https://localhost:7878", "http://localhost:5173", ""] {
        assert_eq!(check_access("t", "t", Some(origin), 7878), Access::Forbidden, "{origin}");
    }
}

#[test]
fn frames_give_back_their_bytes() {
    assert_eq!(pty_frame(b"ab"), [1, b'a', b'b']);
    assert_eq!(pty_input(&pty_frame(b"ab")), Some(b"ab".to_vec()));
    assert_eq!(pty_input(&[1]), Some(vec![]));
    assert_eq!(pty_input(&[]), None);
    assert_eq!(pty_input(&[2, 1]), None);
    assert_eq!(replay_frame(b""), None);
    assert_eq!(replay_frame(b"x"), Some(vec![1, b'x']));
}

#[test]
fn requests_about_a_lab_are_refused_without_one() {
    let requests = || {
        vec![
            ClientMessage::TerminalResize { cols: 80, rows: 24 },
            ClientMessage::DebuggerRefresh,
            ClientMessage::KernelExecute { cell_id: "c".to_string(), code: "1".to_string() },
            ClientMessage::KernelInterrupt,
            ClientMessage::KernelRestart,
            ClientMessage::KernelInputReply { request_id: "r".to_string(), value: "v".to_string() },
            ClientMessage::CodexSend { text: "hi".to_string() },
            ClientMessage::GenerateWriteup,
        ]
    };
    for request in requests() {
        assert!(matches!(route(request, false), Err(RequestError::NoLab)));
    }
    assert_eq!(RequestError::NoLab.message(), "no active lab");
    let mut routes = requests().into_iter().map(|request| route(request, true).unwrap());
    assert!(matches!(
        routes.next(),
        Some(Route::Debugger(DebuggerCommand::Resize { cols: 80, rows: 24 }))
    ));
    assert!(matches!(routes.next(), Some(Route::Debugger(DebuggerCommand::Refresh))));
    assert!(matches!(
        routes.next(),
        Some(Route::Kernel(KernelCommand::Execute { cell_id, code })) if cell_id == "c" && code == "1"
    ));
    assert!(matches!(routes.next(), Some(Route::Kernel(KernelCommand::Interrupt))));
    assert!(matches!(routes.next(), Some(Route::RestartKernel)));
    assert!(matches!(
        routes.next(),
        Some(Route::Kernel(KernelCommand::InputReply { request_id, value }))
            if request_id == "r" && value == "v"
    ));
    assert!(matches!(routes.next(), Some(Route::Ask(text)) if text == "hi"));
    assert!(matches!(routes.next(), Some(Route::Writeup)));
}

#[test]
fn other_requests_need_no_lab() {
    for running in [false, true] {
        assert!(matches!(
            route(ClientMessage::LabStart(config()), running),
            Ok(Route::Start(c)) if c == config()
        ));
        assert!(matches!(
            route(ClientMessage::LabResume { lab_id: "a".to_string() }, running),
            Ok(Route::Resume(id)) if id == "a"
        ));
        assert!(matches!(route(ClientMessage::LabStop, running), Ok(Route::Stop)));
        assert!(matches!(
            route(ClientMessage::CodexInterrupt, running),
            Ok(Route::Tutor(CodexCommand::Interrupt))
        ));
        assert!(matches!(
            route(ClientMessage::CodexNewThread, running),
            Ok(Route::Tutor(CodexCommand::NewThread))
        ));
        assert!(matches!(
            route(ClientMessage::AuthLogin, running),
            Ok(Route::Tutor(CodexCommand::Login))
        ));
    }
}

#[test]
fn a_saved_lab_is_found_or_refused() {
    let mut store = Store::new();
    store.put("a".to_string(), config(), Some("t".to_string()), 1);
    assert_eq!(saved_lab(&store, "a").unwrap().thread_id.as_deref(), Some("t"));
    assert!(matches!(saved_lab(&store, "b"), Err(RequestError::LabNotFound)));
    assert_eq!(RequestError::LabNotFound.message(), "saved lab not found");
}

#[test]
fn what_a_client_sends_is_told_apart() {
    assert!(matches!(
        receive(Incoming::Text(Ok(ClientMessage::LabStop))),
        Response::Handle(ClientMessage::LabStop)
    ));
    assert!(matches!(
        receive(Incoming::Text(Err("bad".to_string()))),
        Response::Report(ServerMessage::Error { scope, message }) if scope == "protocol" && message == "bad"
    ));
    assert!(matches!(
        receive(Incoming::Binary(vec![1, 5])),
        Response::Type(DebuggerCommand::Input(data)) if data == [5]
    ));
    assert!(matches!(receive(Incoming::Binary(vec![2, 5])), Response::Ignore));
    assert!(matches!(receive(Incoming::Closed), Response::Leave));
    assert!(matches!(receive(Incoming::Other), Response::Ignore));
    assert!(matches!(
        error_message("command", "x".to_string()),
        ServerMessage::Error { scope, message } if scope == "command" && message == "x"
    ));
}

#[test]
fn a_slow_client_is_shown_everything_anew() {
    assert!(matches!(
        deliver(Feed::Message(ServerMessage::AuthState(AuthState::default()))),
        Delivery::Send(ServerMessage::AuthState(_))
    ));
    assert!(matches!(deliver(Feed::Lagged), Delivery::SendAll));
    assert!(matches!(deliver(Feed::Closed), Delivery::Leave));
}

#[test]
fn a_client_is_shown_the_lab() {
    let idle = full_state(None, AuthState::default(), vec![]);
    assert_eq!(idle.lab.phase, "idle");
    assert_eq!(idle.lab.lab_id, None);
    assert_eq!(idle.debugger.state, "");
    let lab = RunningLab {
        id: "a".to_string(),
        config: config(),
        debugger: DebuggerSnapshot { revision: 7, ..DebuggerSnapshot::default() },
        kernel: KernelStatus { state: "idle".to_string(), execution_count: Some(2) },
    };
    let shown = full_state(Some(lab), AuthState::default(), vec![]);
    assert_eq!(shown.lab.phase, "running");
    assert_eq!(shown.lab.lab_id.as_deref(), Some("a"));
    assert_eq!(shown.lab.config, Some(config()));
    assert_eq!(shown.debugger.revision, 7);
    assert_eq!(shown.kernel.execution_count, Some(2));
}

#[test]
fn a_lab_is_stopped_kernel_first() {
    assert!(stop_actions(false).is_empty());
    let actions = stop_actions(true);
    assert!(matches!(actions[0], StopAction::StopKernel(KernelCommand::Stop)));
    assert!(matches!(actions[1], StopAction::StopDebugger(DebuggerCommand::Stop)));
    assert!(matches!(
        &actions[2],
        StopAction::Announce(ServerMessage::LabStatus(status)) if status.phase == "idle"
    ));
    assert_eq!(actions.len(), 3);
}

#[test]
fn a_new_thread_is_saved_with_its_lab() {
    let thread = || CodexEvent::Thread { thread_id: "t".to_string() };
    let forwards =
        forward_codex(thread(), Some(("a".to_string(), config())), AuthState::default());
    assert!(matches!(
        &forwards[0],
        Forward::Save { id, config: saved, thread_id: Some(thread_id) }
            if id == "a" && *saved == config() && thread_id == "t"
    ));
    assert!(matches!(&forwards[1], Forward::Send(ServerMessage::CodexEvent(CodexEvent::Thread { .. }))));
    assert!(matches!(&forwards[2], Forward::Send(ServerMessage::AuthState(_))));
    assert_eq!(forward_codex(thread(), None, AuthState::default()).len(), 2);
    let notice = CodexEvent::Notice { text: "x".to_string() };
    let lab = Some(("a".to_string(), config()));
    assert_eq!(forward_codex(notice, lab, AuthState::default()).len(), 2);
}

#[test]
fn the_tutor_is_told_of_the_lab() {
    let context = tutor_context(
        &config(),
        Json::object().with("state", Json::text("stopped")),
        "pwndbg> ",
        Json::Array(vec![]),
    );
    assert_eq!(
        context.show(),
        r#"{"debugger":{"state":"stopped"},"debuggerTerminal":{"format":"plain text with ANSI/control sequences removed","tail":"pwndbg> "},"ipython":[],"objective":"x","target":{"args":["1","2"],"program":"/lab/a.out","workspace":"/lab"}}"#
    );
}
