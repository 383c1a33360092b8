use kuebiko::json::Json;
use kuebiko::kernel::{
    context_history, parse, KernelCommand, KernelHistory, KernelReport, KernelSession,
    OUTPUT_LIMIT,
};
use kuebiko::protocol::KernelEvent;

fn event(text: &str) -> Option<KernelEvent> {
    parse(&Json::parse(text).unwrap())
}

fn execute(session: &mut KernelSession, cell: &str, code: &str) -> String {
    let dispatch = session.handle_command(Some(KernelCommand::Execute {
        cell_id: cell.to_string(),
        code: code.to_string(),
    }));
    assert!(dispatch.recorded && !dispatch.end);
    dispatch.message.show()
}

#[test]
fn each_kind_of_event_is_read() {
    assert!(matches!(
        event(r#"{"kind":"status","state":"busy"}"#),
        Some(KernelEvent::Status { state }) if state == "busy"
    ));
    assert!(matches!(
        event(r#"{"kind":"started","cellId":"c","requestId":"r"}"#),
        Some(KernelEvent::Started { cell_id, request_id }) if cell_id == "c" && request_id == "r"
    ));
    assert!(matches!(
        event(r#"{"kind":"stream","cellId":null,"name":"stdout","text":"x"}"#),
        Some(KernelEvent::Stream { cell_id: None, name, text }) if name == "stdout" && text == "x"
    ));
    assert!(matches!(
        event(r#"{"kind":"result","cellId":"c","executionCount":3,"text":"1","imagePng":"p"}"#),
        Some(KernelEvent::Result { cell_id: Some(c), execution_count: Some(3), text: Some(t), image_png: Some(p) })
            if c == "c" && t == "1" && p == "p"
    ));
    assert!(matches!(
        event(r#"{"kind":"result"}"#),
        Some(KernelEvent::Result { cell_id: None, execution_count: None, text: None, image_png: None })
    ));
    assert!(matches!(
        event(r#"{"kind":"error","name":"E","value":"v","traceback":["a",1,"b"]}"#),
        Some(KernelEvent::Error { cell_id: None, name, value, traceback })
            if name == "E" && value == "v" && traceback == ["a", "b"]
    ));
    assert!(matches!(
        event(r#"{"kind":"inputRequest","requestId":"r","prompt":"p","password":true}"#),
        Some(KernelEvent::InputRequest { request_id, prompt, password: true })
            if request_id == "r" && prompt == "p"
    ));
    assert!(matches!(
        event(r#"{"kind":"inputRequest","requestId":"r","prompt":"p"}"#),
        Some(KernelEvent::InputRequest { password: false, .. })
    ));
    assert!(matches!(
        event(r#"{"kind":"completed","cellId":"c","executionCount":4294967296,"status":"ok"}"#),
        Some(KernelEvent::Completed { cell_id: Some(_), execution_count: None, status }) if status == "ok"
    ));
}

#[test]
fn messages_that_lack_something_report_no_event() {
    for text in [
        "[]",
        "{}",
        r#"{"kind":1}"#,
        r#"{"kind":"bridgeError","message":"x"}"#,
        r#"{"kind":"status"}"#,
        r#"{"kind":"started","cellId":"c"}"#,
        r#"{"kind":"stream","name":"stdout"}"#,
        r#"{"kind":"error","name":"E","value":"v"}"#,
        r#"{"kind":"error","name":"E","value":"v","traceback":"t"}"#,
        r#"{"kind":"error","value":"v","traceback":[]}"#,
        r#"{"kind":"inputRequest","prompt":"p"}"#,
        r#"{"kind":"completed"}"#,
    ] {
        assert!(event(text).is_none(), "{text}");
    }
}

#[test]
fn requests_are_passed_on_as_messages() {
    let mut session = KernelSession::new();
    assert_eq!(session.status.state, "starting");
    assert_eq!(
        execute(&mut session, "c", "1+1"),
        r#"{"cellId":"c","code":"1+1","type":"execute"}"#
    );
    let reply = session.handle_command(Some(KernelCommand::InputReply {
        request_id: "r".to_string(),
        value: "v".to_string(),
    }));
    assert_eq!(reply.message.show(), r#"{"requestId":"r","type":"inputReply","value":"v"}"#);
    assert!(!reply.recorded && !reply.end);
    let interrupt = session.handle_command(Some(KernelCommand::Interrupt));
    assert_eq!(interrupt.message.show(), r#"{"type":"interrupt"}"#);
    assert!(!interrupt.end);
    for command in [Some(KernelCommand::Stop), None] {
        let stop = session.handle_command(command);
        assert_eq!(stop.message.show(), r#"{"type":"stop"}"#);
        assert!(stop.end);
    }
    assert_eq!(session.items.len(), 1);
}

#[test]
fn events_are_recorded_with_their_cells() {
    let mut session = KernelSession::new();
    execute(&mut session, "a", "first");
    execute(&mut session, "b", "second");
    assert!(matches!(
        session.handle_line(r#"{"kind":"stream","cellId":"a","name":"stdout","text":"out"}"#),
        KernelReport::Event { event: KernelEvent::Stream { .. }, status: false }
    ));
    session.handle_line(r#"{"kind":"result","cellId":"a","text":"put"}"#);
    session.handle_line(r#"{"kind":"error","cellId":"b","name":"E","value":"v","traceback":[]}"#);
    session.handle_line(r#"{"kind":"stream","cellId":"x","name":"stdout","text":"lost"}"#);
    session.handle_line(r#"{"kind":"stream","name":"stdout","text":"lost"}"#);
    assert!(matches!(session.handle_line("not json"), KernelReport::Nothing));
    assert!(matches!(session.handle_line("{}"), KernelReport::Nothing));
    assert_eq!(session.items[0].output, "output");
    assert_eq!(session.items[0].status, "running");
    assert_eq!(session.items[1].output, "");
    assert_eq!(session.items[1].status, "E: v");
    session.handle_line(r#"{"kind":"completed","cellId":"a","executionCount":5,"status":"ok"}"#);
    assert_eq!(session.items[0].status, "ok");
    assert_eq!((session.status.state.as_str(), session.status.execution_count), ("idle", Some(5)));
    session.handle_line(r#"{"kind":"status","state":"busy"}"#);
    assert_eq!((session.status.state.as_str(), session.status.execution_count), ("busy", Some(5)));
    execute(&mut session, "a", "third");
    session.handle_line(r#"{"kind":"stream","cellId":"a","name":"stdout","text":"x"}"#);
    assert_eq!(session.items[0].output, "output");
    assert_eq!(session.items[2].output, "x");
    session.handle_exit();
    assert_eq!((session.status.state.as_str(), session.status.execution_count), ("dead", None));
}

#[test]
fn a_failing_bridge_says_why() {
    let mut session = KernelSession::new();
    for (line, text) in [
        (r#"{"kind":"bridgeError","message":"no kernel"}"#, "\"no kernel\""),
        (r#"{"kind":"bridgeError","message":{"a":1}}"#, "{\"a\":1}"),
        (r#"{"kind":"bridgeError"}"#, "null"),
    ] {
        assert!(
            matches!(session.handle_line(line), KernelReport::BridgeError(shown) if shown == text),
            "{line}"
        );
    }
    assert_eq!(session.status.state, "starting");
}

#[test]
fn the_status_is_published_where_it_is_told() {
    let mut session = KernelSession::new();
    for (line, told) in [
        (r#"{"kind":"status","state":"busy"}"#, true),
        (r#"{"kind":"completed","cellId":"c","status":"ok"}"#, true),
        (r#"{"kind":"started","cellId":"c","requestId":"r"}"#, false),
        (r#"{"kind":"result","cellId":"c"}"#, false),
        (r#"{"kind":"error","name":"E","value":"v","traceback":[]}"#, false),
    ] {
        let before = session.status.state.clone();
        match session.handle_line(line) {
            KernelReport::Event { status, .. } => assert_eq!(status, told, "{line}"),
            other => panic!("{line}: {other:?}"),
        }
        assert!(told || session.status.state == before, "{line}");
    }
    assert_eq!(session.status.state, "idle");
}

#[test]
fn output_is_kept_up_to_its_limit() {
    assert_eq!(OUTPUT_LIMIT, 8192);
    let mut session = KernelSession::new();
    execute(&mut session, "a", "x");
    let stream = |text: String| KernelEvent::Stream {
        cell_id: Some("a".to_string()),
        name: "stdout".to_string(),
        text,
    };
    session.handle_event(&stream("é".repeat(4000)));
    assert_eq!(session.items[0].output.chars().count(), 4000);
    session.handle_event(&stream("b".repeat(1000)));
    assert_eq!(session.items[0].output.len(), 8192);
    session.handle_event(&stream("c".to_string()));
    assert_eq!(session.items[0].output.len(), 8192);
    assert!(!session.items[0].output.contains('c'));
}

#[test]
fn the_last_items_of_a_history_are_its_end() {
    let items: Vec<KernelHistory> = (0..5)
        .map(|i| KernelHistory {
            code: i.to_string(),
            output: String::new(),
            status: "ok".to_string(),
        })
        .collect();
    let codes = |limit| -> Vec<String> {
        context_history(&items, limit).into_iter().map(|item| item.code).collect()
    };
    assert_eq!(codes(2), ["3", "4"]);
    assert_eq!(codes(0), Vec::<String>::new());
    assert_eq!(codes(9).len(), 5);
}
