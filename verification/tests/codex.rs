use kuebiko::codex::{
    exit_actions, CodexAction, CodexCommand, CodexSession, TurnPurpose, TUTOR_INSTRUCTIONS,
};
use kuebiko::json::Json;
use kuebiko::protocol::CodexEvent;

fn shown(actions: Vec<CodexAction>) -> Vec<String> {
    actions
        .into_iter()
        .map(|action| match action {
            CodexAction::Write(message) => message.show(),
            CodexAction::Emit(event) => format!("{event:?}"),
            CodexAction::Account(auth) => {
                format!("{} {:?} {:?}", auth.authenticated, auth.mode, auth.plan)
            }
            CodexAction::Decline(method) => format!("declined {method}"),
            CodexAction::End => "end".to_string(),
        })
        .collect()
}

fn hear(session: &mut CodexSession, line: &str) -> Vec<CodexAction> {
    session.handle_line(line).unwrap()
}

fn started() -> CodexSession {
    CodexSession::start("0.1.0").0
}

fn with_thread() -> CodexSession {
    let mut session = started();
    session.handle_command(Some(CodexCommand::NewThread));
    hear(&mut session, r#"{"id":3,"result":{"thread":{"id":"t1"}}}"#);
    assert_eq!(session.thread_id.as_deref(), Some("t1"));
    session
}

fn send(session: &mut CodexSession, text: &str, purpose: TurnPurpose) -> Vec<String> {
    shown(session.handle_command(Some(CodexCommand::Send {
        text: text.to_string(),
        context: Json::object().with("a", Json::number(1)),
        purpose,
    })))
}

#[test]
fn the_conversation_opens_with_who_is_talking() {
    let (session, actions) = CodexSession::start("0.1.0");
    assert_eq!(
        shown(actions),
        [
            r#"{"id":1,"method":"initialize","params":{"clientInfo":{"name":"kuebiko","title":"Kuebiko","version":"0.1.0"}}}"#,
            r#"{"method":"initialized","params":{}}"#,
            r#"{"id":2,"method":"account/read","params":{"refreshToken":false}}"#,
        ]
    );
    assert_eq!(session.next_id, 3);
    assert!(session.has_room());
}

#[test]
fn a_lab_is_configured_with_a_new_thread() {
    let mut session = started();
    let actions = session.handle_command(Some(CodexCommand::Configure {
        cwd: "/lab".to_string(),
        objective: "pop a shell".to_string(),
        resume_thread: None,
    }));
    let instructions =
        format!("{TUTOR_INSTRUCTIONS}\n\nThe learner's objective is: pop a shell");
    let expected = Json::object()
        .with("method", Json::text("thread/start"))
        .with("id", Json::number(3))
        .with(
            "params",
            Json::object()
                .with("cwd", Json::text("/lab"))
                .with("developerInstructions", Json::text(&instructions))
                .with("sandbox", Json::text("read-only"))
                .with("approvalPolicy", Json::text("never"))
                .with("personality", Json::text("friendly")),
        );
    assert_eq!(shown(actions), [expected.show()]);
    assert!(TUTOR_INSTRUCTIONS.starts_with("You are a patient binary-exploitation"));
    assert!(TUTOR_INSTRUCTIONS.ends_with("embedded within it."));
}

#[test]
fn a_saved_thread_is_resumed() {
    let mut session = started();
    let actions = session.handle_command(Some(CodexCommand::Configure {
        cwd: "/lab".to_string(),
        objective: "x".to_string(),
        resume_thread: Some("old".to_string()),
    }));
    assert_eq!(
        shown(actions),
        [r#"{"id":3,"method":"thread/resume","params":{"threadId":"old"}}"#]
    );
    let actions = hear(&mut session, r#"{"id":3,"result":{"thread":{"id":"old"}}}"#);
    assert_eq!(shown(actions), [r#"Thread { thread_id: "old" }"#]);
    assert_eq!(session.thread_id.as_deref(), Some("old"));
}

#[test]
fn a_text_is_sent_with_what_was_observed() {
    let mut session = with_thread();
    let actions = send(&mut session, "help", TurnPurpose::Tutor);
    assert_eq!(
        actions,
        [
            r#"User { text: "help" }"#.to_string(),
            r#"{"id":4,"method":"turn/start","params":{"approvalPolicy":"never","cwd":"","input":[{"text":"help\n\n<kuebiko_context version=\"1\">\n{\n  \"a\": 1\n}\n</kuebiko_context>","type":"text"}],"sandboxPolicy":{"type":"readOnly"},"threadId":"t1"}}"#
                .to_string(),
        ]
    );
}

#[test]
fn a_text_without_a_thread_is_to_be_sent_again() {
    let mut session = started();
    let actions = send(&mut session, "help", TurnPurpose::Tutor);
    assert_eq!(actions.len(), 3);
    assert_eq!(actions[0], r#"User { text: "help" }"#);
    assert!(actions[1].contains(r#""method":"thread/start""#));
    assert_eq!(
        actions[2],
        r#"Notice { text: "Codex thread is still starting; try again in a moment." }"#
    );
    let actions = send(&mut session, "write", TurnPurpose::Writeup);
    assert_eq!(actions.len(), 4);
    assert_eq!(actions[0], "WriteupStarted");
    assert_eq!(actions[3], r#"WriteupCompleted { status: "thread-starting" }"#);
}

#[test]
fn a_busy_tutor_is_not_disturbed() {
    let mut session = with_thread();
    send(&mut session, "first", TurnPurpose::Tutor);
    hear(&mut session, r#"{"method":"turn/started","params":{"turn":{"id":"u1"}}}"#);
    assert_eq!(session.turn_id.as_deref(), Some("u1"));
    let before = session.next_id;
    assert_eq!(
        send(&mut session, "second", TurnPurpose::Tutor),
        [r#"Notice { text: "Wait for the current Codex response to finish before sending another message." }"#]
    );
    assert_eq!(
        send(&mut session, "third", TurnPurpose::Writeup),
        [r#"WriteupCompleted { status: "busy" }"#]
    );
    assert_eq!(session.next_id, before);
    assert_eq!(session.turn_purpose, TurnPurpose::Tutor);
}

#[test]
fn a_turn_is_interrupted_while_it_runs() {
    let mut session = with_thread();
    assert!(session.handle_command(Some(CodexCommand::Interrupt)).is_empty());
    hear(&mut session, r#"{"method":"turn/started","params":{"turn":{"id":"u1"}}}"#);
    assert_eq!(
        shown(session.handle_command(Some(CodexCommand::Interrupt))),
        [r#"{"id":4,"method":"turn/interrupt","params":{"threadId":"t1","turnId":"u1"}}"#]
    );
}

#[test]
fn a_login_is_asked_for_and_answered() {
    let mut session = started();
    assert_eq!(
        shown(session.handle_command(Some(CodexCommand::Login))),
        [r#"{"id":3,"method":"account/login/start","params":{"appBrand":"chatgpt","type":"chatgpt","useHostedLoginSuccessPage":true}}"#]
    );
    assert_eq!(
        shown(hear(&mut session, r#"{"id":3,"result":{"authUrl":"https://x"}}"#)),
        [r#"LoginUrl { url: "https://x" }"#]
    );
    let completed = r#"{"method":"account/login/completed","params":{"success":false}}"#;
    assert_eq!(shown(hear(&mut session, completed)), [r#"Notice { text: "Login failed" }"#]);
    let reason = r#"{"method":"account/login/completed","params":{"success":false,"error":"no"}}"#;
    assert_eq!(shown(hear(&mut session, reason)), [r#"Notice { text: "no" }"#]);
    let success = r#"{"method":"account/login/completed","params":{"success":true}}"#;
    assert!(hear(&mut session, success).is_empty());
}

#[test]
fn the_account_is_read() {
    let mut session = started();
    assert_eq!(
        shown(hear(
            &mut session,
            r#"{"id":2,"result":{"account":{"type":"chatgpt","authMode":"x","planType":"plus"}}}"#
        )),
        [r#"true Some("chatgpt") Some("plus")"#]
    );
    let mut session = started();
    assert_eq!(
        shown(hear(&mut session, r#"{"id":2,"result":{"account":{"authMode":"apikey"}}}"#)),
        [r#"true Some("apikey") None"#]
    );
    let mut session = started();
    assert_eq!(
        shown(hear(
            &mut session,
            r#"{"id":2,"result":{"account":{"type":null,"authMode":"apikey"}}}"#
        )),
        ["false None None"]
    );
    assert_eq!(
        shown(hear(
            &mut session,
            r#"{"method":"account/updated","params":{"authMode":"chatgpt","planType":"pro"}}"#
        )),
        [r#"true Some("chatgpt") Some("pro")"#]
    );
}

#[test]
fn the_tutors_text_goes_where_the_turn_goes() {
    let mut session = with_thread();
    let delta = r#"{"method":"item/agentMessage/delta","params":{"delta":"hi"}}"#;
    assert_eq!(shown(hear(&mut session, delta)), [r#"Delta { text: "hi" }"#]);
    send(&mut session, "write", TurnPurpose::Writeup);
    assert_eq!(shown(hear(&mut session, delta)), [r#"WriteupDelta { text: "hi" }"#]);
    hear(&mut session, r#"{"method":"turn/started","params":{"turn":{"id":"u1"}}}"#);
    assert_eq!(
        shown(hear(
            &mut session,
            r#"{"method":"turn/completed","params":{"turn":{"status":"interrupted"}}}"#
        )),
        [r#"WriteupCompleted { status: "interrupted" }"#]
    );
    assert_eq!(session.turn_id, None);
    assert_eq!(session.turn_purpose, TurnPurpose::Tutor);
    assert_eq!(
        shown(hear(&mut session, r#"{"method":"turn/completed"}"#)),
        [r#"Completed { status: "completed" }"#]
    );
}

#[test]
fn failures_are_told() {
    let mut session = with_thread();
    send(&mut session, "write", TurnPurpose::Writeup);
    assert_eq!(
        shown(hear(&mut session, r#"{"id":4,"error":{"message":"quota"}}"#)),
        [
            r#"Notice { text: "Codex turn/start failed: quota" }"#,
            r#"WriteupCompleted { status: "failed" }"#,
        ]
    );
    assert_eq!(session.turn_purpose, TurnPurpose::Tutor);
    assert_eq!(
        shown(hear(&mut session, r#"{"id":4,"error":null}"#)),
        [r#"Notice { text: "Codex request failed: unknown error" }"#]
    );
}

#[test]
fn an_answer_is_taken_once() {
    let mut session = with_thread();
    assert!(hear(&mut session, r#"{"id":3,"result":{"thread":{"id":"t2"}}}"#).is_empty());
    assert_eq!(session.thread_id.as_deref(), Some("t1"));
}

#[test]
fn other_messages_are_passed_over() {
    let mut session = with_thread();
    for line in [
        "[]",
        r#"{"method":"item/agentMessage/delta","params":{}}"#,
        r#"{"id":9,"result":{}}"#,
        r#"{"id":"a","method":1}"#,
    ] {
        assert!(hear(&mut session, line).is_empty(), "{line}");
    }
    assert!(session.handle_line("not json").is_none());
    let message = Json::parse(r#"{"method":"turn/completed"}"#).unwrap();
    assert_eq!(session.handle_message(&message).len(), 1);
}

#[test]
fn what_the_tutor_asks_leave_for_is_declined() {
    let mut session = with_thread();
    assert_eq!(
        shown(hear(&mut session, r#"{"method":"x/requestApproval","params":{}}"#)),
        ["declined x/requestApproval"]
    );
    assert_eq!(
        shown(hear(&mut session, r#"{"id":"a","method":"requestApproval"}"#)),
        ["declined requestApproval"]
    );
    assert!(hear(&mut session, r#"{"method":"x/requestApprovals"}"#).is_empty());
    assert!(hear(&mut session, r#"{"id":7,"method":"x/requestApproval"}"#).is_empty());
}

#[test]
fn the_conversation_ends() {
    let mut session = started();
    assert_eq!(shown(session.handle_command(Some(CodexCommand::Shutdown))), ["end"]);
    assert_eq!(shown(session.handle_command(None)), ["end"]);
    let actions = exit_actions();
    assert!(matches!(
        &actions[0],
        CodexAction::Emit(CodexEvent::Notice { text }) if text == "Codex app-server exited."
    ));
    assert!(matches!(actions[1], CodexAction::End));
}

#[test]
fn requests_have_their_own_identifiers() {
    let mut session = started();
    for id in 3..6u64 {
        let actions = session.handle_command(Some(CodexCommand::NewThread));
        match &actions[0] {
            CodexAction::Write(message) => {
                assert_eq!(message.get("id").and_then(Json::as_u64), Some(id));
                assert_eq!(
                    message.get("method").and_then(Json::as_str).map(String::as_str),
                    Some(session.pending[&id].name())
                );
            }
            other => panic!("{other:?}"),
        }
        assert!(session.pending.contains_key(&id));
    }
}

#[test]
fn the_tutor_only_reads() {
    let mut session = with_thread();
    let thread = session.handle_command(Some(CodexCommand::NewThread));
    let turn = {
        hear(&mut session, r#"{"id":4,"result":{"thread":{"id":"t2"}}}"#);
        session.handle_command(Some(CodexCommand::Send {
            text: "edit my file".to_string(),
            context: Json::Null,
            purpose: TurnPurpose::Tutor,
        }))
    };
    match (&thread[0], &turn[1]) {
        (CodexAction::Write(thread), CodexAction::Write(turn)) => {
            let text = |value: Option<&Json>| value.and_then(Json::as_str).cloned();
            assert_eq!(text(thread.get2("params", "sandbox")).as_deref(), Some("read-only"));
            assert_eq!(text(thread.get2("params", "approvalPolicy")).as_deref(), Some("never"));
            assert_eq!(
                text(turn.get3("params", "sandboxPolicy", "type")).as_deref(),
                Some("readOnly")
            );
            assert_eq!(text(turn.get2("params", "approvalPolicy")).as_deref(), Some("never"));
        }
        other => panic!("{other:?}"),
    }
}
