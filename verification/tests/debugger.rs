use kuebiko::debugger::{
    breakpoint_from_value, frame_from_value, instruction_from_value, launch_arguments, mi_command,
    parse_u32, take_lines, DebuggerAction, DebuggerCommand, DebuggerOutput, DebuggerSession,
    Reaction,
};
use kuebiko::mi::{parse_line, MiRecord, MiValue};

const QUERIES: [&str; 6] = [
    "-stack-list-frames 0 31",
    "-data-list-register-names",
    "-data-list-register-values x",
    "-data-disassemble -s '$pc-32' -e '$pc+96' -- 0",
    "-break-list",
    "-data-read-memory-bytes $sp 256",
];

fn queries(first: u64) -> Vec<String> {
    (first..).zip(QUERIES).map(|(token, query)| format!("{token}{query}\n")).collect()
}

fn answer(session: &mut DebuggerSession, line: &str) -> Reaction {
    session.handle_line(line).unwrap()
}

fn value(text: &str) -> MiValue {
    match parse_line(&format!("^done,v={text}")) {
        Ok(MiRecord::Result { results, .. }) => results.remove("v").1.unwrap(),
        other => panic!("{other:?}"),
    }
}

#[test]
fn lines_do_not_depend_on_pieces() {
    let mut pending = String::new();
    assert_eq!(take_lines(&mut pending, "a\r"), Vec::<String>::new());
    assert_eq!(take_lines(&mut pending, "\nb\n\r\n\nc\r\rd\r\r\n"), ["a", "b", "c\r\rd"]);
    assert_eq!(pending, "");
    assert_eq!(take_lines(&mut pending, "rest"), Vec::<String>::new());
    assert_eq!(pending, "rest");
}

#[test]
fn bytes_are_taken_in_as_text() {
    let mut session = DebuggerSession::new();
    assert_eq!(session.receive(b"~\"a\xff"), Vec::<String>::new());
    assert_eq!(session.receive(b"\"\r\n(gdb)"), ["~\"a\u{fffd}\""]);
    assert_eq!(session.pending, "(gdb)");
}

#[test]
fn the_first_prompt_asks_for_everything() {
    let mut session = DebuggerSession::new();
    assert!(session.has_room(1) && session.has_room(1000));
    assert_eq!(session.snapshot.state, "starting");
    let reaction = answer(&mut session, "(gdb) ");
    assert!(reaction.publish);
    assert_eq!(reaction.lines, queries(101));
    assert_eq!(session.snapshot.state, "ready");
    assert_eq!(session.snapshot.revision, 1);
    let again = answer(&mut session, "(gdb) ");
    assert!(!again.publish && again.lines.is_empty());
}

#[test]
fn a_program_that_runs_makes_the_snapshot_stale() {
    let mut session = DebuggerSession::new();
    answer(&mut session, "*stopped,reason=\"signal-received\"");
    assert_eq!(session.snapshot.stop_reason.as_deref(), Some("signal-received"));
    let reaction = answer(&mut session, "*running,thread-id=\"all\"");
    assert!(reaction.publish && reaction.lines.is_empty());
    assert_eq!(session.snapshot.state, "running");
    assert!(session.snapshot.stale);
    assert_eq!(session.snapshot.stop_reason, None);
    assert_eq!(session.snapshot.revision, 2);
}

#[test]
fn a_program_that_stops_is_looked_at_anew() {
    let mut session = DebuggerSession::new();
    let reaction = answer(
        &mut session,
        r#"*stopped,reason="breakpoint-hit",frame={addr="0x401000",func="main",file="a.c",line="7"}"#,
    );
    assert_eq!(reaction.lines, queries(101));
    let frame = session.snapshot.frame.as_ref().unwrap();
    assert_eq!(frame.address, "0x401000");
    assert_eq!(frame.function.as_deref(), Some("main"));
    assert_eq!((frame.level, frame.line), (None, Some(7)));
    assert_eq!(session.snapshot.state, "stopped");
    assert!(!session.snapshot.stale);
}

#[test]
fn answers_take_the_place_of_what_was_known() {
    let mut session = DebuggerSession::new();
    answer(&mut session, r#"102^done,register-names=["rax","","rip"]"#);
    answer(
        &mut session,
        r#"103^done,register-values=[{number="0",value="0x1"},{number="2",value="0x2"},{number="9",value="0x3"},{value="x"}]"#,
    );
    let registers: Vec<(String, String)> = session
        .snapshot
        .registers
        .iter()
        .map(|register| (register.name.clone(), register.value.clone()))
        .collect();
    let expected = [("rax", "0x1"), ("rip", "0x2"), ("9", "0x3")];
    assert_eq!(registers, expected.map(|(n, v)| (n.to_string(), v.to_string())));
    answer(
        &mut session,
        r#"101^done,stack=[frame={level="0",addr="0x1",func="f"},frame={level="1",addr="0x2",func="main"}]"#,
    );
    assert_eq!(session.snapshot.frames.len(), 2);
    assert_eq!(session.snapshot.frame.as_ref().unwrap().address, "0x1");
    answer(
        &mut session,
        r#"104^done,asm_insns=[{address="0x1",func-name="f",offset="0",inst="nop"},{address="0x2"}]"#,
    );
    assert_eq!(session.snapshot.disassembly.len(), 1);
    assert_eq!(session.snapshot.disassembly[0].instruction, "nop");
    answer(
        &mut session,
        r#"105^done,BreakpointTable={nr_rows="1",body=[bkpt={number="1",enabled="y",addr="0x1",original-location="main"}]}"#,
    );
    assert_eq!(session.snapshot.breakpoints.len(), 1);
    assert_eq!(session.snapshot.breakpoints[0].location.as_deref(), Some("main"));
    answer(&mut session, r#"106^done,memory=[{begin="0x10",offset="0x0",contents="dead"}]"#);
    let stack = session.snapshot.stack.as_ref().unwrap();
    assert_eq!((stack.address.as_str(), stack.bytes.as_str()), ("0x10", "dead"));
    assert_eq!(session.snapshot.state, "ready");
    assert_eq!(session.snapshot.revision, 6);
}

#[test]
fn errors_are_shown_until_the_next_answer() {
    let mut session = DebuggerSession::new();
    answer(&mut session, r#"101^error,msg="No registers.""#);
    assert_eq!(session.snapshot.error.as_deref(), Some("No registers."));
    answer(&mut session, "^done");
    assert_eq!(session.snapshot.error, None);
}

#[test]
fn changed_breakpoints_are_asked_for() {
    let mut session = DebuggerSession::new();
    let reaction = answer(&mut session, "=breakpoint-created,bkpt={number=\"1\"}");
    assert!(!reaction.publish);
    assert_eq!(reaction.lines, ["101-break-list\n"]);
    for line in ["=thread-created,id=\"1\"", "^running", "~\"text\""] {
        let reaction = answer(&mut session, line);
        assert!(!reaction.publish && reaction.lines.is_empty(), "{line}");
    }
    assert_eq!(session.snapshot.revision, 0);
    assert!(session.handle_line("rubbish").is_err());
    assert_eq!(session.snapshot.revision, 0);
}

#[test]
fn requests_to_the_debugger_are_told_apart() {
    let mut session = DebuggerSession::new();
    assert!(matches!(
        session.handle_command(Some(DebuggerCommand::Input(b"ni\n".to_vec()))),
        DebuggerAction::Type(data) if data == b"ni\n"
    ));
    assert!(matches!(
        session.handle_command(Some(DebuggerCommand::Resize { cols: 80, rows: 24 })),
        DebuggerAction::Resize { cols: 80, rows: 24 }
    ));
    match session.handle_command(Some(DebuggerCommand::Refresh)) {
        DebuggerAction::Ask(lines) => assert_eq!(lines, queries(101)),
        other => panic!("{other:?}"),
    }
    match session.handle_command(Some(DebuggerCommand::Refresh)) {
        DebuggerAction::Ask(lines) => assert_eq!(lines, queries(107)),
        other => panic!("{other:?}"),
    }
    assert!(matches!(
        session.handle_command(Some(DebuggerCommand::Stop)),
        DebuggerAction::End
    ));
    assert!(matches!(session.handle_command(None), DebuggerAction::End));
}

#[test]
fn the_exit_of_the_debugger_is_shown() {
    let mut session = DebuggerSession::new();
    session.handle_exit(Some("gone".to_string()));
    assert_eq!(session.snapshot.state, "exited");
    assert_eq!(session.snapshot.error.as_deref(), Some("gone"));
    assert_eq!(session.snapshot.revision, 1);
}

#[test]
fn commands_have_their_own_tokens() {
    let mut next = 41;
    assert_eq!(mi_command(&mut next, "-exec-run"), "42-exec-run\n");
    assert_eq!(mi_command(&mut next, "-exec-run"), "43-exec-run\n");
    assert_eq!(next, 43);
}

#[test]
fn lines_are_equal_only_where_a_command_runs_into_its_token() {
    let mut next = 0;
    assert_eq!(mi_command(&mut next, "1-exec-run"), "11-exec-run\n");
    next = 10;
    assert_eq!(mi_command(&mut next, "-exec-run"), "11-exec-run\n");
    let mut session = DebuggerSession::new();
    let lines = answer(&mut session, "*stopped").lines;
    assert_eq!(lines.len(), 6);
    for (i, line) in lines.iter().enumerate() {
        assert!(lines.iter().skip(i + 1).all(|other| other != line), "{line}");
    }
}

#[test]
fn characters_that_are_split_are_lost() {
    let text = "~\"é\"\n".as_bytes();
    let mut whole = DebuggerSession::new();
    assert_eq!(whole.receive(text), ["~\"é\""]);
    let mut between = DebuggerSession::new();
    assert_eq!(between.receive(&text[..4]), Vec::<String>::new());
    assert_eq!(between.receive(&text[4..]), ["~\"é\""]);
    let mut split = DebuggerSession::new();
    assert_eq!(split.receive(&text[..3]), Vec::<String>::new());
    assert_eq!(split.receive(&text[3..]), ["~\"\u{fffd}\u{fffd}\""]);
}

#[test]
fn a_debugger_starts_once() {
    for line in ["(gdb) ", "^done"] {
        let mut session = DebuggerSession::new();
        answer(&mut session, "^error,msg=\"no\"");
        assert_eq!(session.snapshot.state, "starting", "{line}");
        answer(&mut session, line);
        assert_eq!(session.snapshot.state, "ready", "{line}");
        for later in ["*stopped", "(gdb) ", "*running", "^done", "^error,msg=\"no\""] {
            answer(&mut session, later);
            assert_ne!(session.snapshot.state, "starting", "{later}");
        }
    }
}

#[test]
fn values_are_read_as_what_they_describe() {
    let frame = frame_from_value(&value(r#"{level="3",addr="0x1",fullname="/a.c",line="x"}"#)).unwrap();
    assert_eq!((frame.level, frame.line), (Some(3), None));
    assert_eq!(frame.file.as_deref(), Some("/a.c"));
    assert!(instruction_from_value(&value(r#"{address="0x1"}"#)).is_none());
    let breakpoint =
        breakpoint_from_value(&value(r#"{number="2",enabled="n",what="x"}"#)).unwrap();
    assert!(!breakpoint.enabled);
    assert_eq!(breakpoint.location.as_deref(), Some("x"));
    assert!(breakpoint_from_value(&value(r#"{enabled="y"}"#)).is_none());
    assert_eq!(parse_u32(Some("4294967295")), Some(u32::MAX));
    assert_eq!(parse_u32(Some("4294967296")), None);
    assert_eq!(parse_u32(None), None);
}

#[test]
fn the_debugger_is_launched_with_its_machine_interface() {
    let args = vec!["x".to_string(), "y z".to_string()];
    assert_eq!(
        launch_arguments("/dev/pts/4", "/lab/a.out", &args),
        [
            "-q",
            "-ex",
            "set debuginfod enabled off",
            "-ex",
            "set pagination off",
            "-ex",
            "set mi-async on",
            "-ex",
            "new-ui mi2 /dev/pts/4",
            "--args",
            "/lab/a.out",
            "x",
            "y z",
        ]
    );
}

fn take_in(session: &mut DebuggerSession, pieces: &[&[u8]]) -> Vec<String> {
    let mut shown = vec![];
    for piece in pieces {
        let lines = session.receive(piece);
        for output in session.handle_lines(&lines) {
            shown.push(match output {
                DebuggerOutput::Publish(snapshot) => {
                    format!("{} {}", snapshot.revision, snapshot.state)
                }
                DebuggerOutput::Ask(line) => line,
                DebuggerOutput::Ignore { line, .. } => format!("ignored {line}"),
            });
        }
    }
    shown
}

#[test]
fn a_session_does_not_depend_on_pieces() {
    let text = b"(gdb) \r\n*running,thread-id=\"all\"\r\n\r\nrubbish\n*stopped\n=breakpoint-modified\n(g";
    let mut whole = DebuggerSession::new();
    let outputs = take_in(&mut whole, &[text]);
    assert_eq!(outputs[0], "1 ready");
    assert_eq!(outputs[1..7], queries(101));
    assert_eq!(outputs[7], "2 running");
    assert_eq!(outputs[8], "ignored rubbish");
    assert_eq!(outputs[9], "3 stopped");
    assert_eq!(outputs[10..16], queries(107));
    assert_eq!(outputs[16..], ["113-break-list\n"]);
    assert_eq!(whole.pending, "(g");
    for cut in 0..text.len() {
        let mut pieces = DebuggerSession::new();
        assert_eq!(take_in(&mut pieces, &[&text[..cut], &text[cut..]]), outputs);
        assert_eq!(pieces.pending, "(g");
        assert_eq!(pieces.next_token, whole.next_token);
    }
}

#[test]
fn each_change_is_published_once() {
    let mut session = DebuggerSession::new();
    for line in ["(gdb) ", "(gdb) ", "^running", "*running", "101^error,msg=\"no\"", "*stopped"] {
        let revision = session.snapshot.revision;
        let outputs = session.handle_lines(&vec![line.to_string()]);
        let published: Vec<u64> = outputs
            .iter()
            .filter_map(|output| match output {
                DebuggerOutput::Publish(snapshot) => Some(snapshot.revision),
                _ => None,
            })
            .collect();
        if session.snapshot.revision == revision {
            assert!(published.is_empty(), "{line}");
        } else {
            assert_eq!(session.snapshot.revision, revision + 1, "{line}");
            assert_eq!(published, [revision + 1], "{line}");
        }
    }
    assert_eq!(session.snapshot.revision, 4);
}

#[test]
fn room_is_counted_in_lines() {
    let mut session = DebuggerSession::new();
    session.next_token = u64::MAX - 12;
    assert!(session.has_room(2));
    assert!(!session.has_room(3));
    session.next_token = 100;
    session.snapshot.revision = u64::MAX;
    assert!(session.has_room(0));
    assert!(!session.has_room(1));
    assert!(!session.has_room(usize::MAX));
}
