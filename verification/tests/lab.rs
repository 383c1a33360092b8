use kuebiko::codex::CodexCommand;
use kuebiko::config::{ConfigProbe, Found};
use kuebiko::lab::{
    advance_restart, LabStart, RestartAction, RestartStage, StartAction, StartStage,
};
use kuebiko::protocol::{KernelEvent, LabConfig, ServerMessage};

fn config() -> LabConfig {
    LabConfig {
        workspace: "/lab".to_string(),
        program: "/lab/a.out".to_string(),
        args: vec![],
        debugger: "gdb".to_string(),
        python: "python3".to_string(),
        objective: "x".to_string(),
    }
}

fn name(action: &StartAction) -> String {
    match action {
        StartAction::Announce(ServerMessage::LabStatus(status)) => {
            format!("announce {} {:?}", status.phase, status.lab_id)
        }
        StartAction::Configure(CodexCommand::Configure { cwd, objective, resume_thread }) => {
            format!("configure {cwd} {objective} {resume_thread:?}")
        }
        other => format!("{other:?}"),
    }
}

fn course(start: &mut LabStart, failing: &str) -> Vec<String> {
    let mut names = vec![];
    let mut outcome = Ok(());
    while start.stage != StartStage::Over {
        let action = start.advance(outcome);
        let shown = name(&action);
        outcome = if shown.starts_with(failing) { Err("broken".to_string()) } else { Ok(()) };
        names.push(shown);
    }
    names
}

fn start() -> LabStart {
    LabStart::new(config(), Some("a".to_string()), Some("t".to_string()))
}

#[test]
fn a_lab_starts_step_by_step() {
    assert_eq!(
        course(&mut start(), "nothing"),
        [
            "StopPrevious",
            "announce starting None",
            "SpawnDebugger",
            "SpawnKernel",
            "configure /lab x Some(\"t\")",
            "Save",
            "Install",
            "announce running Some(\"a\")",
            "Succeed",
        ]
    );
}

#[test]
fn a_failed_kernel_stops_the_debugger() {
    let names = course(&mut start(), "SpawnKernel");
    assert_eq!(names[3..], ["SpawnKernel", "StopDebugger", "Fail(\"broken\")"]);
}

#[test]
fn a_failed_step_ends_the_start() {
    for step in ["SpawnDebugger", "configure", "Save"] {
        let names = course(&mut start(), step);
        assert!(names[names.len() - 2].starts_with(step));
        assert_eq!(names[names.len() - 1], "Fail(\"broken\")");
        assert!(!names.contains(&"Install".to_string()));
    }
    assert_eq!(course(&mut start(), "StopPrevious").len(), 9);
}

#[test]
fn a_new_lab_gets_an_identifier() {
    let first = LabStart::new(config(), None, None).id;
    let second = LabStart::new(config(), None, None).id;
    assert_ne!(first, second);
    assert_eq!(first.len(), 36);
    for (i, c) in first.chars().enumerate() {
        match i {
            8 | 13 | 18 | 23 => assert_eq!(c, '-'),
            14 => assert_eq!(c, '4'),
            19 => assert!(matches!(c, '8' | '9' | 'a' | 'b')),
            _ => assert!(matches!(c, '0'..='9' | 'a'..='f')),
        }
    }
}

fn restart(failing: &str) -> Vec<String> {
    let mut names = vec![];
    let mut stage = RestartStage::Ready;
    let mut outcome = Ok(());
    while stage != RestartStage::Over {
        let action = advance_restart(&mut stage, outcome);
        let shown = match &action {
            RestartAction::Announce(ServerMessage::KernelEvent(KernelEvent::Restarted)) => {
                "announce".to_string()
            }
            other => format!("{other:?}"),
        };
        outcome = if shown == failing { Err("broken".to_string()) } else { Ok(()) };
        names.push(shown);
    }
    names
}

#[test]
fn a_kernel_is_replaced_step_by_step() {
    assert_eq!(restart("nothing"), ["Stop", "Spawn", "Replace", "announce", "Succeed"]);
    assert_eq!(restart("Stop"), ["Stop", "Fail(\"broken\")"]);
    assert_eq!(restart("Spawn"), ["Stop", "Spawn", "Fail(\"broken\")"]);
    assert_eq!(
        restart("Replace"),
        ["Stop", "Spawn", "Replace", "Fail(\"lab stopped during restart\")"]
    );
}

fn probe() -> ConfigProbe {
    ConfigProbe {
        workspace: Some(Found { path: "/real/lab".to_string(), fits: true }),
        program: Some(Found { path: "/real/lab/a.out".to_string(), fits: true }),
        debugger: Some("/usr/bin/gdb".to_string()),
        python: Some("/usr/bin/python3".to_string()),
    }
}

#[test]
fn a_refused_configuration_changes_nothing() {
    let mut start = start();
    let outcome = start.validate(ConfigProbe { program: None, ..probe() });
    assert_eq!(outcome, Err("program does not exist".to_string()));
    assert_eq!(start.config, config());
    assert_eq!(start.stage, StartStage::Validating);
    match start.advance(outcome) {
        StartAction::Fail(reason) => assert_eq!(reason, "program does not exist"),
        other => panic!("{other:?}"),
    }
    assert_eq!(start.stage, StartStage::Over);
}

#[test]
fn a_valid_configuration_holds_what_was_found() {
    let mut start = start();
    assert_eq!(start.validate(probe()), Ok(()));
    assert_eq!(start.config.workspace, "/real/lab");
    assert_eq!(start.config.program, "/real/lab/a.out");
    assert_eq!(start.config.debugger, "/usr/bin/gdb");
    assert_eq!(start.config.objective, "x");
    assert_eq!(start.id, "a");
    assert!(matches!(start.advance(Ok(())), StartAction::StopPrevious));
}
