use kuebiko::config::{
    executable_search, path_candidates, resolve_executable, validate_config, ConfigError,
    ConfigProbe, ExecutableSearch, Found,
};
use kuebiko::protocol::LabConfig;

fn config() -> LabConfig {
    LabConfig {
        workspace: "lab".to_string(),
        program: "lab/a.out".to_string(),
        args: vec!["1".to_string()],
        debugger: "gdb".to_string(),
        python: "python3".to_string(),
        objective: "x".to_string(),
    }
}

fn found(path: &str, fits: bool) -> Option<Found> {
    Some(Found { path: path.to_string(), fits })
}

fn probe() -> ConfigProbe {
    ConfigProbe {
        workspace: found("/home/lab", true),
        program: found("/home/lab/a.out", true),
        debugger: Some("/usr/bin/gdb".to_string()),
        python: Some("/usr/bin/python3".to_string()),
    }
}

#[test]
fn what_was_found_goes_into_the_configuration() {
    let mut valid = config();
    assert_eq!(validate_config(&mut valid, probe()), Ok(()));
    assert_eq!(
        valid,
        LabConfig {
            workspace: "/home/lab".to_string(),
            program: "/home/lab/a.out".to_string(),
            debugger: "/usr/bin/gdb".to_string(),
            python: "/usr/bin/python3".to_string(),
            ..config()
        }
    );
    let before = valid.clone();
    assert_eq!(validate_config(&mut valid, probe()), Ok(()));
    assert_eq!(valid, before);
}

#[test]
fn the_first_thing_that_is_missing_is_named() {
    let cases = [
        (ConfigProbe { workspace: None, program: None, ..probe() }, ConfigError::NoWorkspace, "workspace does not exist"),
        (ConfigProbe { workspace: found("/x", false), program: None, ..probe() }, ConfigError::WorkspaceIsNoDirectory, "workspace is not a directory"),
        (ConfigProbe { program: None, debugger: None, ..probe() }, ConfigError::NoProgram, "program does not exist"),
        (ConfigProbe { program: found("/x", false), debugger: None, ..probe() }, ConfigError::ProgramIsNoFile, "program is not a file"),
        (ConfigProbe { debugger: None, python: None, ..probe() }, ConfigError::NoDebugger, "debugger executable not found"),
        (ConfigProbe { python: None, ..probe() }, ConfigError::NoPython, "Python interpreter not found"),
    ];
    for (probe, error, message) in cases {
        let mut unchanged = config();
        assert_eq!(validate_config(&mut unchanged, probe), Err(error));
        assert_eq!(error.message(), message);
        assert_eq!(unchanged, config());
    }
}

#[test]
fn an_executable_is_looked_for_by_how_it_is_given() {
    assert_eq!(executable_search("/usr/bin/gdb"), ExecutableSearch::At("/usr/bin/gdb".to_string()));
    assert_eq!(
        executable_search("venv/bin/python"),
        ExecutableSearch::BelowCurrentDir("venv/bin/python".to_string())
    );
    assert_eq!(executable_search("gdb"), ExecutableSearch::OnPath("gdb".to_string()));
    assert_eq!(executable_search(""), ExecutableSearch::OnPath(String::new()));
}

#[test]
fn the_directories_of_the_path_are_tried_in_order() {
    assert_eq!(
        path_candidates("/usr/bin:/opt/:", "gdb"),
        ["/usr/bin/gdb", "/opt/gdb", "gdb"]
    );
    assert_eq!(path_candidates("", "gdb"), ["gdb"]);
    for path in ["", "/a", "/a:/b/", "::", "/a/:b"] {
        let expected: Vec<String> = path
            .split(':')
            .map(|dir| std::path::Path::new(dir).join("gdb").to_string_lossy().into_owned())
            .collect();
        assert_eq!(path_candidates(path, "gdb"), expected, "{path}");
    }
}

#[test]
fn the_first_file_is_taken() {
    let candidates = vec!["/a/gdb".to_string(), "/b/gdb".to_string(), "/c/gdb".to_string()];
    assert_eq!(
        resolve_executable(&candidates, &vec![false, true, true]).as_deref(),
        Some("/b/gdb")
    );
    assert_eq!(resolve_executable(&candidates, &vec![false, false, false]), None);
}
