use kuebiko::json::Json;
use kuebiko::protocol::{
    envelope, AuthState, DebuggerSnapshot, KernelStatus, LabStatus, GDB_PTY_CHANNEL,
    PROTOCOL_VERSION,
};

#[test]
fn server_envelope_has_version_and_tag() {
    let message = Json::object().with("type", Json::text("error")).with(
        "payload",
        Json::object()
            .with("scope", Json::text("test"))
            .with("message", Json::text("nope")),
    );
    let value = envelope(message).to_value();
    assert_eq!(value["v"], 1);
    assert_eq!(value["type"], "error");
    assert_eq!(value["payload"]["message"], "nope");
    assert_eq!((PROTOCOL_VERSION, GDB_PTY_CHANNEL), (1, 1));
}

#[test]
fn nothing_is_known_by_default() {
    let status = LabStatus::default();
    assert!(status.phase.is_empty() && status.lab_id.is_none() && status.config.is_none());
    let snapshot = DebuggerSnapshot::default();
    assert_eq!((snapshot.revision, snapshot.state.as_str(), snapshot.stale), (0, "", false));
    assert!(snapshot.frames.is_empty() && snapshot.registers.is_empty());
    assert!(!AuthState::default().authenticated);
    assert_eq!(KernelStatus::default().execution_count, None);
}
