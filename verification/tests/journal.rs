use kuebiko::journal::{entry_line, writeup_context, writeup_start, WRITEUP_CONTEXT_LIMIT};
use kuebiko::json::Json;

#[test]
fn a_write_up_is_made_from_the_last_two_mebibytes() {
    assert_eq!(WRITEUP_CONTEXT_LIMIT, 2 * 1024 * 1024);
    assert_eq!(writeup_start(0), 0);
    assert_eq!(writeup_start(WRITEUP_CONTEXT_LIMIT), 0);
    assert_eq!(writeup_start(WRITEUP_CONTEXT_LIMIT + 3), 3);
}

#[test]
fn a_whole_journal_is_shown_as_it_is() {
    assert_eq!(writeup_context(0, b"{\"a\":1}\n{\"b\":2}\n"), "{\"a\":1}\n{\"b\":2}\n");
    assert_eq!(writeup_context(0, b""), "");
    assert_eq!(writeup_context(0, b"\xff\n"), "\u{fffd}\n");
}

#[test]
fn a_cut_journal_holds_whole_events() {
    let omission = "[Earlier journal events omitted due to the 2 MiB context limit.]\n";
    assert_eq!(
        writeup_context(3, b"\":1}\n{\"b\":2}\n"),
        format!("{omission}{{\"b\":2}}\n")
    );
    assert_eq!(writeup_context(3, b"\n{\"b\":2}\n"), format!("{omission}{{\"b\":2}}\n"));
    assert_eq!(writeup_context(3, b"no line end"), format!("{omission}no line end"));
    assert_eq!(writeup_context(3, b""), omission);
}

#[test]
fn an_event_is_recorded_in_one_line() {
    let data = Json::object().with("text", Json::text("a\nb"));
    assert_eq!(
        entry_line(1700000000123, "kernel", "event", data),
        b"{\"data\":{\"text\":\"a\\nb\"},\"kind\":\"event\",\"source\":\"kernel\",\"timestampMs\":1700000000123}\n"
            .to_vec()
    );
}
