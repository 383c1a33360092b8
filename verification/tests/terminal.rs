use kuebiko::terminal::strip_terminal_controls;

#[test]
fn terminal_transcript_removes_ansi_but_keeps_visible_output() {
    let raw = "\u{1b}[32mchecksec\u{1b}[0m\r\nRELRO: Full\u{1b}]0;pwndbg\u{7}\n";
    assert_eq!(strip_terminal_controls(raw), "checksec\nRELRO: Full\n");
}

use kuebiko::terminal::{
    append_replay, go_on_writing, start_writing, tutor_transcript, WriteOutcome, WriteStep,
    REPLAY_LIMIT, TUTOR_TRANSCRIPT_LIMIT,
};

#[test]
fn control_codes_are_left_out() {
    assert_eq!(strip_terminal_controls("a\u{8}b\u{7f}c\u{9b}d\te"), "abcd\te");
    assert_eq!(strip_terminal_controls("one\rtwo\r\nthree"), "one\ntwo\nthree");
    assert_eq!(strip_terminal_controls("a\r\r\nb"), "a\n\nb");
}

#[test]
fn escape_sequences_are_left_out() {
    assert_eq!(strip_terminal_controls("\u{1b}[1;31mx\u{1b}[Ky"), "xy");
    assert_eq!(strip_terminal_controls("\u{1b}]0;title\u{1b}\\x"), "x");
    assert_eq!(strip_terminal_controls("\u{1b}]0;a\u{1b}b\u{7}x"), "x");
    assert_eq!(strip_terminal_controls("\u{1b}=x"), "x");
    assert_eq!(strip_terminal_controls("x\u{1b}[12"), "x");
}

#[test]
fn stripping_twice_is_stripping_once() {
    let once = strip_terminal_controls("\u{1b}[32ma\u{1b}[0m\r\nb\u{1b}]0;c\u{7}\n");
    assert_eq!(strip_terminal_controls(&once), once);
}

#[test]
fn the_replay_is_the_end_of_all_output() {
    let mut saved = Vec::new();
    append_replay(&mut saved, b"abc");
    append_replay(&mut saved, b"def");
    assert_eq!(saved, b"abcdef");
    append_replay(&mut saved, &vec![b'x'; REPLAY_LIMIT - 2]);
    assert_eq!(saved.len(), REPLAY_LIMIT);
    assert_eq!(&saved[..3], b"efx");
    append_replay(&mut saved, b"end");
    assert_eq!(saved.len(), 1024 * 1024);
    assert_eq!(&saved[REPLAY_LIMIT - 3..], b"end");
}

#[test]
fn a_short_transcript_is_shown_whole() {
    assert_eq!(tutor_transcript(b"\x1b[1mpwndbg>\x1b[0m \xff"), "pwndbg> \u{fffd}");
}

#[test]
fn a_long_transcript_is_shown_from_its_end() {
    let mut raw = vec![b'a'; TUTOR_TRANSCRIPT_LIMIT];
    raw.extend_from_slice(b"\r\nend");
    let shown = tutor_transcript(&raw);
    assert_eq!(shown.chars().count(), 12 * 1024 + 1);
    assert!(shown.ends_with("a\nend"));
}

fn write(bytes: &[u8], outcomes: &[WriteOutcome]) -> (Vec<u8>, WriteStep) {
    let mut written = Vec::new();
    let mut step = start_writing(bytes.len());
    for outcome in outcomes {
        let position = match step {
            WriteStep::Write(position) | WriteStep::Wait(position) => position,
            _ => break,
        };
        if let WriteOutcome::Wrote(count) = outcome {
            written.extend_from_slice(&bytes[position..position + count]);
        }
        step = go_on_writing(bytes.len(), position, *outcome);
    }
    (written, step)
}

#[test]
fn everything_is_written_once() {
    assert_eq!(write(b"", &[]), (vec![], WriteStep::Done));
    assert_eq!(
        write(b"abcdef", &[WriteOutcome::Wrote(2), WriteOutcome::WouldBlock, WriteOutcome::Wrote(3), WriteOutcome::Wrote(1)]),
        (b"abcdef".to_vec(), WriteStep::Done)
    );
    assert_eq!(write(b"abc", &[WriteOutcome::Wrote(1)]), (b"a".to_vec(), WriteStep::Write(1)));
    assert_eq!(write(b"abc", &[WriteOutcome::Wrote(1), WriteOutcome::WouldBlock]), (b"a".to_vec(), WriteStep::Wait(1)));
    assert_eq!(write(b"abc", &[WriteOutcome::Wrote(1), WriteOutcome::Wrote(0)]), (b"a".to_vec(), WriteStep::TakesNothing));
    assert_eq!(write(b"abc", &[WriteOutcome::Failed]), (vec![], WriteStep::Fail));
}

#[test]
fn plain_text_comes_piece_by_piece() {
    let first = "one\ttwo\r\nthr\u{8}ee\r";
    for second in ["", "\u{1b}[1mfour\u{1b}[0m\n", "\rfive", "six\r\n"] {
        assert_eq!(
            strip_terminal_controls(&format!("{first}{second}")),
            strip_terminal_controls(first) + &strip_terminal_controls(second),
            "{second:?}"
        );
    }
    assert_eq!(strip_terminal_controls("one\r\ntwo"), "one\ntwo");
    assert_eq!(strip_terminal_controls("one\r") + &strip_terminal_controls("\ntwo"), "one\n\ntwo");
}

#[test]
fn plain_text_stands_in_the_output() {
    let output = "\u{1b}[32mcheck\u{7}sec\u{1b}[0m\r\nRELRO:\rFull\u{1b}]0;pwndbg\u{7}\n";
    let mut rest = output.chars().map(|c| if c == '\r' { '\n' } else { c });
    for shown in strip_terminal_controls(output).chars() {
        assert!(rest.any(|c| c == shown), "{shown:?}");
    }
}
