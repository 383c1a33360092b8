//! The debugger's terminal: what is kept of its output, and its output as plain text.

use crate::text::{chars_of, from_utf8_lossy, lossy, text_of};
use vstd::prelude::*;

verus! {

/// How many bytes of output are kept for clients that connect later.
pub const REPLAY_LIMIT: usize = 1048576;

/// The length, in characters, beyond which a transcript is cut to its end.
pub const TUTOR_TRANSCRIPT_LIMIT: usize = 12288;

/// The last `n` items of a sequence, or all of a shorter one.
pub open spec fn suffix<A>(s: Seq<A>, n: nat) -> Seq<A> {
    if s.len() > n {
        s.skip(s.len() - n)
    } else {
        s
    }
}

/// Adds output to what is kept of it.
pub fn append_replay(saved: &mut Vec<u8>, data: &[u8])
    ensures
        final(saved)@ == suffix(old(saved)@ + data@, REPLAY_LIMIT as nat),
{
    let ghost all = saved@ + data@;
    saved.extend_from_slice(data);
    assert(saved@ =~= all);
    if saved.len() > REPLAY_LIMIT {
        let drain: usize = saved.len() - REPLAY_LIMIT;
        let kept = saved.split_off(drain);
        assert(kept@ =~= all.skip(drain as int));
        *saved = kept;
    }
}

/// What is kept of output does not depend on the pieces in which it came.
pub proof fn law_replay_is_the_end_of_all_output(first: Seq<u8>, second: Seq<u8>)
    ensures
        suffix(suffix(first, REPLAY_LIMIT as nat) + second, REPLAY_LIMIT as nat) == suffix(
            first + second,
            REPLAY_LIMIT as nat,
        ),
        suffix(first, REPLAY_LIMIT as nat).len() <= REPLAY_LIMIT,
{
    assert(suffix(suffix(first, REPLAY_LIMIT as nat) + second, REPLAY_LIMIT as nat) =~= suffix(
        first + second,
        REPLAY_LIMIT as nat,
    ));
}

/// Where in its output a terminal is.
#[derive(Debug, Clone, Copy, PartialEq, Eq, Structural)]
pub enum TerminalState {
    Text,
    Escape,
    Csi,
    Osc,
    OscEscape,
}

/// Whether a character is a control code.
pub open spec fn is_control(c: char) -> bool {
    c <= '\u{1f}' || '\u{7f}' <= c <= '\u{9f}'
}

/// The state behind a character, and the text that the character shows as.
pub open spec fn terminal_step(state: TerminalState, c: char) -> (TerminalState, Seq<char>) {
    match state {
        TerminalState::Text => if c == '\u{1b}' {
            (TerminalState::Escape, seq![])
        } else if c == '\n' || c == '\t' {
            (TerminalState::Text, seq![c])
        } else if c == '\r' {
            (TerminalState::Text, seq!['\n'])
        } else if !is_control(c) {
            (TerminalState::Text, seq![c])
        } else {
            (TerminalState::Text, seq![])
        },
        TerminalState::Escape => if c == '[' {
            (TerminalState::Csi, seq![])
        } else if c == ']' {
            (TerminalState::Osc, seq![])
        } else {
            (TerminalState::Text, seq![])
        },
        TerminalState::Csi => if '@' <= c <= '~' {
            (TerminalState::Text, seq![])
        } else {
            (TerminalState::Csi, seq![])
        },
        TerminalState::Osc => if c == '\u{7}' {
            (TerminalState::Text, seq![])
        } else if c == '\u{1b}' {
            (TerminalState::OscEscape, seq![])
        } else {
            (TerminalState::Osc, seq![])
        },
        TerminalState::OscEscape => if c == '\\' {
            (TerminalState::Text, seq![])
        } else {
            (TerminalState::Osc, seq![])
        },
    }
}

/// The state behind some output, and the text that it shows as.
pub open spec fn terminal_scan(output: Seq<char>) -> (TerminalState, Seq<char>)
    decreases output.len(),
{
    if output.len() == 0 {
        (TerminalState::Text, seq![])
    } else {
        let (state, shown) = terminal_scan(output.drop_last());
        let (next, more) = terminal_step(state, output.last());
        (next, shown + more)
    }
}

/// Output in which each carriage return before a line feed is left out.
pub open spec fn normalized(output: Seq<char>) -> Seq<char>
    decreases output.len(),
{
    if output.len() == 0 {
        seq![]
    } else if output[0] == '\r' && output.len() > 1 && output[1] == '\n' {
        normalized(output.skip(1))
    } else {
        seq![output[0]] + normalized(output.skip(1))
    }
}

/// Output as plain text: without escape sequences and control codes, its lines ended by line
/// feeds.
pub open spec fn plain(output: Seq<char>) -> Seq<char> {
    terminal_scan(normalized(output)).1
}

/// Whether a character can stand in plain text.
pub open spec fn is_plain(c: char) -> bool {
    !is_control(c) || c == '\n' || c == '\t'
}

fn control(c: char) -> (r: bool)
    ensures
        r == is_control(c),
{
    c <= '\u{1f}' || ('\u{7f}' <= c && c <= '\u{9f}')
}

fn advance(state: TerminalState, c: char) -> (r: (TerminalState, Option<char>))
    ensures
        r.0 == terminal_step(state, c).0,
        terminal_step(state, c).1 == match r.1 {
            Some(shown) => seq![shown],
            None => seq![],
        },
{
    match state {
        TerminalState::Text => if c == '\u{1b}' {
            (TerminalState::Escape, None)
        } else if c == '\n' || c == '\t' {
            (TerminalState::Text, Some(c))
        } else if c == '\r' {
            (TerminalState::Text, Some('\n'))
        } else if !control(c) {
            (TerminalState::Text, Some(c))
        } else {
            (TerminalState::Text, None)
        },
        TerminalState::Escape => if c == '[' {
            (TerminalState::Csi, None)
        } else if c == ']' {
            (TerminalState::Osc, None)
        } else {
            (TerminalState::Text, None)
        },
        TerminalState::Csi => if '@' <= c && c <= '~' {
            (TerminalState::Text, None)
        } else {
            (TerminalState::Csi, None)
        },
        TerminalState::Osc => if c == '\u{7}' {
            (TerminalState::Text, None)
        } else if c == '\u{1b}' {
            (TerminalState::OscEscape, None)
        } else {
            (TerminalState::Osc, None)
        },
        TerminalState::OscEscape => if c == '\\' {
            (TerminalState::Text, None)
        } else {
            (TerminalState::Osc, None)
        },
    }
}

fn normalize(output: &Vec<char>) -> (r: Vec<char>)
    ensures
        r@ == normalized(output@),
{
    let mut out: Vec<char> = Vec::new();
    let mut i: usize = 0;
    assert(output@.skip(0) =~= output@);
    assert(out@ + normalized(output@) =~= normalized(output@));
    while i < output.len()
        invariant
            i <= output@.len(),
            out@ + normalized(output@.skip(i as int)) == normalized(output@),
        decreases output@.len() - i,
    {
        let ghost rest = output@.skip(i as int);
        assert(rest.skip(1) =~= output@.skip(i + 1));
        let c = output[i];
        let dropped = c == '\r' && i + 1 < output.len() && output[i + 1] == '\n';
        if !dropped {
            let ghost before = out@;
            out.push(c);
            assert(out@ + normalized(rest.skip(1)) =~= before + (seq![c] + normalized(
                rest.skip(1),
            )));
        }
        i += 1;
    }
    assert(output@.skip(i as int) =~= seq![]);
    assert(out@ + normalized(seq![]) =~= out@);
    out
}

/// Output as plain text.
pub fn strip_terminal_controls(input: &str) -> (r: String)
    ensures
        r@ == plain(input@),
{
    let chars = normalize(&chars_of(input));
    let mut state = TerminalState::Text;
    let mut output = String::new();
    let mut i: usize = 0;
    assert(chars@.take(0) =~= seq![]);
    while i < chars.len()
        invariant
            i <= chars@.len(),
            (state, output@) == terminal_scan(chars@.take(i as int)),
        decreases chars@.len() - i,
    {
        let ghost before = output@;
        let (next, shown) = advance(state, chars[i]);
        assert(chars@.take(i + 1).drop_last() =~= chars@.take(i as int));
        state = next;
        if let Some(c) = shown {
            output.push(c);
            assert(before + seq![c] =~= before.push(c));
        } else {
            assert(before + seq![] =~= before);
        }
        i += 1;
    }
    assert(chars@.take(i as int) =~= chars@);
    output
}

/// The end of the terminal's output as plain text.
pub open spec fn transcript(raw: Seq<u8>) -> Seq<char> {
    suffix(plain(lossy(raw)), (TUTOR_TRANSCRIPT_LIMIT + 1) as nat)
}

/// The end of the terminal's output as plain text: the last of its characters, one more than the
/// limit, or all of them where there are no more.
pub fn tutor_transcript(raw: &[u8]) -> (r: String)
    ensures
        r@ == transcript(raw@),
{
    let shown = strip_terminal_controls(&from_utf8_lossy(raw));
    let chars = chars_of(&shown);
    let keep: usize = TUTOR_TRANSCRIPT_LIMIT + 1;
    if chars.len() > keep {
        let start: usize = chars.len() - keep;
        let end = &chars[start..chars.len()];
        assert(end@ =~= chars@.skip(start as int));
        text_of(end)
    } else {
        shown
    }
}

proof fn lemma_scan_is_plain(output: Seq<char>)
    ensures
        forall|i: int|
            0 <= i < terminal_scan(output).1.len() ==> is_plain(
                #[trigger] terminal_scan(output).1[i],
            ),
    decreases output.len(),
{
    if output.len() > 0 {
        lemma_scan_is_plain(output.drop_last());
        let (state, shown) = terminal_scan(output.drop_last());
        let (_, more) = terminal_step(state, output.last());
        assert forall|i: int| 0 <= i < (shown + more).len() implies is_plain(
            #[trigger] (shown + more)[i],
        ) by {
            if i < shown.len() {
                assert((shown + more)[i] == shown[i]);
            }
        }
    }
}

proof fn lemma_normalized_keeps_plain(output: Seq<char>)
    requires
        forall|i: int| 0 <= i < output.len() ==> is_plain(#[trigger] output[i]),
    ensures
        normalized(output) == output,
    decreases output.len(),
{
    if output.len() > 0 {
        assert(is_plain(output[0]));
        assert forall|i: int| 0 <= i < output.skip(1).len() implies is_plain(
            #[trigger] output.skip(1)[i],
        ) by {
            assert(output.skip(1)[i] == output[i + 1]);
        }
        lemma_normalized_keeps_plain(output.skip(1));
    }
    assert(normalized(output) =~= output);
}

proof fn lemma_scan_keeps_plain(output: Seq<char>)
    requires
        forall|i: int| 0 <= i < output.len() ==> is_plain(#[trigger] output[i]),
    ensures
        terminal_scan(output) == (TerminalState::Text, output),
    decreases output.len(),
{
    if output.len() > 0 {
        lemma_scan_keeps_plain(output.drop_last());
        assert(is_plain(output[output.len() - 1]));
        assert(output.drop_last() + seq![output.last()] =~= output);
    } else {
        assert(output =~= seq![]);
    }
}

/// Plain text holds no control code but the line feed and the tab.
pub proof fn law_plain_text_has_no_controls(output: Seq<char>)
    ensures
        forall|i: int| 0 <= i < plain(output).len() ==> is_plain(#[trigger] plain(output)[i]),
{
    lemma_scan_is_plain(normalized(output));
}

/// Text without control codes but line feeds and tabs is kept as it is.
pub proof fn law_plain_text_is_kept(output: Seq<char>)
    requires
        forall|i: int| 0 <= i < output.len() ==> is_plain(#[trigger] output[i]),
    ensures
        plain(output) == output,
{
    lemma_normalized_keeps_plain(output);
    lemma_scan_keeps_plain(output);
}

/// Making plain text plain again changes nothing.
pub proof fn law_stripping_twice_is_stripping_once(output: Seq<char>)
    ensures
        plain(plain(output)) == plain(output),
{
    law_plain_text_has_no_controls(output);
    law_plain_text_is_kept(plain(output));
}

/// A transcript is plain text of bounded length.
pub proof fn law_transcript_is_plain_and_bounded(raw: Seq<u8>)
    ensures
        transcript(raw).len() <= TUTOR_TRANSCRIPT_LIMIT + 1,
        forall|i: int| 0 <= i < transcript(raw).len() ==> is_plain(#[trigger] transcript(raw)[i]),
{
    law_plain_text_has_no_controls(lossy(raw));
    let shown = plain(lossy(raw));
    assert forall|i: int| 0 <= i < transcript(raw).len() implies is_plain(
        #[trigger] transcript(raw)[i],
    ) by {
        let j = i + shown.len() - transcript(raw).len();
        assert(transcript(raw)[i] == shown[j]);
    }
}

/// How an attempt to write to a terminal turned out.
#[derive(Debug, Clone, Copy, PartialEq, Eq, Structural)]
pub enum WriteOutcome {
    /// Some bytes were taken.
    Wrote(usize),
    /// The terminal takes nothing at the moment.
    WouldBlock,
    /// The terminal cannot be written to.
    Failed,
}

/// What is to be done next to write everything.
#[derive(Debug, Clone, Copy, PartialEq, Eq, Structural)]
pub enum WriteStep {
    /// Write what is left from this position on.
    Write(usize),
    /// Give others a turn, and write what is left from this position on.
    Wait(usize),
    /// Nothing; everything is written.
    Done,
    /// Nothing; the terminal takes no more bytes.
    TakesNothing,
    /// Nothing; the terminal cannot be written to.
    Fail,
}

/// What is to be done first to write some bytes.
pub open spec fn first_write(length: nat) -> WriteStep {
    if length == 0 {
        WriteStep::Done
    } else {
        WriteStep::Write(0)
    }
}

/// What is to be done after an attempt to write what was left from a position on.
pub open spec fn next_write(length: nat, position: nat, outcome: WriteOutcome) -> WriteStep {
    match outcome {
        WriteOutcome::Wrote(count) => if count == 0 {
            WriteStep::TakesNothing
        } else if position + count >= length {
            WriteStep::Done
        } else {
            WriteStep::Write((position + count) as usize)
        },
        WriteOutcome::WouldBlock => WriteStep::Wait(position as usize),
        WriteOutcome::Failed => WriteStep::Fail,
    }
}

/// What is to be done first to write some bytes.
pub fn start_writing(length: usize) -> (r: WriteStep)
    ensures
        r == first_write(length as nat),
{
    if length == 0 {
        WriteStep::Done
    } else {
        WriteStep::Write(0)
    }
}

/// What is to be done after an attempt to write what was left from a position on. No more bytes
/// are taken than were left.
pub fn go_on_writing(length: usize, position: usize, outcome: WriteOutcome) -> (r: WriteStep)
    requires
        position <= length,
        outcome matches WriteOutcome::Wrote(count) ==> count <= length - position,
    ensures
        r == next_write(length as nat, position as nat, outcome),
{
    match outcome {
        WriteOutcome::Wrote(count) => if count == 0 {
            WriteStep::TakesNothing
        } else if position + count >= length {
            WriteStep::Done
        } else {
            WriteStep::Write(position + count)
        },
        WriteOutcome::WouldBlock => WriteStep::Wait(position),
        WriteOutcome::Failed => WriteStep::Fail,
    }
}

/// The bytes that a terminal has taken after some attempts, which were made from a position on.
pub open spec fn taken(
    bytes: Seq<u8>,
    step: WriteStep,
    outcomes: Seq<WriteOutcome>,
) -> (Seq<u8>, WriteStep)
    decreases outcomes.len(),
{
    match step {
        WriteStep::Write(position) | WriteStep::Wait(position) => if outcomes.len() == 0 {
            (seq![], step)
        } else {
            let next = next_write(bytes.len(), position as nat, outcomes[0]);
            let now = match outcomes[0] {
                WriteOutcome::Wrote(count) => bytes.subrange(
                    position as int,
                    position + count,
                ),
                _ => seq![],
            };
            let (later, end) = taken(bytes, next, outcomes.skip(1));
            (now + later, end)
        },
        _ => (seq![], step),
    }
}

/// Whether no attempt takes more bytes than were left.
pub open spec fn attempts_fit(bytes: Seq<u8>, step: WriteStep, outcomes: Seq<WriteOutcome>) -> bool
    decreases outcomes.len(),
{
    match step {
        WriteStep::Write(position) | WriteStep::Wait(position) => outcomes.len() == 0 || {
            &&& outcomes[0] matches WriteOutcome::Wrote(count) ==> count <= bytes.len() - position
            &&& attempts_fit(
                bytes,
                next_write(bytes.len(), position as nat, outcomes[0]),
                outcomes.skip(1),
            )
        },
        _ => true,
    }
}

proof fn lemma_taken(bytes: Seq<u8>, step: WriteStep, position: usize, outcomes: Seq<WriteOutcome>)
    requires
        step == WriteStep::Write(position) || step == WriteStep::Wait(position),
        position < bytes.len() <= usize::MAX,
        attempts_fit(bytes, step, outcomes),
    ensures
        taken(bytes, step, outcomes).0.is_prefix_of(bytes.skip(position as int)),
        taken(bytes, step, outcomes).1 == WriteStep::Done ==> taken(bytes, step, outcomes).0
            == bytes.skip(position as int),
    decreases outcomes.len(),
{
    let rest = bytes.skip(position as int);
    if outcomes.len() > 0 {
        let next = next_write(bytes.len(), position as nat, outcomes[0]);
        let (later, end) = taken(bytes, next, outcomes.skip(1));
        match outcomes[0] {
            WriteOutcome::Wrote(count) => {
                let now = bytes.subrange(position as int, position + count);
                assert(now =~= rest.take(count as int));
                if count > 0 && position + count < bytes.len() {
                    let reached = (position + count) as usize;
                    lemma_taken(bytes, next, reached, outcomes.skip(1));
                    assert(bytes.skip(reached as int) =~= rest.skip(count as int));
                    assert((now + later).is_prefix_of(rest)) by {
                        assert(now + later =~= rest.take((now + later).len() as int));
                    }
                    if end == WriteStep::Done {
                        assert(now + later =~= rest);
                    }
                } else {
                    assert(now + later =~= now);
                    if count > 0 {
                        assert(now =~= rest);
                    }
                }
            },
            WriteOutcome::WouldBlock => {
                lemma_taken(bytes, next, position, outcomes.skip(1));
                assert(seq![] + later =~= later);
            },
            WriteOutcome::Failed => {
                assert(seq![] + later =~= seq![]);
            },
        }
    }
}

/// However a terminal takes the bytes, it takes them in their order and each once, and where
/// writing is done it has taken all of them.
pub proof fn law_everything_is_written_once(bytes: Seq<u8>, outcomes: Seq<WriteOutcome>)
    requires
        bytes.len() <= usize::MAX,
        attempts_fit(bytes, first_write(bytes.len()), outcomes),
    ensures
        taken(bytes, first_write(bytes.len()), outcomes).0.is_prefix_of(bytes),
        taken(bytes, first_write(bytes.len()), outcomes).1 == WriteStep::Done ==> taken(
            bytes,
            first_write(bytes.len()),
            outcomes,
        ).0 == bytes,
{
    if bytes.len() > 0 {
        lemma_taken(bytes, first_write(bytes.len()), 0, outcomes);
        assert(bytes.skip(0) =~= bytes);
    }
}

proof fn lemma_scan_behind_text(first: Seq<char>, second: Seq<char>)
    requires
        terminal_scan(first).0 == TerminalState::Text,
    ensures
        terminal_scan(first + second) == (
            terminal_scan(second).0,
            terminal_scan(first).1 + terminal_scan(second).1,
        ),
    decreases second.len(),
{
    let shown = terminal_scan(first).1;
    if second.len() == 0 {
        assert(first + second =~= first);
        assert(shown + terminal_scan(second).1 =~= shown);
    } else {
        let front = second.drop_last();
        assert((first + second).drop_last() =~= first + front);
        lemma_scan_behind_text(first, front);
        let (state, before) = terminal_scan(front);
        let (_, more) = terminal_step(state, second.last());
        assert((shown + before) + more =~= shown + (before + more));
    }
}

proof fn lemma_scan_without_escapes(output: Seq<char>)
    requires
        forall|i: int| 0 <= i < output.len() ==> #[trigger] output[i] != '\u{1b}',
    ensures
        terminal_scan(output).0 == TerminalState::Text,
    decreases output.len(),
{
    if output.len() > 0 {
        let front = output.drop_last();
        assert forall|i: int| 0 <= i < front.len() implies #[trigger] front[i] != '\u{1b}' by {
            assert(front[i] == output[i]);
        }
        lemma_scan_without_escapes(front);
        assert(output[output.len() - 1] != '\u{1b}');
    }
}

proof fn lemma_normalized_keeps_no_escapes(output: Seq<char>)
    requires
        forall|i: int| 0 <= i < output.len() ==> #[trigger] output[i] != '\u{1b}',
    ensures
        forall|i: int|
            0 <= i < normalized(output).len() ==> #[trigger] normalized(output)[i] != '\u{1b}',
    decreases output.len(),
{
    if output.len() > 0 {
        let rest = output.skip(1);
        assert forall|i: int| 0 <= i < rest.len() implies #[trigger] rest[i] != '\u{1b}' by {
            assert(rest[i] == output[i + 1]);
        }
        lemma_normalized_keeps_no_escapes(rest);
        assert(output[0] != '\u{1b}');
        let text = normalized(output);
        assert forall|i: int| 0 <= i < text.len() implies #[trigger] text[i] != '\u{1b}' by {
            if text != normalized(rest) && i > 0 {
                assert(text[i] == normalized(rest)[i - 1]);
            }
        }
    }
}

/// Whether a line end stands across the border between two pieces of output.
pub open spec fn line_end_is_split(first: Seq<char>, second: Seq<char>) -> bool {
    first.len() > 0 && first.last() == '\r' && second.len() > 0 && second[0] == '\n'
}

proof fn lemma_normalized_pieces(first: Seq<char>, second: Seq<char>)
    requires
        !line_end_is_split(first, second),
    ensures
        normalized(first + second) == normalized(first) + normalized(second),
    decreases first.len(),
{
    let whole = first + second;
    if first.len() == 0 {
        assert(whole =~= second);
        assert(normalized(first) + normalized(second) =~= normalized(second));
    } else {
        let rest = first.skip(1);
        assert(whole.skip(1) =~= rest + second);
        lemma_normalized_pieces(rest, second);
        assert(whole[0] == first[0]);
        if first.len() > 1 {
            assert(whole[1] == first[1]);
        } else if second.len() > 0 {
            assert(whole[1] == second[0]);
        }
        assert(normalized(whole) =~= normalized(first) + normalized(second));
    }
}

/// Output that comes in pieces shows as what its pieces show as, where the first piece holds no
/// escape sequence and no line end is split.
pub proof fn law_plain_text_comes_piece_by_piece(first: Seq<char>, second: Seq<char>)
    requires
        forall|i: int| 0 <= i < first.len() ==> #[trigger] first[i] != '\u{1b}',
        !line_end_is_split(first, second),
    ensures
        plain(first + second) == plain(first) + plain(second),
{
    lemma_normalized_pieces(first, second);
    lemma_normalized_keeps_no_escapes(first);
    lemma_scan_without_escapes(normalized(first));
    lemma_scan_behind_text(normalized(first), normalized(second));
}

/// Whether a text is made of the characters of another at some positions, in their order.
pub open spec fn picks(positions: Seq<int>, text: Seq<char>, from: Seq<char>) -> bool {
    &&& positions.len() == text.len()
    &&& forall|i: int|
        0 <= i < text.len() ==> 0 <= #[trigger] positions[i] < from.len() && from[positions[i]]
            == text[i]
    &&& forall|i: int, j: int|
        0 <= i < j < text.len() ==> #[trigger] positions[i] < #[trigger] positions[j]
}

/// Output with a line feed for each carriage return.
pub open spec fn with_line_feeds(output: Seq<char>) -> Seq<char> {
    output.map_values(
        |c: char|
            if c == '\r' {
                '\n'
            } else {
                c
            },
    )
}

proof fn lemma_scan_picks(output: Seq<char>) -> (positions: Seq<int>)
    ensures
        picks(positions, terminal_scan(output).1, with_line_feeds(output)),
    decreases output.len(),
{
    if output.len() == 0 {
        seq![]
    } else {
        let front = output.drop_last();
        let before = lemma_scan_picks(front);
        let (state, shown) = terminal_scan(front);
        let (_, more) = terminal_step(state, output.last());
        let from = with_line_feeds(output);
        assert(forall|i: int| 0 <= i < front.len() ==> with_line_feeds(front)[i] == from[i]);
        if more.len() == 0 {
            assert(shown + more =~= shown);
            assert(picks(before, shown, from));
            before
        } else {
            let after = before.push(output.len() - 1);
            assert(more =~= seq![from.last()]);
            assert(picks(after, shown + more, from)) by {
                assert forall|i: int| 0 <= i < (shown + more).len() implies 0
                    <= #[trigger] after[i] < from.len() && from[after[i]] == (shown + more)[i] by {
                    if i < shown.len() {
                        assert(after[i] == before[i]);
                    }
                }
            }
            after
        }
    }
}

proof fn lemma_normalized_picks(output: Seq<char>) -> (positions: Seq<int>)
    ensures
        picks(positions, normalized(output), output),
    decreases output.len(),
{
    if output.len() == 0 {
        seq![]
    } else {
        let rest = output.skip(1);
        let later = lemma_normalized_picks(rest);
        let moved = later.map_values(|i: int| i + 1);
        let tail = normalized(rest);
        assert forall|i: int| 0 <= i < tail.len() implies 0 <= #[trigger] moved[i] < output.len()
            && output[moved[i]] == tail[i] by {
            assert(later[i] + 1 == moved[i]);
            assert(rest[later[i]] == tail[i]);
        }
        assert forall|i: int, j: int| 0 <= i < j < tail.len() implies #[trigger] moved[i]
            < #[trigger] moved[j] by {
            assert(later[i] < later[j]);
        }
        if output[0] == '\r' && output.len() > 1 && output[1] == '\n' {
            moved
        } else {
            let all = seq![0int] + moved;
            let text = normalized(output);
            assert forall|i: int| 0 <= i < text.len() implies 0 <= #[trigger] all[i] < output.len()
                && output[all[i]] == text[i] by {
                if i > 0 {
                    assert(all[i] == moved[i - 1]);
                    assert(text[i] == tail[i - 1]);
                }
            }
            assert forall|i: int, j: int| 0 <= i < j < text.len() implies #[trigger] all[i]
                < #[trigger] all[j] by {
                assert(all[j] == moved[j - 1]);
                assert(later[j - 1] + 1 == moved[j - 1]);
                if i > 0 {
                    assert(all[i] == moved[i - 1]);
                }
            }
            all
        }
    }
}

/// Nothing is added to output to show it as plain text: each character that is shown stands in the
/// output, in the same order, a carriage return counting as a line feed.
pub proof fn law_plain_text_stands_in_the_output(output: Seq<char>)
    ensures
        exists|positions: Seq<int>| picks(positions, plain(output), with_line_feeds(output)),
{
    let kept = normalized(output);
    let inner = lemma_scan_picks(kept);
    let outer = lemma_normalized_picks(output);
    let shown = plain(output);
    let positions = Seq::new(shown.len(), |i: int| outer[inner[i]]);
    let from = with_line_feeds(output);
    assert forall|i: int| 0 <= i < shown.len() implies 0 <= #[trigger] positions[i] < from.len()
        && from[positions[i]] == shown[i] by {
        let k = inner[i];
        assert(with_line_feeds(kept)[k] == shown[i]);
        assert(output[outer[k]] == kept[k]);
    }
    assert forall|i: int, j: int| 0 <= i < j < shown.len() implies #[trigger] positions[i]
        < #[trigger] positions[j] by {
        assert(inner[i] < inner[j]);
        assert(outer[inner[i]] < outer[inner[j]]);
    }
    assert(picks(positions, shown, from));
}

} // verus!
