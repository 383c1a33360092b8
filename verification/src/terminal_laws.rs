//! What the output of a terminal is made of, and what each piece of it shows as.

use crate::terminal::{
    first_write, next_write, normalized, plain, suffix, terminal_scan, terminal_step, transcript,
    TerminalState, WriteOutcome, WriteStep,
};
use crate::text::lossy;
use vstd::prelude::*;

verus! {

/// A piece of the output of a terminal.
pub enum OutputPiece {
    /// A character that begins no escape sequence.
    Char(char),
    /// A carriage return and a line feed.
    LineEnd,
    /// A control sequence: its parameters, and the character that ends it.
    Control { parameters: Seq<char>, last: char },
    /// A command of the operating system, such as a title, which a bell ends, or else an escape
    /// and a backslash.
    Command { text: Seq<char>, bell: bool },
    /// An escape and one more character.
    Short(char),
}

/// Whether a text can stand in a command of the operating system: it holds no bell, and an escape
/// in it stands before another character than a backslash.
pub open spec fn is_command_text(text: Seq<char>) -> bool
    decreases text.len(),
{
    if text.len() == 0 {
        true
    } else if text[0] == '\u{1b}' {
        text.len() > 1 && text[1] != '\\' && is_command_text(text.skip(2))
    } else {
        text[0] != '\u{7}' && is_command_text(text.skip(1))
    }
}

impl OutputPiece {
    /// Whether a piece is of the kind that it says.
    pub open spec fn well_formed(self) -> bool {
        match self {
            OutputPiece::Char(c) => c != '\u{1b}',
            OutputPiece::LineEnd => true,
            OutputPiece::Control { parameters, last } => {
                &&& forall|i: int|
                    0 <= i < parameters.len() ==> (#[trigger] parameters[i] < '@' || '~'
                        < parameters[i])
                &&& '@' <= last <= '~'
            },
            OutputPiece::Command { text, .. } => is_command_text(text),
            OutputPiece::Short(c) => c != '[' && c != ']',
        }
    }

    /// Whether a piece is an escape sequence.
    pub open spec fn is_sequence(self) -> bool {
        self is Control || self is Command || self is Short
    }

    /// The characters of a piece.
    pub open spec fn chars(self) -> Seq<char> {
        match self {
            OutputPiece::Char(c) => seq![c],
            OutputPiece::LineEnd => seq!['\r', '\n'],
            OutputPiece::Control { parameters, last } => seq!['\u{1b}', '['] + parameters + seq![
                last,
            ],
            OutputPiece::Command { text, bell } => seq!['\u{1b}', ']'] + text + if bell {
                seq!['\u{7}']
            } else {
                seq!['\u{1b}', '\\']
            },
            OutputPiece::Short(c) => seq!['\u{1b}', c],
        }
    }

    /// What a piece shows as: line ends as line feeds, tabs and the characters that are no control
    /// codes as themselves, and everything else as nothing.
    pub open spec fn shown(self) -> Seq<char> {
        match self {
            OutputPiece::Char(c) => if c == '\r' {
                seq!['\n']
            } else if c == '\n' || c == '\t' || ' ' <= c <= '~' || '\u{a0}' <= c {
                seq![c]
            } else {
                seq![]
            },
            OutputPiece::LineEnd => seq!['\n'],
            _ => seq![],
        }
    }
}

/// The characters of some pieces.
pub open spec fn written(pieces: Seq<OutputPiece>) -> Seq<char>
    decreases pieces.len(),
{
    if pieces.len() == 0 {
        seq![]
    } else {
        pieces[0].chars() + written(pieces.skip(1))
    }
}

/// What some pieces show as, one behind the other.
pub open spec fn shows(pieces: Seq<OutputPiece>) -> Seq<char>
    decreases pieces.len(),
{
    if pieces.len() == 0 {
        seq![]
    } else {
        pieces[0].shown() + shows(pieces.skip(1))
    }
}

/// Whether a carriage return at the end of a text stands before a line feed.
pub open spec fn splits_line_end(first: Seq<char>, second: Seq<char>) -> bool {
    first.len() > 0 && first.last() == '\r' && second.len() > 0 && second[0] == '\n'
}

/// Whether pieces make up the output of a terminal: each is of its kind, and no line end lies
/// across two of them.
pub open spec fn is_output(pieces: Seq<OutputPiece>) -> bool
    decreases pieces.len(),
{
    pieces.len() == 0 || {
        &&& pieces[0].well_formed()
        &&& !splits_line_end(pieces[0].chars(), written(pieces.skip(1)))
        &&& is_output(pieces.skip(1))
    }
}

/// The state behind some output, and the text that it shows as, from a state on.
spec fn run(state: TerminalState, output: Seq<char>) -> (TerminalState, Seq<char>)
    decreases output.len(),
{
    if output.len() == 0 {
        (state, seq![])
    } else if output[0] == '\r' && output.len() > 1 && output[1] == '\n' {
        run(state, output.skip(1))
    } else {
        let (next, more) = terminal_step(state, output[0]);
        let (end, later) = run(next, output.skip(1));
        (end, more + later)
    }
}

proof fn lemma_scan_goes_on(before: Seq<char>, output: Seq<char>)
    ensures
        ({
            let (state, shown) = terminal_scan(before);
            let (end, later) = run(state, output);
            terminal_scan(before + normalized(output)) == (end, shown + later)
        }),
    decreases output.len(),
{
    let (state, shown) = terminal_scan(before);
    if output.len() == 0 {
        assert(before + normalized(output) =~= before);
        assert(shown + run(state, output).1 =~= shown);
    } else if output[0] == '\r' && output.len() > 1 && output[1] == '\n' {
        lemma_scan_goes_on(before, output.skip(1));
    } else {
        let c = output[0];
        let longer = before.push(c);
        assert(longer.drop_last() =~= before);
        lemma_scan_goes_on(longer, output.skip(1));
        assert(before + (seq![c] + normalized(output.skip(1))) =~= longer + normalized(
            output.skip(1),
        ));
        let (next, more) = terminal_step(state, c);
        let (_, later) = run(next, output.skip(1));
        assert((shown + more) + later =~= shown + (more + later));
    }
}

proof fn lemma_plain_is_run(output: Seq<char>)
    ensures
        plain(output) == run(TerminalState::Text, output).1,
{
    lemma_scan_goes_on(seq![], output);
    assert(seq![] + normalized(output) =~= normalized(output));
    assert(seq![] + run(TerminalState::Text, output).1 =~= run(TerminalState::Text, output).1);
}

proof fn lemma_run_goes_on(state: TerminalState, first: Seq<char>, second: Seq<char>)
    requires
        !splits_line_end(first, second),
    ensures
        ({
            let (middle, shown) = run(state, first);
            let (end, later) = run(middle, second);
            run(state, first + second) == (end, shown + later)
        }),
    decreases first.len(),
{
    let whole = first + second;
    if first.len() == 0 {
        assert(whole =~= second);
        assert(seq![] + run(state, second).1 =~= run(state, second).1);
    } else {
        let rest = first.skip(1);
        assert(whole.skip(1) =~= rest + second);
        assert(whole[0] == first[0]);
        if first.len() > 1 {
            assert(whole[1] == first[1]);
            assert(rest.last() == first.last());
        } else if second.len() > 0 {
            assert(whole[1] == second[0]);
        }
        if first[0] == '\r' && first.len() > 1 && first[1] == '\n' {
            lemma_run_goes_on(state, rest, second);
        } else {
            let (next, more) = terminal_step(state, first[0]);
            lemma_run_goes_on(next, rest, second);
            let (middle, shown) = run(next, rest);
            let (_, later) = run(middle, second);
            assert(more + (shown + later) =~= (more + shown) + later);
        }
    }
}

proof fn lemma_parameters(parameters: Seq<char>)
    requires
        forall|i: int|
            0 <= i < parameters.len() ==> (#[trigger] parameters[i] < '@' || '~' < parameters[i]),
    ensures
        run(TerminalState::Csi, parameters) == (TerminalState::Csi, Seq::<char>::empty()),
    decreases parameters.len(),
{
    if parameters.len() > 0 {
        let rest = parameters.skip(1);
        assert forall|i: int| 0 <= i < rest.len() implies (#[trigger] rest[i] < '@' || '~'
            < rest[i]) by {
            assert(rest[i] == parameters[i + 1]);
        }
        lemma_parameters(rest);
        assert(parameters[0] < '@' || '~' < parameters[0]);
        assert(run(TerminalState::Csi, parameters).1 =~= seq![]);
    }
}

proof fn lemma_command_text(text: Seq<char>)
    requires
        is_command_text(text),
    ensures
        run(TerminalState::Osc, text) == (TerminalState::Osc, Seq::<char>::empty()),
    decreases text.len(),
{
    reveal_with_fuel(run, 4);
    if text.len() > 0 {
        if text[0] == '\u{1b}' {
            let rest = text.skip(2);
            assert(text.skip(1).skip(1) =~= rest);
            assert(text.skip(1)[0] == text[1]);
            lemma_command_text(rest);
            if text[1] == '\r' && text.len() > 2 && text[2] == '\n' {
                assert(rest[0] == '\n');
                assert(is_command_text(rest));
                assert(is_command_text(rest.skip(1)));
                lemma_command_text(rest.skip(1));
                assert(text.skip(1)[1] == '\n');
                assert(run(TerminalState::OscEscape, rest) == (
                    TerminalState::Osc,
                    Seq::<char>::empty(),
                )) by {
                    assert(run(TerminalState::OscEscape, rest).1 =~= seq![]);
                }
                assert(run(TerminalState::OscEscape, text.skip(1)) == run(
                    TerminalState::OscEscape,
                    rest,
                ));
            } else {
                assert(run(TerminalState::OscEscape, text.skip(1)).0 == TerminalState::Osc);
                assert(run(TerminalState::OscEscape, text.skip(1)).1 =~= seq![]);
            }
            assert(run(TerminalState::Osc, text).1 =~= seq![]);
        } else {
            lemma_command_text(text.skip(1));
            assert(run(TerminalState::Osc, text).1 =~= seq![]);
        }
    }
}

proof fn lemma_two(state: TerminalState, output: Seq<char>)
    requires
        output.len() == 2,
        !(output[0] == '\r' && output[1] == '\n'),
    ensures
        ({
            let (next, first) = terminal_step(state, output[0]);
            let (end, second) = terminal_step(next, output[1]);
            run(state, output) == (end, first + second)
        }),
{
    reveal_with_fuel(run, 3);
    assert(output.skip(1)[0] == output[1]);
    assert(output.skip(1).skip(1) =~= seq![]);
    let (next, first) = terminal_step(state, output[0]);
    let (end, second) = terminal_step(next, output[1]);
    assert(second + Seq::<char>::empty() =~= second);
}

proof fn lemma_one(state: TerminalState, output: Seq<char>)
    requires
        output.len() == 1,
    ensures
        run(state, output) == terminal_step(state, output[0]),
{
    reveal_with_fuel(run, 2);
    assert(output.skip(1) =~= seq![]);
    let (end, shown) = terminal_step(state, output[0]);
    assert(shown + Seq::<char>::empty() =~= shown);
}

proof fn lemma_opening(bracket: char, rest: Seq<char>)
    requires
        bracket == '[' || bracket == ']',
    ensures
        run(TerminalState::Text, seq!['\u{1b}', bracket] + rest) == run(
            if bracket == '[' {
                TerminalState::Csi
            } else {
                TerminalState::Osc
            },
            rest,
        ),
{
    let start = seq!['\u{1b}', bracket];
    lemma_two(TerminalState::Text, start);
    lemma_run_goes_on(TerminalState::Text, start, rest);
    let state = if bracket == '[' {
        TerminalState::Csi
    } else {
        TerminalState::Osc
    };
    assert(Seq::<char>::empty() + Seq::<char>::empty() + run(state, rest).1 =~= run(state, rest).1);
}

proof fn lemma_piece(piece: OutputPiece)
    requires
        piece.well_formed(),
    ensures
        run(TerminalState::Text, piece.chars()) == (TerminalState::Text, piece.shown()),
{
    match piece {
        OutputPiece::Char(c) => {
            lemma_one(TerminalState::Text, piece.chars());
        },
        OutputPiece::LineEnd => {
            let chars = piece.chars();
            lemma_one(TerminalState::Text, chars.skip(1));
            assert(run(TerminalState::Text, chars) == run(TerminalState::Text, chars.skip(1)));
        },
        OutputPiece::Control { parameters, last } => {
            let end = seq![last];
            lemma_parameters(parameters);
            lemma_one(TerminalState::Csi, end);
            lemma_run_goes_on(TerminalState::Csi, parameters, end);
            assert(piece.chars() =~= seq!['\u{1b}', '['] + (parameters + end));
            lemma_opening('[', parameters + end);
            assert(Seq::<char>::empty() + Seq::<char>::empty() =~= Seq::<char>::empty());
        },
        OutputPiece::Command { text, bell } => {
            let end = if bell {
                seq!['\u{7}']
            } else {
                seq!['\u{1b}', '\\']
            };
            lemma_command_text(text);
            if bell {
                lemma_one(TerminalState::Osc, end);
            } else {
                lemma_two(TerminalState::Osc, end);
            }
            lemma_run_goes_on(TerminalState::Osc, text, end);
            assert(piece.chars() =~= seq!['\u{1b}', ']'] + (text + end));
            lemma_opening(']', text + end);
            assert(Seq::<char>::empty() + Seq::<char>::empty() =~= Seq::<char>::empty());
        },
        OutputPiece::Short(c) => {
            lemma_two(TerminalState::Text, piece.chars());
            assert(Seq::<char>::empty() + Seq::<char>::empty() =~= Seq::<char>::empty());
        },
    }
}

proof fn lemma_pieces(pieces: Seq<OutputPiece>)
    requires
        is_output(pieces),
    ensures
        run(TerminalState::Text, written(pieces)) == (TerminalState::Text, shows(pieces)),
    decreases pieces.len(),
{
    if pieces.len() > 0 {
        lemma_piece(pieces[0]);
        lemma_pieces(pieces.skip(1));
        lemma_run_goes_on(TerminalState::Text, pieces[0].chars(), written(pieces.skip(1)));
    }
}

/// Output shows as what its pieces show as: what can be read stands in the transcript, in its
/// order, and escape sequences and other control codes leave nothing behind.
pub proof fn law_output_shows_as_its_pieces(pieces: Seq<OutputPiece>)
    requires
        is_output(pieces),
    ensures
        plain(written(pieces)) == shows(pieces),
{
    lemma_pieces(pieces);
    lemma_plain_is_run(written(pieces));
}

/// An escape sequence shows as nothing, wherever it stands behind whole pieces, and whatever
/// follows it: a control sequence up to the first character between `@` and `~`, a command of the
/// operating system up to a bell or to an escape and a backslash, and else the one character
/// behind the escape.
pub proof fn law_escape_sequences_show_nothing(
    before: Seq<OutputPiece>,
    sequence: OutputPiece,
    after: Seq<char>,
)
    requires
        is_output(before),
        sequence.well_formed(),
        sequence.is_sequence(),
        !splits_line_end(sequence.chars(), after),
    ensures
        plain(written(before) + sequence.chars() + after) == plain(written(before)) + plain(after),
{
    let start = written(before);
    lemma_pieces(before);
    lemma_piece(sequence);
    lemma_run_goes_on(TerminalState::Text, sequence.chars(), after);
    lemma_run_goes_on(TerminalState::Text, start, sequence.chars() + after);
    assert(start + sequence.chars() + after =~= start + (sequence.chars() + after));
    lemma_plain_is_run(start + sequence.chars() + after);
    lemma_plain_is_run(start);
    lemma_plain_is_run(after);
    assert(Seq::<char>::empty() + plain(after) =~= plain(after));
}

/// Behind whole pieces, whatever follows shows as it would show alone, where no line end is split.
pub proof fn law_whole_pieces_leave_nothing_open(before: Seq<OutputPiece>, after: Seq<char>)
    requires
        is_output(before),
        !splits_line_end(written(before), after),
    ensures
        plain(written(before) + after) == plain(written(before)) + plain(after),
{
    lemma_pieces(before);
    lemma_run_goes_on(TerminalState::Text, written(before), after);
    lemma_plain_is_run(written(before) + after);
    lemma_plain_is_run(written(before));
    lemma_plain_is_run(after);
}

/// A sequence that the output does not end shows as nothing: an escape alone, a control sequence
/// without its last character, and a command of the operating system without its end.
pub proof fn law_open_sequences_show_nothing(
    before: Seq<OutputPiece>,
    parameters: Seq<char>,
    text: Seq<char>,
)
    requires
        is_output(before),
        forall|i: int|
            0 <= i < parameters.len() ==> (#[trigger] parameters[i] < '@' || '~' < parameters[i]),
        is_command_text(text),
    ensures
        plain(written(before) + seq!['\u{1b}']) == plain(written(before)),
        plain(written(before) + (seq!['\u{1b}', '['] + parameters)) == plain(written(before)),
        plain(written(before) + (seq!['\u{1b}', ']'] + text)) == plain(written(before)),
{
    let start = written(before);
    let escape = seq!['\u{1b}'];
    let control = seq!['\u{1b}', '['] + parameters;
    let command = seq!['\u{1b}', ']'] + text;
    law_whole_pieces_leave_nothing_open(before, escape);
    law_whole_pieces_leave_nothing_open(before, control);
    law_whole_pieces_leave_nothing_open(before, command);
    lemma_plain_is_run(escape);
    lemma_plain_is_run(control);
    lemma_plain_is_run(command);
    lemma_one(TerminalState::Text, escape);
    lemma_opening('[', parameters);
    lemma_opening(']', text);
    lemma_parameters(parameters);
    lemma_command_text(text);
    assert(plain(start) + Seq::<char>::empty() =~= plain(start));
}

/// What is kept of output are its last bytes, and as many as there are, up to a mebibyte.
pub proof fn law_replay_keeps_the_last_bytes(output: Seq<u8>)
    ensures
        suffix(output, crate::terminal::REPLAY_LIMIT as nat).is_suffix_of(output),
        suffix(output, crate::terminal::REPLAY_LIMIT as nat).len() == if output.len() <= 1048576 {
            output.len()
        } else {
            1048576
        },
{
    let kept = suffix(output, crate::terminal::REPLAY_LIMIT as nat);
    assert(kept =~= output.subrange(output.len() - kept.len(), output.len() as int));
}

/// A transcript is the end of what the output shows as, and all of it where that is short.
pub proof fn law_transcript_is_the_end_of_the_plain_text(raw: Seq<u8>)
    ensures
        transcript(raw).is_suffix_of(plain(lossy(raw))),
        transcript(raw).len() == if plain(lossy(raw)).len() <= 12289 {
            plain(lossy(raw)).len()
        } else {
            12289
        },
{
    let shown = plain(lossy(raw));
    let kept = transcript(raw);
    assert(kept =~= shown.subrange(shown.len() - kept.len(), shown.len() as int));
}

/// Writing goes on behind what was taken until nothing is left, and again from the same place
/// where the terminal takes nothing at the moment; it ends where the terminal takes no more or
/// cannot be written to.
pub proof fn law_writing_goes_on(length: nat, position: nat, count: usize)
    requires
        position <= length <= usize::MAX,
        count <= length - position,
    ensures
        first_write(length) == if length == 0 {
            WriteStep::Done
        } else {
            WriteStep::Write(0)
        },
        0 < count < length - position ==> next_write(length, position, WriteOutcome::Wrote(count))
            == WriteStep::Write((position + count) as usize),
        0 < count == length - position ==> next_write(length, position, WriteOutcome::Wrote(count))
            == WriteStep::Done,
        next_write(length, position, WriteOutcome::Wrote(0)) == WriteStep::TakesNothing,
        next_write(length, position, WriteOutcome::WouldBlock) == WriteStep::Wait(
            position as usize,
        ),
        next_write(length, position, WriteOutcome::Failed) == WriteStep::Fail,
{
}

} // verus!
