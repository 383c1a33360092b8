//! What holds of the conversation with the debugger: how its text is cut into lines, what is done
//! about a line, and how it is launched.

use crate::debugger::{
    finished, launch_arguments_of, law_lines_do_not_depend_on_pieces, record_lines, record_step,
    unfinished, without_returns, DebuggerOutputView, SessionView,
};
use crate::mi::{line_record, MiError, RecordTree};
use crate::text::decimal;
use vstd::prelude::*;

verus! {

/// Whether a text holds no line feed.
pub open spec fn is_one_line(line: Seq<char>) -> bool {
    !line.contains('\n')
}

proof fn lemma_one_line(line: Seq<char>)
    requires
        is_one_line(line),
    ensures
        finished(line) == Seq::<Seq<char>>::empty(),
        unfinished(line) == line,
    decreases line.len(),
{
    if line.len() > 0 {
        let front = line.drop_last();
        assert(line[line.len() - 1] != '\n');
        assert(is_one_line(front)) by {
            if front.contains('\n') {
                let i = choose|i: int| 0 <= i < front.len() && front[i] == '\n';
                assert(line[i] == '\n');
            }
        }
        lemma_one_line(front);
        assert(front.push(line.last()) =~= line);
    } else {
        assert(line =~= seq![]);
    }
}

/// A text is cut at its line feeds: each line comes out as it stands between them, in its order,
/// and what follows the last line feed is left for later.
pub proof fn law_lines_end_at_line_feeds(line: Seq<char>, rest: Seq<char>)
    requires
        is_one_line(line),
    ensures
        finished(line) == Seq::<Seq<char>>::empty(),
        unfinished(line) == line,
        finished(line + seq!['\n'] + rest) == seq![line] + finished(rest),
        unfinished(line + seq!['\n'] + rest) == unfinished(rest),
{
    lemma_one_line(line);
    let first = line + seq!['\n'];
    assert(first.drop_last() =~= line);
    assert(finished(first) =~= seq![line]);
    assert(unfinished(first) =~= seq![]);
    law_lines_do_not_depend_on_pieces(first, rest);
    assert(Seq::<char>::empty() + rest =~= rest);
}

proof fn lemma_without_returns(line: Seq<char>, ends: Seq<char>)
    requires
        line.len() > 0 ==> line.last() != '\r',
        forall|i: int| 0 <= i < ends.len() ==> #[trigger] ends[i] == '\r',
    ensures
        without_returns(line + ends) == line,
    decreases ends.len(),
{
    if ends.len() == 0 {
        assert(line + ends =~= line);
    } else {
        assert(ends[ends.len() - 1] == '\r');
        assert((line + ends).drop_last() =~= line + ends.drop_last());
        assert forall|i: int| 0 <= i < ends.drop_last().len() implies
            #[trigger] ends.drop_last()[i] == '\r' by {
            assert(ends[i] == '\r');
        }
        lemma_without_returns(line, ends.drop_last());
    }
}

/// A line that comes over the machine interface is taken in without the carriage returns at its
/// end, and not at all where nothing else stands in it. What is done about it is what is done about
/// the line.
pub proof fn law_whole_lines_are_taken_in(
    session: SessionView,
    line: Seq<char>,
    ends: Seq<char>,
)
    requires
        session.pending.len() == 0,
        is_one_line(line),
        line.len() > 0 ==> line.last() != '\r',
        forall|i: int| 0 <= i < ends.len() ==> #[trigger] ends[i] == '\r',
    ensures
        session.after_text(line + ends + seq!['\n']) == if line.len() > 0 {
            session.after_line(line)
        } else {
            session
        },
        session.text_outputs(line + ends + seq!['\n']) == if line.len() > 0 {
            session.line_outputs(line)
        } else {
            seq![]
        },
{
    let whole = line + ends;
    let text = whole + seq!['\n'];
    assert(session.pending + text =~= text);
    assert(session.pending =~= seq![]);
    assert(is_one_line(whole)) by {
        if whole.contains('\n') {
            let i = choose|i: int| 0 <= i < whole.len() && whole[i] == '\n';
            if i < line.len() {
                assert(line[i] == '\n');
            } else {
                assert(ends[i - line.len()] == '\n');
            }
        }
    }
    law_lines_end_at_line_feeds(whole, seq![]);
    assert(text + Seq::<char>::empty() =~= text);
    assert(finished(Seq::<char>::empty()) =~= seq![]);
    assert(seq![whole] + finished(seq![]) =~= seq![whole]);
    lemma_without_returns(line, ends);
    let f = |line: Seq<char>|
        if without_returns(line).len() > 0 {
            Some(without_returns(line))
        } else {
            None
        };
    reveal_with_fuel(Seq::filter_map, 2);
    assert(seq![whole].drop_last() =~= seq![]);
    assert(seq![whole].last() == whole);
    let lines = record_lines(seq![whole]);
    if line.len() > 0 {
        assert(lines =~= seq![line]);
        reveal_with_fuel(SessionView::after_lines, 2);
        reveal_with_fuel(SessionView::lines_outputs, 2);
        assert(seq![line].drop_last() =~= seq![]);
        let started = session.with_text(text);
        assert(started == session);
        assert(Seq::<DebuggerOutputView>::empty() + session.line_outputs(line)
            =~= session.line_outputs(line));
    } else {
        assert(lines =~= seq![]);
        assert(session.with_text(text) == session);
    }
}

/// About a line that holds a record, the changed snapshot is published first, and then each query
/// is put to the machine interface behind a token of its own, in its order. The tokens go on from
/// the last one.
pub proof fn law_queries_follow_the_snapshot(
    session: SessionView,
    line: Seq<char>,
    record: RecordTree,
    k: int,
)
    requires
        line_record(line) == Ok::<RecordTree, MiError>(record),
        0 <= k < record_step(session.known, record).queries.len(),
    ensures
        ({
            let step = record_step(session.known, record);
            let outputs = session.line_outputs(line);
            let first: int = if step.publish {
                1
            } else {
                0
            };
            &&& outputs.len() == first + step.queries.len()
            &&& step.publish ==> outputs[0] == DebuggerOutputView::Publish(step.known.snapshot)
            &&& outputs[first + k] == DebuggerOutputView::Ask(
                decimal((session.next_token + k + 1) as nat) + step.queries[k] + "\n"@,
            )
            &&& session.after_line(line).next_token == session.next_token + step.queries.len()
            &&& session.after_line(line).known == step.known
            &&& session.after_line(line).pending == session.pending
        }),
{
}

/// A line that holds no record changes nothing, and nothing is asked or published about it.
pub proof fn law_rubbish_is_passed_over(session: SessionView, line: Seq<char>)
    requires
        line_record(line) is Err,
    ensures
        session.after_line(line) == session,
        session.line_outputs(line).len() == 1,
        session.line_outputs(line)[0] is Ignore,
        session.line_outputs(line)[0]->line == line,
{
}

/// A conversation begins with a debugger that is starting, of which nothing is known.
pub proof fn law_nothing_is_known_at_first()
    ensures
        ({
            let start = SessionView::start();
            let snapshot = start.known.snapshot;
            &&& snapshot.state == "starting"@
            &&& snapshot.revision == 0
            &&& !snapshot.stale
            &&& snapshot.stop_reason is None && snapshot.frame is None && snapshot.stack is None
                && snapshot.error is None
            &&& snapshot.frames.len() == 0 && snapshot.registers.len() == 0
                && snapshot.disassembly.len() == 0 && snapshot.breakpoints.len() == 0
            &&& start.known.register_names.len() == 0
            &&& start.pending.len() == 0
            &&& start.next_token == 100
        }),
{
}

/// GDB debugs the program with its arguments, all of them and in their order, and opens its machine
/// interface on the given terminal. Before that it is told to ask for nothing.
pub proof fn law_the_program_is_launched(
    terminal: Seq<char>,
    program: Seq<char>,
    args: Seq<Seq<char>>,
)
    ensures
        ({
            let all = launch_arguments_of(terminal, program, args);
            &&& all.len() == 11 + args.len()
            &&& all.skip(9) == seq!["--args"@, program] + args
            &&& all[7] == "-ex"@ && all[8] == "new-ui mi2 "@ + terminal
            &&& all.take(7) == seq![
                "-q"@,
                "-ex"@,
                "set debuginfod enabled off"@,
                "-ex"@,
                "set pagination off"@,
                "-ex"@,
                "set mi-async on"@,
            ]
        }),
{
    let all = launch_arguments_of(terminal, program, args);
    assert(all.skip(9) =~= seq!["--args"@, program] + args);
    assert(all.take(7) =~= seq![
        "-q"@,
        "-ex"@,
        "set debuginfod enabled off"@,
        "-ex"@,
        "set pagination off"@,
        "-ex"@,
        "set mi-async on"@,
    ]);
}

} // verus!
