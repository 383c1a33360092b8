//! The journal of a lab: one event per line, in the order in which they happened.

use crate::json::{line_of, number_of, one_line, Json, JsonTree};
use crate::text::{from_utf8_lossy, join2, lossy};
use vstd::prelude::*;

verus! {

/// How many bytes at the end of a journal a write-up is made from.
pub const WRITEUP_CONTEXT_LIMIT: u64 = 2097152;

/// What is said in place of the events that a write-up is not made from.
pub const OMISSION: &'static str =
    "[Earlier journal events omitted due to the 2 MiB context limit.]\n";

/// Where in a journal of some length the part starts that a write-up is made from.
pub open spec fn context_start(length: u64) -> u64 {
    if length <= WRITEUP_CONTEXT_LIMIT {
        0
    } else {
        (length - WRITEUP_CONTEXT_LIMIT) as u64
    }
}

/// Where in a journal of some length the part starts that a write-up is made from.
pub fn writeup_start(length: u64) -> (r: u64)
    ensures
        r == context_start(length),
        r <= length,
        length - r <= WRITEUP_CONTEXT_LIMIT,
{
    length.saturating_sub(WRITEUP_CONTEXT_LIMIT)
}

/// Where the first line feed stands, or the length where there is none.
pub open spec fn first_line_feed(bytes: Seq<u8>) -> nat
    decreases bytes.len(),
{
    if bytes.len() == 0 || bytes[0] == 10 {
        0
    } else {
        1 + first_line_feed(bytes.skip(1))
    }
}

/// What stands behind the first line feed, or everything where there is none.
pub open spec fn from_next_line(bytes: Seq<u8>) -> Seq<u8> {
    if first_line_feed(bytes) < bytes.len() {
        bytes.skip(first_line_feed(bytes) as int + 1)
    } else {
        bytes
    }
}

/// The text that a write-up is made from, by the part of the journal that was read for it and
/// where that part starts.
pub open spec fn context_text(start: u64, bytes: Seq<u8>) -> Seq<char> {
    if start > 0 {
        OMISSION@ + lossy(from_next_line(bytes))
    } else {
        lossy(bytes)
    }
}

/// The text that a write-up is made from. Where earlier events are left out, this is said, and
/// the event that was cut in two is left out as well.
pub fn writeup_context(start: u64, bytes: &[u8]) -> (r: String)
    ensures
        r@ == context_text(start, bytes@),
{
    if start == 0 {
        return from_utf8_lossy(bytes);
    }
    let mut i: usize = 0;
    assert(bytes@.skip(0) =~= bytes@);
    while i < bytes.len() && bytes[i] != 10
        invariant
            i <= bytes@.len(),
            first_line_feed(bytes@) == i + first_line_feed(bytes@.skip(i as int)),
        decreases bytes@.len() - i,
    {
        assert(bytes@.skip(i as int)[0] == bytes@[i as int]);
        assert(bytes@.skip(i as int).skip(1) =~= bytes@.skip(i + 1));
        i += 1;
    }
    assert(first_line_feed(bytes@) == i) by {
        if i < bytes@.len() {
            assert(bytes@.skip(i as int)[0] == bytes@[i as int]);
        }
    }
    let start: usize = if i < bytes.len() {
        i + 1
    } else {
        0
    };
    let rest = &bytes[start..bytes.len()];
    assert(rest@ =~= from_next_line(bytes@));
    join2(OMISSION, &from_utf8_lossy(rest))
}

/// An event in a journal.
pub open spec fn entry_tree(
    timestamp_ms: u64,
    source: Seq<char>,
    kind: Seq<char>,
    data: JsonTree,
) -> JsonTree {
    JsonTree::object().with("timestampMs"@, JsonTree::Number(number_of(timestamp_ms))).with(
        "source"@,
        JsonTree::Text(source),
    ).with("kind"@, JsonTree::Text(kind)).with("data"@, data)
}

/// The line that records an event.
pub fn entry_line(timestamp_ms: u64, source: &str, kind: &str, data: Json) -> (r: Vec<u8>)
    ensures
        r@ == line_of(entry_tree(timestamp_ms, source@, kind@, data.tree())),
        one_line(r@),
{
    let entry = Json::object().with("timestampMs", Json::number(timestamp_ms)).with(
        "source",
        Json::text(source),
    ).with("kind", Json::text(kind)).with("data", data);
    entry.line()
}

/// The bytes of a journal with some lines.
pub open spec fn journal_bytes(lines: Seq<Seq<u8>>) -> Seq<u8>
    decreases lines.len(),
{
    if lines.len() == 0 {
        seq![]
    } else {
        lines[0] + journal_bytes(lines.skip(1))
    }
}

/// Whether some bytes are the last lines of a journal.
pub open spec fn last_lines(lines: Seq<Seq<u8>>, from: int, bytes: Seq<u8>) -> bool {
    0 <= from <= lines.len() && bytes == journal_bytes(lines.skip(from))
}

proof fn lemma_first_line_feed(line: Seq<u8>, rest: Seq<u8>, start: int)
    requires
        one_line(line),
        0 <= start < line.len(),
    ensures
        first_line_feed((line + rest).skip(start)) == line.len() - 1 - start,
    decreases line.len() - start,
{
    let tail = (line + rest).skip(start);
    assert(tail[0] == line[start]);
    if start < line.len() - 1 {
        lemma_first_line_feed(line, rest, start + 1);
        assert(tail.skip(1) =~= (line + rest).skip(start + 1));
    }
}

/// A write-up is made from whole events, and from the latest: what is left of a journal that is
/// cut anywhere are its last lines.
pub proof fn law_context_holds_whole_events(lines: Seq<Seq<u8>>, start: int)
    requires
        forall|i: int| 0 <= i < lines.len() ==> one_line(#[trigger] lines[i]),
        0 <= start <= journal_bytes(lines).len(),
    ensures
        exists|from: int|
            last_lines(lines, from, from_next_line(journal_bytes(lines).skip(start))),
    decreases lines.len(),
{
    let bytes = journal_bytes(lines);
    let cut = bytes.skip(start);
    if start == bytes.len() {
        assert(cut =~= seq![]);
        assert(lines.skip(lines.len() as int) =~= seq![]);
        assert(last_lines(lines, lines.len() as int, from_next_line(cut)));
    } else {
        let line = lines[0];
        let rest = lines.skip(1);
        assert(bytes =~= line + journal_bytes(rest));
        if start < line.len() {
            lemma_first_line_feed(line, journal_bytes(rest), start);
            assert(from_next_line(cut) =~= journal_bytes(rest));
            assert(last_lines(lines, 1, from_next_line(cut)));
        } else {
            assert forall|i: int| 0 <= i < rest.len() implies one_line(#[trigger] rest[i]) by {
                assert(rest[i] == lines[i + 1]);
            }
            law_context_holds_whole_events(rest, start - line.len());
            assert(cut =~= journal_bytes(rest).skip(start - line.len()));
            let from = choose|from: int| last_lines(rest, from, from_next_line(cut));
            assert(rest.skip(from) =~= lines.skip(from + 1));
            assert(last_lines(lines, from + 1, from_next_line(cut)));
        }
    }
}

proof fn lemma_journal_bytes_join(first: Seq<Seq<u8>>, second: Seq<Seq<u8>>)
    ensures
        journal_bytes(first + second) == journal_bytes(first) + journal_bytes(second),
    decreases first.len(),
{
    if first.len() == 0 {
        assert(first + second =~= second);
        assert(journal_bytes(first) + journal_bytes(second) =~= journal_bytes(second));
    } else {
        assert((first + second).skip(1) =~= first.skip(1) + second);
        lemma_journal_bytes_join(first.skip(1), second);
        assert(journal_bytes(first + second) =~= journal_bytes(first) + journal_bytes(second));
    }
}

/// Only the event that is cut in two is left out of what was read: where the cut falls into a line
/// of the journal, all the lines behind it are kept, and nothing else.
pub proof fn law_only_the_cut_event_is_left_out(lines: Seq<Seq<u8>>, k: int, start: int)
    requires
        forall|i: int| 0 <= i < lines.len() ==> one_line(#[trigger] lines[i]),
        0 <= k < lines.len(),
        journal_bytes(lines.take(k)).len() <= start < journal_bytes(lines.take(k + 1)).len(),
    ensures
        from_next_line(journal_bytes(lines).skip(start)) == journal_bytes(lines.skip(k + 1)),
        0 < start <= u64::MAX ==> context_text(start as u64, journal_bytes(lines).skip(start))
            == "[Earlier journal events omitted due to the 2 MiB context limit.]\n"@ + lossy(
            journal_bytes(lines.skip(k + 1)),
        ),
{
    let before = journal_bytes(lines.take(k));
    let line = lines[k];
    let behind = journal_bytes(lines.skip(k + 1));
    assert(lines =~= lines.take(k) + lines.skip(k));
    lemma_journal_bytes_join(lines.take(k), lines.skip(k));
    assert(lines.skip(k).skip(1) =~= lines.skip(k + 1));
    assert(journal_bytes(lines.skip(k)) == line + behind);
    assert(lines.take(k + 1) =~= lines.take(k) + seq![line]);
    lemma_journal_bytes_join(lines.take(k), seq![line]);
    assert(seq![line].skip(1) =~= seq![]);
    assert(journal_bytes(seq![line]) =~= line) by {
        assert(journal_bytes(seq![line].skip(1)) =~= seq![]);
    }
    let inside = start - before.len();
    assert(journal_bytes(lines).skip(start) =~= (line + behind).skip(inside));
    lemma_first_line_feed(line, behind, inside);
    assert(from_next_line(journal_bytes(lines).skip(start)) =~= behind);
}

/// A write-up of a journal that is read whole is made from all of it, with nothing before it.
pub proof fn law_short_journals_are_kept_whole(journal: Seq<u8>)
    requires
        journal.len() <= 2097152,
    ensures
        context_start(journal.len() as u64) == 0,
        context_text(0, journal) == lossy(journal),
{
}

/// A write-up of a longer journal says that events are left out. It is made from the lines that
/// begin in the last two mebibytes, all of them, but for one that begins right there.
pub proof fn law_long_journals_are_kept_from_a_line_on(lines: Seq<Seq<u8>>, k: int)
    requires
        forall|i: int| 0 <= i < lines.len() ==> one_line(#[trigger] lines[i]),
        0 <= k < lines.len(),
        2097152 < journal_bytes(lines).len() <= u64::MAX,
        journal_bytes(lines.take(k)).len() <= journal_bytes(lines).len() - 2097152 < journal_bytes(
            lines.take(k + 1),
        ).len(),
    ensures
        ({
            let journal = journal_bytes(lines);
            let start = context_start(journal.len() as u64);
            &&& start == journal.len() - 2097152
            &&& context_text(start, journal.skip(start as int))
                == "[Earlier journal events omitted due to the 2 MiB context limit.]\n"@ + lossy(
                journal_bytes(lines.skip(k + 1)),
            )
        }),
{
    law_only_the_cut_event_is_left_out(lines, k, journal_bytes(lines).len() - 2097152);
}

/// Where earlier events are left out, what stands behind the first line end of what was read is
/// kept, whatever it is.
pub proof fn law_all_behind_the_first_line_end_is_kept(
    start: u64,
    head: Seq<u8>,
    tail: Seq<u8>,
)
    requires
        start > 0,
        !head.contains(10u8),
    ensures
        context_text(start, head + seq![10u8] + tail)
            == "[Earlier journal events omitted due to the 2 MiB context limit.]\n"@ + lossy(tail),
{
    lemma_line_feed_behind(head, tail);
    let bytes = head + seq![10u8] + tail;
    assert(bytes.skip(head.len() as int + 1) =~= tail);
}

proof fn lemma_line_feed_behind(head: Seq<u8>, tail: Seq<u8>)
    requires
        !head.contains(10u8),
    ensures
        first_line_feed(head + seq![10u8] + tail) == head.len(),
    decreases head.len(),
{
    let bytes = head + seq![10u8] + tail;
    if head.len() > 0 {
        let rest = head.skip(1);
        assert(bytes[0] == head[0]);
        assert(head[0] != 10u8);
        assert(!rest.contains(10u8)) by {
            if rest.contains(10u8) {
                let i = choose|i: int| 0 <= i < rest.len() && rest[i] == 10u8;
                assert(head[i + 1] == 10u8);
            }
        }
        lemma_line_feed_behind(rest, tail);
        assert(bytes.skip(1) =~= rest + seq![10u8] + tail);
    } else {
        assert(bytes[0] == 10u8);
    }
}

/// What is read of a journal without a line end is kept as it is.
pub proof fn law_a_part_without_line_ends_is_kept(bytes: Seq<u8>, start: u64)
    requires
        !bytes.contains(10u8),
        start > 0,
    ensures
        context_text(start, bytes)
            == "[Earlier journal events omitted due to the 2 MiB context limit.]\n"@ + lossy(bytes),
{
    lemma_no_line_feed(bytes);
}

proof fn lemma_no_line_feed(bytes: Seq<u8>)
    requires
        !bytes.contains(10u8),
    ensures
        first_line_feed(bytes) == bytes.len(),
    decreases bytes.len(),
{
    if bytes.len() > 0 {
        let rest = bytes.skip(1);
        assert(bytes[0] != 10u8);
        assert(!rest.contains(10u8)) by {
            if rest.contains(10u8) {
                let i = choose|i: int| 0 <= i < rest.len() && rest[i] == 10u8;
                assert(bytes[i + 1] == 10u8);
            }
        }
        lemma_no_line_feed(rest);
    }
}

proof fn lemma_entry_names()
    ensures
        "timestampMs"@ != "source"@,
        "timestampMs"@ != "kind"@,
        "timestampMs"@ != "data"@,
        "source"@ != "kind"@,
        "source"@ != "data"@,
        "kind"@ != "data"@,
{
    reveal_strlit("timestampMs");
    reveal_strlit("source");
    reveal_strlit("kind");
    reveal_strlit("data");
    assert("timestampMs"@.len() == 11);
    assert("source"@.len() == 6);
    assert("kind"@[0] != "data"@[0]);
}

/// An event in a journal holds when it happened, where it comes from, of what kind it is and what
/// came with it, each as it was given, and nothing else.
pub proof fn law_entries_hold_what_happened(
    timestamp_ms: u64,
    source: Seq<char>,
    kind: Seq<char>,
    data: JsonTree,
    name: Seq<char>,
)
    ensures
        ({
            let entry = entry_tree(timestamp_ms, source, kind, data);
            &&& entry.get("timestampMs"@) == Some(JsonTree::Number(number_of(timestamp_ms)))
            &&& entry.get("source"@) == Some(JsonTree::Text(source))
            &&& entry.get("kind"@) == Some(JsonTree::Text(kind))
            &&& entry.get("data"@) == Some(data)
            &&& entry.get(name) is Some ==> name == "timestampMs"@ || name == "source"@ || name
                == "kind"@ || name == "data"@
        }),
{
    lemma_entry_names();
}

} // verus!
