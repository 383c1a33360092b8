//! What GDB's answers leave in the snapshot of the debugged program: for each kind of answer as it
//! is written, and for each value as it is read.

use crate::debugger::{
    breakpoint_of, breakpoints_of, frame_of, frames_of, instruction_of, instructions_of, memory_of,
    names_of, record_step, register_of, registers_of, unwrapped, Known, SessionView,
};
use crate::mi::{is_word_char, latin, MiTree, RecordTree};
use crate::mi_written::{
    are_readable, fields_meaning, is_word, item_meaning, items_meaning,
    law_async_records_read_back, law_result_records_read_back, record_bytes, results_meaning,
    Written,
};
use crate::protocol::{
    BreakpointView, DebuggerSnapshotView, FrameView, InstructionView, MemoryBlockView,
    RegisterView,
};
use crate::text::{decimal, is_digit, law_decimal_reads_back, lemma_decimal_digits, unsigned};
use vstd::prelude::*;

verus! {

/// The bytes with the numbers of some characters.
pub open spec fn ascii(text: Seq<char>) -> Seq<u8> {
    text.map_values(|c: char| (c as int) as u8)
}

/// Whether each character of a text has the number of a byte.
pub open spec fn is_latin(text: Seq<char>) -> bool {
    forall|i: int| 0 <= i < text.len() ==> '\0' <= #[trigger] text[i] <= '\u{ff}'
}

/// Whether a text is a word, and not an empty one.
pub open spec fn is_name(text: Seq<char>) -> bool {
    text.len() > 0 && forall|i: int| 0 <= i < text.len() ==> is_word_char(#[trigger] text[i])
}

proof fn lemma_latin(text: Seq<char>)
    requires
        is_latin(text),
    ensures
        latin(ascii(text)) == text,
{
    assert forall|i: int| 0 <= i < text.len() implies latin(ascii(text))[i] == text[i] by {
        assert('\0' <= text[i] <= '\u{ff}');
        assert(ascii(text)[i] == text[i] as int);
    }
    assert(latin(ascii(text)) =~= text);
}

proof fn lemma_name(text: Seq<char>)
    requires
        is_name(text),
    ensures
        is_word(ascii(text)),
        latin(ascii(text)) == text,
{
    assert(is_latin(text)) by {
        assert forall|i: int| 0 <= i < text.len() implies '\0' <= #[trigger] text[i] <= '\u{ff}' by {
            assert(is_word_char(text[i]));
        }
    }
    lemma_latin(text);
    assert forall|i: int| 0 <= i < ascii(text).len() implies is_word_char(
        #[trigger] ascii(text)[i] as char,
    ) by {
        assert(latin(ascii(text))[i] == text[i]);
        assert(is_word_char(text[i]));
    }
}

/// The fields of a tuple that hold a text, by their names; those without one are not written.
pub open spec fn text_cells(cells: Seq<(Seq<char>, Option<Seq<char>>)>) -> Seq<(Seq<u8>, Written)>
    decreases cells.len(),
{
    if cells.len() == 0 {
        seq![]
    } else {
        match cells.last().1 {
            Some(text) => text_cells(cells.drop_last()).push(
                (ascii(cells.last().0), Written::Quoted(ascii(text))),
            ),
            None => text_cells(cells.drop_last()),
        }
    }
}

/// A tuple of texts under their names, and of other fields.
pub open spec fn tuple_of(
    cells: Seq<(Seq<char>, Option<Seq<char>>)>,
    more: Seq<(Seq<u8>, Written)>,
) -> Written {
    Written::Tuple(text_cells(cells) + more)
}

/// Whether other fields can stand beside the texts in a tuple: they can be read, and have other
/// names.
pub open spec fn stand_beside(
    more: Seq<(Seq<u8>, Written)>,
    cells: Seq<(Seq<char>, Option<Seq<char>>)>,
) -> bool {
    &&& are_readable(more)
    &&& forall|i: int, k: int|
        0 <= i < more.len() && 0 <= k < cells.len() ==> latin((#[trigger] more[i]).0) != (
        #[trigger] cells[k]).0
}

/// Whether cells can be written: under words, with texts of characters that have the number of a
/// byte.
spec fn can_be_written(cells: Seq<(Seq<char>, Option<Seq<char>>)>) -> bool {
    forall|k: int|
        0 <= k < cells.len() ==> is_name((#[trigger] cells[k]).0) && (cells[k].1 matches Some(text)
            ==> is_latin(text))
}

/// What the last of some fields with a name is, where there is one.
spec fn last_of(fields: Seq<(Seq<u8>, Written)>, name: Seq<char>) -> Option<MiTree>
    decreases fields.len(),
{
    if fields.len() == 0 {
        None
    } else if latin(fields.last().0) == name {
        Some(fields.last().1.meaning())
    } else {
        last_of(fields.drop_last(), name)
    }
}

/// The text of the last of some cells with a name and a text.
spec fn last_text(cells: Seq<(Seq<char>, Option<Seq<char>>)>, name: Seq<char>) -> Option<Seq<char>>
    decreases cells.len(),
{
    if cells.len() == 0 {
        None
    } else if cells.last().0 == name && cells.last().1 is Some {
        cells.last().1
    } else {
        last_text(cells.drop_last(), name)
    }
}

proof fn lemma_fields_meaning_push(
    before: Map<Seq<char>, MiTree>,
    fields: Seq<(Seq<u8>, Written)>,
)
    requires
        fields.len() > 0,
    ensures
        fields_meaning(before, fields) == fields_meaning(before, fields.drop_last()).insert(
            latin(fields.last().0),
            fields.last().1.meaning(),
        ),
    decreases fields.len(),
{
    let rest = fields.subrange(1, fields.len() as int);
    let grown = before.insert(latin(fields[0].0), fields[0].1.meaning());
    if fields.len() == 1 {
        assert(rest =~= seq![]);
        assert(fields.drop_last() =~= seq![]);
        reveal_with_fuel(fields_meaning, 2);
    } else {
        lemma_fields_meaning_push(grown, rest);
        assert(rest.drop_last() =~= fields.drop_last().subrange(
            1,
            fields.drop_last().len() as int,
        ));
        assert(rest.last() == fields.last());
        assert(fields.drop_last()[0] == fields[0]);
    }
}

proof fn lemma_fields_meaning_is_last(fields: Seq<(Seq<u8>, Written)>, name: Seq<char>)
    ensures
        MiTree::Tuple(fields_meaning(Map::empty(), fields)).field(name) == last_of(fields, name),
    decreases fields.len(),
{
    if fields.len() > 0 {
        lemma_fields_meaning_push(Map::empty(), fields);
        lemma_fields_meaning_is_last(fields.drop_last(), name);
    }
}

proof fn lemma_last_of_parts(
    first: Seq<(Seq<u8>, Written)>,
    second: Seq<(Seq<u8>, Written)>,
    name: Seq<char>,
)
    ensures
        last_of(first + second, name) == if last_of(second, name) is Some {
            last_of(second, name)
        } else {
            last_of(first, name)
        },
    decreases second.len(),
{
    if second.len() == 0 {
        assert(first + second =~= first);
    } else {
        assert((first + second).drop_last() =~= first + second.drop_last());
        assert((first + second).last() == second.last());
        lemma_last_of_parts(first, second.drop_last(), name);
    }
}

proof fn lemma_last_of_cells(cells: Seq<(Seq<char>, Option<Seq<char>>)>, name: Seq<char>)
    requires
        can_be_written(cells),
    ensures
        last_of(text_cells(cells), name) == match last_text(cells, name) {
            Some(text) => Some(MiTree::Const(text)),
            None => None,
        },
        are_readable(text_cells(cells)),
    decreases cells.len(),
{
    if cells.len() > 0 {
        let front = cells.drop_last();
        assert forall|k: int| 0 <= k < front.len() implies is_name((#[trigger] front[k]).0) && (
        front[k].1 matches Some(text) ==> is_latin(text)) by {
            assert(front[k] == cells[k]);
        }
        lemma_last_of_cells(front, name);
        assert(cells[cells.len() - 1] == cells.last());
        lemma_name(cells.last().0);
        if let Some(text) = cells.last().1 {
            lemma_latin(text);
            let fields = text_cells(cells);
            assert(fields.drop_last() =~= text_cells(front));
            assert forall|i: int| 0 <= i < fields.len() implies is_word((#[trigger] fields[i]).0)
                && fields[i].1.readable() by {
                if i < fields.len() - 1 {
                    assert(fields[i] == text_cells(front)[i]);
                }
            }
        }
    }
}

proof fn lemma_last_of_others(more: Seq<(Seq<u8>, Written)>, name: Seq<char>)
    requires
        forall|i: int| 0 <= i < more.len() ==> latin((#[trigger] more[i]).0) != name,
    ensures
        last_of(more, name) is None,
    decreases more.len(),
{
    if more.len() > 0 {
        assert(latin(more[more.len() - 1].0) != name);
        let front = more.drop_last();
        assert forall|i: int| 0 <= i < front.len() implies latin((#[trigger] front[i]).0)
            != name by {
            assert(front[i] == more[i]);
        }
        lemma_last_of_others(front, name);
    }
}

/// A tuple of cells is read back: under the name of a cell stands its text.
proof fn lemma_tuple_of(
    cells: Seq<(Seq<char>, Option<Seq<char>>)>,
    more: Seq<(Seq<u8>, Written)>,
)
    requires
        can_be_written(cells),
        stand_beside(more, cells),
    ensures
        tuple_of(cells, more).readable(),
        tuple_of(cells, more).meaning() is Tuple,
        forall|k: int|
            0 <= k < cells.len() ==> tuple_of(cells, more).meaning().field((#[trigger] cells[k]).0)
                == match last_text(cells, cells[k].0) {
                Some(text) => Some(MiTree::Const(text)),
                None => None,
            },
{
    let fields = text_cells(cells) + more;
    lemma_last_of_cells(cells, seq![]);
    assert forall|i: int| 0 <= i < fields.len() implies is_word((#[trigger] fields[i]).0)
        && fields[i].1.readable() by {
        if i < text_cells(cells).len() {
            assert(fields[i] == text_cells(cells)[i]);
        } else {
            assert(fields[i] == more[i - text_cells(cells).len()]);
        }
    }
    assert forall|k: int| 0 <= k < cells.len() implies tuple_of(cells, more).meaning().field(
        (#[trigger] cells[k]).0,
    ) == match last_text(cells, cells[k].0) {
        Some(text) => Some(MiTree::Const(text)),
        None => None,
    } by {
        let name = cells[k].0;
        lemma_last_of_others(more, name);
        lemma_last_of_cells(cells, name);
        lemma_last_of_parts(text_cells(cells), more, name);
        lemma_fields_meaning_is_last(fields, name);
    }
}

proof fn lemma_items_meaning(before: Seq<MiTree>, items: Seq<(Option<Seq<u8>>, Written)>)
    ensures
        items_meaning(before, items) == before + items.map_values(
            |item: (Option<Seq<u8>>, Written)| item_meaning(item.0, item.1.meaning()),
        ),
    decreases items.len(),
{
    let f = |item: (Option<Seq<u8>>, Written)| item_meaning(item.0, item.1.meaning());
    if items.len() == 0 {
        assert(before + items.map_values(f) =~= before);
    } else {
        let rest = items.subrange(1, items.len() as int);
        lemma_items_meaning(before.push(f(items[0])), rest);
        assert(before.push(f(items[0])) + rest.map_values(f) =~= before + items.map_values(f));
    }
}

proof fn lemma_all_found<A, B>(items: Seq<A>, found: Seq<B>, f: spec_fn(A) -> Option<B>)
    requires
        items.len() == found.len(),
        forall|i: int| 0 <= i < items.len() ==> f(#[trigger] items[i]) == Some(found[i]),
    ensures
        items.filter_map(f) == found,
    decreases items.len(),
{
    if items.len() == 0 {
        assert(items.filter_map(f) =~= found);
    } else {
        assert(f(items[items.len() - 1]) == Some(found[found.len() - 1]));
        let front = items.drop_last();
        assert forall|i: int| 0 <= i < front.len() implies f(#[trigger] front[i]) == Some(
            found.drop_last()[i],
        ) by {
            assert(front[i] == items[i]);
        }
        lemma_all_found(front, found.drop_last(), f);
        assert(found.drop_last() + seq![found.last()] =~= found);
    }
}

proof fn lemma_found_parts<A, B>(first: Seq<A>, second: Seq<A>, f: spec_fn(A) -> Option<B>)
    ensures
        (first + second).filter_map(f) == first.filter_map(f) + second.filter_map(f),
    decreases second.len(),
{
    if second.len() == 0 {
        assert(first + second =~= first);
        assert(first.filter_map(f) + second.filter_map(f) =~= first.filter_map(f));
    } else {
        assert((first + second).drop_last() =~= first + second.drop_last());
        assert((first + second).last() == second.last());
        lemma_found_parts(first, second.drop_last(), f);
        if let Some(found) = f(second.last()) {
            assert(first.filter_map(f) + second.drop_last().filter_map(f) + seq![found]
                =~= first.filter_map(f) + (second.drop_last().filter_map(f) + seq![found]));
        }
    }
}

proof fn lemma_word_done()
    ensures
        is_name("done"@),
{
    reveal_strlit("done");
    assert("done"@ =~= seq!['d', 'o', 'n', 'e']);
}

proof fn lemma_word_breakpointtable()
    ensures
        is_name("BreakpointTable"@),
{
    reveal_strlit("BreakpointTable");
    assert("BreakpointTable"@ =~= seq!['B', 'r', 'e', 'a', 'k', 'p', 'o', 'i', 'n', 't', 'T', 'a', 'b', 'l', 'e']);
}

proof fn lemma_word_body()
    ensures
        is_name("body"@),
{
    reveal_strlit("body");
    assert("body"@ =~= seq!['b', 'o', 'd', 'y']);
}

proof fn lemma_word_bkpt()
    ensures
        is_name("bkpt"@),
{
    reveal_strlit("bkpt");
    assert("bkpt"@ =~= seq!['b', 'k', 'p', 't']);
}

proof fn lemma_word_number()
    ensures
        is_name("number"@),
{
    reveal_strlit("number");
    assert("number"@ =~= seq!['n', 'u', 'm', 'b', 'e', 'r']);
}

proof fn lemma_word_enabled()
    ensures
        is_name("enabled"@),
{
    reveal_strlit("enabled");
    assert("enabled"@ =~= seq!['e', 'n', 'a', 'b', 'l', 'e', 'd']);
}

proof fn lemma_word_addr()
    ensures
        is_name("addr"@),
{
    reveal_strlit("addr");
    assert("addr"@ =~= seq!['a', 'd', 'd', 'r']);
}

proof fn lemma_word_original_location()
    ensures
        is_name("original-location"@),
{
    reveal_strlit("original-location");
    assert("original-location"@ =~= seq!['o', 'r', 'i', 'g', 'i', 'n', 'a', 'l', '-', 'l', 'o', 'c', 'a', 't', 'i', 'o', 'n']);
}

proof fn lemma_word_what()
    ensures
        is_name("what"@),
{
    reveal_strlit("what");
    assert("what"@ =~= seq!['w', 'h', 'a', 't']);
}

proof fn lemma_word_stack()
    ensures
        is_name("stack"@),
{
    reveal_strlit("stack");
    assert("stack"@ =~= seq!['s', 't', 'a', 'c', 'k']);
}

proof fn lemma_word_frame()
    ensures
        is_name("frame"@),
{
    reveal_strlit("frame");
    assert("frame"@ =~= seq!['f', 'r', 'a', 'm', 'e']);
}

proof fn lemma_word_level()
    ensures
        is_name("level"@),
{
    reveal_strlit("level");
    assert("level"@ =~= seq!['l', 'e', 'v', 'e', 'l']);
}

proof fn lemma_word_func()
    ensures
        is_name("func"@),
{
    reveal_strlit("func");
    assert("func"@ =~= seq!['f', 'u', 'n', 'c']);
}

proof fn lemma_word_fullname()
    ensures
        is_name("fullname"@),
{
    reveal_strlit("fullname");
    assert("fullname"@ =~= seq!['f', 'u', 'l', 'l', 'n', 'a', 'm', 'e']);
}

proof fn lemma_word_file()
    ensures
        is_name("file"@),
{
    reveal_strlit("file");
    assert("file"@ =~= seq!['f', 'i', 'l', 'e']);
}

proof fn lemma_word_line()
    ensures
        is_name("line"@),
{
    reveal_strlit("line");
    assert("line"@ =~= seq!['l', 'i', 'n', 'e']);
}

proof fn lemma_word_register_names()
    ensures
        is_name("register-names"@),
{
    reveal_strlit("register-names");
    assert("register-names"@ =~= seq!['r', 'e', 'g', 'i', 's', 't', 'e', 'r', '-', 'n', 'a', 'm', 'e', 's']);
}

proof fn lemma_word_register_values()
    ensures
        is_name("register-values"@),
{
    reveal_strlit("register-values");
    assert("register-values"@ =~= seq!['r', 'e', 'g', 'i', 's', 't', 'e', 'r', '-', 'v', 'a', 'l', 'u', 'e', 's']);
}

proof fn lemma_word_value()
    ensures
        is_name("value"@),
{
    reveal_strlit("value");
    assert("value"@ =~= seq!['v', 'a', 'l', 'u', 'e']);
}

proof fn lemma_word_asm_insns()
    ensures
        is_name("asm_insns"@),
{
    reveal_strlit("asm_insns");
    assert("asm_insns"@ =~= seq!['a', 's', 'm', '_', 'i', 'n', 's', 'n', 's']);
}

proof fn lemma_word_address()
    ensures
        is_name("address"@),
{
    reveal_strlit("address");
    assert("address"@ =~= seq!['a', 'd', 'd', 'r', 'e', 's', 's']);
}

proof fn lemma_word_func_name()
    ensures
        is_name("func-name"@),
{
    reveal_strlit("func-name");
    assert("func-name"@ =~= seq!['f', 'u', 'n', 'c', '-', 'n', 'a', 'm', 'e']);
}

proof fn lemma_word_offset()
    ensures
        is_name("offset"@),
{
    reveal_strlit("offset");
    assert("offset"@ =~= seq!['o', 'f', 'f', 's', 'e', 't']);
}

proof fn lemma_word_inst()
    ensures
        is_name("inst"@),
{
    reveal_strlit("inst");
    assert("inst"@ =~= seq!['i', 'n', 's', 't']);
}

proof fn lemma_word_memory()
    ensures
        is_name("memory"@),
{
    reveal_strlit("memory");
    assert("memory"@ =~= seq!['m', 'e', 'm', 'o', 'r', 'y']);
}

proof fn lemma_word_begin()
    ensures
        is_name("begin"@),
{
    reveal_strlit("begin");
    assert("begin"@ =~= seq!['b', 'e', 'g', 'i', 'n']);
}

proof fn lemma_word_contents()
    ensures
        is_name("contents"@),
{
    reveal_strlit("contents");
    assert("contents"@ =~= seq!['c', 'o', 'n', 't', 'e', 'n', 't', 's']);
}

proof fn lemma_word_error()
    ensures
        is_name("error"@),
{
    reveal_strlit("error");
    assert("error"@ =~= seq!['e', 'r', 'r', 'o', 'r']);
}

proof fn lemma_word_msg()
    ensures
        is_name("msg"@),
{
    reveal_strlit("msg");
    assert("msg"@ =~= seq!['m', 's', 'g']);
}

proof fn lemma_word_stopped()
    ensures
        is_name("stopped"@),
{
    reveal_strlit("stopped");
    assert("stopped"@ =~= seq!['s', 't', 'o', 'p', 'p', 'e', 'd']);
}

proof fn lemma_word_running()
    ensures
        is_name("running"@),
{
    reveal_strlit("running");
    assert("running"@ =~= seq!['r', 'u', 'n', 'n', 'i', 'n', 'g']);
}

proof fn lemma_word_reason()
    ensures
        is_name("reason"@),
{
    reveal_strlit("reason");
    assert("reason"@ =~= seq!['r', 'e', 'a', 's', 'o', 'n']);
}

proof fn lemma_breakpoint_names_differ()
    ensures
        "bkpt"@ != "number"@,
        "bkpt"@ != "enabled"@,
        "bkpt"@ != "addr"@,
        "bkpt"@ != "original-location"@,
        "bkpt"@ != "what"@,
        "number"@ != "enabled"@,
        "number"@ != "addr"@,
        "number"@ != "original-location"@,
        "number"@ != "what"@,
        "enabled"@ != "addr"@,
        "enabled"@ != "original-location"@,
        "enabled"@ != "what"@,
        "addr"@ != "original-location"@,
        "addr"@ != "what"@,
        "original-location"@ != "what"@,
{
    reveal_strlit("bkpt");
    reveal_strlit("number");
    reveal_strlit("enabled");
    reveal_strlit("addr");
    reveal_strlit("original-location");
    reveal_strlit("what");
    assert("bkpt"@.len() == 4);
    assert("number"@.len() == 6);
    assert("enabled"@.len() == 7);
    assert("addr"@.len() == 4);
    assert("original-location"@.len() == 17);
    assert("what"@.len() == 4);
    assert("bkpt"@[0] != "addr"@[0]);
    assert("bkpt"@[0] != "what"@[0]);
    assert("addr"@[0] != "what"@[0]);
}

proof fn lemma_frame_names_differ()
    ensures
        "frame"@ != "level"@,
        "frame"@ != "addr"@,
        "frame"@ != "func"@,
        "frame"@ != "fullname"@,
        "frame"@ != "file"@,
        "frame"@ != "line"@,
        "level"@ != "addr"@,
        "level"@ != "func"@,
        "level"@ != "fullname"@,
        "level"@ != "file"@,
        "level"@ != "line"@,
        "addr"@ != "func"@,
        "addr"@ != "fullname"@,
        "addr"@ != "file"@,
        "addr"@ != "line"@,
        "func"@ != "fullname"@,
        "func"@ != "file"@,
        "func"@ != "line"@,
        "fullname"@ != "file"@,
        "fullname"@ != "line"@,
        "file"@ != "line"@,
{
    reveal_strlit("frame");
    reveal_strlit("level");
    reveal_strlit("addr");
    reveal_strlit("func");
    reveal_strlit("fullname");
    reveal_strlit("file");
    reveal_strlit("line");
    assert("frame"@.len() == 5);
    assert("level"@.len() == 5);
    assert("addr"@.len() == 4);
    assert("func"@.len() == 4);
    assert("fullname"@.len() == 8);
    assert("file"@.len() == 4);
    assert("line"@.len() == 4);
    assert("frame"@[0] != "level"@[0]);
    assert("addr"@[0] != "func"@[0]);
    assert("addr"@[0] != "file"@[0]);
    assert("addr"@[0] != "line"@[0]);
    assert("func"@[1] != "file"@[1]);
    assert("func"@[0] != "line"@[0]);
    assert("file"@[0] != "line"@[0]);
}

proof fn lemma_register_names_differ()
    ensures
        "register-values"@ != "number"@,
        "register-values"@ != "value"@,
        "number"@ != "value"@,
{
    reveal_strlit("register-values");
    reveal_strlit("number");
    reveal_strlit("value");
    assert("register-values"@.len() == 15);
    assert("number"@.len() == 6);
    assert("value"@.len() == 5);
}

proof fn lemma_instruction_names_differ()
    ensures
        "address"@ != "func-name"@,
        "address"@ != "offset"@,
        "address"@ != "inst"@,
        "func-name"@ != "offset"@,
        "func-name"@ != "inst"@,
        "offset"@ != "inst"@,
{
    reveal_strlit("address");
    reveal_strlit("func-name");
    reveal_strlit("offset");
    reveal_strlit("inst");
    assert("address"@.len() == 7);
    assert("func-name"@.len() == 9);
    assert("offset"@.len() == 6);
    assert("inst"@.len() == 4);
}

proof fn lemma_memory_names_differ()
    ensures
        "begin"@ != "contents"@,
{
    reveal_strlit("begin");
    reveal_strlit("contents");
    assert("begin"@.len() == 5);
    assert("contents"@.len() == 8);
}

/// Whether a value holds a text under a name, or none.
pub open spec fn holds(value: MiTree, name: Seq<char>, text: Option<Seq<char>>) -> bool {
    match text {
        Some(text) => value.field(name) == Some(MiTree::Const(text)),
        None => !(value.field(name) matches Some(MiTree::Const(_))),
    }
}

/// Whether a value holds a text under one of two names, or none: the second name counts where
/// there is nothing under the first.
pub open spec fn holds_either(
    value: MiTree,
    first: Seq<char>,
    second: Seq<char>,
    text: Option<Seq<char>>,
) -> bool {
    if value.field(first) is Some {
        holds(value, first, text)
    } else {
        holds(value, second, text)
    }
}

/// Whether a value holds a number of 32 bits under a name, in decimal digits, or no text that can
/// be read as one.
pub open spec fn holds_number(value: MiTree, name: Seq<char>, number: Option<u32>) -> bool {
    match value.field(name) {
        Some(MiTree::Const(text)) => match number {
            Some(number) => unsigned(text, 4294967295) == Some(number as nat),
            None => unsigned(text, 4294967295) is None,
        },
        _ => number is None,
    }
}

/// Whether a value describes a breakpoint: it has a number, is enabled where GDB says so with a
/// `y`, and has the address and the place that are given.
pub open spec fn describes_breakpoint(value: MiTree, breakpoint: BreakpointView) -> bool {
    &&& holds(value, "number"@, Some(breakpoint.number))
    &&& breakpoint.enabled <==> value.field("enabled"@) == Some(MiTree::Const("y"@))
    &&& holds(value, "addr"@, breakpoint.address)
    &&& holds_either(value, "original-location"@, "what"@, breakpoint.location)
}

/// Whether a value describes a frame.
pub open spec fn describes_frame(value: MiTree, frame: FrameView) -> bool {
    &&& holds_number(value, "level"@, frame.level)
    &&& holds(value, "addr"@, Some(frame.address)) || (holds(value, "addr"@, None)
        && frame.address.len() == 0)
    &&& holds(value, "func"@, frame.function)
    &&& holds_either(value, "fullname"@, "file"@, frame.file)
    &&& holds_number(value, "line"@, frame.line)
}

/// Whether a value describes an instruction.
pub open spec fn describes_instruction(value: MiTree, instruction: InstructionView) -> bool {
    &&& holds(value, "address"@, Some(instruction.address))
    &&& holds(value, "func-name"@, instruction.function)
    &&& holds(value, "offset"@, instruction.offset)
    &&& holds(value, "inst"@, Some(instruction.instruction))
}

/// Whether a value describes the register with a number and its contents.
pub open spec fn describes_register(value: MiTree, number: nat, contents: Seq<char>) -> bool {
    &&& value.field("number"@) matches Some(MiTree::Const(text)) && unsigned(
        text,
        usize::MAX as nat,
    ) == Some(number)
    &&& holds(value, "value"@, Some(contents))
}

/// The name of the register with a number: the one that GDB gave for it, or else the number.
pub open spec fn register_name(number: nat, names: Seq<Seq<char>>) -> Seq<char> {
    if number < names.len() {
        names[number as int]
    } else {
        decimal(number)
    }
}

/// A value is read as what it describes, if and only if it describes it: a breakpoint is enabled
/// where it says so, and a value that describes no breakpoint, no instruction or no register is
/// read as none.
pub proof fn law_values_are_read_as_what_they_describe(
    value: MiTree,
    breakpoint: BreakpointView,
    frame: FrameView,
    instruction: InstructionView,
)
    ensures
        breakpoint_of(value) == Some(breakpoint) <==> describes_breakpoint(value, breakpoint),
        frame_of(value) == frame <==> describes_frame(value, frame),
        instruction_of(value) == Some(instruction) <==> describes_instruction(value, instruction),
{
    assert(frame.address.len() == 0 ==> frame.address =~= seq![]);
}

/// A register is read by the name that GDB gave for its number, with its contents. A value without
/// both is none.
pub proof fn law_registers_are_read_by_their_names(
    value: MiTree,
    names: Seq<Seq<char>>,
    number: nat,
    contents: Seq<char>,
)
    requires
        value.field("register-values"@) is None,
    ensures
        describes_register(value, number, contents) ==> register_of(value, names) == Some(
            RegisterView { name: register_name(number, names), value: contents },
        ),
        register_of(value, names) is Some ==> exists|n: nat, c: Seq<char>|
            describes_register(value, n, c),
{
    if let Some(register) = register_of(value, names) {
        if let Some(MiTree::Const(text)) = value.field("number"@) {
            let n = unsigned(text, usize::MAX as nat)->Some_0;
            assert(describes_register(value, n, register.value));
        }
    }
}

/// Memory is read by its beginning and its contents.
pub proof fn law_memory_is_read(value: MiTree, address: Seq<char>, bytes: Seq<char>)
    requires
        holds(value, "begin"@, Some(address)),
        holds(value, "contents"@, Some(bytes)),
    ensures
        memory_of(value) == (MemoryBlockView { address, bytes }),
{
}

/// A list is read item by item, in its order: each item as what it describes, under its name or
/// without one, and what describes nothing is passed over.
pub proof fn law_lists_are_read_item_by_item(
    first: Seq<MiTree>,
    second: Seq<MiTree>,
    item: MiTree,
    names: Seq<Seq<char>>,
)
    ensures
        breakpoints_of(MiTree::List(first + second)) == breakpoints_of(MiTree::List(first))
            + breakpoints_of(MiTree::List(second)),
        frames_of(MiTree::List(first + second)) == frames_of(MiTree::List(first)) + frames_of(
            MiTree::List(second),
        ),
        instructions_of(MiTree::List(first + second)) == instructions_of(MiTree::List(first))
            + instructions_of(MiTree::List(second)),
        registers_of(MiTree::List(first + second), names) == registers_of(
            MiTree::List(first),
            names,
        ) + registers_of(MiTree::List(second), names),
        names_of(MiTree::List(first + second)) == names_of(MiTree::List(first)) + names_of(
            MiTree::List(second),
        ),
        breakpoints_of(MiTree::List(seq![item])) == match breakpoint_of(
            if item.field("bkpt"@) is Some {
                item.field("bkpt"@)->Some_0
            } else {
                item
            },
        ) {
            Some(breakpoint) => seq![breakpoint],
            None => seq![],
        },
        frames_of(MiTree::List(seq![item])) == seq![
            frame_of(
                if item.field("frame"@) is Some {
                    item.field("frame"@)->Some_0
                } else {
                    item
                },
            ),
        ],
        instructions_of(MiTree::List(seq![item])) == match instruction_of(item) {
            Some(instruction) => seq![instruction],
            None => seq![],
        },
        registers_of(MiTree::List(seq![item]), names) == match register_of(item, names) {
            Some(register) => seq![register],
            None => seq![],
        },
        names_of(MiTree::List(seq![item])) == match item {
            MiTree::Const(text) => seq![text],
            _ => seq![],
        },
{
    lemma_found_parts(first, second, |item: MiTree| breakpoint_of(unwrapped(item, "bkpt"@)));
    lemma_found_parts(first, second, |item: MiTree| Some(frame_of(unwrapped(item, "frame"@))));
    lemma_found_parts(first, second, |item: MiTree| instruction_of(item));
    lemma_found_parts(first, second, |item: MiTree| register_of(item, names));
    lemma_found_parts(first, second, |item: MiTree| item.text());
    lemma_found_one(item, |item: MiTree| breakpoint_of(unwrapped(item, "bkpt"@)));
    lemma_found_one(item, |item: MiTree| Some(frame_of(unwrapped(item, "frame"@))));
    lemma_found_one(item, |item: MiTree| instruction_of(item));
    lemma_found_one(item, |item: MiTree| register_of(item, names));
    lemma_found_one(item, |item: MiTree| item.text());
}

proof fn lemma_found_one<A, B>(item: A, f: spec_fn(A) -> Option<B>)
    ensures
        seq![item].filter_map(f) == match f(item) {
            Some(found) => seq![found],
            None => seq![],
        },
{
    reveal_with_fuel(Seq::filter_map, 2);
    assert(seq![item].drop_last() =~= seq![]);
    if let Some(found) = f(item) {
        assert(Seq::<B>::empty() + seq![found] =~= seq![found]);
    }
}

/// What any answer makes of a snapshot, whatever it holds: it is the next revision, the debugger
/// has started, and no error is left.
pub open spec fn heard(snapshot: DebuggerSnapshotView) -> DebuggerSnapshotView {
    DebuggerSnapshotView {
        revision: (snapshot.revision + 1) as u64,
        state: if snapshot.state == "starting"@ {
            "ready"@
        } else {
            snapshot.state
        },
        stale: snapshot.stale && snapshot.state != "starting"@,
        error: None,
        ..snapshot
    }
}

/// The line with which GDB answers: a token, that something is done, and a value under a name.
pub open spec fn answer_line(token: Option<nat>, name: Seq<char>, value: Written) -> Seq<char> {
    latin(record_bytes(token, 94, ascii("done"@), seq![(ascii(name), value)]))
}

/// Whether a token is one that can be read back.
pub open spec fn is_token(token: Option<nat>) -> bool {
    token matches Some(n) ==> n <= u64::MAX
}

/// What an answer with one value makes of what is known.
spec fn after_answer(known: Known, token: Option<nat>, name: Seq<char>, value: MiTree) -> Known {
    record_step(
        known,
        RecordTree::Result { token, class: "done"@, results: Map::empty().insert(name, value) },
    ).known
}

proof fn lemma_answer(session: SessionView, token: Option<nat>, name: Seq<char>, value: Written)
    requires
        is_token(token),
        is_name(name),
        value.readable(),
    ensures
        session.after_line(answer_line(token, name, value)) == (SessionView {
            known: after_answer(session.known, token, name, value.meaning()),
            ..session
        }),
{
    lemma_word_done();
    lemma_name("done"@);
    lemma_name(name);
    let results = seq![(ascii(name), value)];
    assert(are_readable(results));
    law_result_records_read_back(token, ascii("done"@), results);
    reveal_with_fuel(results_meaning, 2);
    assert(results.skip(1) =~= seq![]);
    assert(results_meaning(Map::empty(), results) == Map::<Seq<char>, MiTree>::empty().insert(
        name,
        value.meaning(),
    ));
    lemma_done_asks_for_nothing(session, token, name, value.meaning());
}

proof fn lemma_done_asks_for_nothing(
    session: SessionView,
    token: Option<nat>,
    name: Seq<char>,
    value: MiTree,
)
    ensures
        record_step(
            session.known,
            RecordTree::Result { token, class: "done"@, results: Map::empty().insert(name, value) },
        ).queries == Seq::<Seq<char>>::empty(),
{
    reveal_strlit("done");
    reveal_strlit("error");
    assert("done"@.len() == 4);
    assert("error"@.len() == 5);
}

proof fn lemma_digits_are_latin(n: nat)
    ensures
        is_latin(decimal(n)),
{
    lemma_decimal_digits(n);
    assert forall|i: int| 0 <= i < decimal(n).len() implies '\0' <= #[trigger] decimal(n)[i]
        <= '\u{ff}' by {
        assert(is_digit(decimal(n)[i]));
    }
}

/// A number in decimal digits, where there is one.
pub open spec fn in_digits(number: Option<u32>) -> Option<Seq<char>> {
    match number {
        Some(number) => Some(decimal(number as nat)),
        None => None,
    }
}

/// Whether a text, where there is one, is made of characters that have the number of a byte.
pub open spec fn is_latin_text(text: Option<Seq<char>>) -> bool {
    text matches Some(text) ==> is_latin(text)
}

/// The name of an item in a list, where it is written with one.
pub open spec fn item_name(name: Seq<char>, named: bool) -> Option<Seq<u8>> {
    if named {
        Some(ascii(name))
    } else {
        None
    }
}

proof fn lemma_item(name: Seq<char>, named: bool, value: MiTree)
    requires
        is_name(name),
        value.field(name) is None,
    ensures
        unwrapped(item_meaning(item_name(name, named), value), name) == value,
{
    lemma_name(name);
}

/// A breakpoint as GDB writes it.
pub struct WrittenBreakpoint {
    pub breakpoint: BreakpointView,
    /// Whether the place is written as what is watched.
    pub watched: bool,
    /// Whether the entry has a name.
    pub named: bool,
    /// What else is written of the breakpoint.
    pub more: Seq<(Seq<u8>, Written)>,
}

impl WrittenBreakpoint {
    /// The texts of the entry.
    pub open spec fn cells(self) -> Seq<(Seq<char>, Option<Seq<char>>)> {
        let place = self.breakpoint.location;
        seq![
            ("number"@, Some(self.breakpoint.number)),
            (
                "enabled"@,
                Some(
                    if self.breakpoint.enabled {
                        "y"@
                    } else {
                        "n"@
                    },
                ),
            ),
            ("addr"@, self.breakpoint.address),
            (
                "original-location"@,
                if self.watched {
                    None
                } else {
                    place
                },
            ),
            (
                "what"@,
                if self.watched {
                    place
                } else {
                    None
                },
            ),
            ("bkpt"@, None),
        ]
    }

    /// Whether the entry can be read.
    pub open spec fn readable(self) -> bool {
        &&& is_latin(self.breakpoint.number)
        &&& is_latin_text(self.breakpoint.address)
        &&& is_latin_text(self.breakpoint.location)
        &&& stand_beside(self.more, self.cells())
    }

    /// The entry as an item of the table.
    pub open spec fn item(self) -> (Option<Seq<u8>>, Written) {
        (item_name("bkpt"@, self.named), tuple_of(self.cells(), self.more))
    }
}

proof fn lemma_written_breakpoint(entry: WrittenBreakpoint)
    requires
        entry.readable(),
    ensures
        entry.item().1.readable(),
        entry.item().0 is Some ==> is_word(entry.item().0->Some_0),
        breakpoint_of(
            unwrapped(item_meaning(entry.item().0, entry.item().1.meaning()), "bkpt"@),
        ) == Some(entry.breakpoint),
{
    let cells = entry.cells();
    lemma_word_number();
    lemma_word_enabled();
    lemma_word_addr();
    lemma_word_original_location();
    lemma_word_what();
    lemma_word_bkpt();
    lemma_breakpoint_names_differ();
    reveal_strlit("y");
    reveal_strlit("n");
    assert("y"@[0] != "n"@[0]);
    assert(is_latin("y"@));
    assert(is_latin("n"@));
    assert(can_be_written(cells));
    lemma_tuple_of(cells, entry.more);
    reveal_with_fuel(last_text, 7);
    let value = entry.item().1.meaning();
    assert(value.field(cells[0].0) == Some(MiTree::Const(entry.breakpoint.number)));
    assert(value.field(cells[1].0) == Some(MiTree::Const(cells[1].1->Some_0)));
    assert(holds(value, cells[2].0, entry.breakpoint.address));
    assert(holds(value, cells[3].0, cells[3].1));
    assert(holds(value, cells[4].0, cells[4].1));
    assert(cells[3].1 is None ==> value.field(cells[3].0) is None);
    assert(value.field(cells[5].0) is None);
    lemma_name("bkpt"@);
    lemma_item("bkpt"@, entry.named, value);
}

/// The answer to a request for the breakpoints: a table of them, behind other fields.
pub open spec fn breakpoints_line(
    token: Option<nat>,
    head: Seq<(Seq<u8>, Written)>,
    entries: Seq<WrittenBreakpoint>,
) -> Seq<char> {
    answer_line(
        token,
        "BreakpointTable"@,
        Written::Tuple(
            head.push(
                (
                    ascii("body"@),
                    Written::List(entries.map_values(|entry: WrittenBreakpoint| entry.item())),
                ),
            ),
        ),
    )
}

proof fn lemma_list_of<T>(
    items: Seq<(Option<Seq<u8>>, Written)>,
    found: Seq<T>,
    f: spec_fn(MiTree) -> Option<T>,
)
    requires
        items.len() == found.len(),
        forall|i: int|
            0 <= i < items.len() ==> {
                &&& (#[trigger] items[i]).1.readable()
                &&& items[i].0 is Some ==> is_word(items[i].0->Some_0)
                &&& f(item_meaning(items[i].0, items[i].1.meaning())) == Some(found[i])
            },
    ensures
        Written::List(items).readable(),
        Written::List(items).meaning().items().filter_map(f) == found,
{
    lemma_items_meaning(seq![], items);
    let trees = items.map_values(
        |item: (Option<Seq<u8>>, Written)| item_meaning(item.0, item.1.meaning()),
    );
    assert(Seq::<MiTree>::empty() + trees =~= trees);
    assert forall|i: int| 0 <= i < trees.len() implies f(#[trigger] trees[i]) == Some(found[i]) by {
        assert(items[i].1.readable());
        assert(trees[i] == item_meaning(items[i].0, items[i].1.meaning()));
    }
    lemma_all_found(trees, found, f);
}

proof fn lemma_lone_result(name: Seq<char>, value: MiTree)
    ensures
        forall|other: Seq<char>| #[trigger]
            Map::<Seq<char>, MiTree>::empty().insert(name, value).contains_key(other) <==> other
                == name,
        Map::<Seq<char>, MiTree>::empty().insert(name, value)[name] == value,
{
}

/// The breakpoints that GDB lists are those of the snapshot, each with its number, whether it is
/// enabled, its address and its place, in their order. Nothing else of the snapshot changes.
pub proof fn law_listed_breakpoints_are_shown(
    session: SessionView,
    token: Option<nat>,
    head: Seq<(Seq<u8>, Written)>,
    entries: Seq<WrittenBreakpoint>,
)
    requires
        is_token(token),
        are_readable(head),
        forall|i: int| 0 <= i < entries.len() ==> (#[trigger] entries[i]).readable(),
    ensures
        session.after_line(breakpoints_line(token, head, entries)) == (SessionView {
            known: Known {
                snapshot: DebuggerSnapshotView {
                    breakpoints: entries.map_values(|entry: WrittenBreakpoint| entry.breakpoint),
                    ..heard(session.known.snapshot)
                },
                ..session.known
            },
            ..session
        }),
{
    let items = entries.map_values(|entry: WrittenBreakpoint| entry.item());
    let found = entries.map_values(|entry: WrittenBreakpoint| entry.breakpoint);
    let f = |item: MiTree| breakpoint_of(unwrapped(item, "bkpt"@));
    assert forall|i: int| 0 <= i < items.len() implies {
        &&& (#[trigger] items[i]).1.readable()
        &&& items[i].0 is Some ==> is_word(items[i].0->Some_0)
        &&& f(item_meaning(items[i].0, items[i].1.meaning())) == Some(found[i])
    } by {
        assert(entries[i].readable());
        lemma_written_breakpoint(entries[i]);
    }
    lemma_list_of(items, found, f);
    let body = Written::List(items);
    let fields = head.push((ascii("body"@), body));
    let table = Written::Tuple(fields);
    lemma_word_body();
    lemma_name("body"@);
    assert(table.readable()) by {
        assert forall|i: int| 0 <= i < fields.len() implies is_word((#[trigger] fields[i]).0)
            && fields[i].1.readable() by {
            if i < head.len() {
                assert(fields[i] == head[i]);
            }
        }
    }
    lemma_fields_meaning_is_last(fields, "body"@);
    assert(table.meaning().field("body"@) == Some(body.meaning()));
    lemma_word_breakpointtable();
    lemma_answer(session, token, "BreakpointTable"@, table);
    lemma_lone_result("BreakpointTable"@, table.meaning());
    lemma_result_names_differ();
    lemma_classes_differ();
    assert(breakpoints_of(body.meaning()) == found);
}

proof fn lemma_result_names_differ()
    ensures
        "BreakpointTable"@ != "stack"@,
        "BreakpointTable"@ != "register-names"@,
        "BreakpointTable"@ != "register-values"@,
        "BreakpointTable"@ != "asm_insns"@,
        "BreakpointTable"@ != "memory"@,
        "stack"@ != "register-names"@,
        "stack"@ != "register-values"@,
        "stack"@ != "asm_insns"@,
        "stack"@ != "memory"@,
        "register-names"@ != "register-values"@,
        "register-names"@ != "asm_insns"@,
        "register-names"@ != "memory"@,
        "register-values"@ != "asm_insns"@,
        "register-values"@ != "memory"@,
        "asm_insns"@ != "memory"@,
{
    reveal_strlit("BreakpointTable");
    reveal_strlit("stack");
    reveal_strlit("register-names");
    reveal_strlit("register-values");
    reveal_strlit("asm_insns");
    reveal_strlit("memory");
    assert("BreakpointTable"@.len() == 15);
    assert("stack"@.len() == 5);
    assert("register-names"@.len() == 14);
    assert("register-values"@.len() == 15);
    assert("asm_insns"@.len() == 9);
    assert("memory"@.len() == 6);
    assert("BreakpointTable"@[0] != "register-values"@[0]);
}

proof fn lemma_classes_differ()
    ensures
        "done"@ != "error"@,
        "done"@ != "running"@,
        "done"@ != "stopped"@,
        "error"@ != "running"@,
        "error"@ != "stopped"@,
        "running"@ != "stopped"@,
{
    reveal_strlit("done");
    reveal_strlit("error");
    reveal_strlit("running");
    reveal_strlit("stopped");
    assert("done"@.len() == 4);
    assert("error"@.len() == 5);
    assert("running"@.len() == 7);
    assert("stopped"@.len() == 7);
    assert("running"@[0] != "stopped"@[0]);
}

/// A frame as GDB writes it.
pub struct WrittenFrame {
    pub frame: FrameView,
    /// Whether the file is written with its full name.
    pub full: bool,
    /// Whether the entry has a name.
    pub named: bool,
    /// What else is written of the frame.
    pub more: Seq<(Seq<u8>, Written)>,
}

impl WrittenFrame {
    /// The texts of the entry.
    pub open spec fn cells(self) -> Seq<(Seq<char>, Option<Seq<char>>)> {
        seq![
            ("level"@, in_digits(self.frame.level)),
            ("addr"@, Some(self.frame.address)),
            ("func"@, self.frame.function),
            (
                "fullname"@,
                if self.full {
                    self.frame.file
                } else {
                    None
                },
            ),
            (
                "file"@,
                if self.full {
                    None
                } else {
                    self.frame.file
                },
            ),
            ("line"@, in_digits(self.frame.line)),
            ("frame"@, None),
        ]
    }

    /// Whether the entry can be read.
    pub open spec fn readable(self) -> bool {
        &&& is_latin(self.frame.address)
        &&& is_latin_text(self.frame.function)
        &&& is_latin_text(self.frame.file)
        &&& stand_beside(self.more, self.cells())
    }

    /// The frame as a tuple.
    pub open spec fn tuple(self) -> Written {
        tuple_of(self.cells(), self.more)
    }

    /// The entry as an item of a list.
    pub open spec fn item(self) -> (Option<Seq<u8>>, Written) {
        (item_name("frame"@, self.named), self.tuple())
    }
}

proof fn lemma_written_frame(entry: WrittenFrame)
    requires
        entry.readable(),
    ensures
        entry.tuple().readable(),
        entry.item().0 is Some ==> is_word(entry.item().0->Some_0),
        frame_of(entry.tuple().meaning()) == entry.frame,
        frame_of(
            unwrapped(item_meaning(entry.item().0, entry.item().1.meaning()), "frame"@),
        ) == entry.frame,
{
    let cells = entry.cells();
    lemma_word_level();
    lemma_word_addr();
    lemma_word_func();
    lemma_word_fullname();
    lemma_word_file();
    lemma_word_line();
    lemma_word_frame();
    lemma_frame_names_differ();
    if let Some(level) = entry.frame.level {
        lemma_digits_are_latin(level as nat);
        law_decimal_reads_back(level as nat, 4294967295);
    }
    if let Some(line) = entry.frame.line {
        lemma_digits_are_latin(line as nat);
        law_decimal_reads_back(line as nat, 4294967295);
    }
    assert(can_be_written(cells));
    lemma_tuple_of(cells, entry.more);
    reveal_with_fuel(last_text, 8);
    let value = entry.tuple().meaning();
    assert(holds(value, cells[0].0, cells[0].1));
    assert(value.field(cells[0].0) is Some ==> cells[0].1 is Some);
    assert(holds(value, cells[1].0, cells[1].1));
    assert(holds(value, cells[2].0, cells[2].1));
    assert(holds(value, cells[3].0, cells[3].1));
    assert(cells[3].1 is None ==> value.field(cells[3].0) is None);
    assert(holds(value, cells[4].0, cells[4].1));
    assert(holds(value, cells[5].0, cells[5].1));
    assert(value.field(cells[6].0) is None);
    law_values_are_read_as_what_they_describe(
        value,
        arbitrary(),
        entry.frame,
        arbitrary(),
    );
    lemma_name("frame"@);
    lemma_item("frame"@, entry.named, value);
}

/// The frames that GDB lists are those of the snapshot, each with its level, its address, its
/// function, its file and its line, in their order, and the first is the frame that is shown.
/// Nothing else of the snapshot changes.
pub proof fn law_listed_frames_are_shown(
    session: SessionView,
    token: Option<nat>,
    entries: Seq<WrittenFrame>,
)
    requires
        is_token(token),
        forall|i: int| 0 <= i < entries.len() ==> (#[trigger] entries[i]).readable(),
    ensures
        session.after_line(
            answer_line(
                token,
                "stack"@,
                Written::List(entries.map_values(|entry: WrittenFrame| entry.item())),
            ),
        ) == (SessionView {
            known: Known {
                snapshot: DebuggerSnapshotView {
                    frames: entries.map_values(|entry: WrittenFrame| entry.frame),
                    frame: if entries.len() > 0 {
                        Some(entries[0].frame)
                    } else {
                        session.known.snapshot.frame
                    },
                    ..heard(session.known.snapshot)
                },
                ..session.known
            },
            ..session
        }),
{
    let items = entries.map_values(|entry: WrittenFrame| entry.item());
    let found = entries.map_values(|entry: WrittenFrame| entry.frame);
    let f = |item: MiTree| Some(frame_of(unwrapped(item, "frame"@)));
    assert forall|i: int| 0 <= i < items.len() implies {
        &&& (#[trigger] items[i]).1.readable()
        &&& items[i].0 is Some ==> is_word(items[i].0->Some_0)
        &&& f(item_meaning(items[i].0, items[i].1.meaning())) == Some(found[i])
    } by {
        assert(entries[i].readable());
        lemma_written_frame(entries[i]);
    }
    lemma_list_of(items, found, f);
    let list = Written::List(items);
    lemma_word_stack();
    lemma_answer(session, token, "stack"@, list);
    lemma_lone_result("stack"@, list.meaning());
    lemma_result_names_differ();
    lemma_classes_differ();
    assert(frames_of(list.meaning()) == found);
}

/// An instruction as GDB writes it.
pub struct WrittenInstruction {
    pub instruction: InstructionView,
    /// What else is written of the instruction.
    pub more: Seq<(Seq<u8>, Written)>,
}

impl WrittenInstruction {
    /// The texts of the entry.
    pub open spec fn cells(self) -> Seq<(Seq<char>, Option<Seq<char>>)> {
        seq![
            ("address"@, Some(self.instruction.address)),
            ("func-name"@, self.instruction.function),
            ("offset"@, self.instruction.offset),
            ("inst"@, Some(self.instruction.instruction)),
        ]
    }

    /// Whether the entry can be read.
    pub open spec fn readable(self) -> bool {
        &&& is_latin(self.instruction.address)
        &&& is_latin_text(self.instruction.function)
        &&& is_latin_text(self.instruction.offset)
        &&& is_latin(self.instruction.instruction)
        &&& stand_beside(self.more, self.cells())
    }

    /// The entry as an item of a list.
    pub open spec fn item(self) -> (Option<Seq<u8>>, Written) {
        (None, tuple_of(self.cells(), self.more))
    }
}

proof fn lemma_written_instruction(entry: WrittenInstruction)
    requires
        entry.readable(),
    ensures
        entry.item().1.readable(),
        instruction_of(entry.item().1.meaning()) == Some(entry.instruction),
{
    let cells = entry.cells();
    lemma_word_address();
    lemma_word_func_name();
    lemma_word_offset();
    lemma_word_inst();
    lemma_instruction_names_differ();
    assert(can_be_written(cells));
    lemma_tuple_of(cells, entry.more);
    reveal_with_fuel(last_text, 5);
    let value = entry.item().1.meaning();
    assert(holds(value, cells[0].0, cells[0].1));
    assert(holds(value, cells[1].0, cells[1].1));
    assert(holds(value, cells[2].0, cells[2].1));
    assert(holds(value, cells[3].0, cells[3].1));
}

/// The instructions that GDB lists are the disassembly of the snapshot, each with its address, its
/// function, its offset and its text, in their order. Nothing else of the snapshot changes.
pub proof fn law_listed_instructions_are_shown(
    session: SessionView,
    token: Option<nat>,
    entries: Seq<WrittenInstruction>,
)
    requires
        is_token(token),
        forall|i: int| 0 <= i < entries.len() ==> (#[trigger] entries[i]).readable(),
    ensures
        session.after_line(
            answer_line(
                token,
                "asm_insns"@,
                Written::List(entries.map_values(|entry: WrittenInstruction| entry.item())),
            ),
        ) == (SessionView {
            known: Known {
                snapshot: DebuggerSnapshotView {
                    disassembly: entries.map_values(|entry: WrittenInstruction| entry.instruction),
                    ..heard(session.known.snapshot)
                },
                ..session.known
            },
            ..session
        }),
{
    let items = entries.map_values(|entry: WrittenInstruction| entry.item());
    let found = entries.map_values(|entry: WrittenInstruction| entry.instruction);
    let f = |item: MiTree| instruction_of(item);
    assert forall|i: int| 0 <= i < items.len() implies {
        &&& (#[trigger] items[i]).1.readable()
        &&& items[i].0 is Some ==> is_word(items[i].0->Some_0)
        &&& f(item_meaning(items[i].0, items[i].1.meaning())) == Some(found[i])
    } by {
        assert(entries[i].readable());
        lemma_written_instruction(entries[i]);
    }
    lemma_list_of(items, found, f);
    let list = Written::List(items);
    lemma_word_asm_insns();
    lemma_answer(session, token, "asm_insns"@, list);
    lemma_lone_result("asm_insns"@, list.meaning());
    lemma_result_names_differ();
    lemma_classes_differ();
    assert(instructions_of(list.meaning()) == found);
}

/// The contents of a register as GDB writes them.
pub struct WrittenRegister {
    pub number: nat,
    pub contents: Seq<char>,
    /// What else is written of the register.
    pub more: Seq<(Seq<u8>, Written)>,
}

impl WrittenRegister {
    /// The texts of the entry.
    pub open spec fn cells(self) -> Seq<(Seq<char>, Option<Seq<char>>)> {
        seq![
            ("number"@, Some(decimal(self.number))),
            ("value"@, Some(self.contents)),
            ("register-values"@, None),
        ]
    }

    /// Whether the entry can be read.
    pub open spec fn readable(self) -> bool {
        &&& self.number <= usize::MAX
        &&& is_latin(self.contents)
        &&& stand_beside(self.more, self.cells())
    }

    /// The entry as an item of a list.
    pub open spec fn item(self) -> (Option<Seq<u8>>, Written) {
        (None, tuple_of(self.cells(), self.more))
    }

    /// The register, by its name.
    pub open spec fn register(self, names: Seq<Seq<char>>) -> RegisterView {
        RegisterView { name: register_name(self.number, names), value: self.contents }
    }
}

proof fn lemma_written_register(entry: WrittenRegister, names: Seq<Seq<char>>)
    requires
        entry.readable(),
    ensures
        entry.item().1.readable(),
        register_of(entry.item().1.meaning(), names) == Some(entry.register(names)),
{
    let cells = entry.cells();
    lemma_word_number();
    lemma_word_value();
    lemma_word_register_values();
    lemma_register_names_differ();
    lemma_digits_are_latin(entry.number);
    law_decimal_reads_back(entry.number, usize::MAX as nat);
    assert(can_be_written(cells));
    lemma_tuple_of(cells, entry.more);
    reveal_with_fuel(last_text, 4);
    let value = entry.item().1.meaning();
    assert(holds(value, cells[0].0, cells[0].1));
    assert(holds(value, cells[1].0, cells[1].1));
    assert(value.field(cells[2].0) is None);
    law_registers_are_read_by_their_names(value, names, entry.number, entry.contents);
}

/// The registers that GDB lists are those of the snapshot, each under the name that GDB gave for
/// its number, with its contents, in their order. Nothing else of the snapshot changes.
pub proof fn law_listed_registers_are_shown(
    session: SessionView,
    token: Option<nat>,
    entries: Seq<WrittenRegister>,
)
    requires
        is_token(token),
        forall|i: int| 0 <= i < entries.len() ==> (#[trigger] entries[i]).readable(),
    ensures
        session.after_line(
            answer_line(
                token,
                "register-values"@,
                Written::List(entries.map_values(|entry: WrittenRegister| entry.item())),
            ),
        ) == (SessionView {
            known: Known {
                snapshot: DebuggerSnapshotView {
                    registers: entries.map_values(
                        |entry: WrittenRegister| entry.register(session.known.register_names),
                    ),
                    ..heard(session.known.snapshot)
                },
                ..session.known
            },
            ..session
        }),
{
    let names = session.known.register_names;
    let items = entries.map_values(|entry: WrittenRegister| entry.item());
    let found = entries.map_values(|entry: WrittenRegister| entry.register(names));
    let f = |item: MiTree| register_of(item, names);
    assert forall|i: int| 0 <= i < items.len() implies {
        &&& (#[trigger] items[i]).1.readable()
        &&& items[i].0 is Some ==> is_word(items[i].0->Some_0)
        &&& f(item_meaning(items[i].0, items[i].1.meaning())) == Some(found[i])
    } by {
        assert(entries[i].readable());
        lemma_written_register(entries[i], names);
    }
    lemma_list_of(items, found, f);
    let list = Written::List(items);
    lemma_word_register_values();
    lemma_answer(session, token, "register-values"@, list);
    lemma_lone_result("register-values"@, list.meaning());
    lemma_result_names_differ();
    lemma_classes_differ();
    assert(registers_of(list.meaning(), names) == found);
}

/// The names that GDB gives for the registers are known from then on, in their order, those that
/// are empty as well. Nothing of the snapshot changes.
pub proof fn law_listed_names_are_known(
    session: SessionView,
    token: Option<nat>,
    names: Seq<Seq<char>>,
)
    requires
        is_token(token),
        forall|i: int| 0 <= i < names.len() ==> is_latin(#[trigger] names[i]),
    ensures
        session.after_line(
            answer_line(
                token,
                "register-names"@,
                Written::List(
                    names.map_values(
                        |name: Seq<char>| (None::<Seq<u8>>, Written::Quoted(ascii(name))),
                    ),
                ),
            ),
        ) == (SessionView {
            known: Known { snapshot: heard(session.known.snapshot), register_names: names },
            ..session
        }),
{
    let items = names.map_values(
        |name: Seq<char>| (None::<Seq<u8>>, Written::Quoted(ascii(name))),
    );
    let f = |item: MiTree| item.text();
    assert forall|i: int| 0 <= i < items.len() implies {
        &&& (#[trigger] items[i]).1.readable()
        &&& items[i].0 is Some ==> is_word(items[i].0->Some_0)
        &&& f(item_meaning(items[i].0, items[i].1.meaning())) == Some(names[i])
    } by {
        lemma_latin(names[i]);
    }
    lemma_list_of(items, names, f);
    let list = Written::List(items);
    lemma_word_register_names();
    lemma_answer(session, token, "register-names"@, list);
    lemma_lone_result("register-names"@, list.meaning());
    lemma_result_names_differ();
    lemma_classes_differ();
    assert(names_of(list.meaning()) == names);
}

/// Memory as GDB writes it.
pub struct WrittenMemory {
    pub block: MemoryBlockView,
    /// What else is written of the memory.
    pub more: Seq<(Seq<u8>, Written)>,
}

impl WrittenMemory {
    /// The texts of the entry.
    pub open spec fn cells(self) -> Seq<(Seq<char>, Option<Seq<char>>)> {
        seq![("begin"@, Some(self.block.address)), ("contents"@, Some(self.block.bytes))]
    }

    /// Whether the entry can be read.
    pub open spec fn readable(self) -> bool {
        &&& is_latin(self.block.address)
        &&& is_latin(self.block.bytes)
        &&& stand_beside(self.more, self.cells())
    }

    /// The entry as an item of a list.
    pub open spec fn item(self) -> (Option<Seq<u8>>, Written) {
        (None, tuple_of(self.cells(), self.more))
    }
}

/// The memory that GDB reads is the stack of the snapshot, from where it begins. Where GDB reads
/// several pieces it is the first, and where it reads none the stack stays. Nothing else of the
/// snapshot changes.
pub proof fn law_memory_that_is_read_is_shown(
    session: SessionView,
    token: Option<nat>,
    entries: Seq<WrittenMemory>,
)
    requires
        is_token(token),
        forall|i: int| 0 <= i < entries.len() ==> (#[trigger] entries[i]).readable(),
    ensures
        session.after_line(
            answer_line(
                token,
                "memory"@,
                Written::List(entries.map_values(|entry: WrittenMemory| entry.item())),
            ),
        ) == (SessionView {
            known: Known {
                snapshot: DebuggerSnapshotView {
                    stack: if entries.len() > 0 {
                        Some(entries[0].block)
                    } else {
                        session.known.snapshot.stack
                    },
                    ..heard(session.known.snapshot)
                },
                ..session.known
            },
            ..session
        }),
{
    let items = entries.map_values(|entry: WrittenMemory| entry.item());
    let found = entries.map_values(|entry: WrittenMemory| entry.block);
    let f = |item: MiTree| Some(memory_of(item));
    assert forall|i: int| 0 <= i < items.len() implies {
        &&& (#[trigger] items[i]).1.readable()
        &&& items[i].0 is Some ==> is_word(items[i].0->Some_0)
        &&& f(item_meaning(items[i].0, items[i].1.meaning())) == Some(found[i])
    } by {
        let entry = entries[i];
        assert(entry.readable());
        let cells = entry.cells();
        lemma_word_begin();
        lemma_word_contents();
        lemma_memory_names_differ();
        assert(can_be_written(cells));
        lemma_tuple_of(cells, entry.more);
        reveal_with_fuel(last_text, 3);
        let value = entry.item().1.meaning();
        assert(holds(value, cells[0].0, cells[0].1));
        assert(holds(value, cells[1].0, cells[1].1));
        law_memory_is_read(value, entry.block.address, entry.block.bytes);
    }
    lemma_list_of(items, found, f);
    let list = Written::List(items);
    lemma_items_meaning(seq![], items);
    lemma_word_memory();
    lemma_answer(session, token, "memory"@, list);
    lemma_lone_result("memory"@, list.meaning());
    lemma_result_names_differ();
    lemma_classes_differ();
    if entries.len() > 0 {
        assert(items[0].1.readable());
        assert(list.meaning().items()[0] == item_meaning(items[0].0, items[0].1.meaning()));
    }
}

/// An answer that holds several values leaves each of them in its place, and what it does not hold
/// stays as it was.
pub proof fn law_answers_fill_the_snapshot(
    known: Known,
    token: Option<nat>,
    results: Map<Seq<char>, MiTree>,
)
    ensures
        ({
            let step = record_step(
                known,
                RecordTree::Result { token, class: "done"@, results },
            );
            let before = known.snapshot;
            let after = step.known.snapshot;
            let names = step.known.register_names;
            &&& step.publish
            &&& step.queries.len() == 0
            &&& names == if results.contains_key("register-names"@) {
                names_of(results["register-names"@])
            } else {
                known.register_names
            }
            &&& after.frames == if results.contains_key("stack"@) {
                frames_of(results["stack"@])
            } else {
                before.frames
            }
            &&& after.frame == if results.contains_key("stack"@) && after.frames.len() > 0 {
                Some(after.frames[0])
            } else {
                before.frame
            }
            &&& after.registers == if results.contains_key("register-values"@) {
                registers_of(results["register-values"@], names)
            } else {
                before.registers
            }
            &&& after.disassembly == if results.contains_key("asm_insns"@) {
                instructions_of(results["asm_insns"@])
            } else {
                before.disassembly
            }
            &&& after.breakpoints == if results.contains_key("BreakpointTable"@)
                && results["BreakpointTable"@].field("body"@) is Some {
                breakpoints_of(results["BreakpointTable"@].field("body"@)->Some_0)
            } else {
                before.breakpoints
            }
            &&& after.stack == if results.contains_key("memory"@)
                && results["memory"@].items().len() > 0 {
                Some(memory_of(results["memory"@].items()[0]))
            } else {
                before.stack
            }
            &&& after.revision == heard(before).revision
            &&& after.state == heard(before).state
            &&& after.stale == heard(before).stale
            &&& after.error is None
            &&& after.stop_reason == before.stop_reason
        }),
{
    lemma_classes_differ();
}

/// The line with which GDB tells that something happened.
pub open spec fn event_line(class: Seq<char>, results: Seq<(Seq<u8>, Written)>) -> Seq<char> {
    latin(record_bytes(None, 42, ascii(class), results))
}

/// A program that stops is shown where it stopped and why, and is asked for everything. What else
/// is told of the stop changes nothing.
pub proof fn law_stops_are_shown(
    session: SessionView,
    reason: Seq<char>,
    entry: WrittenFrame,
)
    requires
        is_latin(reason),
        entry.readable(),
    ensures
        ({
            let line = event_line(
                "stopped"@,
                seq![
                    (ascii("reason"@), Written::Quoted(ascii(reason))),
                    (ascii("frame"@), entry.tuple()),
                ],
            );
            let after = session.after_line(line);
            &&& after.known == (Known {
                snapshot: DebuggerSnapshotView {
                    revision: (session.known.snapshot.revision + 1) as u64,
                    state: "stopped"@,
                    stale: false,
                    stop_reason: Some(reason),
                    frame: Some(entry.frame),
                    ..session.known.snapshot
                },
                ..session.known
            })
            &&& after.next_token == session.next_token + 6
            &&& after.pending == session.pending
        }),
{
    let results = seq![
        (ascii("reason"@), Written::Quoted(ascii(reason))),
        (ascii("frame"@), entry.tuple()),
    ];
    lemma_word_stopped();
    lemma_word_reason();
    lemma_word_frame();
    lemma_name("stopped"@);
    lemma_name("reason"@);
    lemma_name("frame"@);
    lemma_latin(reason);
    lemma_written_frame(entry);
    assert(are_readable(results));
    law_async_records_read_back(42, ascii("stopped"@), results);
    reveal_with_fuel(results_meaning, 3);
    assert(results.skip(1).skip(1) =~= seq![]);
    assert(results.skip(1)[0] == results[1]);
    reveal_strlit("reason");
    reveal_strlit("frame");
    assert("reason"@.len() != "frame"@.len());
    lemma_classes_differ();
}

/// A program that runs is shown as running, what is known of it counts as stale, and nothing is
/// asked.
pub proof fn law_running_is_shown(session: SessionView, results: Seq<(Seq<u8>, Written)>)
    requires
        are_readable(results),
    ensures
        session.after_line(event_line("running"@, results)) == (SessionView {
            known: Known {
                snapshot: DebuggerSnapshotView {
                    revision: (session.known.snapshot.revision + 1) as u64,
                    state: "running"@,
                    stale: true,
                    stop_reason: None,
                    ..session.known.snapshot
                },
                ..session.known
            },
            ..session
        }),
{
    lemma_word_running();
    lemma_name("running"@);
    law_async_records_read_back(42, ascii("running"@), results);
}

/// What GDB says of a request that fails is shown as the error, and nothing else changes.
pub proof fn law_errors_are_shown(session: SessionView, token: Option<nat>, text: Seq<char>)
    requires
        is_token(token),
        is_latin(text),
    ensures
        session.after_line(
            latin(
                record_bytes(
                    token,
                    94,
                    ascii("error"@),
                    seq![(ascii("msg"@), Written::Quoted(ascii(text)))],
                ),
            ),
        ) == (SessionView {
            known: Known {
                snapshot: DebuggerSnapshotView {
                    revision: (session.known.snapshot.revision + 1) as u64,
                    error: Some(text),
                    ..session.known.snapshot
                },
                ..session.known
            },
            ..session
        }),
{
    let results = seq![(ascii("msg"@), Written::Quoted(ascii(text)))];
    lemma_word_error();
    lemma_word_msg();
    lemma_name("error"@);
    lemma_name("msg"@);
    lemma_latin(text);
    assert(are_readable(results));
    law_result_records_read_back(token, ascii("error"@), results);
    reveal_with_fuel(results_meaning, 2);
    assert(results.skip(1) =~= seq![]);
    lemma_classes_differ();
}

/// Where breakpoints are created, changed or deleted, they are asked for anew, and nothing else
/// happens. Other things that happen are passed over.
pub proof fn law_changed_breakpoints_are_asked_for(
    known: Known,
    kind: char,
    what: Seq<char>,
    results: Map<Seq<char>, MiTree>,
    other: Seq<char>,
)
    requires
        other != "running"@,
        other != "stopped"@,
        !(other.len() >= 11 && other.take(11) == "breakpoint-"@),
    ensures
        ({
            let step = record_step(
                known,
                RecordTree::Async { kind, class: "breakpoint-"@ + what, results },
            );
            &&& step.known == known
            &&& !step.publish
            &&& step.queries == seq!["-break-list"@]
        }),
        ({
            let step = record_step(known, RecordTree::Async { kind, class: other, results });
            &&& step.known == known
            &&& !step.publish
            &&& step.queries.len() == 0
        }),
{
    reveal_strlit("breakpoint-");
    reveal_strlit("running");
    reveal_strlit("stopped");
    assert("breakpoint-"@.len() == 11);
    assert("running"@[0] == 'r');
    assert("stopped"@[0] == 's');
    let class = "breakpoint-"@ + what;
    assert(class[0] == 'b');
    assert(class.take(11) =~= "breakpoint-"@);
}

/// Text that GDB shows, and prompts behind the first one, change nothing and ask for nothing. The
/// first prompt makes the debugger ready, and everything is asked for. An answer that is neither
/// done nor an error is passed over.
pub proof fn law_other_records_are_passed_over(
    known: Known,
    kind: char,
    text: Seq<char>,
    token: Option<nat>,
    class: Seq<char>,
    results: Map<Seq<char>, MiTree>,
)
    requires
        class != "done"@,
        class != "error"@,
    ensures
        ({
            let step = record_step(known, RecordTree::Stream { kind, text });
            step.known == known && !step.publish && step.queries.len() == 0
        }),
        ({
            let step = record_step(known, RecordTree::Result { token, class, results });
            step.known == known && !step.publish && step.queries.len() == 0
        }),
        ({
            let step = record_step(known, RecordTree::Prompt);
            if known.snapshot.state == "starting"@ {
                &&& step.publish
                &&& step.queries == all_queries()
                &&& step.known == (Known {
                    snapshot: DebuggerSnapshotView {
                        revision: (known.snapshot.revision + 1) as u64,
                        state: "ready"@,
                        stale: false,
                        ..known.snapshot
                    },
                    ..known
                })
            } else {
                step.known == known && !step.publish && step.queries.len() == 0
            }
        }),
{
}

/// The commands that ask for the frames, the names and the contents of the registers, the
/// instructions around the place where the program is, the breakpoints and the stack.
pub open spec fn all_queries() -> Seq<Seq<char>> {
    seq![
        "-stack-list-frames 0 31"@,
        "-data-list-register-names"@,
        "-data-list-register-values x"@,
        "-data-disassemble -s '$pc-32' -e '$pc+96' -- 0"@,
        "-break-list"@,
        "-data-read-memory-bytes $sp 256"@,
    ]
}

/// However a stop is told, the snapshot shows why, where that is told as a text, and the frame,
/// where that is told, and everything is asked for. A program that runs and a request that fails
/// change the same, whatever else is told of them.
pub proof fn law_whatever_is_told_of_a_stop(
    known: Known,
    kind: char,
    token: Option<nat>,
    results: Map<Seq<char>, MiTree>,
)
    ensures
        ({
            let step = record_step(known, RecordTree::Async { kind, class: "stopped"@, results });
            &&& step.publish
            &&& step.queries == all_queries()
            &&& step.known == (Known {
                snapshot: DebuggerSnapshotView {
                    revision: (known.snapshot.revision + 1) as u64,
                    state: "stopped"@,
                    stale: false,
                    stop_reason: if results.contains_key("reason"@) {
                        match results["reason"@] {
                            MiTree::Const(text) => Some(text),
                            _ => None,
                        }
                    } else {
                        None
                    },
                    frame: if results.contains_key("frame"@) {
                        Some(frame_of(results["frame"@]))
                    } else {
                        None
                    },
                    ..known.snapshot
                },
                ..known
            })
        }),
        ({
            let step = record_step(known, RecordTree::Async { kind, class: "running"@, results });
            &&& step.publish
            &&& step.queries.len() == 0
            &&& step.known == (Known {
                snapshot: DebuggerSnapshotView {
                    revision: (known.snapshot.revision + 1) as u64,
                    state: "running"@,
                    stale: true,
                    stop_reason: None,
                    ..known.snapshot
                },
                ..known
            })
        }),
        ({
            let step = record_step(known, RecordTree::Result { token, class: "error"@, results });
            &&& step.publish
            &&& step.queries.len() == 0
            &&& step.known == (Known {
                snapshot: DebuggerSnapshotView {
                    revision: (known.snapshot.revision + 1) as u64,
                    error: if results.contains_key("msg"@) {
                        match results["msg"@] {
                            MiTree::Const(text) => Some(text),
                            _ => None,
                        }
                    } else {
                        None
                    },
                    ..known.snapshot
                },
                ..known
            })
        }),
{
    lemma_classes_differ();
}

/// A register that is told under a name of its own is read as what stands there, and memory that is
/// told without its beginning or its contents is shown without it.
pub proof fn law_values_are_unwrapped(value: MiTree, inner: MiTree, names: Seq<Seq<char>>)
    requires
        value.field("register-values"@) == Some(inner),
        inner.field("register-values"@) is None,
    ensures
        register_of(value, names) == register_of(inner, names),
        holds(value, "begin"@, None) ==> memory_of(value).address.len() == 0,
        holds(value, "contents"@, None) ==> memory_of(value).bytes.len() == 0,
{
}

} // verus!
