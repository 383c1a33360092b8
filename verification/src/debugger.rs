//! What the debugger's machine interface says, and what is to be asked of it next.

use crate::fields::Fields;
use crate::mi::{
    fields_tree, items_tree, line_record, parse_line, MiRecord, MiTree, MiValue, RecordTree,
};
use crate::protocol::{
    Breakpoint, BreakpointView, DebuggerSnapshot, DebuggerSnapshotView, Frame, FrameView,
    Instruction, InstructionView, MemoryBlock, MemoryBlockView, Register, RegisterView,
};
use crate::text::{
    chars_of, copy_texts, decimal, decimal_text, from_utf8_lossy, is_digit, join2, join3,
    law_decimal_reads_back, law_valid_pieces_decode_to_the_whole, lemma_decimal_digits,
    lemma_filter_map_of_longer_prefix, lossy, opt_view, parse_unsigned, push_found, same, text_of,
    texts_view, unsigned, views,
};
use vstd::prelude::*;
use vstd::utf8::valid_utf8;

verus! {

/// The text of the constant under a name.
pub open spec fn field_text(value: MiTree, name: Seq<char>) -> Option<Seq<char>> {
    match value.field(name) {
        Some(field) => field.text(),
        None => None,
    }
}

/// The text of the constant under the first of two names, or under the second where the first
/// does not occur.
pub open spec fn either_text(value: MiTree, first: Seq<char>, second: Seq<char>) -> Option<
    Seq<char>,
> {
    if value.field(first) is Some {
        field_text(value, first)
    } else {
        field_text(value, second)
    }
}

/// A text, or the empty one.
pub open spec fn or_empty(text: Option<Seq<char>>) -> Seq<char> {
    match text {
        Some(t) => t,
        None => seq![],
    }
}

/// The number that a text stands for, where it fits in 32 bits.
pub open spec fn u32_of(text: Option<Seq<char>>) -> Option<u32> {
    match text {
        None => None,
        Some(t) => match unsigned(t, u32::MAX as nat) {
            Some(n) => Some(n as u32),
            None => None,
        },
    }
}

/// The frame that a value describes.
pub open spec fn frame_of(value: MiTree) -> FrameView {
    FrameView {
        level: u32_of(field_text(value, "level"@)),
        address: or_empty(field_text(value, "addr"@)),
        function: field_text(value, "func"@),
        file: either_text(value, "fullname"@, "file"@),
        line: u32_of(field_text(value, "line"@)),
    }
}

/// The instruction that a value describes; one without an address or a text is none.
pub open spec fn instruction_of(value: MiTree) -> Option<InstructionView> {
    match (field_text(value, "address"@), field_text(value, "inst"@)) {
        (Some(address), Some(instruction)) => Some(
            InstructionView {
                address,
                function: field_text(value, "func-name"@),
                offset: field_text(value, "offset"@),
                instruction,
            },
        ),
        _ => None,
    }
}

/// The breakpoint that a value describes; one without a number is none.
pub open spec fn breakpoint_of(value: MiTree) -> Option<BreakpointView> {
    match field_text(value, "number"@) {
        Some(number) => Some(
            BreakpointView {
                number,
                enabled: field_text(value, "enabled"@) == Some("y"@),
                address: field_text(value, "addr"@),
                location: either_text(value, "original-location"@, "what"@),
            },
        ),
        None => None,
    }
}

/// The value under a name, or the value itself where it has no such field.
pub open spec fn unwrapped(value: MiTree, name: Seq<char>) -> MiTree {
    match value.field(name) {
        Some(inner) => inner,
        None => value,
    }
}

/// The register that a value describes, by its number among the names.
pub open spec fn register_of(value: MiTree, names: Seq<Seq<char>>) -> Option<RegisterView> {
    let tuple = unwrapped(value, "register-values"@);
    match (field_text(tuple, "number"@), field_text(tuple, "value"@)) {
        (Some(number), Some(value)) => match unsigned(number, usize::MAX as nat) {
            Some(n) => Some(
                RegisterView {
                    name: if n < names.len() {
                        names[n as int]
                    } else {
                        decimal(n)
                    },
                    value,
                },
            ),
            None => None,
        },
        _ => None,
    }
}

/// The memory that a value describes.
pub open spec fn memory_of(value: MiTree) -> MemoryBlockView {
    MemoryBlockView {
        address: or_empty(field_text(value, "begin"@)),
        bytes: or_empty(field_text(value, "contents"@)),
    }
}

/// The optional text of a reference.
fn owned(text: Option<&str>) -> (r: Option<String>)
    ensures
        match text {
            Some(t) => r is Some && r->0@ == t@,
            None => r is None,
        },
{
    match text {
        Some(t) => Some(t.to_owned()),
        None => None,
    }
}

fn field_str<'a>(value: &'a MiValue, name: &str) -> (r: Option<&'a str>)
    ensures
        match r {
            Some(t) => field_text(value.tree(), name@) == Some(t@),
            None => field_text(value.tree(), name@) is None,
        },
{
    match value.field(name) {
        Some(field) => field.text(),
        None => None,
    }
}

fn either_str<'a>(value: &'a MiValue, first: &str, second: &str) -> (r: Option<&'a str>)
    ensures
        match r {
            Some(t) => either_text(value.tree(), first@, second@) == Some(t@),
            None => either_text(value.tree(), first@, second@) is None,
        },
{
    match value.field(first) {
        Some(field) => field.text(),
        None => field_str(value, second),
    }
}

fn owned_or_empty(text: Option<&str>) -> (r: String)
    ensures
        r@ == match text {
            Some(t) => t@,
            None => seq![],
        },
{
    match text {
        Some(t) => t.to_owned(),
        None => String::new(),
    }
}

/// The text of the constant under a name of a record's results.
pub fn text<'a>(map: &'a Fields<MiValue>, key: &str) -> (r: Option<&'a str>)
    ensures
        match r {
            Some(t) => map@.contains_key(key@) && map@[key@].tree().text() == Some(t@),
            None => !map@.contains_key(key@) || map@[key@].tree().text() is None,
        },
{
    match map.get(key) {
        Some(value) => value.text(),
        None => None,
    }
}

/// The value under a name.
pub fn unwrap_named<'a>(value: &'a MiValue, name: &str) -> (r: Option<&'a MiValue>)
    ensures
        match r {
            Some(inner) => value.tree().field(name@) == Some(inner.tree()),
            None => value.tree().field(name@) is None,
        },
{
    value.field(name)
}

fn unwrapped_value<'a>(value: &'a MiValue, name: &str) -> (r: &'a MiValue)
    ensures
        r.tree() == unwrapped(value.tree(), name@),
{
    match unwrap_named(value, name) {
        Some(inner) => inner,
        None => value,
    }
}

/// The number that a text stands for, where it fits in 32 bits.
pub fn parse_u32(value: Option<&str>) -> (r: Option<u32>)
    ensures
        r == u32_of(
            match value {
                Some(t) => Some(t@),
                None => None,
            },
        ),
{
    match value {
        None => None,
        Some(t) => match parse_unsigned(t, u32::MAX as u64) {
            Some(n) => Some(n as u32),
            None => None,
        },
    }
}

/// The frame that a value describes.
pub fn frame_from_value(value: &MiValue) -> (r: Option<Frame>)
    ensures
        r is Some,
        r->0@ == frame_of(value.tree()),
{
    Some(
        Frame {
            level: parse_u32(field_str(value, "level")),
            address: owned_or_empty(field_str(value, "addr")),
            function: owned(field_str(value, "func")),
            file: owned(either_str(value, "fullname", "file")),
            line: parse_u32(field_str(value, "line")),
        },
    )
}

/// The instruction that a value describes.
pub fn instruction_from_value(value: &MiValue) -> (r: Option<Instruction>)
    ensures
        match r {
            Some(instruction) => instruction_of(value.tree()) == Some(instruction@),
            None => instruction_of(value.tree()) is None,
        },
{
    match (field_str(value, "address"), field_str(value, "inst")) {
        (Some(address), Some(instruction)) => Some(
            Instruction {
                address: address.to_owned(),
                function: owned(field_str(value, "func-name")),
                offset: owned(field_str(value, "offset")),
                instruction: instruction.to_owned(),
            },
        ),
        _ => None,
    }
}

/// The breakpoint that a value describes.
pub fn breakpoint_from_value(value: &MiValue) -> (r: Option<Breakpoint>)
    ensures
        match r {
            Some(breakpoint) => breakpoint_of(value.tree()) == Some(breakpoint@),
            None => breakpoint_of(value.tree()) is None,
        },
{
    match field_str(value, "number") {
        Some(number) => Some(
            Breakpoint {
                number: number.to_owned(),
                enabled: match field_str(value, "enabled") {
                    Some(enabled) => same(enabled, "y"),
                    None => false,
                },
                address: owned(field_str(value, "addr")),
                location: owned(either_str(value, "original-location", "what")),
            },
        ),
        None => None,
    }
}

/// The register that a value describes, by its number among the names.
pub fn register_from_value(value: &MiValue, names: &Vec<String>) -> (r: Option<Register>)
    ensures
        match r {
            Some(register) => register_of(value.tree(), texts_view(names@)) == Some(register@),
            None => register_of(value.tree(), texts_view(names@)) is None,
        },
{
    let tuple = unwrapped_value(value, "register-values");
    match (field_str(tuple, "number"), field_str(tuple, "value")) {
        (Some(number), Some(value)) => match parse_unsigned(number, usize::MAX as u64) {
            Some(n) => {
                let n: usize = n as usize;
                let name = if n < names.len() {
                    names[n].clone()
                } else {
                    decimal_text(n as u64)
                };
                Some(Register { name, value: value.to_owned() })
            },
            None => None,
        },
        _ => None,
    }
}

/// The names in a list of register names.
pub open spec fn names_of(list: MiTree) -> Seq<Seq<char>> {
    list.items().filter_map(|item: MiTree| item.text())
}

/// The registers in a list of register values.
pub open spec fn registers_of(list: MiTree, names: Seq<Seq<char>>) -> Seq<RegisterView> {
    list.items().filter_map(|item: MiTree| register_of(item, names))
}

/// The frames in a list of frames.
pub open spec fn frames_of(list: MiTree) -> Seq<FrameView> {
    list.items().filter_map(|item: MiTree| Some(frame_of(unwrapped(item, "frame"@))))
}

/// The instructions in a disassembly.
pub open spec fn instructions_of(list: MiTree) -> Seq<InstructionView> {
    list.items().filter_map(|item: MiTree| instruction_of(item))
}

/// The breakpoints in the body of a breakpoint table.
pub open spec fn breakpoints_of(list: MiTree) -> Seq<BreakpointView> {
    list.items().filter_map(|item: MiTree| breakpoint_of(unwrapped(item, "bkpt"@)))
}

/// The names in a list of register names.
fn names_from(list: &MiValue) -> (r: Vec<String>)
    ensures
        views(r@) == names_of(list.tree()),
{
    let items = list.items();
    let ghost trees = list.tree().items();
    let ghost f = |item: MiTree| item.text();
    let mut out: Vec<String> = Vec::new();
    let mut i: usize = 0;
    assert(trees.take(0) =~= seq![]);
    assert(views(out@) =~= trees.take(0).filter_map(f));
    while i < items.len()
        invariant
            i <= items@.len(),
            trees == items_tree(items@),
            trees.len() == items@.len(),
            f == |item: MiTree| item.text(),
            views(out@) == trees.take(i as int).filter_map(f),
        decreases items@.len() - i,
    {
        proof {
            lemma_filter_map_of_longer_prefix(trees, i as int, f);
        }
        push_found(&mut out, owned(items[i].text()));
        i += 1;
    }
    assert(trees.take(i as int) =~= trees);
    out
}

/// The registers in a list of register values.
fn registers_from(list: &MiValue, names: &Vec<String>) -> (r: Vec<Register>)
    ensures
        views(r@) == registers_of(list.tree(), texts_view(names@)),
{
    let items = list.items();
    let ghost trees = list.tree().items();
    let ghost f = |item: MiTree| register_of(item, texts_view(names@));
    let mut out: Vec<Register> = Vec::new();
    let mut i: usize = 0;
    assert(trees.take(0) =~= seq![]);
    assert(views(out@) =~= trees.take(0).filter_map(f));
    while i < items.len()
        invariant
            i <= items@.len(),
            trees == items_tree(items@),
            trees.len() == items@.len(),
            f == |item: MiTree| register_of(item, texts_view(names@)),
            views(out@) == trees.take(i as int).filter_map(f),
        decreases items@.len() - i,
    {
        proof {
            lemma_filter_map_of_longer_prefix(trees, i as int, f);
        }
        push_found(&mut out, register_from_value(&items[i], names));
        i += 1;
    }
    assert(trees.take(i as int) =~= trees);
    out
}

/// The frames in a list of frames.
fn frames_from(list: &MiValue) -> (r: Vec<Frame>)
    ensures
        views(r@) == frames_of(list.tree()),
{
    let items = list.items();
    let ghost trees = list.tree().items();
    let ghost f = |item: MiTree| Some(frame_of(unwrapped(item, "frame"@)));
    let mut out: Vec<Frame> = Vec::new();
    let mut i: usize = 0;
    assert(trees.take(0) =~= seq![]);
    assert(views(out@) =~= trees.take(0).filter_map(f));
    while i < items.len()
        invariant
            i <= items@.len(),
            trees == items_tree(items@),
            trees.len() == items@.len(),
            f == |item: MiTree| Some(frame_of(unwrapped(item, "frame"@))),
            views(out@) == trees.take(i as int).filter_map(f),
        decreases items@.len() - i,
    {
        proof {
            lemma_filter_map_of_longer_prefix(trees, i as int, f);
        }
        push_found(&mut out, frame_from_value(unwrapped_value(&items[i], "frame")));
        i += 1;
    }
    assert(trees.take(i as int) =~= trees);
    out
}

/// The instructions in a disassembly.
fn instructions_from(list: &MiValue) -> (r: Vec<Instruction>)
    ensures
        views(r@) == instructions_of(list.tree()),
{
    let items = list.items();
    let ghost trees = list.tree().items();
    let ghost f = |item: MiTree| instruction_of(item);
    let mut out: Vec<Instruction> = Vec::new();
    let mut i: usize = 0;
    assert(trees.take(0) =~= seq![]);
    assert(views(out@) =~= trees.take(0).filter_map(f));
    while i < items.len()
        invariant
            i <= items@.len(),
            trees == items_tree(items@),
            trees.len() == items@.len(),
            f == |item: MiTree| instruction_of(item),
            views(out@) == trees.take(i as int).filter_map(f),
        decreases items@.len() - i,
    {
        proof {
            lemma_filter_map_of_longer_prefix(trees, i as int, f);
        }
        push_found(&mut out, instruction_from_value(&items[i]));
        i += 1;
    }
    assert(trees.take(i as int) =~= trees);
    out
}

/// The breakpoints in the body of a breakpoint table.
fn breakpoints_from(list: &MiValue) -> (r: Vec<Breakpoint>)
    ensures
        views(r@) == breakpoints_of(list.tree()),
{
    let items = list.items();
    let ghost trees = list.tree().items();
    let ghost f = |item: MiTree| breakpoint_of(unwrapped(item, "bkpt"@));
    let mut out: Vec<Breakpoint> = Vec::new();
    let mut i: usize = 0;
    assert(trees.take(0) =~= seq![]);
    assert(views(out@) =~= trees.take(0).filter_map(f));
    while i < items.len()
        invariant
            i <= items@.len(),
            trees == items_tree(items@),
            trees.len() == items@.len(),
            f == |item: MiTree| breakpoint_of(unwrapped(item, "bkpt"@)),
            views(out@) == trees.take(i as int).filter_map(f),
        decreases items@.len() - i,
    {
        proof {
            lemma_filter_map_of_longer_prefix(trees, i as int, f);
        }
        push_found(&mut out, breakpoint_from_value(unwrapped_value(&items[i], "bkpt")));
        i += 1;
    }
    assert(trees.take(i as int) =~= trees);
    out
}

/// What is to be done about a record: whether the changed snapshot is to be published, and the
/// lines that are then to be written to the machine interface.
#[derive(Debug)]
pub struct Reaction {
    pub publish: bool,
    pub lines: Vec<String>,
}

/// The debugger's state as the records tell it.
#[verifier::ext_equal]
pub struct Known {
    pub snapshot: DebuggerSnapshotView,
    pub register_names: Seq<Seq<char>>,
}

/// What a record makes of the state, and what is to be done about it.
#[verifier::ext_equal]
pub struct Step {
    pub known: Known,
    pub publish: bool,
    pub queries: Seq<Seq<char>>,
}

/// The commands that ask for all that a snapshot holds.
pub open spec fn snapshot_queries() -> Seq<Seq<char>> {
    seq![
        "-stack-list-frames 0 31"@,
        "-data-list-register-names"@,
        "-data-list-register-values x"@,
        "-data-disassemble -s '$pc-32' -e '$pc+96' -- 0"@,
        "-break-list"@,
        "-data-read-memory-bytes $sp 256"@,
    ]
}

/// Nothing changes and nothing is done.
pub open spec fn ignored(known: Known) -> Step {
    Step { known, publish: false, queries: seq![] }
}

/// The snapshot changes, is published under the next revision, and queries follow.
pub open spec fn published(
    known: Known,
    snapshot: DebuggerSnapshotView,
    queries: Seq<Seq<char>>,
) -> Step {
    Step {
        known: Known {
            snapshot: DebuggerSnapshotView {
                revision: (snapshot.revision + 1) as u64,
                ..snapshot
            },
            ..known
        },
        publish: true,
        queries,
    }
}

/// The value under a name of a record's results.
pub open spec fn result_value(results: Map<Seq<char>, MiTree>, name: Seq<char>) -> Option<MiTree> {
    if results.contains_key(name) {
        Some(results[name])
    } else {
        None
    }
}

/// The text of the constant under a name of a record's results.
pub open spec fn result_text(results: Map<Seq<char>, MiTree>, name: Seq<char>) -> Option<
    Seq<char>,
> {
    match result_value(results, name) {
        Some(value) => value.text(),
        None => None,
    }
}

/// The debugger has answered for the first time.
pub open spec fn ready(snapshot: DebuggerSnapshotView) -> DebuggerSnapshotView {
    if snapshot.state == "starting"@ {
        DebuggerSnapshotView { state: "ready"@, stale: false, ..snapshot }
    } else {
        snapshot
    }
}

/// The register names after an answer.
pub open spec fn answered_names(
    names: Seq<Seq<char>>,
    results: Map<Seq<char>, MiTree>,
) -> Seq<Seq<char>> {
    match result_value(results, "register-names"@) {
        Some(list) => names_of(list),
        None => names,
    }
}

/// The snapshot after an answer: what the answer holds takes the place of what was known.
pub open spec fn answered(
    snapshot: DebuggerSnapshotView,
    names: Seq<Seq<char>>,
    results: Map<Seq<char>, MiTree>,
) -> DebuggerSnapshotView {
    let frames = match result_value(results, "stack"@) {
        Some(list) => frames_of(list),
        None => snapshot.frames,
    };
    DebuggerSnapshotView {
        registers: match result_value(results, "register-values"@) {
            Some(list) => registers_of(list, names),
            None => snapshot.registers,
        },
        frames,
        frame: if result_value(results, "stack"@) is Some && frames.len() > 0 {
            Some(frames[0])
        } else {
            snapshot.frame
        },
        disassembly: match result_value(results, "asm_insns"@) {
            Some(list) => instructions_of(list),
            None => snapshot.disassembly,
        },
        breakpoints: match result_value(results, "BreakpointTable"@) {
            Some(table) => match table.field("body"@) {
                Some(body) => breakpoints_of(body),
                None => snapshot.breakpoints,
            },
            None => snapshot.breakpoints,
        },
        stack: match result_value(results, "memory"@) {
            Some(list) => if list.items().len() > 0 {
                Some(memory_of(list.items()[0]))
            } else {
                snapshot.stack
            },
            None => snapshot.stack,
        },
        error: None,
        ..snapshot
    }
}

/// Whether a text begins with another.
pub open spec fn begins_with(text: Seq<char>, start: Seq<char>) -> bool {
    start.len() <= text.len() && text.take(start.len() as int) == start
}

/// What a record makes of the state.
pub open spec fn record_step(known: Known, record: RecordTree) -> Step {
    let snapshot = known.snapshot;
    match record {
        RecordTree::Async { class, results, .. } => if class == "running"@ {
            published(
                known,
                DebuggerSnapshotView {
                    state: "running"@,
                    stale: true,
                    stop_reason: None,
                    ..snapshot
                },
                seq![],
            )
        } else if class == "stopped"@ {
            published(
                known,
                DebuggerSnapshotView {
                    state: "stopped"@,
                    stale: false,
                    stop_reason: result_text(results, "reason"@),
                    frame: match result_value(results, "frame"@) {
                        Some(value) => Some(frame_of(value)),
                        None => None,
                    },
                    ..snapshot
                },
                snapshot_queries(),
            )
        } else if begins_with(class, "breakpoint-"@) {
            Step { known, publish: false, queries: seq!["-break-list"@] }
        } else {
            ignored(known)
        },
        RecordTree::Result { class, results, .. } => if class == "error"@ {
            published(
                known,
                DebuggerSnapshotView { error: result_text(results, "msg"@), ..snapshot },
                seq![],
            )
        } else if class == "done"@ {
            let names = answered_names(known.register_names, results);
            published(
                Known { register_names: names, ..known },
                answered(ready(snapshot), names, results),
                seq![],
            )
        } else {
            ignored(known)
        },
        RecordTree::Prompt => if snapshot.state == "starting"@ {
            published(known, ready(snapshot), snapshot_queries())
        } else {
            ignored(known)
        },
        RecordTree::Stream { .. } => ignored(known),
    }
}

/// The lines that put commands to the machine interface, each behind the next token.
pub open spec fn command_lines(next: nat, commands: Seq<Seq<char>>) -> Seq<Seq<char>> {
    Seq::new(commands.len(), |i: int| decimal((next + i + 1) as nat) + commands[i] + "\n"@)
}

/// The line that puts a command to the machine interface.
pub fn mi_command(next: &mut u64, command: &str) -> (r: String)
    requires
        *old(next) < u64::MAX,
    ensures
        *final(next) == *old(next) + 1,
        r@ == decimal(*final(next) as nat) + command@ + "\n"@,
{
    *next = *next + 1;
    let token = decimal_text(*next);
    join3(&token, command, "\n")
}

/// The lines that ask for all that a snapshot holds.
pub fn query_snapshot(next: &mut u64) -> (r: Vec<String>)
    requires
        *old(next) <= u64::MAX - 6,
    ensures
        *final(next) == *old(next) + 6,
        texts_view(r@) == command_lines(*old(next) as nat, snapshot_queries()),
{
    let mut lines: Vec<String> = Vec::new();
    lines.push(mi_command(next, "-stack-list-frames 0 31"));
    lines.push(mi_command(next, "-data-list-register-names"));
    lines.push(mi_command(next, "-data-list-register-values x"));
    lines.push(mi_command(next, "-data-disassemble -s '$pc-32' -e '$pc+96' -- 0"));
    lines.push(mi_command(next, "-break-list"));
    lines.push(mi_command(next, "-data-read-memory-bytes $sp 256"));
    assert(texts_view(lines@) =~= command_lines(*old(next) as nat, snapshot_queries()));
    lines
}

/// Marks the snapshot as changed.
fn publish(snapshot: &mut DebuggerSnapshot)
    requires
        old(snapshot).revision < u64::MAX,
    ensures
        final(snapshot)@ == (DebuggerSnapshotView {
            revision: (old(snapshot)@.revision + 1) as u64,
            ..old(snapshot)@
        }),
{
    snapshot.revision = snapshot.revision + 1;
}

/// Takes the debugger's first answer into the snapshot.
fn become_ready(snapshot: &mut DebuggerSnapshot)
    ensures
        final(snapshot)@ == ready(old(snapshot)@),
{
    if same(&snapshot.state, "starting") {
        snapshot.state = "ready".to_owned();
        snapshot.stale = false;
    }
}

/// Takes the stack of an answer into the snapshot.
fn take_stack(snapshot: &mut DebuggerSnapshot, stack: &MiValue)
    ensures
        final(snapshot)@ == (DebuggerSnapshotView {
            frames: frames_of(stack.tree()),
            frame: if frames_of(stack.tree()).len() > 0 {
                Some(frames_of(stack.tree())[0])
            } else {
                old(snapshot)@.frame
            },
            ..old(snapshot)@
        }),
{
    let frames = frames_from(stack);
    assert(views(frames@).len() == frames@.len());
    if frames.len() > 0 {
        let first = frames[0].clone();
        assert(first@ == views(frames@)[0]);
        snapshot.frame = Some(first);
    }
    snapshot.frames = frames;
}

/// Takes the memory of an answer into the snapshot.
fn take_memory(snapshot: &mut DebuggerSnapshot, list: &MiValue)
    ensures
        final(snapshot)@ == (DebuggerSnapshotView {
            stack: if list.tree().items().len() > 0 {
                Some(memory_of(list.tree().items()[0]))
            } else {
                old(snapshot)@.stack
            },
            ..old(snapshot)@
        }),
{
    let items = list.items();
    assert(items_tree(items@).len() == items@.len());
    if items.len() > 0 {
        let memory = &items[0];
        assert(memory.tree() == items_tree(items@)[0]);
        snapshot.stack = Some(
            MemoryBlock {
                address: owned_or_empty(field_str(memory, "begin")),
                bytes: owned_or_empty(field_str(memory, "contents")),
            },
        );
    }
}

/// Takes an answer into the snapshot and the register names.
fn take_answer(
    results: &Fields<MiValue>,
    snapshot: &mut DebuggerSnapshot,
    register_names: &mut Vec<String>,
)
    ensures
        texts_view(final(register_names)@) == answered_names(
            texts_view(old(register_names)@),
            fields_tree(*results),
        ),
        final(snapshot)@ == answered(
            old(snapshot)@,
            texts_view(final(register_names)@),
            fields_tree(*results),
        ),
{
    if let Some(names) = results.get("register-names") {
        *register_names = names_from(names);
    }
    if let Some(values) = results.get("register-values") {
        snapshot.registers = registers_from(values, register_names);
    }
    if let Some(stack) = results.get("stack") {
        take_stack(snapshot, stack);
    }
    if let Some(insns) = results.get("asm_insns") {
        snapshot.disassembly = instructions_from(insns);
    }
    if let Some(table) = results.get("BreakpointTable") {
        if let Some(body) = table.field("body") {
            snapshot.breakpoints = breakpoints_from(body);
        }
    }
    if let Some(memory) = results.get("memory") {
        take_memory(snapshot, memory);
    }
    snapshot.error = None;
}

/// Whether a text begins with another.
fn starts_with(text: &str, start: &str) -> (r: bool)
    ensures
        r == begins_with(text@, start@),
{
    let t = chars_of(text);
    let s = chars_of(start);
    if s.len() > t.len() {
        return false;
    }
    let mut i: usize = 0;
    while i < s.len()
        invariant
            i <= s@.len() <= t@.len(),
            t@ == text@,
            s@ == start@,
            t@.take(i as int) == s@.take(i as int),
        decreases s@.len() - i,
    {
        if t[i] != s[i] {
            assert(t@.take(s@.len() as int)[i as int] != s@[i as int]);
            return false;
        }
        i += 1;
        assert(t@.take(i as int) =~= t@.take(i - 1).push(t@[i - 1]));
        assert(s@.take(i as int) =~= s@.take(i - 1).push(s@[i - 1]));
    }
    assert(s@.take(i as int) =~= s@);
    true
}

/// Takes a record into the snapshot, and says what is to be done about it.
pub fn handle_record(
    record: MiRecord,
    snapshot: &mut DebuggerSnapshot,
    register_names: &mut Vec<String>,
    next: &mut u64,
) -> (r: Reaction)
    requires
        old(snapshot).revision < u64::MAX,
        *old(next) <= u64::MAX - 6,
    ensures
        ({
            let known = Known {
                snapshot: old(snapshot)@,
                register_names: texts_view(old(register_names)@),
            };
            let step = record_step(known, record.tree());
            &&& final(snapshot)@ == step.known.snapshot
            &&& texts_view(final(register_names)@) == step.known.register_names
            &&& r.publish == step.publish
            &&& texts_view(r.lines@) == command_lines(*old(next) as nat, step.queries)
            &&& *final(next) == *old(next) + step.queries.len()
        }),
        r.publish ==> final(snapshot).revision == old(snapshot).revision + 1,
        !r.publish ==> final(snapshot)@ == old(snapshot)@ && final(register_names)@ == old(
            register_names,
        )@,
{
    let mut lines: Vec<String> = Vec::new();
    assert(texts_view(lines@) =~= command_lines(*old(next) as nat, seq![]));
    match record {
        MiRecord::Async { class, results, .. } => {
            if same(&class, "running") {
                snapshot.state = "running".to_owned();
                snapshot.stale = true;
                snapshot.stop_reason = None;
                publish(snapshot);
                Reaction { publish: true, lines }
            } else if same(&class, "stopped") {
                snapshot.state = "stopped".to_owned();
                snapshot.stale = false;
                snapshot.stop_reason = owned(text(&results, "reason"));
                snapshot.frame = match results.get("frame") {
                    Some(value) => frame_from_value(value),
                    None => None,
                };
                publish(snapshot);
                Reaction { publish: true, lines: query_snapshot(next) }
            } else if starts_with(&class, "breakpoint-") {
                lines.push(mi_command(next, "-break-list"));
                assert(texts_view(lines@) =~= command_lines(
                    *old(next) as nat,
                    seq!["-break-list"@],
                ));
                Reaction { publish: false, lines }
            } else {
                Reaction { publish: false, lines }
            }
        },
        MiRecord::Result { class, results, .. } => {
            if same(&class, "error") {
                snapshot.error = owned(text(&results, "msg"));
                publish(snapshot);
                Reaction { publish: true, lines }
            } else if same(&class, "done") {
                become_ready(snapshot);
                take_answer(&results, snapshot, register_names);
                publish(snapshot);
                Reaction { publish: true, lines }
            } else {
                Reaction { publish: false, lines }
            }
        },
        MiRecord::Prompt => {
            if same(&snapshot.state, "starting") {
                become_ready(snapshot);
                publish(snapshot);
                Reaction { publish: true, lines: query_snapshot(next) }
            } else {
                Reaction { publish: false, lines }
            }
        },
        MiRecord::Stream { .. } => Reaction { publish: false, lines },
    }
}

/// The unfinished line at the end of a text: what follows its last line feed.
pub open spec fn unfinished(text: Seq<char>) -> Seq<char>
    decreases text.len(),
{
    if text.len() == 0 || text.last() == '\n' {
        seq![]
    } else {
        unfinished(text.drop_last()).push(text.last())
    }
}

/// The lines of a text that end in a line feed, without it.
pub open spec fn finished(text: Seq<char>) -> Seq<Seq<char>>
    decreases text.len(),
{
    if text.len() == 0 {
        seq![]
    } else if text.last() == '\n' {
        finished(text.drop_last()).push(unfinished(text.drop_last()))
    } else {
        finished(text.drop_last())
    }
}

/// A line without the carriage returns at its end.
pub open spec fn without_returns(line: Seq<char>) -> Seq<char>
    decreases line.len(),
{
    if line.len() > 0 && line.last() == '\r' {
        without_returns(line.drop_last())
    } else {
        line
    }
}

/// The lines that hold a record: those that are not empty.
pub open spec fn record_lines(lines: Seq<Seq<char>>) -> Seq<Seq<char>> {
    lines.filter_map(
        |line: Seq<char>|
            if without_returns(line).len() > 0 {
                Some(without_returns(line))
            } else {
                None
            },
    )
}

proof fn lemma_lines_of_concatenation(first: Seq<char>, second: Seq<char>)
    ensures
        unfinished(first + second) == unfinished(unfinished(first) + second),
        finished(first + second) == finished(first) + finished(unfinished(first) + second),
    decreases second.len(),
{
    let rest = unfinished(first);
    if second.len() == 0 {
        assert(first + second =~= first);
        assert(rest + second =~= rest);
        lemma_unfinished_has_no_line(first);
        assert(finished(first) + seq![] =~= finished(first));
    } else {
        assert((first + second).drop_last() =~= first + second.drop_last());
        assert((rest + second).drop_last() =~= rest + second.drop_last());
        lemma_lines_of_concatenation(first, second.drop_last());
        if second.last() == '\n' {
            assert(finished(first + second) =~= finished(first) + finished(rest + second));
        }
    }
}

proof fn lemma_unfinished_has_no_line(text: Seq<char>)
    ensures
        finished(unfinished(text)) == Seq::<Seq<char>>::empty(),
        unfinished(unfinished(text)) == unfinished(text),
    decreases text.len(),
{
    if text.len() > 0 && text.last() != '\n' {
        lemma_unfinished_has_no_line(text.drop_last());
        assert(unfinished(text).drop_last() =~= unfinished(text.drop_last()));
    }
}

/// The lines that a text holds, and what is left unfinished, do not depend on the pieces in
/// which the text comes.
pub proof fn law_lines_do_not_depend_on_pieces(first: Seq<char>, second: Seq<char>)
    ensures
        unfinished(first + second) == unfinished(unfinished(first) + second),
        finished(first + second) == finished(first) + finished(unfinished(first) + second),
{
    lemma_lines_of_concatenation(first, second);
}

/// A line without the carriage returns at its end, where anything is left.
fn record_line(line: &Vec<char>) -> (r: Option<String>)
    ensures
        match r {
            Some(text) => text@ == without_returns(line@) && text@.len() > 0,
            None => without_returns(line@).len() == 0,
        },
{
    let mut end: usize = line.len();
    assert(line@.take(end as int) =~= line@);
    while end > 0 && line[end - 1] == '\r'
        invariant
            end <= line@.len(),
            without_returns(line@) == without_returns(line@.take(end as int)),
        decreases end,
    {
        assert(line@.take(end as int).drop_last() =~= line@.take(end - 1));
        end -= 1;
    }
    assert(without_returns(line@) == line@.take(end as int));
    if end == 0 {
        return None;
    }
    let kept = &line[0..end];
    assert(kept@ =~= line@.take(end as int));
    Some(text_of(kept))
}

/// Adds a piece of text to an unfinished line, and takes out the lines that it finishes.
pub fn take_lines(pending: &mut String, piece: &str) -> (r: Vec<String>)
    ensures
        final(pending)@ == unfinished(old(pending)@ + piece@),
        texts_view(r@) == record_lines(finished(old(pending)@ + piece@)),
{
    let ghost all = pending@ + piece@;
    pending.append(piece);
    let chars = chars_of(pending);
    let ghost f = |line: Seq<char>|
        if without_returns(line).len() > 0 {
            Some(without_returns(line))
        } else {
            None
        };
    let mut lines: Vec<String> = Vec::new();
    let mut line: Vec<char> = Vec::new();
    let mut i: usize = 0;
    assert(all.take(0) =~= seq![]);
    assert(finished(all.take(0)) =~= seq![]);
    assert(texts_view(lines@) =~= finished(all.take(0)).filter_map(f));
    while i < chars.len()
        invariant
            i <= chars@.len(),
            chars@ == all,
            line@ == unfinished(all.take(i as int)),
            texts_view(lines@) == finished(all.take(i as int)).filter_map(f),
            f == (|line: Seq<char>|
                if without_returns(line).len() > 0 {
                    Some(without_returns(line))
                } else {
                    None
                }),
        decreases chars@.len() - i,
    {
        let c = chars[i];
        assert(all.take(i + 1).drop_last() =~= all.take(i as int));
        if c == '\n' {
            proof {
                let done = finished(all.take(i as int));
                let more = done.push(line@);
                assert(more.take(done.len() as int) =~= done);
                assert(more.take(done.len() as int + 1) =~= more);
                lemma_filter_map_of_longer_prefix(more, done.len() as int, f);
            }
            push_found(&mut lines, record_line(&line));
            line = Vec::new();
        } else {
            line.push(c);
        }
        i += 1;
    }
    assert(all.take(i as int) =~= all);
    *pending = text_of(line.as_slice());
    lines
}

/// A request to the debugger.
#[derive(Debug)]
pub enum DebuggerCommand {
    Input(Vec<u8>),
    Resize { cols: u16, rows: u16 },
    Refresh,
    Stop,
}

/// What is to be done about a request to the debugger.
#[derive(Debug)]
pub enum DebuggerAction {
    /// Write the bytes to the terminal.
    Type(Vec<u8>),
    /// Change the size of the terminal.
    Resize { cols: u16, rows: u16 },
    /// Write the lines to the machine interface.
    Ask(Vec<String>),
    /// End the debugger.
    End,
}

/// The conversation with the debugger over its machine interface.
#[derive(Debug)]
pub struct DebuggerSession {
    pub snapshot: DebuggerSnapshot,
    pub register_names: Vec<String>,
    pub next_token: u64,
    pub pending: String,
}

/// A session over mathematical values.
#[verifier::ext_equal]
pub struct SessionView {
    pub known: Known,
    pub next_token: nat,
    pub pending: Seq<char>,
}

impl View for DebuggerSession {
    type V = SessionView;

    open spec fn view(&self) -> SessionView {
        SessionView {
            known: Known {
                snapshot: self.snapshot@,
                register_names: texts_view(self.register_names@),
            },
            next_token: self.next_token as nat,
            pending: self.pending@,
        }
    }
}

impl SessionView {
    /// A session with a debugger that has said nothing yet.
    pub open spec fn start() -> SessionView {
        SessionView {
            known: Known {
                snapshot: DebuggerSnapshotView {
                    state: "starting"@,
                    ..DebuggerSnapshotView::none()
                },
                register_names: seq![],
            },
            next_token: 100,
            pending: seq![],
        }
    }

    /// What a record makes of the session.
    pub open spec fn after(self, step: Step) -> SessionView {
        SessionView {
            known: step.known,
            next_token: self.next_token + step.queries.len(),
            ..self
        }
    }

    /// What a line of the machine interface calls for. A line that holds no record is passed
    /// over.
    pub open spec fn line_step(self, line: Seq<char>) -> Step {
        match line_record(line) {
            Ok(record) => record_step(self.known, record),
            Err(_) => ignored(self.known),
        }
    }

    /// Whether the revision and the token can be counted up for some more lines.
    pub open spec fn has_room(self, lines: nat) -> bool {
        self.known.snapshot.revision + lines <= u64::MAX && self.next_token + 6 * lines
            <= u64::MAX
    }

    /// What a line makes of the session.
    pub open spec fn after_line(self, line: Seq<char>) -> SessionView {
        self.after(self.line_step(line))
    }

    /// What is done about a record: the snapshot is published where it has changed, and commands
    /// are put to the machine interface.
    pub open spec fn step_outputs(self, step: Step) -> Seq<DebuggerOutputView> {
        let published = if step.publish {
            seq![DebuggerOutputView::Publish(step.known.snapshot)]
        } else {
            seq![]
        };
        published + command_lines(self.next_token, step.queries).map_values(
            |text: Seq<char>| DebuggerOutputView::Ask(text),
        )
    }

    /// What is done about a line. One that holds no record is passed over.
    pub open spec fn line_outputs(self, line: Seq<char>) -> Seq<DebuggerOutputView> {
        match line_record(line) {
            Ok(record) => self.step_outputs(record_step(self.known, record)),
            Err(error) => seq![
                DebuggerOutputView::Ignore { line, reason: error.message_text() },
            ],
        }
    }

    /// What some lines make of the session, one behind the other.
    pub open spec fn after_lines(self, lines: Seq<Seq<char>>) -> SessionView
        decreases lines.len(),
    {
        if lines.len() == 0 {
            self
        } else {
            self.after_lines(lines.drop_last()).after_line(lines.last())
        }
    }

    /// What is done about some lines, one behind the other.
    pub open spec fn lines_outputs(self, lines: Seq<Seq<char>>) -> Seq<DebuggerOutputView>
        decreases lines.len(),
    {
        if lines.len() == 0 {
            seq![]
        } else {
            self.lines_outputs(lines.drop_last()) + self.after_lines(
                lines.drop_last(),
            ).line_outputs(lines.last())
        }
    }

    /// The lines that more text of the machine interface finishes.
    pub open spec fn lines_in(self, text: Seq<char>) -> Seq<Seq<char>> {
        record_lines(finished(self.pending + text))
    }

    /// The session with more text of the machine interface, of which the finished lines are yet
    /// to be taken in.
    pub open spec fn with_text(self, text: Seq<char>) -> SessionView {
        SessionView { pending: unfinished(self.pending + text), ..self }
    }

    /// What more text of the machine interface makes of the session.
    pub open spec fn after_text(self, text: Seq<char>) -> SessionView {
        self.with_text(text).after_lines(self.lines_in(text))
    }

    /// What is done about more text of the machine interface.
    pub open spec fn text_outputs(self, text: Seq<char>) -> Seq<DebuggerOutputView> {
        self.with_text(text).lines_outputs(self.lines_in(text))
    }
}

/// What is done about the debugger's machine interface.
#[derive(Debug)]
pub enum DebuggerOutput {
    /// Publish the snapshot.
    Publish(DebuggerSnapshot),
    /// Write the line to the machine interface.
    Ask(String),
    /// Nothing; the line holds no record, for the given reason.
    Ignore { line: String, reason: String },
}

/// `DebuggerOutput` over mathematical values.
pub enum DebuggerOutputView {
    Publish(DebuggerSnapshotView),
    Ask(Seq<char>),
    Ignore { line: Seq<char>, reason: Seq<char> },
}

impl View for DebuggerOutput {
    type V = DebuggerOutputView;

    open spec fn view(&self) -> DebuggerOutputView {
        match *self {
            DebuggerOutput::Publish(snapshot) => DebuggerOutputView::Publish(snapshot@),
            DebuggerOutput::Ask(line) => DebuggerOutputView::Ask(line@),
            DebuggerOutput::Ignore { line, reason } => DebuggerOutputView::Ignore {
                line: line@,
                reason: reason@,
            },
        }
    }
}

/// A list of what is to be done, over mathematical values.
pub open spec fn outputs_view(outputs: Seq<DebuggerOutput>) -> Seq<DebuggerOutputView> {
    outputs.map_values(|output: DebuggerOutput| output@)
}

/// Puts what is to be done about a record behind what is to be done already.
fn add_reaction(
    outputs: &mut Vec<DebuggerOutput>,
    snapshot: &DebuggerSnapshot,
    reaction: Reaction,
)
    ensures
        outputs_view(final(outputs)@) == outputs_view(old(outputs)@) + (if reaction.publish {
            seq![DebuggerOutputView::Publish(snapshot@)]
        } else {
            seq![]
        }) + texts_view(reaction.lines@).map_values(|text: Seq<char>| DebuggerOutputView::Ask(text)),
{
    let ghost first = outputs_view(outputs@) + (if reaction.publish {
        seq![DebuggerOutputView::Publish(snapshot@)]
    } else {
        seq![]
    });
    if reaction.publish {
        let ghost before = outputs@;
        let copy = snapshot.clone();
        outputs.push(DebuggerOutput::Publish(copy));
        assert(outputs_view(outputs@) =~= outputs_view(before).push(
            DebuggerOutputView::Publish(snapshot@),
        ));
    }
    assert(outputs_view(outputs@) =~= first);
    let ghost asked = texts_view(reaction.lines@).map_values(
        |text: Seq<char>| DebuggerOutputView::Ask(text),
    );
    let mut i: usize = 0;
    assert(first + asked.take(0) =~= first);
    while i < reaction.lines.len()
        invariant
            i <= reaction.lines@.len(),
            asked == texts_view(reaction.lines@).map_values(
                |text: Seq<char>| DebuggerOutputView::Ask(text),
            ),
            outputs_view(outputs@) == first + asked.take(i as int),
        decreases reaction.lines@.len() - i,
    {
        let ghost before = outputs@;
        outputs.push(DebuggerOutput::Ask(reaction.lines[i].clone()));
        assert(outputs_view(outputs@) =~= outputs_view(before).push(asked[i as int]));
        assert(first + asked.take(i + 1) =~= (first + asked.take(i as int)).push(asked[i as int]));
        i += 1;
    }
    assert(asked.take(i as int) =~= asked);
}

impl DebuggerSession {
    /// A session with a debugger that has said nothing yet.
    pub fn new() -> (r: Self)
        ensures
            r@ == SessionView::start(),
    {
        let mut snapshot: DebuggerSnapshot = Default::default();
        snapshot.state = "starting".to_owned();
        let r = DebuggerSession {
            snapshot,
            register_names: Vec::new(),
            next_token: 100,
            pending: String::new(),
        };
        assert(r@.known.register_names =~= seq![]);
        r
    }

    /// Whether the revision and the token can be counted up for some more lines.
    pub fn has_room(&self, lines: usize) -> (r: bool)
        ensures
            r == self@.has_room(lines as nat),
    {
        let lines = lines as u64;
        lines <= u64::MAX / 6 && self.snapshot.revision <= u64::MAX - lines && self.next_token
            <= u64::MAX - 6 * lines
    }

    /// Takes in bytes of the machine interface, and gives the lines that they finish.
    pub fn receive(&mut self, bytes: &[u8]) -> (r: Vec<String>)
        ensures
            final(self)@ == old(self)@.with_text(lossy(bytes@)),
            texts_view(r@) == old(self)@.lines_in(lossy(bytes@)),
    {
        let piece = from_utf8_lossy(bytes);
        take_lines(&mut self.pending, &piece)
    }

    /// Takes in a line of the machine interface, and says what is to be done about it, or why it
    /// holds no record.
    pub fn handle_line(&mut self, line: &str) -> (r: Result<Reaction, String>)
        requires
            old(self)@.has_room(1),
        ensures
            final(self)@ == old(self)@.after_line(line@),
            match line_record(line@) {
                Ok(record) => {
                    let step = record_step(old(self)@.known, record);
                    &&& r is Ok
                    &&& r->Ok_0.publish == step.publish
                    &&& texts_view(r->Ok_0.lines@) == command_lines(
                        old(self)@.next_token,
                        step.queries,
                    )
                },
                Err(error) => r is Err && r->Err_0@ == error.message_text(),
            },
    {
        match parse_line(line) {
            Ok(record) => Ok(
                handle_record(
                    record,
                    &mut self.snapshot,
                    &mut self.register_names,
                    &mut self.next_token,
                ),
            ),
            Err(reason) => Err(reason),
        }
    }

    /// Takes in lines of the machine interface, and says what is to be done about them.
    pub fn handle_lines(&mut self, lines: &Vec<String>) -> (r: Vec<DebuggerOutput>)
        requires
            old(self)@.has_room(lines@.len()),
        ensures
            final(self)@ == old(self)@.after_lines(texts_view(lines@)),
            outputs_view(r@) == old(self)@.lines_outputs(texts_view(lines@)),
    {
        let ghost texts = texts_view(lines@);
        let mut outputs: Vec<DebuggerOutput> = Vec::new();
        let mut i: usize = 0;
        assert(texts.take(0) =~= seq![]);
        assert(outputs_view(outputs@) =~= seq![]);
        while i < lines.len()
            invariant
                i <= lines@.len(),
                texts == texts_view(lines@),
                self@ == old(self)@.after_lines(texts.take(i as int)),
                self@.has_room((lines@.len() - i) as nat),
                outputs_view(outputs@) == old(self)@.lines_outputs(texts.take(i as int)),
            decreases lines@.len() - i,
        {
            let ghost session = self@;
            let ghost before = outputs_view(outputs@);
            assert(texts.take(i + 1).drop_last() =~= texts.take(i as int));
            assert(texts.take(i + 1).last() == lines@[i as int]@);
            proof {
                lemma_line_needs_little(session, lines@[i as int]@);
            }
            match self.handle_line(&lines[i]) {
                Ok(reaction) => {
                    add_reaction(&mut outputs, &self.snapshot, reaction);
                },
                Err(reason) => {
                    let ghost done = outputs@;
                    let output = DebuggerOutput::Ignore { line: lines[i].clone(), reason };
                    outputs.push(output);
                    assert(outputs_view(outputs@) =~= outputs_view(done).push(output@));
                },
            }
            assert(outputs_view(outputs@) =~= before + session.line_outputs(lines@[i as int]@));
            i += 1;
        }
        assert(texts.take(i as int) =~= texts);
        outputs
    }

    /// What is to be done about a request, or about there being no more of them.
    pub fn handle_command(&mut self, command: Option<DebuggerCommand>) -> (r: DebuggerAction)
        requires
            command matches Some(DebuggerCommand::Refresh) ==> old(self)@.next_token <= u64::MAX - 6,
        ensures
            match command {
                Some(DebuggerCommand::Input(data)) => r == DebuggerAction::Type(data)
                    && final(self)@ == old(self)@,
                Some(DebuggerCommand::Resize { cols, rows }) => r == (DebuggerAction::Resize {
                    cols,
                    rows,
                }) && final(self)@ == old(self)@,
                Some(DebuggerCommand::Refresh) => {
                    &&& r is Ask
                    &&& texts_view(r->Ask_0@) == command_lines(
                        old(self)@.next_token,
                        snapshot_queries(),
                    )
                    &&& final(self)@ == (SessionView {
                        next_token: old(self)@.next_token + 6,
                        ..old(self)@
                    })
                },
                Some(DebuggerCommand::Stop) | None => r == DebuggerAction::End && final(self)@
                    == old(self)@,
            },
    {
        match command {
            Some(DebuggerCommand::Input(data)) => DebuggerAction::Type(data),
            Some(DebuggerCommand::Resize { cols, rows }) => DebuggerAction::Resize { cols, rows },
            Some(DebuggerCommand::Refresh) => DebuggerAction::Ask(
                query_snapshot(&mut self.next_token),
            ),
            Some(DebuggerCommand::Stop) | None => DebuggerAction::End,
        }
    }

    /// Takes in that the debugger has exited, with the error in waiting for it if there was one.
    pub fn handle_exit(&mut self, error: Option<String>)
        requires
            old(self)@.known.snapshot.revision < u64::MAX,
        ensures
            final(self)@ == (SessionView {
                known: Known {
                    snapshot: DebuggerSnapshotView {
                        state: "exited"@,
                        error: opt_view(error),
                        revision: (old(self)@.known.snapshot.revision + 1) as u64,
                        ..old(self)@.known.snapshot
                    },
                    ..old(self)@.known
                },
                ..old(self)@
            }),
    {
        self.snapshot.state = "exited".to_owned();
        self.snapshot.error = error;
        publish(&mut self.snapshot);
    }
}

proof fn lemma_line_needs_little(session: SessionView, line: Seq<char>)
    requires
        session.known.snapshot.revision < u64::MAX,
    ensures
        session.after_line(line).known.snapshot.revision <= session.known.snapshot.revision + 1,
        session.after_line(line).next_token <= session.next_token + 6,
{
}

proof fn lemma_outputs_associate(
    a: Seq<DebuggerOutputView>,
    b: Seq<DebuggerOutputView>,
    c: Seq<DebuggerOutputView>,
)
    ensures
        a + b + c == a + (b + c),
        a + Seq::<DebuggerOutputView>::empty() == a,
{
    assert(a + b + c =~= a + (b + c));
    assert(a + Seq::<DebuggerOutputView>::empty() =~= a);
}

proof fn lemma_lines_one_behind_the_other(
    session: SessionView,
    first: Seq<Seq<char>>,
    second: Seq<Seq<char>>,
)
    ensures
        session.after_lines(first + second) == session.after_lines(first).after_lines(second),
        session.lines_outputs(first + second) == session.lines_outputs(first)
            + session.after_lines(first).lines_outputs(second),
    decreases second.len(),
{
    let middle = session.after_lines(first);
    if second.len() == 0 {
        assert(first + second =~= first);
        lemma_outputs_associate(session.lines_outputs(first), seq![], seq![]);
    } else {
        let front = second.drop_last();
        assert((first + second).drop_last() =~= first + front);
        assert((first + second).last() == second.last());
        lemma_lines_one_behind_the_other(session, first, front);
        lemma_outputs_associate(
            session.lines_outputs(first),
            middle.lines_outputs(front),
            middle.after_lines(front).line_outputs(second.last()),
        );
    }
}

proof fn lemma_record_lines_of_concatenation(first: Seq<Seq<char>>, second: Seq<Seq<char>>)
    ensures
        record_lines(first + second) == record_lines(first) + record_lines(second),
    decreases second.len(),
{
    if second.len() == 0 {
        assert(first + second =~= first);
        assert(record_lines(first) + record_lines(second) =~= record_lines(first));
    } else {
        assert((first + second).drop_last() =~= first + second.drop_last());
        lemma_record_lines_of_concatenation(first, second.drop_last());
        assert(record_lines(first + second) =~= record_lines(first) + record_lines(second));
    }
}

proof fn lemma_lines_leave_the_pending_text(session: SessionView, lines: Seq<Seq<char>>, text: Seq<char>)
    ensures
        session.after_lines(lines).pending == session.pending,
        (SessionView { pending: text, ..session }).after_lines(lines) == (SessionView {
            pending: text,
            ..session.after_lines(lines)
        }),
        (SessionView { pending: text, ..session }).lines_outputs(lines) == session.lines_outputs(
            lines,
        ),
    decreases lines.len(),
{
    if lines.len() > 0 {
        lemma_lines_leave_the_pending_text(session, lines.drop_last(), text);
    }
}

/// What is made of the text of the machine interface does not depend on the pieces in which the
/// text comes: neither what is known in the end, nor what is done about it on the way.
pub proof fn law_session_does_not_depend_on_pieces(
    session: SessionView,
    first: Seq<char>,
    second: Seq<char>,
)
    ensures
        session.after_text(first + second) == session.after_text(first).after_text(second),
        session.text_outputs(first + second) == session.text_outputs(first) + session.after_text(
            first,
        ).text_outputs(second),
{
    let all = session.pending + (first + second);
    let start = session.pending + first;
    assert(all =~= start + second);
    law_lines_do_not_depend_on_pieces(start, second);
    let lines = record_lines(finished(start));
    let more = record_lines(finished(unfinished(start) + second));
    lemma_record_lines_of_concatenation(finished(start), finished(unfinished(start) + second));
    assert(session.lines_in(first + second) == lines + more);
    let rest = unfinished(all);
    let begun = session.with_text(first);
    lemma_lines_leave_the_pending_text(begun, lines, rest);
    assert(session.after_text(first).pending == unfinished(start));
    assert(session.after_text(first).lines_in(second) == more);
    let done = SessionView { pending: rest, ..begun };
    assert(session.with_text(first + second) == done);
    lemma_lines_one_behind_the_other(done, lines, more);
    assert(session.after_text(first).with_text(second) == done.after_lines(lines));
}

/// What is made of the bytes of the machine interface does not depend on the pieces in which they
/// come, where each piece is valid UTF-8, so that no character is split.
pub proof fn law_session_does_not_depend_on_valid_pieces(
    session: SessionView,
    first: Seq<u8>,
    second: Seq<u8>,
)
    requires
        valid_utf8(first),
        valid_utf8(second),
    ensures
        session.after_text(lossy(first + second)) == session.after_text(lossy(first)).after_text(
            lossy(second),
        ),
        session.text_outputs(lossy(first + second)) == session.text_outputs(lossy(first))
            + session.after_text(lossy(first)).text_outputs(lossy(second)),
{
    law_valid_pieces_decode_to_the_whole(first, second);
    law_session_does_not_depend_on_pieces(session, lossy(first), lossy(second));
}

/// Each record counts the revision up by one where it is published, and else leaves the snapshot
/// as it was.
pub proof fn law_revision_counts_publications(known: Known, record: RecordTree)
    requires
        known.snapshot.revision < u64::MAX,
    ensures
        ({
            let step = record_step(known, record);
            if step.publish {
                step.known.snapshot.revision == known.snapshot.revision + 1
            } else {
                step.known == known
            }
        }),
{
}

/// The arguments that GDB is launched with: it asks for nothing, reports what happens on its own,
/// opens its machine interface on a terminal, and debugs the program with its arguments.
pub open spec fn launch_arguments_of(
    terminal: Seq<char>,
    program: Seq<char>,
    args: Seq<Seq<char>>,
) -> Seq<Seq<char>> {
    seq![
        "-q"@,
        "-ex"@,
        "set debuginfod enabled off"@,
        "-ex"@,
        "set pagination off"@,
        "-ex"@,
        "set mi-async on"@,
        "-ex"@,
        "new-ui mi2 "@ + terminal,
        "--args"@,
        program,
    ] + args
}

/// The arguments that GDB is launched with.
pub fn launch_arguments(terminal: &str, program: &str, args: &Vec<String>) -> (r: Vec<String>)
    ensures
        texts_view(r@) == launch_arguments_of(terminal@, program@, texts_view(args@)),
{
    let mut out: Vec<String> = Vec::new();
    out.push("-q".to_owned());
    out.push("-ex".to_owned());
    out.push("set debuginfod enabled off".to_owned());
    out.push("-ex".to_owned());
    out.push("set pagination off".to_owned());
    out.push("-ex".to_owned());
    out.push("set mi-async on".to_owned());
    out.push("-ex".to_owned());
    out.push(join2("new-ui mi2 ", terminal));
    out.push("--args".to_owned());
    out.push(program.to_owned());
    let ghost fixed = out@;
    let mut more = copy_texts(args);
    out.append(&mut more);
    assert(texts_view(out@) =~= texts_view(fixed) + texts_view(args@));
    assert(texts_view(out@) =~= launch_arguments_of(terminal@, program@, texts_view(args@)));
    out
}

/// Whether an output publishes a snapshot.
pub open spec fn publishes(output: DebuggerOutputView) -> bool {
    output is Publish
}

/// No change is left unpublished: a line leaves all that is known as it was and publishes nothing,
/// or it counts the revision up by one and publishes the snapshot as it leaves it, once and before
/// anything is asked.
pub proof fn law_each_change_is_published_once(session: SessionView, line: Seq<char>)
    requires
        session.known.snapshot.revision < u64::MAX,
    ensures
        ({
            let after = session.after_line(line);
            let outputs = session.line_outputs(line);
            ||| {
                &&& after.known == session.known
                &&& forall|i: int| 0 <= i < outputs.len() ==> !publishes(#[trigger] outputs[i])
            }
            ||| {
                &&& after.known.snapshot.revision == session.known.snapshot.revision + 1
                &&& outputs.len() > 0
                &&& outputs[0] == DebuggerOutputView::Publish(after.known.snapshot)
                &&& forall|i: int| 0 < i < outputs.len() ==> !publishes(#[trigger] outputs[i])
            }
        }),
{
}

/// Whether a command cannot be taken for more digits of the token before it.
pub open spec fn keeps_off_its_token(command: Seq<char>) -> bool {
    command.len() == 0 || !is_digit(command[0])
}

/// The commands that are put to the machine interface have different tokens, and each line begins
/// with its token. No two of the lines are equal, where no command begins with a digit.
pub proof fn law_commands_have_their_own_tokens(
    next: nat,
    commands: Seq<Seq<char>>,
    i: int,
    j: int,
)
    requires
        0 <= i < j < commands.len(),
    ensures
        command_lines(next, commands)[i] == decimal((next + i + 1) as nat) + commands[i] + "\n"@,
        command_lines(next, commands)[j] == decimal((next + j + 1) as nat) + commands[j] + "\n"@,
        decimal((next + i + 1) as nat) != decimal((next + j + 1) as nat),
        keeps_off_its_token(commands[i]) && keeps_off_its_token(commands[j]) ==> command_lines(
            next,
            commands,
        )[i] != command_lines(next, commands)[j],
{
    let one = (next + i + 1) as nat;
    let other = (next + j + 1) as nat;
    law_decimal_reads_back(one, other);
    law_decimal_reads_back(other, other);
    if keeps_off_its_token(commands[i]) && keeps_off_its_token(commands[j]) {
        lemma_tokens_tell_lines_apart(one, commands[i], other, commands[j]);
    }
}

proof fn lemma_token_ends(token: nat, command: Seq<char>)
    requires
        keeps_off_its_token(command),
    ensures
        ({
            let line = decimal(token) + command + "\n"@;
            let n = decimal(token).len() as int;
            &&& n < line.len()
            &&& !is_digit(line[n])
            &&& line.take(n) == decimal(token)
            &&& forall|i: int| 0 <= i < n ==> is_digit(#[trigger] line[i])
        }),
{
    reveal_strlit("\n");
    lemma_decimal_digits(token);
    let line = decimal(token) + command + "\n"@;
    let n = decimal(token).len() as int;
    if command.len() > 0 {
        assert(line[n] == command[0]);
    } else {
        assert(line[n] == "\n"@[0]);
    }
    assert forall|i: int| 0 <= i < n implies is_digit(#[trigger] line[i]) by {
        assert(line[i] == decimal(token)[i]);
    }
    assert(line.take(n) =~= decimal(token));
}

proof fn lemma_tokens_tell_lines_apart(
    one: nat,
    first: Seq<char>,
    other: nat,
    second: Seq<char>,
)
    requires
        decimal(one) != decimal(other),
        keeps_off_its_token(first),
        keeps_off_its_token(second),
    ensures
        decimal(one) + first + "\n"@ != decimal(other) + second + "\n"@,
{
    let a = decimal(one) + first + "\n"@;
    let b = decimal(other) + second + "\n"@;
    lemma_token_ends(one, first);
    lemma_token_ends(other, second);
    if a == b {
        assert(decimal(one).len() == decimal(other).len());
        assert(a.take(decimal(one).len() as int) == b.take(decimal(other).len() as int));
    }
}

proof fn lemma_queries_keep_off_their_tokens(known: Known, record: RecordTree, i: int)
    requires
        0 <= i < record_step(known, record).queries.len(),
    ensures
        keeps_off_its_token(record_step(known, record).queries[i]),
{
    reveal_strlit("-stack-list-frames 0 31");
    reveal_strlit("-data-list-register-names");
    reveal_strlit("-data-list-register-values x");
    reveal_strlit("-data-disassemble -s '$pc-32' -e '$pc+96' -- 0");
    reveal_strlit("-break-list");
    reveal_strlit("-data-read-memory-bytes $sp 256");
    let queries = record_step(known, record).queries;
    if queries != snapshot_queries() {
        assert(queries[i] == "-break-list"@);
    }
}

/// No two of the lines that are put to the machine interface about a record are equal.
pub proof fn law_queries_are_told_apart(
    known: Known,
    record: RecordTree,
    next: nat,
    i: int,
    j: int,
)
    requires
        0 <= i < j < record_step(known, record).queries.len(),
    ensures
        command_lines(next, record_step(known, record).queries)[i] != command_lines(
            next,
            record_step(known, record).queries,
        )[j],
{
    lemma_queries_keep_off_their_tokens(known, record, i);
    lemma_queries_keep_off_their_tokens(known, record, j);
    law_commands_have_their_own_tokens(next, record_step(known, record).queries, i, j);
}

proof fn lemma_states_differ()
    ensures
        "starting"@ != "ready"@,
        "starting"@ != "running"@,
        "starting"@ != "stopped"@,
        "ready"@ != "running"@,
        "ready"@ != "stopped"@,
        "running"@ != "stopped"@,
{
    reveal_strlit("starting");
    reveal_strlit("ready");
    reveal_strlit("running");
    reveal_strlit("stopped");
    assert("starting"@.len() == 8);
    assert("ready"@.len() == 5);
    assert("running"@.len() == 7);
    assert("running"@[0] != "stopped"@[0]);
}

/// Whether a record shows that the debugger has started.
pub open spec fn shows_start(record: RecordTree) -> bool {
    match record {
        RecordTree::Prompt => true,
        RecordTree::Result { class, .. } => class == "done"@,
        _ => false,
    }
}

/// A debugger that has started does not start again: its first prompt makes it ready, and so does
/// an answer that something is done, and no record takes it back.
pub proof fn law_debugger_starts_once(known: Known, record: RecordTree)
    ensures
        known.snapshot.state != "starting"@ ==> record_step(known, record).known.snapshot.state
            != "starting"@,
        known.snapshot.state == "starting"@ && shows_start(record) ==> record_step(
            known,
            record,
        ).known.snapshot.state == "ready"@,
{
    lemma_states_differ();
    reveal_strlit("done");
    reveal_strlit("error");
    assert("done"@.len() == 4);
    assert("error"@.len() == 5);
}

/// Whether a snapshot is marked stale while the program runs, and only then.
pub open spec fn stale_while_running(snapshot: DebuggerSnapshotView) -> bool {
    snapshot.stale <==> snapshot.state == "running"@
}

/// Until the debugger exits, a snapshot is marked stale while the program runs, and only then,
/// whatever is recorded.
pub proof fn law_snapshot_is_stale_while_running(known: Known, record: RecordTree)
    requires
        stale_while_running(known.snapshot),
    ensures
        stale_while_running(SessionView::start().known.snapshot),
        stale_while_running(record_step(known, record).known.snapshot),
{
    lemma_states_differ();
}

/// A program that stops is looked at anew: everything that a snapshot holds is asked for.
pub proof fn law_stopping_asks_for_everything(
    known: Known,
    kind: char,
    results: Map<Seq<char>, MiTree>,
)
    ensures
        ({
            let step = record_step(
                known,
                RecordTree::Async { kind, class: "stopped"@, results },
            );
            &&& step.publish
            &&& step.queries == snapshot_queries()
            &&& step.known.snapshot.state == "stopped"@
        }),
{
    lemma_states_differ();
}

} // verus!
