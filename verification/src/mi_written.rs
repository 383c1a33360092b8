//! Records of GDB's machine interface as they are written, and that they read back.

use crate::mi::{
    digits_len, escape_at, gather, is_digit_char, is_octal_char, is_word_char, item_at, latin,
    lemma_span, line_record, list_from, octal_len, octal_value, peek, record_of, result_at, results_from,
    string_at, string_from, token_at, trimmed, tuple_from, value_at, word_at, word_len, MiError, MiTree,
    RecordTree,
};
use crate::text::{decimal, is_digit, law_decimal_reads_back, lemma_decimal_digits};
use vstd::prelude::*;
use vstd::utf8::{encode_utf8, is_ascii_chars, is_ascii_chars_encode_utf8};

verus! {

/// How a byte is written in a quoted string: quotes, backslashes and the usual control codes behind
/// a backslash, other bytes that are not printable ASCII as three octal digits.
pub open spec fn escaped_byte(b: u8) -> Seq<u8> {
    if b == 34 || b == 92 {
        seq![92, b]
    } else if b == 10 {
        seq![92, 110]
    } else if b == 13 {
        seq![92, 114]
    } else if b == 9 {
        seq![92, 116]
    } else if b < 32 || b >= 127 {
        seq![92, (48 + b / 64) as u8, (48 + b / 8 % 8) as u8, (48 + b % 8) as u8]
    } else {
        seq![b]
    }
}

/// How bytes are written in a quoted string.
pub open spec fn escaped(bytes: Seq<u8>) -> Seq<u8>
    decreases bytes.len(),
{
    if bytes.len() == 0 {
        seq![]
    } else {
        escaped_byte(bytes[0]) + escaped(bytes.skip(1))
    }
}

/// Whether some bytes stand at a position.
spec fn stands_at(s: Seq<u8>, p: nat, part: Seq<u8>) -> bool {
    &&& p + part.len() <= s.len()
    &&& forall|i: int| 0 <= i < part.len() ==> s[p + i] == #[trigger] part[i]
}

proof fn lemma_parts_stand(s: Seq<u8>, p: nat, first: Seq<u8>, second: Seq<u8>)
    requires
        stands_at(s, p, first + second),
    ensures
        stands_at(s, p, first),
        stands_at(s, p + first.len(), second),
{
    let both = first + second;
    assert forall|i: int| 0 <= i < first.len() implies s[p + i] == #[trigger] first[i] by {
        assert(both[i] == first[i]);
    }
    assert forall|i: int| 0 <= i < second.len() implies s[p + first.len() + i]
        == #[trigger] second[i] by {
        assert(both[first.len() + i] == second[i]);
    }
}

proof fn lemma_escape_at(s: Seq<u8>, p: nat, b: u8)
    requires
        stands_at(s, p, escaped_byte(b)),
        escaped_byte(b).len() > 1,
    ensures
        escape_at(s, p + 1) == (b as char, (escaped_byte(b).len() - 1) as nat),
{
    let e = escaped_byte(b);
    assert(s[p as int + 1] == e[1]);
    if e.len() == 4 {
        assert(s[p as int + 2] == e[2]);
        assert(s[p as int + 3] == e[3]);
        assert(0 <= b / 64 < 4);
        assert(0 <= b / 8 % 8 < 8);
        assert(0 <= b % 8 < 8);
        assert(b as int == ((b / 64) * 8 + b / 8 % 8) * 8 + b % 8);
        assert(is_octal_char(peek(s, p + 1 + 1)->0));
        assert(is_octal_char(peek(s, p + 1 + 2)->0));
        assert(octal_len(s, p + 1) == 3);
        assert(octal_value(s, p + 1) == b);
    }
}

proof fn lemma_string_from(s: Seq<u8>, p: nat, bytes: Seq<u8>, out: Seq<char>)
    requires
        stands_at(s, p, escaped(bytes)),
        peek(s, p + escaped(bytes).len()) == Some('"'),
    ensures
        string_from(s, p, out) == Ok::<(Seq<char>, nat), MiError>(
            (out + latin(bytes), p + escaped(bytes).len() + 1),
        ),
    decreases bytes.len(),
{
    if bytes.len() == 0 {
        assert(out + latin(bytes) =~= out);
    } else {
        let b = bytes[0];
        let e = escaped_byte(b);
        let rest = bytes.skip(1);
        lemma_parts_stand(s, p, e, escaped(rest));
        assert(s[p as int + 0] == e[0]);
        lemma_string_from(s, p + e.len(), rest, out.push(b as char));
        assert(out.push(b as char) + latin(rest) =~= out + latin(bytes));
        if e.len() > 1 {
            lemma_escape_at(s, p, b);
        }
    }
}

/// Bytes that are written as a quoted string read back as the characters with their numbers,
/// whatever follows the string.
pub proof fn law_quoted_strings_read_back(bytes: Seq<u8>, rest: Seq<u8>)
    ensures
        string_at(seq![34u8] + escaped(bytes) + seq![34u8] + rest, 0) == Ok::<
            (Seq<char>, nat),
            MiError,
        >((latin(bytes), escaped(bytes).len() + 2)),
        value_at(seq![34u8] + escaped(bytes) + seq![34u8] + rest, 0) == Ok::<(MiTree, nat), MiError>(
            (MiTree::Const(latin(bytes)), escaped(bytes).len() + 2),
        ),
{
    let s = seq![34u8] + escaped(bytes) + seq![34u8] + rest;
    let written = escaped(bytes);
    assert forall|i: int| 0 <= i < written.len() implies s[1 + i] == #[trigger] written[i] by {}
    assert(s[1 + written.len() as int] == 34);
    lemma_string_from(s, 1, bytes, seq![]);
    assert(seq![] + latin(bytes) =~= latin(bytes));
}

/// A value as it is written.
pub enum Written {
    /// A quoted string.
    Quoted(Seq<u8>),
    /// A tuple of named values.
    Tuple(Seq<(Seq<u8>, Written)>),
    /// A list of values, some of which may be named.
    List(Seq<(Option<Seq<u8>>, Written)>),
}

/// Whether bytes are a word, and not an empty one.
pub open spec fn is_word(name: Seq<u8>) -> bool {
    name.len() > 0 && forall|i: int| 0 <= i < name.len() ==> is_word_char(#[trigger] name[i] as char)
}

impl Written {
    /// Whether the names in a value are words, and it can be read.
    pub open spec fn readable(self) -> bool
        decreases self,
    {
        match self {
            Written::Quoted(_) => true,
            Written::Tuple(fields) => forall|i: int|
                0 <= i < fields.len() ==> is_word((#[trigger] fields[i]).0) && fields[i].1.readable(),
            Written::List(items) => forall|i: int|
                0 <= i < items.len() ==> ((#[trigger] items[i]).0 is Some ==> is_word(
                    items[i].0->Some_0,
                )) && items[i].1.readable(),
        }
    }

    /// The bytes of a value.
    pub open spec fn bytes(self) -> Seq<u8>
        decreases self,
    {
        match self {
            Written::Quoted(text) => seq![34u8] + escaped(text) + seq![34u8],
            Written::Tuple(fields) => seq![123u8] + fields_bytes(fields) + seq![125u8],
            Written::List(items) => seq![91u8] + items_bytes(items) + seq![93u8],
        }
    }

    /// The value that is written.
    pub open spec fn meaning(self) -> MiTree
        decreases self,
    {
        match self {
            Written::Quoted(text) => MiTree::Const(latin(text)),
            Written::Tuple(fields) => MiTree::Tuple(fields_meaning(Map::empty(), fields)),
            Written::List(items) => MiTree::List(items_meaning(seq![], items)),
        }
    }
}

/// The bytes of the fields of a tuple, with commas between them.
pub open spec fn fields_bytes(fields: Seq<(Seq<u8>, Written)>) -> Seq<u8>
    decreases fields,
{
    if fields.len() == 0 {
        seq![]
    } else {
        let first = fields[0].0 + seq![61u8] + fields[0].1.bytes();
        if fields.len() == 1 {
            first
        } else {
            first + (seq![44u8] + fields_bytes(fields.subrange(1, fields.len() as int)))
        }
    }
}

/// The fields of a tuple, added to those read already.
pub open spec fn fields_meaning(
    before: Map<Seq<char>, MiTree>,
    fields: Seq<(Seq<u8>, Written)>,
) -> Map<Seq<char>, MiTree>
    decreases fields,
{
    if fields.len() == 0 {
        before
    } else {
        fields_meaning(
            before.insert(latin(fields[0].0), fields[0].1.meaning()),
            fields.subrange(1, fields.len() as int),
        )
    }
}

/// The bytes of an item of a list.
pub open spec fn item_bytes(name: Option<Seq<u8>>, value: Seq<u8>) -> Seq<u8> {
    match name {
        Some(name) => name + seq![61u8] + value,
        None => value,
    }
}

/// The item of a list: a named value is a tuple of one.
pub open spec fn item_meaning(name: Option<Seq<u8>>, value: MiTree) -> MiTree {
    match name {
        Some(name) => MiTree::Tuple(Map::empty().insert(latin(name), value)),
        None => value,
    }
}

/// The bytes of the items of a list, with commas between them.
pub open spec fn items_bytes(items: Seq<(Option<Seq<u8>>, Written)>) -> Seq<u8>
    decreases items,
{
    if items.len() == 0 {
        seq![]
    } else {
        let first = item_bytes(items[0].0, items[0].1.bytes());
        if items.len() == 1 {
            first
        } else {
            first + (seq![44u8] + items_bytes(items.subrange(1, items.len() as int)))
        }
    }
}

/// The items of a list, behind those read already.
pub open spec fn items_meaning(before: Seq<MiTree>, items: Seq<(Option<Seq<u8>>, Written)>) -> Seq<
    MiTree,
>
    decreases items,
{
    if items.len() == 0 {
        before
    } else {
        items_meaning(
            before.push(item_meaning(items[0].0, items[0].1.meaning())),
            items.subrange(1, items.len() as int),
        )
    }
}

proof fn lemma_word(s: Seq<u8>, p: nat, name: Seq<u8>)
    requires
        stands_at(s, p, name),
        is_word(name),
        peek(s, p + name.len()) is Some ==> !is_word_char(peek(s, p + name.len())->Some_0),
    ensures
        word_len(s, p) == name.len(),
        word_at(s, p) == latin(name),
{
    assert forall|i: int| p <= i < p + name.len() implies is_word_char(#[trigger] s[i] as char) by {
        assert(s[p + (i - p)] == name[i - p]);
    }
    lemma_span(s, p, |c: char| is_word_char(c), name.len());
    assert(word_at(s, p) =~= latin(name)) by {
        assert forall|i: int| 0 <= i < name.len() implies word_at(s, p)[i] == latin(name)[i] by {
            assert(s[p + i] == name[i]);
        }
    }
}

/// The bytes of a value begin with a character that no word begins with.
proof fn lemma_first_byte(value: Written)
    ensures
        value.bytes().len() > 0,
        !is_word_char(value.bytes()[0] as char),
        value.bytes()[0] != 61,
{
}

proof fn lemma_result(s: Seq<u8>, p: nat, name: Seq<u8>, value: Written)
    requires
        is_word(name),
        value.readable(),
        stands_at(s, p, name + seq![61u8] + value.bytes()),
    ensures
        result_at(s, p) == Ok::<(Seq<char>, MiTree, nat), MiError>(
            (latin(name), value.meaning(), (name + seq![61u8] + value.bytes()).len()),
        ),
        word_len(s, p) == name.len(),
        word_at(s, p) == latin(name),
        peek(s, p + name.len()) == Some('='),
        value_at(s, p + name.len() + 1) == Ok::<(MiTree, nat), MiError>(
            (value.meaning(), value.bytes().len()),
        ),
    decreases value, 1nat,
{
    lemma_parts_stand(s, p, name + seq![61u8], value.bytes());
    lemma_parts_stand(s, p, name, seq![61u8]);
    assert(s[p + name.len() as int + 0] == seq![61u8][0]);
    lemma_word(s, p, name);
    lemma_value(s, p + name.len() + 1, value);
}

proof fn lemma_item(s: Seq<u8>, p: nat, name: Option<Seq<u8>>, value: Written)
    requires
        name is Some ==> is_word(name->Some_0),
        value.readable(),
        stands_at(s, p, item_bytes(name, value.bytes())),
    ensures
        item_at(s, p) == Ok::<(MiTree, nat), MiError>(
            (item_meaning(name, value.meaning()), item_bytes(name, value.bytes()).len()),
        ),
    decreases value, 2nat,
{
    match name {
        Some(name) => {
            lemma_result(s, p, name, value);
        },
        None => {
            lemma_first_byte(value);
            assert(s[p as int + 0] == value.bytes()[0]);
            lemma_span(s, p, |c: char| is_word_char(c), 0);
            lemma_value(s, p, value);
        },
    }
}

proof fn lemma_fields(
    s: Seq<u8>,
    p: nat,
    fields: Seq<(Seq<u8>, Written)>,
    before: Map<Seq<char>, MiTree>,
)
    requires
        fields.len() > 0,
        forall|i: int|
            0 <= i < fields.len() ==> is_word((#[trigger] fields[i]).0) && fields[i].1.readable(),
        stands_at(s, p, fields_bytes(fields)),
        peek(s, p + fields_bytes(fields).len()) != Some(','),
    ensures
        tuple_from(s, p, before) == Ok::<(Map<Seq<char>, MiTree>, nat), MiError>(
            (fields_meaning(before, fields), p + fields_bytes(fields).len()),
        ),
    decreases fields, 0nat,
{
    let (name, value) = fields[0];
    let first = name + seq![61u8] + value.bytes();
    let more = before.insert(latin(name), value.meaning());
    let rest = fields.subrange(1, fields.len() as int);
    assert(is_word(fields[0].0));
    assert(decreases_to!(fields => fields[0]));
    if fields.len() == 1 {
        lemma_result(s, p, name, value);
        assert(fields_meaning(more, rest) == more);
    } else {
        let behind = seq![44u8] + fields_bytes(rest);
        lemma_parts_stand(s, p, first, behind);
        lemma_parts_stand(s, p + first.len(), seq![44u8], fields_bytes(rest));
        assert(s[p + first.len() as int + 0] == seq![44u8][0]);
        lemma_result(s, p, name, value);
        assert forall|i: int| 0 <= i < rest.len() implies is_word((#[trigger] rest[i]).0)
            && rest[i].1.readable() by {
            assert(rest[i] == fields[i + 1]);
        }
        lemma_fields(s, p + first.len() + 1, rest, more);
    }
}

proof fn lemma_items(
    s: Seq<u8>,
    p: nat,
    items: Seq<(Option<Seq<u8>>, Written)>,
    before: Seq<MiTree>,
)
    requires
        items.len() > 0,
        forall|i: int|
            0 <= i < items.len() ==> ((#[trigger] items[i]).0 is Some ==> is_word(
                items[i].0->Some_0,
            )) && items[i].1.readable(),
        stands_at(s, p, items_bytes(items)),
        peek(s, p + items_bytes(items).len()) != Some(','),
    ensures
        list_from(s, p, before) == Ok::<(Seq<MiTree>, nat), MiError>(
            (items_meaning(before, items), p + items_bytes(items).len()),
        ),
    decreases items, 0nat,
{
    let (name, value) = items[0];
    let first = item_bytes(name, value.bytes());
    let more = before.push(item_meaning(name, value.meaning()));
    let rest = items.subrange(1, items.len() as int);
    assert(items[0].1.readable());
    assert(decreases_to!(items => items[0]));
    if items.len() == 1 {
        lemma_item(s, p, name, value);
        assert(items_meaning(more, rest) == more);
    } else {
        let behind = seq![44u8] + items_bytes(rest);
        lemma_parts_stand(s, p, first, behind);
        lemma_parts_stand(s, p + first.len(), seq![44u8], items_bytes(rest));
        assert(s[p + first.len() as int + 0] == seq![44u8][0]);
        lemma_item(s, p, name, value);
        assert forall|i: int| 0 <= i < rest.len() implies ((#[trigger] rest[i]).0 is Some
            ==> is_word(rest[i].0->Some_0)) && rest[i].1.readable() by {
            assert(rest[i] == items[i + 1]);
        }
        lemma_items(s, p + first.len() + 1, rest, more);
    }
}

proof fn lemma_value(s: Seq<u8>, p: nat, value: Written)
    requires
        value.readable(),
        stands_at(s, p, value.bytes()),
    ensures
        value_at(s, p) == Ok::<(MiTree, nat), MiError>((value.meaning(), value.bytes().len())),
    decreases value, 0nat,
{
    let bytes = value.bytes();
    assert(s[p as int + 0] == bytes[0]);
    match value {
        Written::Quoted(text) => {
            lemma_parts_stand(s, p, seq![34u8] + escaped(text), seq![34u8]);
            lemma_parts_stand(s, p, seq![34u8], escaped(text));
            assert(s[p as int + (1 + escaped(text).len()) + 0] == seq![34u8][0]);
            lemma_string_from(s, p + 1, text, seq![]);
            assert(seq![] + latin(text) =~= latin(text));
        },
        Written::Tuple(fields) => {
            let inside = fields_bytes(fields);
            lemma_parts_stand(s, p, seq![123u8] + inside, seq![125u8]);
            lemma_parts_stand(s, p, seq![123u8], inside);
            assert(s[p as int + (1 + inside.len()) + 0] == seq![125u8][0]);
            if fields.len() > 0 {
                assert(is_word(fields[0].0));
                assert(s[p as int + 1 + 0] == inside[0]);
                assert(inside[0] == fields[0].0[0]);
                assert(is_word_char(fields[0].0[0] as char));
                lemma_fields(s, p + 1, fields, Map::empty());
            }
        },
        Written::List(items) => {
            let inside = items_bytes(items);
            lemma_parts_stand(s, p, seq![91u8] + inside, seq![93u8]);
            lemma_parts_stand(s, p, seq![91u8], inside);
            assert(s[p as int + (1 + inside.len()) + 0] == seq![93u8][0]);
            if items.len() > 0 {
                let (name, first) = items[0];
                lemma_first_byte(first);
                assert(inside.len() > 0);
                assert(s[p as int + 1 + 0] == inside[0]);
                lemma_items(s, p + 1, items, seq![]);
                assert(inside[0] != 93) by {
                    match name {
                        Some(name) => {
                            assert(is_word(name));
                            assert(inside[0] == name[0]);
                            assert(is_word_char(name[0] as char));
                        },
                        None => {
                            assert(inside[0] == first.bytes()[0]);
                        },
                    }
                }
            }
        },
    }
}

/// The token that a record begins with is read back as the number that was written.
pub proof fn law_tokens_read_back(token: nat, rest: Seq<u8>)
    requires
        token <= u64::MAX,
        rest.len() > 0,
        !is_digit_char(rest[0] as char),
    ensures
        token_at(encode_utf8(decimal(token)) + rest, 0) == Some(token),
        digits_len(encode_utf8(decimal(token)) + rest, 0) == decimal(token).len(),
{
    law_decimal_reads_back(token, u64::MAX as nat);
    lemma_decimal_digits(token);
    let digits = decimal(token);
    assert(is_ascii_chars(digits)) by {
        assert forall|i: int| 0 <= i < digits.len() implies digits[i] as u32 <= 127 by {
            assert(is_digit(digits[i]));
        }
    }
    is_ascii_chars_encode_utf8(digits);
    let bytes = encode_utf8(digits);
    let s = bytes + rest;
    assert forall|i: int| 0 <= i < digits.len() implies is_digit_char(#[trigger] s[i] as char) by {
        assert(is_digit(digits[i]));
        assert(s[i] == bytes[i]);
    }
    assert(s[digits.len() as int] == rest[0]);
    lemma_span(s, 0, |c: char| is_digit_char(c), digits.len());
    assert(latin(s.subrange(0, digits.len() as int)) =~= digits) by {
        assert forall|i: int| 0 <= i < digits.len() implies latin(
            s.subrange(0, digits.len() as int),
        )[i] == digits[i] by {
            assert(s[i] == bytes[i]);
        }
    }
}

/// The bytes of the results of a record, each behind a comma.
pub open spec fn results_bytes(results: Seq<(Seq<u8>, Written)>) -> Seq<u8>
    decreases results.len(),
{
    if results.len() == 0 {
        seq![]
    } else {
        seq![44u8] + (results[0].0 + seq![61u8] + results[0].1.bytes()) + results_bytes(
            results.skip(1),
        )
    }
}

/// The results of a record, gathered with those read already.
pub open spec fn results_meaning(
    before: Map<Seq<char>, MiTree>,
    results: Seq<(Seq<u8>, Written)>,
) -> Map<Seq<char>, MiTree>
    decreases results.len(),
{
    if results.len() == 0 {
        before
    } else {
        results_meaning(
            gather(before, latin(results[0].0), results[0].1.meaning()),
            results.skip(1),
        )
    }
}

/// Whether the names in some results are words, and they can be read.
pub open spec fn are_readable(results: Seq<(Seq<u8>, Written)>) -> bool {
    forall|i: int|
        0 <= i < results.len() ==> is_word((#[trigger] results[i]).0) && results[i].1.readable()
}

proof fn lemma_results(
    s: Seq<u8>,
    p: nat,
    results: Seq<(Seq<u8>, Written)>,
    before: Map<Seq<char>, MiTree>,
)
    requires
        are_readable(results),
        stands_at(s, p, results_bytes(results)),
        p + results_bytes(results).len() == s.len(),
    ensures
        results_from(s, p, before) == Ok::<Map<Seq<char>, MiTree>, MiError>(
            results_meaning(before, results),
        ),
    decreases results.len(),
{
    if results.len() > 0 {
        let (name, value) = results[0];
        let first = name + seq![61u8] + value.bytes();
        let rest = results.skip(1);
        assert(is_word(results[0].0));
        lemma_parts_stand(s, p, seq![44u8] + first, results_bytes(rest));
        lemma_parts_stand(s, p, seq![44u8], first);
        assert(s[p as int + 0] == seq![44u8][0]);
        lemma_result(s, p + 1, name, value);
        assert forall|i: int| 0 <= i < rest.len() implies is_word((#[trigger] rest[i]).0)
            && rest[i].1.readable() by {
            assert(rest[i] == results[i + 1]);
        }
        lemma_results(
            s,
            p + 1 + first.len(),
            rest,
            gather(before, latin(name), value.meaning()),
        );
    }
}

/// Whether bytes are printable ASCII characters.
pub open spec fn is_printable(bytes: Seq<u8>) -> bool {
    forall|i: int| 0 <= i < bytes.len() ==> 32 <= #[trigger] bytes[i] < 127
}

proof fn lemma_printable_parts(first: Seq<u8>, second: Seq<u8>)
    requires
        is_printable(first),
        is_printable(second),
    ensures
        is_printable(first + second),
{
}

proof fn lemma_escaped_is_printable(bytes: Seq<u8>)
    ensures
        is_printable(escaped(bytes)),
    decreases bytes.len(),
{
    if bytes.len() > 0 {
        lemma_escaped_is_printable(bytes.skip(1));
        let b = bytes[0];
        assert(0 <= b / 64 < 4);
        assert(0 <= b / 8 % 8 < 8);
        assert(0 <= b % 8 < 8);
        assert(is_printable(escaped_byte(b)));
    }
}

proof fn lemma_word_is_printable(name: Seq<u8>)
    requires
        is_word(name),
    ensures
        is_printable(name),
{
    assert forall|i: int| 0 <= i < name.len() implies 32 <= #[trigger] name[i] < 127 by {
        assert(is_word_char(name[i] as char));
    }
}

proof fn lemma_fields_are_printable(fields: Seq<(Seq<u8>, Written)>)
    requires
        are_readable(fields),
    ensures
        is_printable(fields_bytes(fields)),
    decreases fields, 1nat,
{
    if fields.len() > 0 {
        let (name, value) = fields[0];
        let rest = fields.subrange(1, fields.len() as int);
        assert(is_word(fields[0].0));
        assert(decreases_to!(fields => fields[0]));
        lemma_word_is_printable(name);
        lemma_value_is_printable(value);
        lemma_printable_parts(name, seq![61u8]);
        lemma_printable_parts(name + seq![61u8], value.bytes());
        if fields.len() > 1 {
            assert forall|i: int| 0 <= i < rest.len() implies is_word((#[trigger] rest[i]).0)
                && rest[i].1.readable() by {
                assert(rest[i] == fields[i + 1]);
            }
            lemma_fields_are_printable(rest);
            lemma_printable_parts(seq![44u8], fields_bytes(rest));
        }
    }
}

proof fn lemma_items_are_printable(items: Seq<(Option<Seq<u8>>, Written)>)
    requires
        forall|i: int|
            0 <= i < items.len() ==> ((#[trigger] items[i]).0 is Some ==> is_word(
                items[i].0->Some_0,
            )) && items[i].1.readable(),
    ensures
        is_printable(items_bytes(items)),
    decreases items, 1nat,
{
    if items.len() > 0 {
        let (name, value) = items[0];
        let rest = items.subrange(1, items.len() as int);
        assert(items[0].1.readable());
        assert(decreases_to!(items => items[0]));
        lemma_value_is_printable(value);
        if name is Some {
            lemma_word_is_printable(name->Some_0);
            lemma_printable_parts(name->Some_0, seq![61u8]);
            lemma_printable_parts(name->Some_0 + seq![61u8], value.bytes());
        }
        if items.len() > 1 {
            assert forall|i: int| 0 <= i < rest.len() implies ((#[trigger] rest[i]).0 is Some
                ==> is_word(rest[i].0->Some_0)) && rest[i].1.readable() by {
                assert(rest[i] == items[i + 1]);
            }
            lemma_items_are_printable(rest);
            lemma_printable_parts(seq![44u8], items_bytes(rest));
        }
    }
}

proof fn lemma_value_is_printable(value: Written)
    requires
        value.readable(),
    ensures
        is_printable(value.bytes()),
    decreases value, 0nat,
{
    match value {
        Written::Quoted(text) => {
            lemma_escaped_is_printable(text);
        },
        Written::Tuple(fields) => {
            lemma_fields_are_printable(fields);
        },
        Written::List(items) => {
            lemma_items_are_printable(items);
        },
    }
}

proof fn lemma_results_are_printable(results: Seq<(Seq<u8>, Written)>)
    requires
        are_readable(results),
    ensures
        is_printable(results_bytes(results)),
    decreases results.len(),
{
    if results.len() > 0 {
        let (name, value) = results[0];
        let rest = results.skip(1);
        assert(is_word(results[0].0));
        lemma_word_is_printable(name);
        lemma_value_is_printable(value);
        assert forall|i: int| 0 <= i < rest.len() implies is_word((#[trigger] rest[i]).0)
            && rest[i].1.readable() by {
            assert(rest[i] == results[i + 1]);
        }
        lemma_results_are_printable(rest);
        lemma_printable_parts(name, seq![61u8]);
        lemma_printable_parts(name + seq![61u8], value.bytes());
        lemma_printable_parts(seq![44u8], name + seq![61u8] + value.bytes());
    }
}

/// The text of printable bytes is encoded as these bytes, and has no line end to be cut off.
pub proof fn lemma_printable_line(bytes: Seq<u8>)
    requires
        is_printable(bytes),
    ensures
        encode_utf8(latin(bytes)) == bytes,
        trimmed(bytes) == bytes,
{
    let line = latin(bytes);
    assert forall|i: int| 0 <= i < line.len() implies '\0' <= #[trigger] line[i] <= '\u{7f}' by {
        assert(32 <= bytes[i] < 127);
    }
    is_ascii_chars_encode_utf8(line);
    assert(encode_utf8(line) =~= bytes) by {
        assert forall|i: int| 0 <= i < bytes.len() implies encode_utf8(line)[i] == bytes[i] by {
            assert(32 <= bytes[i] < 127);
            assert(line[i] == bytes[i] as char);
        }
    }
    if bytes.len() > 0 {
        assert(32 <= bytes[bytes.len() - 1] < 127);
    }
}

/// The digits of a token, where there is one.
pub open spec fn token_bytes(token: Option<nat>) -> Seq<u8> {
    match token {
        Some(token) => encode_utf8(decimal(token)),
        None => seq![],
    }
}

/// The bytes of a record with results.
pub open spec fn record_bytes(
    token: Option<nat>,
    marker: u8,
    class: Seq<u8>,
    results: Seq<(Seq<u8>, Written)>,
) -> Seq<u8> {
    token_bytes(token) + (seq![marker] + (class + results_bytes(results)))
}

proof fn lemma_token(token: Option<nat>, behind: Seq<u8>)
    requires
        token is Some ==> token->Some_0 <= u64::MAX,
        behind.len() > 0,
        !is_digit_char(behind[0] as char),
    ensures
        digits_len(token_bytes(token) + behind, 0) == token_bytes(token).len(),
        token_at(token_bytes(token) + behind, 0) == token,
        forall|i: int| 0 <= i < token_bytes(token).len() ==> 48 <= #[trigger] token_bytes(token)[i] <= 57,
{
    let s = token_bytes(token) + behind;
    match token {
        Some(token) => {
            law_tokens_read_back(token, behind);
            lemma_decimal_digits(token);
            assert forall|i: int| 0 <= i < decimal(token).len() implies '\0'
                <= #[trigger] decimal(token)[i] <= '\u{7f}' by {
                assert(is_digit(decimal(token)[i]));
            }
            is_ascii_chars_encode_utf8(decimal(token));
            let digits = encode_utf8(decimal(token));
            assert forall|i: int| 0 <= i < digits.len() implies 48 <= #[trigger] digits[i] <= 57 by {
                assert(is_digit(decimal(token)[i]));
            }
        },
        None => {
            assert(s =~= behind);
            lemma_span(s, 0, |c: char| is_digit_char(c), 0);
            assert(latin(s.subrange(0, 0)) =~= seq![]);
        },
    }
}

/// A line of printable bytes that does not begin as the prompt does holds the record that they
/// are.
pub proof fn lemma_line_record(bytes: Seq<u8>)
    requires
        is_printable(bytes),
        bytes.len() > 0,
        bytes[0] != 40,
    ensures
        line_record(latin(bytes)) == record_of(bytes),
{
    lemma_printable_line(bytes);
    reveal_strlit("(gdb)");
    reveal_strlit("(gdb) ");
    is_ascii_chars_encode_utf8("(gdb)"@);
    is_ascii_chars_encode_utf8("(gdb) "@);
    assert(encode_utf8("(gdb)"@)[0] == 40) by {
        assert("(gdb)"@[0] == '(');
    }
    assert(encode_utf8("(gdb) "@)[0] == 40) by {
        assert("(gdb) "@[0] == '(');
    }
}

proof fn lemma_class_and_results(
    s: Seq<u8>,
    p: nat,
    class: Seq<u8>,
    results: Seq<(Seq<u8>, Written)>,
)
    requires
        is_word(class),
        are_readable(results),
        stands_at(s, p, class + results_bytes(results)),
        p + (class + results_bytes(results)).len() == s.len(),
    ensures
        word_at(s, p) == latin(class),
        results_from(s, p + word_len(s, p), Map::empty()) == Ok::<
            Map<Seq<char>, MiTree>,
            MiError,
        >(results_meaning(Map::empty(), results)),
{
    let written = results_bytes(results);
    lemma_parts_stand(s, p, class, written);
    if results.len() > 0 {
        assert(s[(p + class.len()) as int + 0] == written[0]);
        assert(written[0] == 44);
    }
    lemma_word(s, p, class);
    lemma_results(s, p + class.len(), results, Map::empty());
}

pub proof fn lemma_record(
    token: Option<nat>,
    marker: u8,
    class: Seq<u8>,
    results: Seq<(Seq<u8>, Written)>,
)
    requires
        token is Some ==> token->Some_0 <= u64::MAX,
        32 <= marker < 127,
        !is_digit_char(marker as char),
        marker != 40,
        is_word(class),
        are_readable(results),
    ensures
        ({
            let s = record_bytes(token, marker, class, results);
            let p = digits_len(s, 0);
            &&& p < s.len()
            &&& s[p as int] == marker
            &&& token_at(s, 0) == token
            &&& word_at(s, p + 1) == latin(class)
            &&& results_from(s, p + 1 + word_len(s, p + 1), Map::empty()) == Ok::<
                Map<Seq<char>, MiTree>,
                MiError,
            >(results_meaning(Map::empty(), results))
            &&& line_record(latin(s)) == record_of(s)
        }),
{
    let s = record_bytes(token, marker, class, results);
    let digits = token_bytes(token);
    let content = class + results_bytes(results);
    let behind = seq![marker] + content;
    lemma_token(token, behind);
    assert(s[digits.len() as int] == behind[0]);
    assert(stands_at(s, 0, s));
    lemma_parts_stand(s, 0, digits, behind);
    lemma_parts_stand(s, digits.len(), seq![marker], content);
    lemma_class_and_results(s, digits.len() + 1, class, results);
    lemma_word_is_printable(class);
    lemma_results_are_printable(results);
    lemma_printable_parts(class, results_bytes(results));
    lemma_printable_parts(seq![marker], content);
    assert(is_printable(digits));
    lemma_printable_parts(digits, behind);
    assert(s[0] != 40) by {
        if digits.len() > 0 {
            assert(s[0] == digits[0]);
        }
    }
    lemma_line_record(s);
}

/// A result record reads back as it was written: its token, its class and all of its results,
/// however deep their values are nested.
pub proof fn law_result_records_read_back(
    token: Option<nat>,
    class: Seq<u8>,
    results: Seq<(Seq<u8>, Written)>,
)
    requires
        token is Some ==> token->Some_0 <= u64::MAX,
        is_word(class),
        are_readable(results),
    ensures
        line_record(latin(record_bytes(token, 94, class, results))) == Ok::<RecordTree, MiError>(
            RecordTree::Result {
                token,
                class: latin(class),
                results: results_meaning(Map::empty(), results),
            },
        ),
{
    lemma_record(token, 94, class, results);
}

/// A record of what happened reads back as it was written: its kind, its class and all of its
/// results.
pub proof fn law_async_records_read_back(
    marker: u8,
    class: Seq<u8>,
    results: Seq<(Seq<u8>, Written)>,
)
    requires
        marker == 42 || marker == 43 || marker == 61,
        is_word(class),
        are_readable(results),
    ensures
        line_record(latin(record_bytes(None, marker, class, results))) == Ok::<RecordTree, MiError>(
            RecordTree::Async {
                kind: marker as char,
                class: latin(class),
                results: results_meaning(Map::empty(), results),
            },
        ),
{
    lemma_record(None, marker, class, results);
}

/// A line of text that the debugger shows reads back as it was written.
pub proof fn law_stream_records_read_back(marker: u8, text: Seq<u8>)
    requires
        marker == 126 || marker == 64 || marker == 38,
    ensures
        line_record(latin(seq![marker] + Written::Quoted(text).bytes())) == Ok::<
            RecordTree,
            MiError,
        >(RecordTree::Stream { kind: marker as char, text: latin(text) }),
{
    let value = Written::Quoted(text);
    let s = seq![marker] + value.bytes();
    lemma_escaped_is_printable(text);
    lemma_value_is_printable(value);
    lemma_printable_parts(seq![marker], value.bytes());
    lemma_line_record(s);
    lemma_span(s, 0, |c: char| is_digit_char(c), 0);
    assert(stands_at(s, 0, s));
    lemma_parts_stand(s, 0, seq![marker], value.bytes());
    lemma_parts_stand(s, 1, seq![34u8] + escaped(text), seq![34u8]);
    lemma_parts_stand(s, 1, seq![34u8], escaped(text));
    assert(s[1int + 0] == seq![34u8][0]);
    assert(s[1 + (1 + escaped(text).len()) as int + 0] == seq![34u8][0]);
    lemma_string_from(s, 2, text, seq![]);
    assert(seq![] + latin(text) =~= latin(text));
}

} // verus!
