//! What holds of the records of GDB's machine interface however they are written: which escapes a
//! string can hold, what stands without quotes, and which lines hold no record.

use crate::mi::{
    bare_len, char_debug, escape_at, is_bare_char, is_digit_char, is_word_char, item_at, latin,
    lemma_span, line_record, list_from, octal_len, octal_value, result_at, results_from, string_at,
    string_from, trimmed, tuple_from, value_at, word_len, MiError, MiTree, RecordTree,
};
use crate::mi_reading::{
    ends_before, is_value, law_values_read_the_same_anywhere, lemma_next_result, lemma_span_facts,
    result_bytes,
};
use crate::mi_written::{
    are_readable, is_printable, is_word, lemma_line_record, lemma_printable_line, lemma_record,
    record_bytes, results_meaning, Written,
};
use crate::text::{decimal, digits_value, is_digit, lossy, unsigned};
use vstd::prelude::*;
use vstd::utf8::*;

verus! {

/// A piece of a quoted string.
pub enum StringPiece {
    /// A byte that stands for itself.
    Byte(u8),
    /// A backslash and a byte that is no octal digit.
    Escape(u8),
    /// A backslash and octal digits, three at most.
    Octal(Seq<u8>),
}

impl StringPiece {
    /// Whether a piece is of the kind that it says.
    pub open spec fn well_formed(self) -> bool {
        match self {
            StringPiece::Byte(b) => b != 34 && b != 92,
            StringPiece::Escape(b) => b < 48 || 55 < b,
            StringPiece::Octal(digits) => 1 <= digits.len() <= 3 && forall|i: int|
                0 <= i < digits.len() ==> 48 <= #[trigger] digits[i] <= 55,
        }
    }

    /// The bytes of a piece.
    pub open spec fn bytes(self) -> Seq<u8> {
        match self {
            StringPiece::Byte(b) => seq![b],
            StringPiece::Escape(b) => seq![92u8, b],
            StringPiece::Octal(digits) => seq![92u8] + digits,
        }
    }

    /// The character that a piece stands for.
    pub open spec fn meaning(self) -> char {
        match self {
            StringPiece::Byte(b) => b as char,
            StringPiece::Escape(b) => if b == 110 {
                '\n'
            } else if b == 114 {
                '\r'
            } else if b == 116 {
                '\t'
            } else {
                b as char
            },
            StringPiece::Octal(digits) => if digits.len() == 1 {
                (digits[0] - 48) as char
            } else if digits.len() == 2 {
                ((digits[0] - 48) * 8 + (digits[1] - 48)) as char
            } else {
                ((digits[0] - 48) * 64 + (digits[1] - 48) * 8 + (digits[2] - 48)) as char
            },
        }
    }

    /// Whether one more octal digit would belong to the piece.
    pub open spec fn takes_a_digit(self) -> bool {
        self matches StringPiece::Octal(digits) && digits.len() < 3
    }
}

/// The bytes of some pieces.
pub open spec fn pieces_bytes(pieces: Seq<StringPiece>) -> Seq<u8>
    decreases pieces.len(),
{
    if pieces.len() == 0 {
        seq![]
    } else {
        pieces[0].bytes() + pieces_bytes(pieces.skip(1))
    }
}

/// The text that some pieces stand for.
pub open spec fn pieces_text(pieces: Seq<StringPiece>) -> Seq<char> {
    pieces.map_values(|piece: StringPiece| piece.meaning())
}

/// Whether pieces can stand in a quoted string: each is of its kind, and no octal digit follows one
/// to which it would belong.
pub open spec fn is_string(pieces: Seq<StringPiece>) -> bool
    decreases pieces.len(),
{
    pieces.len() == 0 || {
        &&& pieces[0].well_formed()
        &&& pieces[0].takes_a_digit() && pieces.len() > 1 ==> {
            let next = pieces[1].bytes()[0];
            next < 48 || 55 < next
        }
        &&& is_string(pieces.skip(1))
    }
}

proof fn lemma_octal(s: Seq<u8>, p: nat, digits: Seq<u8>)
    requires
        1 <= digits.len() <= 3,
        forall|i: int| 0 <= i < digits.len() ==> 48 <= #[trigger] digits[i] <= 55,
        p + digits.len() <= s.len(),
        forall|i: int| 0 <= i < digits.len() ==> s[p + i] == #[trigger] digits[i],
        digits.len() < 3 && p + digits.len() < s.len() ==> s[(p + digits.len()) as int] < 48 || 55
            < s[(p + digits.len()) as int],
    ensures
        escape_at(s, p) == (StringPiece::Octal(digits).meaning(), digits.len()),
{
    assert(s[p + 0int] == digits[0]);
    if digits.len() > 1 {
        assert(s[p + 1int] == digits[1]);
    }
    if digits.len() > 2 {
        assert(s[p + 2int] == digits[2]);
    }
    assert(octal_len(s, p) == digits.len());
    assert(48 <= digits[0] <= 55);
    if digits.len() == 3 {
        assert(48 <= digits[1] <= 55 && 48 <= digits[2] <= 55);
        assert(octal_value(s, p) == (digits[0] - 48) * 64 + (digits[1] - 48) * 8 + (digits[2]
            - 48));
    }
}

proof fn lemma_pieces(s: Seq<u8>, p: nat, pieces: Seq<StringPiece>, out: Seq<char>)
    requires
        is_string(pieces),
        p + pieces_bytes(pieces).len() <= s.len(),
        s.subrange(p as int, (p + pieces_bytes(pieces).len()) as int) == pieces_bytes(pieces),
        p + pieces_bytes(pieces).len() < s.len() ==> {
            let next = s[(p + pieces_bytes(pieces).len()) as int];
            next == 34 || next == 92
        },
    ensures
        string_from(s, p, out) == string_from(
            s,
            p + pieces_bytes(pieces).len(),
            out + pieces_text(pieces),
        ),
    decreases pieces.len(),
{
    let all = pieces_bytes(pieces);
    if pieces.len() == 0 {
        assert(out + pieces_text(pieces) =~= out);
    } else {
        let piece = pieces[0];
        let rest = pieces.skip(1);
        let n = piece.bytes().len();
        let part = s.subrange(p as int, (p + all.len()) as int);
        assert forall|i: int| 0 <= i < all.len() implies s[p + i] == #[trigger] all[i] by {
            assert(part[i] == s[p + i]);
        }
        assert forall|i: int| 0 <= i < n implies s[p + i] == #[trigger] piece.bytes()[i] by {
            assert(all[i] == piece.bytes()[i]);
        }
        assert(s.subrange((p + n) as int, (p + n + pieces_bytes(rest).len()) as int)
            =~= pieces_bytes(rest)) by {
            assert forall|i: int| 0 <= i < pieces_bytes(rest).len() implies s[p + n + i]
                == pieces_bytes(rest)[i] by {
                assert(all[n + i] == pieces_bytes(rest)[i]);
                assert(s[p + (n + i)] == all[n + i]);
            }
        }
        let more = out.push(piece.meaning());
        lemma_pieces(s, p + n, rest, more);
        assert(more + pieces_text(rest) =~= out + pieces_text(pieces));
        assert(s[p + 0int] == piece.bytes()[0]);
        match piece {
            StringPiece::Byte(b) => {
                assert(s[p as int] == b);
            },
            StringPiece::Escape(b) => {
                assert(s[p + 1int] == piece.bytes()[1]);
                assert(escape_at(s, p + 1) == (piece.meaning(), 1nat));
            },
            StringPiece::Octal(digits) => {
                assert forall|i: int| 0 <= i < digits.len() implies s[p + 1 + i]
                    == #[trigger] digits[i] by {
                    assert(piece.bytes()[1 + i] == digits[i]);
                    assert(s[p + (1 + i)] == piece.bytes()[1 + i]);
                }
                if digits.len() < 3 && p + n < s.len() && rest.len() > 0 {
                    assert(rest[0] == pieces[1]);
                    lemma_some_bytes(rest[0]);
                    assert(pieces_bytes(rest)[0] == rest[0].bytes()[0]);
                    assert(all[n + 0int] == pieces_bytes(rest)[0]);
                    assert(s[p + (n + 0int)] == all[n + 0int]);
                }
                lemma_octal(s, p + 1, digits);
            },
        }
    }
}

proof fn lemma_some_bytes(piece: StringPiece)
    ensures
        piece.bytes().len() > 0,
{
}

/// A quoted string is read as what its pieces stand for, up to its closing quote, whatever follows:
/// bytes as the characters with their numbers, `\n`, `\r` and `\t` as line feed, carriage return
/// and tab, octal digits as the character with their number, and any other byte behind a backslash
/// as itself.
pub proof fn law_strings_are_read_piece_by_piece(pieces: Seq<StringPiece>, rest: Seq<u8>)
    requires
        is_string(pieces),
    ensures
        string_at(seq![34u8] + pieces_bytes(pieces) + seq![34u8] + rest, 0) == Ok::<
            (Seq<char>, nat),
            MiError,
        >((pieces_text(pieces), pieces_bytes(pieces).len() + 2)),
{
    let all = pieces_bytes(pieces);
    let s = seq![34u8] + all + seq![34u8] + rest;
    assert(s.subrange(1, 1 + all.len() as int) =~= all);
    assert(s[1 + all.len() as int] == 34);
    lemma_pieces(s, 1, pieces, seq![]);
    assert(Seq::<char>::empty() + pieces_text(pieces) =~= pieces_text(pieces));
}

/// A string that is not closed is none: where the input ends behind its pieces, it has no end, and
/// where it ends behind a backslash, an escape is cut off. What does not begin with a quote is no
/// string.
pub proof fn law_open_strings_are_refused(pieces: Seq<StringPiece>, other: Seq<u8>)
    requires
        is_string(pieces),
        other.len() == 0 || other[0] != 34,
    ensures
        string_at(seq![34u8] + pieces_bytes(pieces), 0) == Err::<(Seq<char>, nat), MiError>(
            MiError::UnterminatedString,
        ),
        string_at(seq![34u8] + pieces_bytes(pieces) + seq![92u8], 0) == Err::<
            (Seq<char>, nat),
            MiError,
        >(MiError::TruncatedEscape),
        string_at(other, 0) == Err::<(Seq<char>, nat), MiError>(MiError::ExpectedString),
{
    let all = pieces_bytes(pieces);
    let open = seq![34u8] + all;
    assert(open.subrange(1, 1 + all.len() as int) =~= all);
    lemma_pieces(open, 1, pieces, seq![]);
    let cut = open + seq![92u8];
    assert(cut.subrange(1, 1 + all.len() as int) =~= all);
    assert(cut[1 + all.len() as int] == 92);
    lemma_pieces(cut, 1, pieces, seq![]);
}

/// What stands without quotes is read as text, up to a comma, a bracket or the end.
pub proof fn law_bare_constants_are_text(bytes: Seq<u8>)
    requires
        forall|i: int|
            0 <= i < bytes.len() ==> #[trigger] bytes[i] != 44 && bytes[i] != 93 && bytes[i] != 125,
        bytes.len() > 0 ==> bytes[0] != 34 && bytes[0] != 123 && bytes[0] != 91,
    ensures
        is_value(bytes, MiTree::Const(lossy(bytes))),
{
    let f = |c: char| is_bare_char(c);
    assert forall|i: int| 0 <= i < bytes.len() implies f(#[trigger] bytes[i] as char) by {
        assert(bytes[i] != 44 && bytes[i] != 93 && bytes[i] != 125);
    }
    lemma_span(bytes, 0, f, bytes.len());
    assert(bytes.subrange(0, bytes.len() as int) =~= bytes);
}

/// What happened is told with or without a token before it: the token is passed over.
pub proof fn law_tokens_of_what_happened_are_passed_over(
    token: Option<nat>,
    marker: u8,
    class: Seq<u8>,
    results: Seq<(Seq<u8>, Written)>,
)
    requires
        token is Some ==> token->Some_0 <= u64::MAX,
        marker == 42 || marker == 43 || marker == 61,
        is_word(class),
        are_readable(results),
    ensures
        line_record(latin(record_bytes(token, marker, class, results))) == Ok::<
            RecordTree,
            MiError,
        >(
            RecordTree::Async {
                kind: marker as char,
                class: latin(class),
                results: results_meaning(Map::empty(), results),
            },
        ),
{
    lemma_record(token, marker, class, results);
}

/// A line whose first character behind the digits is none of those that begin a record holds none,
/// and neither does a line of digits alone.
pub proof fn law_lines_without_a_marker_hold_no_record(
    digits: Seq<u8>,
    marker: u8,
    rest: Seq<u8>,
)
    requires
        forall|i: int| 0 <= i < digits.len() ==> 48 <= #[trigger] digits[i] <= 57,
        32 <= marker < 127,
        !(48 <= marker <= 57),
        is_printable(rest),
    ensures
        marker != 94 && marker != 42 && marker != 43 && marker != 61 && marker != 126 && marker
            != 64 && marker != 38 && (marker != 40 || digits.len() > 0) ==> line_record(
            latin(digits + seq![marker] + rest),
        ) == Err::<RecordTree, MiError>(MiError::UnsupportedMarker(marker as char)),
        digits.len() > 0 ==> line_record(latin(digits)) == Err::<RecordTree, MiError>(
            MiError::EmptyRecord,
        ),
{
    let f = |c: char| is_digit_char(c);
    let s = digits + seq![marker] + rest;
    assert(s[digits.len() as int] == marker);
    assert forall|i: int| 0 <= i < digits.len() implies f(#[trigger] s[i] as char) by {
        assert(s[i] == digits[i]);
    }
    assert forall|i: int| 0 <= i < digits.len() implies f(#[trigger] digits[i] as char) by {
        assert(48 <= digits[i] <= 57);
    }
    lemma_span(s, 0, f, digits.len());
    lemma_span(digits, 0, f, digits.len());
    assert(is_printable(digits)) by {
        assert forall|i: int| 0 <= i < digits.len() implies 32 <= #[trigger] digits[i] < 127 by {}
    }
    assert(is_printable(s)) by {
        assert forall|i: int| 0 <= i < s.len() implies 32 <= #[trigger] s[i] < 127 by {
            if i < digits.len() {
                assert(s[i] == digits[i]);
            } else if i > digits.len() {
                assert(s[i] == rest[i - digits.len() - 1]);
            }
        }
    }
    if digits.len() > 0 {
        assert(s[0] == digits[0]);
        lemma_line_record(digits);
    }
    if marker != 40 || digits.len() > 0 {
        lemma_line_record(s);
    }
}

/// A text is read as a number where it is made of decimal digits, at least one, that stand for a
/// number up to the limit. A plus sign before them and zeros at their beginning change nothing.
pub proof fn law_numbers_are_made_of_digits(text: Seq<char>, max: nat, i: int)
    ensures
        text.len() > 0 && text[0] != '+' ==> unsigned(seq!['+'] + text, max) == unsigned(text, max),
        text.len() > 0 && text[0] != '+' ==> unsigned(seq!['0'] + text, max) == unsigned(text, max),
        0 <= i < text.len() && !('0' <= text[i] <= '9') && (i > 0 || text[i] != '+') ==> unsigned(
            text,
            max,
        ) is None,
        text.len() == 0 || (text.len() == 1 && text[0] == '+') ==> unsigned(text, max) is None,
        unsigned(text, max) matches Some(n) ==> n <= max,
{
    if text.len() > 0 && text[0] != '+' {
        let signed = seq!['+'] + text;
        assert(signed.skip(1) =~= text);
        let padded = seq!['0'] + text;
        lemma_leading_zero(text);
        assert forall|k: int| 0 <= k < text.len() implies padded[k + 1] == text[k] by {}
        if forall|k: int| 0 <= k < text.len() ==> is_digit(#[trigger] text[k]) {
            assert forall|k: int| 0 <= k < padded.len() implies is_digit(#[trigger] padded[k]) by {
                if k > 0 {
                    assert(is_digit(text[k - 1]));
                }
            }
        } else {
            let k = choose|k: int| 0 <= k < text.len() && !is_digit(#[trigger] text[k]);
            assert(padded[k + 1] == text[k]);
            assert(!is_digit(padded[k + 1]));
        }
    }
    if 0 <= i < text.len() && !('0' <= text[i] <= '9') && (i > 0 || text[i] != '+') {
        if text[0] == '+' {
            assert(text.skip(1)[i - 1] == text[i]);
            assert(!is_digit(text.skip(1)[i - 1]));
        } else {
            assert(!is_digit(text[i]));
        }
    }
}

proof fn lemma_leading_zero(digits: Seq<char>)
    ensures
        digits_value(seq!['0'] + digits) == digits_value(digits),
    decreases digits.len(),
{
    let padded = seq!['0'] + digits;
    if digits.len() == 0 {
        assert(padded.drop_last() =~= seq![]);
        reveal_with_fuel(digits_value, 2);
    } else {
        assert(padded.drop_last() =~= seq!['0'] + digits.drop_last());
        assert(padded.last() == digits.last());
        lemma_leading_zero(digits.drop_last());
    }
}

/// A digit behind others counts ten times what stands before it and itself.
pub proof fn law_digits_count_tenfold(digits: Seq<char>, d: char)
    requires
        '0' <= d <= '9',
    ensures
        digits_value(digits.push(d)) == digits_value(digits) * 10 + (d as int - '0' as int),
{
    assert(digits.push(d).drop_last() =~= digits);
}

/// The prompt is a record of its own, with or without a space behind it. Any other line that begins
/// with its bracket holds no record.
pub proof fn law_the_prompt_is_a_record(rest: Seq<u8>)
    requires
        is_printable(rest),
    ensures
        line_record("(gdb)"@) == Ok::<RecordTree, MiError>(RecordTree::Prompt),
        line_record("(gdb) "@) == Ok::<RecordTree, MiError>(RecordTree::Prompt),
        latin(seq![40u8] + rest) != "(gdb)"@ && latin(seq![40u8] + rest) != "(gdb) "@
            ==> line_record(latin(seq![40u8] + rest)) == Err::<RecordTree, MiError>(
            MiError::UnsupportedMarker('('),
        ),
{
    reveal_strlit("(gdb)");
    reveal_strlit("(gdb) ");
    is_ascii_chars_encode_utf8("(gdb)"@);
    is_ascii_chars_encode_utf8("(gdb) "@);
    let short = encode_utf8("(gdb)"@);
    let long = encode_utf8("(gdb) "@);
    assert("(gdb)"@[4] == ')');
    assert("(gdb) "@[5] == ' ');
    assert(trimmed(short) == short);
    assert(trimmed(long) == long);
    let s = seq![40u8] + rest;
    assert(is_printable(s)) by {
        assert forall|i: int| 0 <= i < s.len() implies 32 <= #[trigger] s[i] < 127 by {
            if i > 0 {
                assert(s[i] == rest[i - 1]);
            }
        }
    }
    lemma_printable_line(s);
    if latin(s) != "(gdb)"@ && latin(s) != "(gdb) "@ {
        if s == short {
            lemma_encoding_is_of_one_text(latin(s), "(gdb)"@);
        }
        if s == long {
            lemma_encoding_is_of_one_text(latin(s), "(gdb) "@);
        }
        let f = |c: char| is_digit_char(c);
        assert(s[0] == 40);
        lemma_span(s, 0, f, 0);
    }
}

proof fn lemma_encoding_is_of_one_text(a: Seq<char>, b: Seq<char>)
    requires
        encode_utf8(a) == encode_utf8(b),
    ensures
        a == b,
{
    encode_utf8_decode_utf8(a);
    encode_utf8_decode_utf8(b);
}

/// What follows the results of a record is passed over.
pub proof fn law_what_follows_the_results_is_passed_over(
    name: Seq<u8>,
    bytes: Seq<u8>,
    value: MiTree,
    tail: Seq<u8>,
)
    requires
        is_word(name),
        is_value(bytes, value),
        ends_before(bytes, tail),
        tail.len() > 0,
        tail[0] != 44,
    ensures
        results_from(result_bytes(name, bytes) + tail, 0, Map::empty()) == Ok::<
            Map<Seq<char>, MiTree>,
            MiError,
        >(Map::empty().insert(latin(name), value)),
{
    let s = result_bytes(name, bytes) + tail;
    assert(s =~= Seq::<u8>::empty() + result_bytes(name, bytes) + tail);
    lemma_next_result(seq![], name, bytes, tail, value, Map::empty());
    assert(s[result_bytes(name, bytes).len() as int] == tail[0]);
}

/// What is said of a line that holds no record.
pub proof fn law_each_failure_has_its_message(c: char)
    ensures
        MiError::EmptyRecord.message_text() == "empty MI record"@,
        MiError::InvalidResult.message_text() == "invalid MI result"@,
        MiError::UnterminatedTuple.message_text() == "unterminated tuple"@,
        MiError::UnterminatedList.message_text() == "unterminated list"@,
        MiError::ExpectedString.message_text() == "expected MI string"@,
        MiError::TruncatedEscape.message_text() == "truncated escape"@,
        MiError::UnterminatedString.message_text() == "unterminated MI string"@,
        MiError::UnsupportedMarker(c).message_text() == "unsupported MI marker "@ + char_debug(c),
{
}

/// A number is written without zeros at its beginning, but for zero itself.
pub proof fn law_numbers_have_no_leading_zeros(n: nat)
    ensures
        decimal(n).len() > 0,
        n > 0 ==> decimal(n)[0] != '0',
        decimal(0) == seq!['0'],
    decreases n,
{
    if n >= 10 {
        law_numbers_have_no_leading_zeros(n / 10);
        assert(decimal(n)[0] == decimal(n / 10)[0]);
    }
    assert(decimal(0) =~= seq!['0']);
}

/// Valid UTF-8 is read as the text that it encodes.
pub proof fn law_valid_bytes_are_their_text(text: Seq<char>)
    ensures
        lossy(encode_utf8(text)) == text,
{
    encode_utf8_valid_utf8(text);
    encode_utf8_decode_utf8(text);
}

/// A value, and the bytes that stand for it.
pub struct ReadableValue {
    pub bytes: Seq<u8>,
    pub value: MiTree,
}

impl ReadableValue {
    /// Whether the bytes stand for the value, and for nothing else.
    pub open spec fn well_formed(self) -> bool {
        is_value(self.bytes, self.value)
    }

    /// Whether the bytes do not begin as a named value does.
    pub open spec fn is_nameless(self) -> bool {
        let n = word_len(self.bytes, 0);
        n == 0 || n == self.bytes.len() || self.bytes[n as int] != 61
    }
}

/// The bytes of some values, with commas between them.
pub open spec fn values_bytes(values: Seq<ReadableValue>) -> Seq<u8>
    decreases values.len(),
{
    if values.len() == 0 {
        seq![]
    } else if values.len() == 1 {
        values[0].bytes
    } else {
        values[0].bytes + (seq![44u8] + values_bytes(values.skip(1)))
    }
}

/// Some values, in their order.
pub open spec fn values_of(values: Seq<ReadableValue>) -> Seq<MiTree> {
    values.map_values(|value: ReadableValue| value.value)
}

/// What follows the first of some values in a list or a tuple.
spec fn behind_first(values: Seq<ReadableValue>, tail: Seq<u8>) -> Seq<u8> {
    if values.len() == 1 {
        tail
    } else {
        seq![44u8] + values_bytes(values.skip(1)) + tail
    }
}

proof fn lemma_values_in_list(
    before: Seq<u8>,
    values: Seq<ReadableValue>,
    tail: Seq<u8>,
    items: Seq<MiTree>,
)
    requires
        values.len() > 0,
        forall|i: int|
            0 <= i < values.len() ==> (#[trigger] values[i]).well_formed()
                && values[i].is_nameless(),
        tail.len() > 0,
        tail[0] == 93,
    ensures
        list_from(before + values_bytes(values) + tail, before.len(), items) == Ok::<
            (Seq<MiTree>, nat),
            MiError,
        >((items + values_of(values), before.len() + values_bytes(values).len())),
    decreases values.len(),
{
    let s = before + values_bytes(values) + tail;
    let p = before.len();
    let first = values[0];
    let rest = values.skip(1);
    let behind = behind_first(values, tail);
    let n = first.bytes.len();
    assert(s =~= before + first.bytes + behind);
    assert(behind[0] == 44 || behind[0] == 93);
    assert(s[(p + n) as int] == behind[0]);
    law_values_read_the_same_anywhere(before, first.bytes, behind, first.value);
    let f = |c: char| is_word_char(c);
    let w = word_len(first.bytes, 0);
    lemma_span_facts(first.bytes, 0, f);
    assert forall|i: int| p <= i < p + w implies f(#[trigger] s[i] as char) by {
        assert(s[i] == first.bytes[i - p]);
    }
    if w < n {
        assert(s[(p + w) as int] == first.bytes[w as int]);
    }
    lemma_span(s, p, f, w);
    assert(item_at(s, p) == Ok::<(MiTree, nat), MiError>((first.value, n)));
    let more = items.push(first.value);
    if values.len() == 1 {
        assert(more =~= items + values_of(values));
    } else {
        let longer = before + first.bytes + seq![44u8];
        assert(s =~= longer + values_bytes(rest) + tail);
        assert forall|i: int| 0 <= i < rest.len() implies (#[trigger] rest[i]).well_formed()
            && rest[i].is_nameless() by {
            assert(rest[i] == values[i + 1]);
        }
        lemma_values_in_list(longer, rest, tail, more);
        assert(more + values_of(rest) =~= items + values_of(values));
        assert(longer.len() + values_bytes(rest).len() == p + values_bytes(values).len());
    }
}

/// A list is read as the list of its values, in their order, whatever they are and however they are
/// written, and whatever follows it.
pub proof fn law_lists_hold_any_values(values: Seq<ReadableValue>, tail: Seq<u8>)
    requires
        forall|i: int|
            0 <= i < values.len() ==> (#[trigger] values[i]).well_formed()
                && values[i].is_nameless(),
        values.len() > 0 ==> values[0].bytes.len() > 0,
    ensures
        value_at(seq![91u8] + values_bytes(values) + seq![93u8] + tail, 0) == Ok::<
            (MiTree, nat),
            MiError,
        >((MiTree::List(values_of(values)), values_bytes(values).len() + 2)),
{
    let all = values_bytes(values);
    let s = seq![91u8] + all + seq![93u8] + tail;
    assert(s[0] == 91);
    if values.len() == 0 {
        assert(s[1] == 93);
        assert(values_of(values) =~= seq![]);
    } else {
        let end = seq![93u8] + tail;
        assert(s =~= seq![91u8] + all + end);
        lemma_values_in_list(seq![91u8], values, end, seq![]);
        assert(Seq::<MiTree>::empty() + values_of(values) =~= values_of(values));
        assert(s[1 + all.len() as int] == 93);
        assert(s[1] == values[0].bytes[0]);
        assert(s[1] != 93) by {
            lemma_no_closing_start(values[0]);
        }
    }
}

proof fn lemma_no_closing_start(value: ReadableValue)
    requires
        value.well_formed(),
        value.bytes.len() > 0,
    ensures
        value.bytes[0] != 93,
        value.bytes[0] != 125,
{
    let f = |c: char| is_bare_char(c);
    lemma_span_facts(value.bytes, 0, f);
    if value.bytes[0] == 93 || value.bytes[0] == 125 {
        assert(bare_len(value.bytes, 0) == 0);
        assert(value_at(value.bytes, 0)->Ok_0.1 == 0);
    }
}

/// The bytes of named values, with commas between them.
pub open spec fn named_bytes(fields: Seq<(Seq<u8>, ReadableValue)>) -> Seq<u8>
    decreases fields.len(),
{
    if fields.len() == 0 {
        seq![]
    } else {
        let first = fields[0].0 + seq![61u8] + fields[0].1.bytes;
        if fields.len() == 1 {
            first
        } else {
            first + (seq![44u8] + named_bytes(fields.skip(1)))
        }
    }
}

/// The tuple of named values, of which a later one takes the place of an earlier one with its name.
pub open spec fn named_values(
    before: Map<Seq<char>, MiTree>,
    fields: Seq<(Seq<u8>, ReadableValue)>,
) -> Map<Seq<char>, MiTree>
    decreases fields.len(),
{
    if fields.len() == 0 {
        before
    } else {
        named_values(before.insert(latin(fields[0].0), fields[0].1.value), fields.skip(1))
    }
}

/// Whether values are named by words, and can be read.
pub open spec fn are_named(fields: Seq<(Seq<u8>, ReadableValue)>) -> bool {
    forall|i: int|
        0 <= i < fields.len() ==> is_word((#[trigger] fields[i]).0) && fields[i].1.well_formed()
}

proof fn lemma_named_value(
    before: Seq<u8>,
    name: Seq<u8>,
    value: ReadableValue,
    behind: Seq<u8>,
)
    requires
        is_word(name),
        value.well_formed(),
        ends_before(value.bytes, behind),
    ensures
        result_at(before + (name + seq![61u8] + value.bytes) + behind, before.len()) == Ok::<
            (Seq<char>, MiTree, nat),
            MiError,
        >((latin(name), value.value, name.len() + 1 + value.bytes.len())),
{
    let s = before + (name + seq![61u8] + value.bytes) + behind;
    let p = before.len();
    let head = before + name + seq![61u8];
    assert(s =~= head + value.bytes + behind);
    law_values_read_the_same_anywhere(head, value.bytes, behind, value.value);
    let f = |c: char| is_word_char(c);
    assert forall|i: int| p <= i < p + name.len() implies f(#[trigger] s[i] as char) by {
        assert(s[i] == name[i - p]);
    }
    assert(s[(p + name.len()) as int] == 61);
    lemma_span(s, p, f, name.len());
    assert(s.subrange(p as int, (p + name.len()) as int) =~= name);
}

proof fn lemma_values_in_tuple(
    before: Seq<u8>,
    fields: Seq<(Seq<u8>, ReadableValue)>,
    tail: Seq<u8>,
    map: Map<Seq<char>, MiTree>,
)
    requires
        fields.len() > 0,
        are_named(fields),
        tail.len() > 0,
        tail[0] == 125,
    ensures
        tuple_from(before + named_bytes(fields) + tail, before.len(), map) == Ok::<
            (Map<Seq<char>, MiTree>, nat),
            MiError,
        >((named_values(map, fields), before.len() + named_bytes(fields).len())),
    decreases fields.len(),
{
    let s = before + named_bytes(fields) + tail;
    let p = before.len();
    let (name, value) = fields[0];
    assert(is_word(fields[0].0));
    let first = name + seq![61u8] + value.bytes;
    let rest = fields.skip(1);
    let behind = if fields.len() == 1 {
        tail
    } else {
        seq![44u8] + named_bytes(rest) + tail
    };
    assert(s =~= before + first + behind);
    assert(s[(p + first.len()) as int] == behind[0]);
    lemma_named_value(before, name, value, behind);
    let more = map.insert(latin(name), value.value);
    if fields.len() == 1 {
        assert(named_values(more, rest) == more);
    } else {
        let longer = before + first + seq![44u8];
        assert(s =~= longer + named_bytes(rest) + tail);
        assert forall|i: int| 0 <= i < rest.len() implies is_word((#[trigger] rest[i]).0)
            && rest[i].1.well_formed() by {
            assert(rest[i] == fields[i + 1]);
        }
        lemma_values_in_tuple(longer, rest, tail, more);
        assert(longer.len() + named_bytes(rest).len() == p + named_bytes(fields).len());
    }
}

/// A tuple is read as its named values, whatever they are and however they are written, and
/// whatever follows it.
pub proof fn law_tuples_hold_any_values(fields: Seq<(Seq<u8>, ReadableValue)>, tail: Seq<u8>)
    requires
        are_named(fields),
    ensures
        value_at(seq![123u8] + named_bytes(fields) + seq![125u8] + tail, 0) == Ok::<
            (MiTree, nat),
            MiError,
        >((MiTree::Tuple(named_values(Map::empty(), fields)), named_bytes(fields).len() + 2)),
{
    let all = named_bytes(fields);
    let s = seq![123u8] + all + seq![125u8] + tail;
    assert(s[0] == 123);
    if fields.len() == 0 {
        assert(s[1] == 125);
    } else {
        let end = seq![125u8] + tail;
        assert(s =~= seq![123u8] + all + end);
        lemma_values_in_tuple(seq![123u8], fields, end, Map::empty());
        assert(s[1 + all.len() as int] == 125);
        assert(is_word(fields[0].0));
        assert(s[1] == fields[0].0[0]);
        assert(is_word_char(fields[0].0[0] as char));
    }
}

/// A tuple or a list that is not closed is none: where something else than a comma or its bracket
/// follows a value, or nothing at all.
pub proof fn law_open_tuples_and_lists_are_refused(
    fields: Seq<(Seq<u8>, ReadableValue)>,
    values: Seq<ReadableValue>,
)
    requires
        are_named(fields),
        fields.len() > 0,
        forall|i: int|
            0 <= i < values.len() ==> (#[trigger] values[i]).well_formed()
                && values[i].is_nameless(),
        values.len() > 0,
        values[0].bytes.len() > 0,
    ensures
        value_at(seq![123u8] + named_bytes(fields) + seq![93u8], 0) == Err::<(MiTree, nat), MiError>(
            MiError::UnterminatedTuple,
        ),
        value_at(seq![91u8] + values_bytes(values) + seq![125u8], 0) == Err::<
            (MiTree, nat),
            MiError,
        >(MiError::UnterminatedList),
{
    lemma_open_tuple(seq![123u8], fields, Map::empty());
    lemma_open_list(seq![91u8], values, seq![]);
    let open = seq![123u8] + named_bytes(fields) + seq![93u8];
    assert(is_word(fields[0].0));
    assert(open[0] == 123);
    assert(open[1] == fields[0].0[0]);
    assert(is_word_char(fields[0].0[0] as char));
    assert(open[1 + named_bytes(fields).len() as int] == 93);
    let list = seq![91u8] + values_bytes(values) + seq![125u8];
    assert(list[0] == 91);
    assert(list[1] == values[0].bytes[0]);
    lemma_no_closing_start(values[0]);
    assert(list[1 + values_bytes(values).len() as int] == 125);
}

proof fn lemma_open_tuple(
    before: Seq<u8>,
    fields: Seq<(Seq<u8>, ReadableValue)>,
    map: Map<Seq<char>, MiTree>,
)
    requires
        fields.len() > 0,
        are_named(fields),
    ensures
        tuple_from(before + named_bytes(fields) + seq![93u8], before.len(), map) matches Ok((_, e))
            && e == before.len() + named_bytes(fields).len(),
    decreases fields.len(),
{
    let tail = seq![93u8];
    let s = before + named_bytes(fields) + tail;
    let (name, value) = fields[0];
    assert(is_word(fields[0].0));
    let first = name + seq![61u8] + value.bytes;
    let rest = fields.skip(1);
    let behind = if fields.len() == 1 {
        tail
    } else {
        seq![44u8] + named_bytes(rest) + tail
    };
    assert(s =~= before + first + behind);
    assert(s[(before.len() + first.len()) as int] == behind[0]);
    lemma_named_value(before, name, value, behind);
    if fields.len() > 1 {
        let longer = before + first + seq![44u8];
        assert(s =~= longer + named_bytes(rest) + tail);
        assert forall|i: int| 0 <= i < rest.len() implies is_word((#[trigger] rest[i]).0)
            && rest[i].1.well_formed() by {
            assert(rest[i] == fields[i + 1]);
        }
        lemma_open_tuple(longer, rest, map.insert(latin(name), value.value));
        assert(longer.len() + named_bytes(rest).len() == before.len() + named_bytes(fields).len());
    }
}

proof fn lemma_open_list(before: Seq<u8>, values: Seq<ReadableValue>, items: Seq<MiTree>)
    requires
        values.len() > 0,
        forall|i: int|
            0 <= i < values.len() ==> (#[trigger] values[i]).well_formed()
                && values[i].is_nameless(),
    ensures
        list_from(before + values_bytes(values) + seq![125u8], before.len(), items) matches Ok(
            (_, e),
        ) && e == before.len() + values_bytes(values).len(),
    decreases values.len(),
{
    let tail = seq![125u8];
    let s = before + values_bytes(values) + tail;
    let p = before.len();
    let first = values[0];
    let rest = values.skip(1);
    let behind = behind_first(values, tail);
    let n = first.bytes.len();
    assert(s =~= before + first.bytes + behind);
    assert(behind[0] == 44 || behind[0] == 125);
    assert(s[(p + n) as int] == behind[0]);
    law_values_read_the_same_anywhere(before, first.bytes, behind, first.value);
    let f = |c: char| is_word_char(c);
    let w = word_len(first.bytes, 0);
    lemma_span_facts(first.bytes, 0, f);
    assert forall|i: int| p <= i < p + w implies f(#[trigger] s[i] as char) by {
        assert(s[i] == first.bytes[i - p]);
    }
    if w < n {
        assert(s[(p + w) as int] == first.bytes[w as int]);
    }
    lemma_span(s, p, f, w);
    assert(item_at(s, p) == Ok::<(MiTree, nat), MiError>((first.value, n)));
    if values.len() > 1 {
        let longer = before + first.bytes + seq![44u8];
        assert(s =~= longer + values_bytes(rest) + tail);
        assert forall|i: int| 0 <= i < rest.len() implies (#[trigger] rest[i]).well_formed()
            && rest[i].is_nameless() by {
            assert(rest[i] == values[i + 1]);
        }
        lemma_open_list(longer, rest, items.push(first.value));
        assert(longer.len() + values_bytes(rest).len() == p + values_bytes(values).len());
    }
}

} // verus!
