//! The output syntax of GDB's machine interface: records, and the values in them.

use crate::fields::{lemma_field_is_smaller, Fields};
use crate::text::{
    from_utf8_lossy, join2, lemma_encoding_of_concatenation, lossy, parse_unsigned, same_bytes,
    unsigned,
};
use vstd::prelude::*;
use vstd::utf8::{encode_utf8, is_ascii_chars, is_ascii_chars_encode_utf8};

verus! {

/// A value of a record.
#[derive(Debug, PartialEq)]
pub enum MiValue {
    Const(String),
    Tuple(Fields<MiValue>),
    List(Vec<MiValue>),
}

/// A value as a mathematical tree.
pub enum MiTree {
    Const(Seq<char>),
    Tuple(Map<Seq<char>, MiTree>),
    List(Seq<MiTree>),
}

/// A record: one line of output.
#[derive(Debug, PartialEq)]
pub enum MiRecord {
    Result { token: Option<u64>, class: String, results: Fields<MiValue> },
    Async { kind: char, class: String, results: Fields<MiValue> },
    Stream { kind: char, text: String },
    Prompt,
}

/// A record over mathematical values.
pub enum RecordTree {
    Result { token: Option<nat>, class: Seq<char>, results: Map<Seq<char>, MiTree> },
    Async { kind: char, class: Seq<char>, results: Map<Seq<char>, MiTree> },
    Stream { kind: char, text: Seq<char> },
    Prompt,
}

/// The ways in which a line can fail to be a record.
#[derive(Debug, Clone, Copy, PartialEq, Eq, Structural)]
pub enum MiError {
    EmptyRecord,
    UnsupportedMarker(char),
    InvalidResult,
    UnterminatedTuple,
    UnterminatedList,
    ExpectedString,
    TruncatedEscape,
    UnterminatedString,
}

/// The trees of the values in a map.
pub open spec fn fields_tree(fields: Fields<MiValue>) -> Map<Seq<char>, MiTree> {
    fields@.map_values(|value: MiValue| value.tree())
}

/// The trees of a list of values.
pub open spec fn items_tree(items: Seq<MiValue>) -> Seq<MiTree> {
    items.map_values(|value: MiValue| value.tree())
}

impl MiValue {
    /// The value as a tree.
    pub open spec fn tree(self) -> MiTree
        decreases self,
    {
        match self {
            MiValue::Const(text) => MiTree::Const(text@),
            MiValue::Tuple(fields) => {
                proof {
                    lemma_field_is_smaller(fields);
                }
                MiTree::Tuple(
                    Map::new(
                        |name: Seq<char>| fields@.contains_key(name),
                        |name: Seq<char>|
                            if fields@.contains_key(name) {
                                fields@[name].tree()
                            } else {
                                arbitrary()
                            },
                    ),
                )
            },
            MiValue::List(items) => MiTree::List(
                Seq::new(
                    items@.len(),
                    |i: int|
                        if 0 <= i < items@.len() {
                            items@[i].tree()
                        } else {
                            arbitrary()
                        },
                ),
            ),
        }
    }
}

impl MiTree {
    /// The text of a constant.
    pub open spec fn text(self) -> Option<Seq<char>> {
        match self {
            MiTree::Const(text) => Some(text),
            _ => None,
        }
    }

    /// The value under a name of a tuple.
    pub open spec fn field(self, name: Seq<char>) -> Option<MiTree> {
        match self {
            MiTree::Tuple(fields) => if fields.contains_key(name) {
                Some(fields[name])
            } else {
                None
            },
            _ => None,
        }
    }

    /// The items of a list; none for a value of another kind.
    pub open spec fn items(self) -> Seq<MiTree> {
        match self {
            MiTree::List(items) => items,
            _ => seq![],
        }
    }
}

/// The tree of a tuple holds the trees of its fields.
pub broadcast proof fn lemma_tuple_tree(fields: Fields<MiValue>)
    ensures
        #[trigger] MiValue::Tuple(fields).tree() == MiTree::Tuple(fields_tree(fields)),
{
    let tree = MiValue::Tuple(fields).tree();
    assert(tree->Tuple_0 =~= fields_tree(fields));
}

/// The tree of a list holds the trees of its items.
pub broadcast proof fn lemma_list_tree(items: Vec<MiValue>)
    ensures
        #[trigger] MiValue::List(items).tree() == MiTree::List(items_tree(items@)),
{
    let tree = MiValue::List(items).tree();
    assert(tree->List_0 =~= items_tree(items@));
}

impl MiValue {
    /// The text of a constant.
    pub fn text(&self) -> (r: Option<&str>)
        ensures
            match r {
                Some(text) => self.tree().text() == Some(text@),
                None => self.tree().text() is None,
            },
    {
        match self {
            MiValue::Const(value) => Some(value.as_str()),
            _ => None,
        }
    }

    /// The value under a name of a tuple.
    pub fn field(&self, name: &str) -> (r: Option<&MiValue>)
        ensures
            match r {
                Some(value) => self.tree().field(name@) == Some(value.tree()),
                None => self.tree().field(name@) is None,
            },
    {
        match self {
            MiValue::Tuple(fields) => fields.get(name),
            _ => None,
        }
    }

    /// The items of a list; none for a value of another kind.
    pub fn items(&self) -> (r: &[MiValue])
        ensures
            items_tree(r@) == self.tree().items(),
    {
        broadcast use lemma_list_tree;

        match self {
            MiValue::List(items) => items.as_slice(),
            _ => {
                let none: &[MiValue] = &[];
                assert(items_tree(none@) =~= seq![]);
                none
            },
        }
    }
}

/// Whether a name is among the first names of a list.
spec fn among(names: Seq<Seq<char>>, count: int, name: Seq<char>) -> bool {
    exists|j: int| 0 <= j < count && #[trigger] names[j] == name
}

/// A copy of a map of values.
fn copy_fields(fields: &Fields<MiValue>) -> (r: Fields<MiValue>)
    ensures
        fields_tree(r) == fields_tree(*fields),
    decreases *fields,
{
    let mut copy: Fields<MiValue> = Fields::new();
    let ghost names = fields.names();
    let count = fields.len();
    let mut i: usize = 0;
    while i < count
        invariant
            i <= count,
            count == names.len(),
            names == fields.names(),
            forall|name: Seq<char>| #[trigger]
                copy@.contains_key(name) <==> among(names, i as int, name),
            forall|name: Seq<char>| #[trigger]
                copy@.contains_key(name) ==> fields@.contains_key(name)
                    && copy@[name].tree() == fields@[name].tree(),
        decreases count - i,
    {
        proof {
            lemma_field_is_smaller(*fields);
        }
        let ghost before = copy@;
        let value = fields.value(i).clone();
        copy = copy.insert(fields.name(i).clone(), value);
        i += 1;
        assert forall|name: Seq<char>| #[trigger]
            copy@.contains_key(name) <==> among(names, i as int, name) by {
            if before.contains_key(name) {
                let j = choose|j: int| 0 <= j < i - 1 && #[trigger] names[j] == name;
                assert(names[j] == name);
            }
            assert(names[i - 1] == names[i - 1]);
            if among(names, i as int, name) && name != names[i - 1] {
                let j = choose|j: int| 0 <= j < i && #[trigger] names[j] == name;
                assert(among(names, i - 1, name));
            }
        }
    }
    assert forall|name: Seq<char>| #[trigger]
        fields@.contains_key(name) implies copy@.contains_key(name) by {
        let j = choose|j: int| 0 <= j < names.len() && names[j] == name;
        assert(names[j] == name);
        assert(among(names, i as int, name));
    }
    assert(fields_tree(copy) =~= fields_tree(*fields));
    copy
}

impl Clone for MiValue {
    fn clone(&self) -> (r: Self)
        ensures
            r.tree() == self.tree(),
        decreases *self,
    {
        broadcast use {lemma_tuple_tree, lemma_list_tree};

        match self {
            MiValue::Const(text) => MiValue::Const(text.clone()),
            MiValue::Tuple(fields) => MiValue::Tuple(copy_fields(fields)),
            MiValue::List(items) => {
                let mut copy: Vec<MiValue> = Vec::new();
                let mut i: usize = 0;
                while i < items.len()
                    invariant
                        i <= items@.len(),
                        *self == MiValue::List(*items),
                        copy@.len() == i,
                        forall|j: int| 0 <= j < i ==> (#[trigger] copy@[j]).tree() == items@[j].tree(),
                    decreases items@.len() - i,
                {
                    assert(decreases_to!(*self => self->List_0));
                    assert(decreases_to!(self->List_0@ => self->List_0@[i as int]));
                    copy.push(items[i].clone());
                    i += 1;
                }
                assert(items_tree(copy@) =~= items_tree(items@));
                MiValue::List(copy)
            },
        }
    }
}

/// The byte at a position, as the character with its number.
pub open spec fn peek(s: Seq<u8>, p: nat) -> Option<char> {
    if p < s.len() {
        Some(s[p as int] as char)
    } else {
        None
    }
}

/// The number of bytes from a position on that satisfy a predicate.
pub open spec fn span(s: Seq<u8>, p: nat, f: spec_fn(char) -> bool) -> nat
    decreases s.len() - p,
{
    if p < s.len() && f(s[p as int] as char) {
        1 + span(s, p + 1, f)
    } else {
        0
    }
}

/// The characters with the given bytes as their numbers.
pub open spec fn latin(bytes: Seq<u8>) -> Seq<char> {
    bytes.map_values(|b: u8| b as char)
}

/// The decimal digits.
pub open spec fn is_digit_char(c: char) -> bool {
    '0' <= c <= '9'
}

/// The octal digits.
pub open spec fn is_octal_char(c: char) -> bool {
    '0' <= c <= '7'
}

/// The characters of a class or a variable name: ASCII letters, digits, hyphens and underscores.
pub open spec fn is_word_char(c: char) -> bool {
    is_digit_char(c) || 'a' <= c <= 'z' || 'A' <= c <= 'Z' || c == '-' || c == '_'
}

/// The characters of a constant that is written without quotes.
pub open spec fn is_bare_char(c: char) -> bool {
    c != ',' && c != ']' && c != '}'
}

/// The length of the digits at a position.
pub open spec fn digits_len(s: Seq<u8>, p: nat) -> nat {
    span(s, p, |c: char| is_digit_char(c))
}

/// The length of the word at a position.
pub open spec fn word_len(s: Seq<u8>, p: nat) -> nat {
    span(s, p, |c: char| is_word_char(c))
}

/// The length of the unquoted constant at a position.
pub open spec fn bare_len(s: Seq<u8>, p: nat) -> nat {
    span(s, p, |c: char| is_bare_char(c))
}

/// The word at a position.
pub open spec fn word_at(s: Seq<u8>, p: nat) -> Seq<char> {
    latin(s.subrange(p as int, (p + word_len(s, p)) as int))
}

/// The token before a record: its digits as a number that fits in 64 bits.
pub open spec fn token_at(s: Seq<u8>, p: nat) -> Option<nat> {
    unsigned(latin(s.subrange(p as int, (p + digits_len(s, p)) as int)), u64::MAX as nat)
}

/// The number of octal digits, three at most, of an escape whose first digit is at a position.
pub open spec fn octal_len(s: Seq<u8>, p: nat) -> nat {
    if peek(s, p + 1) is Some && is_octal_char(peek(s, p + 1)->0) {
        if peek(s, p + 2) is Some && is_octal_char(peek(s, p + 2)->0) {
            3
        } else {
            2
        }
    } else {
        1
    }
}

/// The number written with the octal digits at a position.
pub open spec fn octal_value(s: Seq<u8>, p: nat) -> nat {
    let d = |i: int| (s[p + i] - 48) as nat;
    if octal_len(s, p) == 1 {
        d(0)
    } else if octal_len(s, p) == 2 {
        d(0) * 8 + d(1)
    } else {
        (d(0) * 8 + d(1)) * 8 + d(2)
    }
}

/// What an escape stands for, and its length, given the position behind its backslash.
pub open spec fn escape_at(s: Seq<u8>, p: nat) -> (char, nat) {
    let c = s[p as int] as char;
    if c == 'n' {
        ('\n', 1)
    } else if c == 'r' {
        ('\r', 1)
    } else if c == 't' {
        ('\t', 1)
    } else if is_octal_char(c) {
        (octal_value(s, p) as char, octal_len(s, p))
    } else {
        (c, 1)
    }
}

/// The rest of a quoted string: its text behind what was read already, and the position behind
/// its closing quote.
pub open spec fn string_from(s: Seq<u8>, p: nat, out: Seq<char>) -> Result<
    (Seq<char>, nat),
    MiError,
>
    decreases s.len() - p,
{
    if p >= s.len() {
        Err(MiError::UnterminatedString)
    } else if peek(s, p) == Some('"') {
        Ok((out, p + 1))
    } else if peek(s, p) == Some('\\') {
        if p + 1 >= s.len() {
            Err(MiError::TruncatedEscape)
        } else {
            let (c, n) = escape_at(s, p + 1);
            string_from(s, p + 1 + n, out.push(c))
        }
    } else {
        string_from(s, p + 1, out.push(s[p as int] as char))
    }
}

/// The quoted string at a position, and the position behind it.
pub open spec fn string_at(s: Seq<u8>, p: nat) -> Result<(Seq<char>, nat), MiError> {
    if peek(s, p) == Some('"') {
        string_from(s, p + 1, seq![])
    } else {
        Err(MiError::ExpectedString)
    }
}

/// The value at a position, and its length.
pub open spec fn value_at(s: Seq<u8>, p: nat) -> Result<(MiTree, nat), MiError>
    decreases s.len() - p, 0nat,
{
    if peek(s, p) == Some('"') {
        match string_at(s, p) {
            Err(e) => Err(e),
            Ok((text, q)) => Ok((MiTree::Const(text), (q - p) as nat)),
        }
    } else if peek(s, p) == Some('{') {
        let inside = if peek(s, p + 1) == Some('}') {
            Ok((Map::empty(), p + 1))
        } else {
            tuple_from(s, p + 1, Map::empty())
        };
        match inside {
            Err(e) => Err(e),
            Ok((fields, q)) => if peek(s, q) == Some('}') {
                Ok((MiTree::Tuple(fields), (q + 1 - p) as nat))
            } else {
                Err(MiError::UnterminatedTuple)
            },
        }
    } else if peek(s, p) == Some('[') {
        let inside = if peek(s, p + 1) == Some(']') {
            Ok((seq![], p + 1))
        } else {
            list_from(s, p + 1, seq![])
        };
        match inside {
            Err(e) => Err(e),
            Ok((items, q)) => if peek(s, q) == Some(']') {
                Ok((MiTree::List(items), (q + 1 - p) as nat))
            } else {
                Err(MiError::UnterminatedList)
            },
        }
    } else {
        let n = bare_len(s, p);
        Ok((MiTree::Const(lossy(s.subrange(p as int, (p + n) as int))), n))
    }
}

/// Whether a value that was read from one position up to another is of the kind that its first
/// character says, and ends with the character that closes it.
pub open spec fn is_closed(s: Seq<u8>, p: nat, e: nat, value: MiTree) -> bool {
    &&& peek(s, p) == Some('"') ==> value is Const && p + 1 < e <= s.len() && s[e - 1] == 34
    &&& peek(s, p) == Some('{') ==> value is Tuple && p + 1 < e <= s.len() && s[e - 1] == 125
    &&& peek(s, p) == Some('[') ==> value is List && p + 1 < e <= s.len() && s[e - 1] == 93
}

/// The variable and its value at a position, and their length.
pub open spec fn result_at(s: Seq<u8>, p: nat) -> Result<(Seq<char>, MiTree, nat), MiError>
    decreases s.len() - p, 0nat,
{
    let n = word_len(s, p);
    if n == 0 || peek(s, p + n) != Some('=') {
        Err(MiError::InvalidResult)
    } else {
        match value_at(s, p + n + 1) {
            Err(e) => Err(e),
            Ok((value, m)) => Ok((word_at(s, p), value, n + 1 + m)),
        }
    }
}

/// The fields of a tuple from a position on, added to those read already, and the position
/// behind them. Of two fields with one name the later stays.
pub open spec fn tuple_from(s: Seq<u8>, p: nat, fields: Map<Seq<char>, MiTree>) -> Result<
    (Map<Seq<char>, MiTree>, nat),
    MiError,
>
    decreases s.len() - p, 1nat,
{
    match result_at(s, p) {
        Err(e) => Err(e),
        Ok((name, value, n)) => {
            let more = fields.insert(name, value);
            if peek(s, p + n) == Some(',') {
                tuple_from(s, p + n + 1, more)
            } else {
                Ok((more, p + n))
            }
        },
    }
}

/// The item of a list at a position, and its length. A result stands for the tuple that holds
/// it alone.
pub open spec fn item_at(s: Seq<u8>, p: nat) -> Result<(MiTree, nat), MiError>
    decreases s.len() - p, 1nat,
{
    let n = word_len(s, p);
    if n > 0 && peek(s, p + n) == Some('=') {
        match value_at(s, p + n + 1) {
            Err(e) => Err(e),
            Ok((value, m)) => Ok(
                (MiTree::Tuple(Map::empty().insert(word_at(s, p), value)), n + 1 + m),
            ),
        }
    } else {
        value_at(s, p)
    }
}

/// The items of a list from a position on, behind those read already, and the position behind
/// them.
pub open spec fn list_from(s: Seq<u8>, p: nat, items: Seq<MiTree>) -> Result<
    (Seq<MiTree>, nat),
    MiError,
>
    decreases s.len() - p, 2nat,
{
    match item_at(s, p) {
        Err(e) => Err(e),
        Ok((item, n)) => {
            let more = items.push(item);
            if peek(s, p + n) == Some(',') {
                list_from(s, p + n + 1, more)
            } else {
                Ok((more, p + n))
            }
        },
    }
}

/// The results of a record with one more: a variable that occurs again becomes the list of its
/// values, or grows the list that it is already.
pub open spec fn gather(
    results: Map<Seq<char>, MiTree>,
    name: Seq<char>,
    value: MiTree,
) -> Map<Seq<char>, MiTree> {
    if !results.contains_key(name) {
        results.insert(name, value)
    } else {
        match results[name] {
            MiTree::List(items) => results.insert(name, MiTree::List(items.push(value))),
            other => results.insert(name, MiTree::List(seq![other, value])),
        }
    }
}

/// The results of a record from a position on, gathered with those read already.
pub open spec fn results_from(s: Seq<u8>, p: nat, results: Map<Seq<char>, MiTree>) -> Result<
    Map<Seq<char>, MiTree>,
    MiError,
>
    decreases
        if p <= s.len() {
            s.len() - p + 1
        } else {
            0
        },
{
    if peek(s, p) == Some(',') {
        match result_at(s, p + 1) {
            Err(e) => Err(e),
            Ok((name, value, n)) => results_from(s, p + 1 + n, gather(results, name, value)),
        }
    } else {
        Ok(results)
    }
}

/// A line without the carriage returns and line feeds at its end.
pub open spec fn trimmed(s: Seq<u8>) -> Seq<u8>
    decreases s.len(),
{
    if s.len() > 0 && (s.last() == 13 || s.last() == 10) {
        trimmed(s.drop_last())
    } else {
        s
    }
}

/// The record in a line that is not the prompt.
pub open spec fn record_of(s: Seq<u8>) -> Result<RecordTree, MiError> {
    let p = digits_len(s, 0);
    if p >= s.len() {
        Err(MiError::EmptyRecord)
    } else {
        let marker = s[p as int] as char;
        let class = word_at(s, p + 1);
        let results = results_from(s, p + 1 + word_len(s, p + 1), Map::empty());
        if marker == '^' {
            match results {
                Err(e) => Err(e),
                Ok(results) => Ok(RecordTree::Result { token: token_at(s, 0), class, results }),
            }
        } else if marker == '*' || marker == '+' || marker == '=' {
            match results {
                Err(e) => Err(e),
                Ok(results) => Ok(RecordTree::Async { kind: marker, class, results }),
            }
        } else if marker == '~' || marker == '@' || marker == '&' {
            match string_at(s, p + 1) {
                Err(e) => Err(e),
                Ok((text, _)) => Ok(RecordTree::Stream { kind: marker, text }),
            }
        } else {
            Err(MiError::UnsupportedMarker(marker))
        }
    }
}

/// The record in a line.
pub open spec fn line_record(line: Seq<char>) -> Result<RecordTree, MiError> {
    let s = trimmed(encode_utf8(line));
    if s == encode_utf8("(gdb)"@) || s == encode_utf8("(gdb) "@) {
        Ok(RecordTree::Prompt)
    } else {
        record_of(s)
    }
}

impl MiRecord {
    /// The record over mathematical values.
    pub open spec fn tree(self) -> RecordTree {
        match self {
            MiRecord::Result { token, class, results } => RecordTree::Result {
                token: match token {
                    Some(n) => Some(n as nat),
                    None => None,
                },
                class: class@,
                results: fields_tree(results),
            },
            MiRecord::Async { kind, class, results } => RecordTree::Async {
                kind,
                class: class@,
                results: fields_tree(results),
            },
            MiRecord::Stream { kind, text } => RecordTree::Stream { kind, text: text@ },
            MiRecord::Prompt => RecordTree::Prompt,
        }
    }
}

impl Clone for MiRecord {
    fn clone(&self) -> (r: Self)
        ensures
            r.tree() == self.tree(),
    {
        match self {
            MiRecord::Result { token, class, results } => MiRecord::Result {
                token: *token,
                class: class.clone(),
                results: copy_fields(results),
            },
            MiRecord::Async { kind, class, results } => MiRecord::Async {
                kind: *kind,
                class: class.clone(),
                results: copy_fields(results),
            },
            MiRecord::Stream { kind, text } => MiRecord::Stream { kind: *kind, text: text.clone() },
            MiRecord::Prompt => MiRecord::Prompt,
        }
    }
}

/// Reads a line from its start to its end.
struct Parser<'a> {
    input: &'a [u8],
    pos: usize,
}

/// The bytes that satisfy a predicate end where one does not.
pub proof fn lemma_span(s: Seq<u8>, p: nat, f: spec_fn(char) -> bool, n: nat)
    requires
        p + n <= s.len(),
        forall|i: int| p <= i < p + n ==> f(#[trigger] s[i] as char),
        p + n == s.len() || !f(s[(p + n) as int] as char),
    ensures
        span(s, p, f) == n,
    decreases n,
{
    if n > 0 {
        assert(f(s[p as int] as char));
        lemma_span(s, p + 1, f, (n - 1) as nat);
    }
}

impl<'a> Parser<'a> {
    spec fn wf(self) -> bool {
        self.pos <= self.input@.len() <= usize::MAX
    }

    /// The measure by which each nested value is smaller than the one around it.
    spec fn rest(self) -> int {
        self.input@.len() - self.pos
    }

    fn new(input: &'a [u8]) -> (r: Self)
        ensures
            r.wf(),
            r.input@ == input@,
            r.pos == 0,
    {
        let _ = input.len();
        Parser { input, pos: 0 }
    }

    fn peek(&self) -> (r: Option<char>)
        ensures
            r == peek(self.input@, self.pos as nat),
    {
        if self.pos < self.input.len() {
            Some(self.input[self.pos] as char)
        } else {
            None
        }
    }

    fn next(&mut self) -> (r: Option<char>)
        requires
            old(self).wf(),
        ensures
            final(self).wf(),
            final(self).input == old(self).input,
            r == peek(old(self).input@, old(self).pos as nat),
            final(self).pos == if r is Some {
                old(self).pos + 1
            } else {
                old(self).pos as int
            },
    {
        let value = self.peek();
        if value.is_some() {
            self.pos = self.pos + 1;
        }
        value
    }

    /// The bytes between two positions, each as the character with its number.
    fn latin_text(&self, start: usize, end: usize) -> (r: String)
        requires
            start <= end <= self.input@.len(),
        ensures
            r@ == latin(self.input@.subrange(start as int, end as int)),
    {
        let mut out = String::new();
        let mut i: usize = start;
        assert(out@ =~= latin(self.input@.subrange(start as int, i as int)));
        while i < end
            invariant
                start <= i <= end <= self.input@.len(),
                out@ == latin(self.input@.subrange(start as int, i as int)),
            decreases end - i,
        {
            out.push(self.input[i] as char);
            i += 1;
            assert(out@ =~= latin(self.input@.subrange(start as int, i as int)));
        }
        out
    }

    fn number(&mut self) -> (r: Option<u64>)
        requires
            old(self).wf(),
        ensures
            final(self).wf(),
            final(self).input == old(self).input,
            final(self).pos == old(self).pos + digits_len(old(self).input@, old(self).pos as nat),
            match r {
                Some(n) => token_at(old(self).input@, old(self).pos as nat) == Some(n as nat),
                None => token_at(old(self).input@, old(self).pos as nat) is None,
            },
    {
        let start = self.pos;
        let input = self.input;
        let mut pos: usize = start;
        while pos < input.len() && '0' <= input[pos] as char && input[pos] as char <= '9'
            invariant
                start <= pos <= input@.len(),
                forall|i: int| start <= i < pos ==> is_digit_char(#[trigger] input@[i] as char),
            decreases input@.len() - pos,
        {
            pos += 1;
        }
        proof {
            lemma_span(input@, start as nat, |c: char| is_digit_char(c), (pos - start) as nat);
        }
        self.pos = pos;
        let digits = self.latin_text(start, pos);
        parse_unsigned(&digits, u64::MAX)
    }

    fn word(&mut self) -> (r: String)
        requires
            old(self).wf(),
        ensures
            final(self).wf(),
            final(self).input == old(self).input,
            final(self).pos == old(self).pos + word_len(old(self).input@, old(self).pos as nat),
            r@ == word_at(old(self).input@, old(self).pos as nat),
            r@.len() == word_len(old(self).input@, old(self).pos as nat),
    {
        let start = self.pos;
        let input = self.input;
        let mut pos: usize = start;
        while pos < input.len() && word_char(input[pos] as char)
            invariant
                start <= pos <= input@.len(),
                forall|i: int| start <= i < pos ==> is_word_char(#[trigger] input@[i] as char),
            decreases input@.len() - pos,
        {
            pos += 1;
        }
        proof {
            lemma_span(input@, start as nat, |c: char| is_word_char(c), (pos - start) as nat);
        }
        self.pos = pos;
        self.latin_text(start, pos)
    }

    /// The octal digit at the position.
    fn octal_digit(&self) -> (r: Option<u32>)
        requires
            self.wf(),
        ensures
            r == match peek(self.input@, self.pos as nat) {
                Some(c) => if is_octal_char(c) {
                    Some((self.input@[self.pos as int] - 48) as u32)
                } else {
                    None
                },
                None => None,
            },
            r is Some ==> r->0 < 8 && self.pos < self.input@.len(),
    {
        match self.peek() {
            Some(c) => if '0' <= c && c <= '7' {
                Some((self.input[self.pos] - 48) as u32)
            } else {
                None
            },
            None => None,
        }
    }

    /// The octal number at the position, of three digits at most.
    fn octal(&mut self) -> (r: char)
        requires
            old(self).wf(),
            old(self).pos < old(self).input@.len(),
            is_octal_char(old(self).input@[old(self).pos as int] as char),
        ensures
            final(self).wf(),
            final(self).input == old(self).input,
            final(self).pos == old(self).pos + octal_len(old(self).input@, old(self).pos as nat),
            r == octal_value(old(self).input@, old(self).pos as nat) as char,
    {
        let mut value: u32 = (self.input[self.pos] - 48) as u32;
        self.pos = self.pos + 1;
        if let Some(second) = self.octal_digit() {
            self.pos = self.pos + 1;
            value = value * 8 + second;
            if let Some(third) = self.octal_digit() {
                self.pos = self.pos + 1;
                value = value * 8 + third;
            }
        }
        char_of(value)
    }

    fn string(&mut self) -> (r: Result<String, MiError>)
        requires
            old(self).wf(),
        ensures
            final(self).wf(),
            final(self).input == old(self).input,
            old(self).pos <= final(self).pos,
            match r {
                Ok(text) => {
                    &&& string_at(old(self).input@, old(self).pos as nat) == Ok::<_, MiError>(
                        (text@, final(self).pos as nat),
                    )
                    &&& old(self).pos + 1 < final(self).pos
                    &&& final(self).input@[final(self).pos - 1] == 34
                },
                Err(e) => string_at(old(self).input@, old(self).pos as nat) == Err::<
                    (Seq<char>, nat),
                    MiError,
                >(e),
            },
    {
        let ghost s = self.input@;
        let ghost p = self.pos as nat;
        match self.next() {
            Some('"') => {},
            _ => {
                return Err(MiError::ExpectedString);
            },
        }
        let mut output = String::new();
        assert(output@ =~= seq![]);
        loop
            invariant
                self.wf(),
                self.input == old(self).input,
                s == self.input@,
                p == old(self).pos,
                p < self.pos,
                string_at(s, p) == string_from(s, self.pos as nat, output@),
            decreases s.len() - self.pos,
        {
            match self.next() {
                Some('"') => {
                    return Ok(output);
                },
                Some('\\') => {
                    match self.peek() {
                        None => {
                            return Err(MiError::TruncatedEscape);
                        },
                        Some(c) => if c == 'n' {
                            self.pos = self.pos + 1;
                            output.push('\n');
                        } else if c == 'r' {
                            self.pos = self.pos + 1;
                            output.push('\r');
                        } else if c == 't' {
                            self.pos = self.pos + 1;
                            output.push('\t');
                        } else if '0' <= c && c <= '7' {
                            let value = self.octal();
                            output.push(value);
                        } else {
                            self.pos = self.pos + 1;
                            output.push(c);
                        },
                    }
                },
                Some(c) => {
                    output.push(c);
                },
                None => {
                    return Err(MiError::UnterminatedString);
                },
            }
        }
    }

    fn value(&mut self) -> (r: Result<MiValue, MiError>)
        requires
            old(self).wf(),
        ensures
            final(self).wf(),
            final(self).input == old(self).input,
            old(self).pos <= final(self).pos,
            match r {
                Ok(value) => {
                    &&& value_at(old(self).input@, old(self).pos as nat) == Ok::<_, MiError>(
                        (value.tree(), (final(self).pos - old(self).pos) as nat),
                    )
                    &&& is_closed(
                        old(self).input@,
                        old(self).pos as nat,
                        final(self).pos as nat,
                        value.tree(),
                    )
                },
                Err(e) => value_at(old(self).input@, old(self).pos as nat) == Err::<
                    (MiTree, nat),
                    MiError,
                >(e),
            },
        decreases old(self).rest(), 0nat,
    {
        broadcast use {lemma_tuple_tree, lemma_list_tree};

        match self.peek() {
            Some('"') => match self.string() {
                Ok(text) => Ok(MiValue::Const(text)),
                Err(e) => Err(e),
            },
            Some('{') => {
                self.pos = self.pos + 1;
                match self.tuple() {
                    Err(e) => Err(e),
                    Ok(fields) => match self.next() {
                        Some('}') => Ok(MiValue::Tuple(fields)),
                        _ => Err(MiError::UnterminatedTuple),
                    },
                }
            },
            Some('[') => {
                self.pos = self.pos + 1;
                match self.list() {
                    Err(e) => Err(e),
                    Ok(items) => match self.next() {
                        Some(']') => Ok(MiValue::List(items)),
                        _ => Err(MiError::UnterminatedList),
                    },
                }
            },
            _ => {
                let start = self.pos;
                let input = self.input;
                let mut pos: usize = start;
                while pos < input.len() && bare_char(input[pos] as char)
                    invariant
                        start <= pos <= input@.len(),
                        forall|i: int|
                            start <= i < pos ==> is_bare_char(#[trigger] input@[i] as char),
                    decreases input@.len() - pos,
                {
                    pos += 1;
                }
                proof {
                    lemma_span(
                        input@,
                        start as nat,
                        |c: char| is_bare_char(c),
                        (pos - start) as nat,
                    );
                }
                self.pos = pos;
                Ok(MiValue::Const(from_utf8_lossy(&input[start..pos])))
            },
        }
    }

    /// The fields of a tuple, from behind its opening brace up to its closing one.
    fn tuple(&mut self) -> (r: Result<Fields<MiValue>, MiError>)
        requires
            old(self).wf(),
        ensures
            final(self).wf(),
            final(self).input == old(self).input,
            old(self).pos <= final(self).pos,
            ({
                let s = old(self).input@;
                let p = old(self).pos as nat;
                let inside = if peek(s, p) == Some('}') {
                    Ok((Map::empty(), p))
                } else {
                    tuple_from(s, p, Map::empty())
                };
                match r {
                    Ok(fields) => inside == Ok::<_, MiError>(
                        (fields_tree(fields), final(self).pos as nat),
                    ),
                    Err(e) => inside == Err::<(Map<Seq<char>, MiTree>, nat), MiError>(e),
                }
            }),
        decreases old(self).rest(), 2nat,
    {
        let mut fields: Fields<MiValue> = Fields::new();
        let ghost s = self.input@;
        let ghost p = self.pos as nat;
        assert(fields_tree(fields) =~= Map::empty());
        if let Some('}') = self.peek() {
            return Ok(fields);
        }
        loop
            invariant
                self.wf(),
                self.input == old(self).input,
                s == self.input@,
                p == old(self).pos,
                p <= self.pos,
                tuple_from(s, p, Map::empty()) == tuple_from(
                    s,
                    self.pos as nat,
                    fields_tree(fields),
                ),
                peek(s, p) != Some('}'),
            decreases s.len() - self.pos,
        {
            match self.result() {
                Err(e) => {
                    return Err(e);
                },
                Ok((name, value)) => {
                    let ghost before = fields;
                    fields = fields.insert(name, value);
                    assert(fields_tree(fields) =~= fields_tree(before).insert(name@, value.tree()));
                },
            }
            match self.peek() {
                Some(',') => {
                    self.pos = self.pos + 1;
                },
                _ => {
                    return Ok(fields);
                },
            }
        }
    }

    /// The items of a list, from behind its opening bracket up to its closing one.
    fn list(&mut self) -> (r: Result<Vec<MiValue>, MiError>)
        requires
            old(self).wf(),
        ensures
            final(self).wf(),
            final(self).input == old(self).input,
            old(self).pos <= final(self).pos,
            ({
                let s = old(self).input@;
                let p = old(self).pos as nat;
                let inside = if peek(s, p) == Some(']') {
                    Ok((seq![], p))
                } else {
                    list_from(s, p, seq![])
                };
                match r {
                    Ok(items) => inside == Ok::<_, MiError>(
                        (items_tree(items@), final(self).pos as nat),
                    ),
                    Err(e) => inside == Err::<(Seq<MiTree>, nat), MiError>(e),
                }
            }),
        decreases old(self).rest(), 2nat,
    {
        let mut items: Vec<MiValue> = Vec::new();
        let ghost s = self.input@;
        let ghost p = self.pos as nat;
        assert(items_tree(items@) =~= seq![]);
        if let Some(']') = self.peek() {
            return Ok(items);
        }
        loop
            invariant
                self.wf(),
                self.input == old(self).input,
                s == self.input@,
                p == old(self).pos,
                p <= self.pos,
                list_from(s, p, seq![]) == list_from(s, self.pos as nat, items_tree(items@)),
                peek(s, p) != Some(']'),
            decreases s.len() - self.pos,
        {
            match self.item() {
                Err(e) => {
                    return Err(e);
                },
                Ok(item) => {
                    let ghost before = items@;
                    items.push(item);
                    assert(items_tree(items@) =~= items_tree(before).push(item.tree()));
                },
            }
            match self.peek() {
                Some(',') => {
                    self.pos = self.pos + 1;
                },
                _ => {
                    return Ok(items);
                },
            }
        }
    }

    /// An item of a list: a value, or a result as the tuple that holds it alone.
    fn item(&mut self) -> (r: Result<MiValue, MiError>)
        requires
            old(self).wf(),
        ensures
            final(self).wf(),
            final(self).input == old(self).input,
            old(self).pos <= final(self).pos,
            match r {
                Ok(value) => item_at(old(self).input@, old(self).pos as nat) == Ok::<_, MiError>(
                    (value.tree(), (final(self).pos - old(self).pos) as nat),
                ),
                Err(e) => item_at(old(self).input@, old(self).pos as nat) == Err::<
                    (MiTree, nat),
                    MiError,
                >(e),
            },
        decreases old(self).rest(), 1nat,
    {
        broadcast use lemma_tuple_tree;

        let saved = self.pos;
        let name = self.word();
        let named = match self.peek() {
            Some('=') => self.pos > saved,
            _ => false,
        };
        if named {
            self.pos = self.pos + 1;
            match self.value() {
                Err(e) => Err(e),
                Ok(value) => {
                    let none: Fields<MiValue> = Fields::new();
                    let fields = none.insert(name, value);
                    assert(fields_tree(fields) =~= Map::empty().insert(name@, value.tree()));
                    Ok(MiValue::Tuple(fields))
                },
            }
        } else {
            self.pos = saved;
            self.value()
        }
    }

    fn result(&mut self) -> (r: Result<(String, MiValue), MiError>)
        requires
            old(self).wf(),
        ensures
            final(self).wf(),
            final(self).input == old(self).input,
            old(self).pos <= final(self).pos,
            match r {
                Ok((name, value)) => result_at(old(self).input@, old(self).pos as nat) == Ok::<
                    _,
                    MiError,
                >((name@, value.tree(), (final(self).pos - old(self).pos) as nat)),
                Err(e) => result_at(old(self).input@, old(self).pos as nat) == Err::<
                    (Seq<char>, MiTree, nat),
                    MiError,
                >(e),
            },
        decreases old(self).rest(), 1nat,
    {
        let start = self.pos;
        let name = self.word();
        if self.pos == start {
            return Err(MiError::InvalidResult);
        }
        match self.next() {
            Some('=') => {},
            _ => {
                return Err(MiError::InvalidResult);
            },
        }
        match self.value() {
            Err(e) => Err(e),
            Ok(value) => Ok((name, value)),
        }
    }

    fn results(&mut self) -> (r: Result<Fields<MiValue>, MiError>)
        requires
            old(self).wf(),
        ensures
            final(self).wf(),
            final(self).input == old(self).input,
            old(self).pos <= final(self).pos,
            match r {
                Ok(fields) => results_from(old(self).input@, old(self).pos as nat, Map::empty())
                    == Ok::<_, MiError>(fields_tree(fields)),
                Err(e) => results_from(old(self).input@, old(self).pos as nat, Map::empty())
                    == Err::<Map<Seq<char>, MiTree>, MiError>(e),
            },
    {
        broadcast use {lemma_tuple_tree, lemma_list_tree};

        let mut fields: Fields<MiValue> = Fields::new();
        let ghost s = self.input@;
        let ghost p = self.pos as nat;
        assert(fields_tree(fields) =~= Map::empty());
        loop
            invariant
                self.wf(),
                self.input == old(self).input,
                s == self.input@,
                p == old(self).pos,
                p <= self.pos,
                results_from(s, p, Map::empty()) == results_from(
                    s,
                    self.pos as nat,
                    fields_tree(fields),
                ),
            decreases s.len() - self.pos,
        {
            match self.peek() {
                Some(',') => {},
                _ => {
                    return Ok(fields);
                },
            }
            self.pos = self.pos + 1;
            match self.result() {
                Err(e) => {
                    return Err(e);
                },
                Ok((name, value)) => {
                    fields = gathered(fields, name, value);
                },
            }
        }
    }
}

/// Adds a result to those of a record.
fn gathered(fields: Fields<MiValue>, name: String, value: MiValue) -> (r: Fields<MiValue>)
    ensures
        fields_tree(r) == gather(fields_tree(fields), name@, value.tree()),
{
    broadcast use {lemma_tuple_tree, lemma_list_tree};

    let ghost before = fields;
    let ghost tree = fields_tree(fields);
    let (fields, existing) = fields.remove(&name);
    match existing {
        Some(existing) => {
            assert(tree[name@] == existing.tree());
            let mut values: Vec<MiValue> = match existing {
                MiValue::List(values) => values,
                other => {
                    let mut values: Vec<MiValue> = Vec::new();
                    values.push(other);
                    assert(items_tree(values@) =~= seq![tree[name@]]);
                    values
                },
            };
            let ghost earlier = values@;
            values.push(value);
            assert(items_tree(values@) =~= items_tree(earlier).push(value.tree()));
            let r = fields.insert(name, MiValue::List(values));
            assert(fields_tree(r) =~= tree.insert(name@, MiTree::List(items_tree(values@))));
            proof {
                if !(existing is List) {
                    assert(items_tree(values@) =~= seq![tree[name@], value.tree()]);
                }
            }
            r
        },
        None => {
            let r = fields.insert(name, value);
            assert(fields_tree(r) =~= tree.insert(name@, value.tree()));
            r
        },
    }
}

/// Whether a character can stand in a constant without quotes.
fn bare_char(c: char) -> (r: bool)
    ensures
        r == is_bare_char(c),
{
    c != ',' && c != ']' && c != '}'
}

/// Whether a character can stand in a word.
fn word_char(c: char) -> (r: bool)
    ensures
        r == is_word_char(c),
{
    ('0' <= c && c <= '9') || ('a' <= c && c <= 'z') || ('A' <= c && c <= 'Z') || c == '-' || c
        == '_'
}

/// The character with a small number.
fn char_of(n: u32) -> (r: char)
    requires
        n < 0x200,
    ensures
        r == n as char,
{
    match char::from_u32(n) {
        Some(c) => c,
        None => '\u{fffd}',
    }
}

/// The text that `Debug` formatting gives for a character.
pub uninterp spec fn char_debug(c: char) -> Seq<char>;

/// `Debug` formatting of a `char`: the quoted character, with the escapes of a Rust literal. The
/// text is only given a name.
#[verifier::external_body]
fn debug_char(c: char) -> (r: String)
    ensures
        r@ == char_debug(c),
{
    format!("{c:?}")
}

impl MiError {
    /// The message for an error.
    pub open spec fn message_text(self) -> Seq<char> {
        match self {
            MiError::EmptyRecord => "empty MI record"@,
            MiError::UnsupportedMarker(marker) => "unsupported MI marker "@ + char_debug(marker),
            MiError::InvalidResult => "invalid MI result"@,
            MiError::UnterminatedTuple => "unterminated tuple"@,
            MiError::UnterminatedList => "unterminated list"@,
            MiError::ExpectedString => "expected MI string"@,
            MiError::TruncatedEscape => "truncated escape"@,
            MiError::UnterminatedString => "unterminated MI string"@,
        }
    }

    /// The message for an error.
    pub fn message(self) -> (r: String)
        ensures
            r@ == self.message_text(),
    {
        match self {
            MiError::EmptyRecord => "empty MI record".to_owned(),
            MiError::UnsupportedMarker(marker) => {
                let shown = debug_char(marker);
                join2("unsupported MI marker ", &shown)
            },
            MiError::InvalidResult => "invalid MI result".to_owned(),
            MiError::UnterminatedTuple => "unterminated tuple".to_owned(),
            MiError::UnterminatedList => "unterminated list".to_owned(),
            MiError::ExpectedString => "expected MI string".to_owned(),
            MiError::TruncatedEscape => "truncated escape".to_owned(),
            MiError::UnterminatedString => "unterminated MI string".to_owned(),
        }
    }
}

/// Reads the record in a line that is not the prompt.
fn parse_record(line: &[u8]) -> (r: Result<MiRecord, MiError>)
    ensures
        match r {
            Ok(record) => record_of(line@) == Ok::<_, MiError>(record.tree()),
            Err(e) => record_of(line@) == Err::<RecordTree, MiError>(e),
        },
{
    let mut parser = Parser::new(line);
    let token = parser.number();
    let marker = match parser.next() {
        Some(marker) => marker,
        None => {
            return Err(MiError::EmptyRecord);
        },
    };
    if marker == '^' {
        let class = parser.word();
        match parser.results() {
            Ok(results) => Ok(MiRecord::Result { token, class, results }),
            Err(e) => Err(e),
        }
    } else if marker == '*' || marker == '+' || marker == '=' {
        let class = parser.word();
        match parser.results() {
            Ok(results) => Ok(MiRecord::Async { kind: marker, class, results }),
            Err(e) => Err(e),
        }
    } else if marker == '~' || marker == '@' || marker == '&' {
        match parser.string() {
            Ok(text) => Ok(MiRecord::Stream { kind: marker, text }),
            Err(e) => Err(e),
        }
    } else {
        Err(MiError::UnsupportedMarker(marker))
    }
}

/// Reads the record in a line. What follows a record in its line is passed over.
pub fn parse_line(line: &str) -> (r: Result<MiRecord, String>)
    ensures
        match r {
            Ok(record) => line_record(line@) == Ok::<_, MiError>(record.tree()),
            Err(message) => line_record(line@) is Err && message@
                == line_record(line@)->Err_0.message_text(),
        },
{
    let bytes = line.as_bytes();
    let mut end: usize = bytes.len();
    assert(bytes@.take(end as int) =~= bytes@);
    while end > 0 && (bytes[end - 1] == 13 || bytes[end - 1] == 10)
        invariant
            end <= bytes@.len(),
            trimmed(bytes@) == trimmed(bytes@.take(end as int)),
        decreases end,
    {
        assert(bytes@.take(end as int).drop_last() =~= bytes@.take(end - 1));
        end -= 1;
    }
    assert(trimmed(bytes@) == bytes@.take(end as int));
    let line = &bytes[0..end];
    assert(line@ =~= bytes@.take(end as int));
    if same_bytes(line, "(gdb)".as_bytes()) || same_bytes(line, "(gdb) ".as_bytes()) {
        return Ok(MiRecord::Prompt);
    }
    match parse_record(line) {
        Ok(record) => Ok(record),
        Err(e) => Err(e.message()),
    }
}

proof fn lemma_trimmed_end(s: Seq<u8>, end: Seq<u8>)
    requires
        forall|i: int| 0 <= i < end.len() ==> (#[trigger] end[i] == 13 || end[i] == 10),
    ensures
        trimmed(s + end) == trimmed(s),
    decreases end.len(),
{
    if end.len() == 0 {
        assert(s + end =~= s);
    } else {
        assert((s + end).last() == end[end.len() - 1]);
        assert((s + end).drop_last() =~= s + end.drop_last());
        lemma_trimmed_end(s, end.drop_last());
    }
}

/// The carriage returns and line feeds at the end of a line are no part of its record.
pub proof fn law_line_ends_are_no_part_of_a_record(line: Seq<char>, end: Seq<char>)
    requires
        forall|i: int| 0 <= i < end.len() ==> (#[trigger] end[i] == '\r' || end[i] == '\n'),
    ensures
        line_record(line + end) == line_record(line),
{
    lemma_encoding_of_concatenation(line, end);
    assert(is_ascii_chars(end));
    is_ascii_chars_encode_utf8(end);
    assert forall|i: int| 0 <= i < encode_utf8(end).len() implies (#[trigger] encode_utf8(end)[i]
        == 13 || encode_utf8(end)[i] == 10) by {
        assert(end[i] == '\r' || end[i] == '\n');
    }
    lemma_trimmed_end(encode_utf8(line), encode_utf8(end));
}

/// The results of a record with more of them, one behind the other.
pub open spec fn gather_all(
    results: Map<Seq<char>, MiTree>,
    more: Seq<(Seq<char>, MiTree)>,
) -> Map<Seq<char>, MiTree>
    decreases more.len(),
{
    if more.len() == 0 {
        results
    } else {
        gather(gather_all(results, more.drop_last()), more.last().0, more.last().1)
    }
}

/// The values under a name, in their order.
pub open spec fn values_under(more: Seq<(Seq<char>, MiTree)>, name: Seq<char>) -> Seq<MiTree>
    decreases more.len(),
{
    if more.len() == 0 {
        seq![]
    } else if more.last().0 == name {
        values_under(more.drop_last(), name).push(more.last().1)
    } else {
        values_under(more.drop_last(), name)
    }
}

/// A result that occurs once in a record stands for its value, and one that occurs again for the
/// list of its values, in their order, whatever stands between them. A result that does not occur
/// stays as it is. The first value is no list itself: to such a one the others would be added.
pub proof fn law_repeated_results_make_a_list(
    results: Map<Seq<char>, MiTree>,
    more: Seq<(Seq<char>, MiTree)>,
    name: Seq<char>,
)
    ensures
        ({
            let values = values_under(more, name);
            let all = gather_all(results, more);
            &&& values.len() == 0 ==> all.contains_key(name) == results.contains_key(name)
                && all[name] == results[name]
            &&& !results.contains_key(name) && values.len() > 0 && !(values[0] is List)
                ==> all.contains_key(name) && all[name] == if values.len() == 1 {
                values[0]
            } else {
                MiTree::List(values)
            }
        }),
    decreases more.len(),
{
    if more.len() > 0 {
        let front = values_under(more.drop_last(), name);
        let values = values_under(more, name);
        law_repeated_results_make_a_list(results, more.drop_last(), name);
        if more.last().0 == name {
            if front.len() == 1 {
                assert(seq![front[0], more.last().1] =~= values);
            }
            assert(front.len() > 0 ==> values[0] == front[0]);
        }
    }
}

} // verus!
