//! What reading a record of GDB's machine interface depends on, and what it does not.

use crate::mi::{
    bare_len, escape_at, gather, is_bare_char, is_closed, is_word_char, item_at, latin,
    lemma_span, list_from, peek, result_at, results_from, span, string_at,
    string_from, tuple_from, value_at, word_len, MiError, MiTree,
};
use crate::mi_written::is_word;
use vstd::prelude::*;

verus! {

/// Whether two inputs hold the same bytes from their positions on, as many as given.
pub open spec fn agree(s: Seq<u8>, p: nat, t: Seq<u8>, q: nat, m: nat) -> bool {
    &&& p + m <= s.len()
    &&& q + m <= t.len()
    &&& forall|i: int| 0 <= i < m ==> #[trigger] s[p + i] == t[q + i]
}

proof fn lemma_agree_at(s: Seq<u8>, p: nat, t: Seq<u8>, q: nat, m: nat, i: nat)
    requires
        agree(s, p, t, q, m),
        i < m,
    ensures
        peek(s, p + i) == peek(t, q + i),
        peek(s, p + i) is Some,
        s[p + i as int] == t[q + i as int],
{
    assert(s[p + i as int] == t[q + i as int]);
}

proof fn lemma_agree_from(s: Seq<u8>, p: nat, t: Seq<u8>, q: nat, m: nat, i: nat)
    requires
        agree(s, p, t, q, m),
        i <= m,
    ensures
        agree(s, p + i, t, q + i, (m - i) as nat),
{
    assert forall|j: int| 0 <= j < m - i implies #[trigger] s[p + i + j] == t[q + i + j] by {
        assert(s[p + (i + j)] == t[q + (i + j)]);
    }
}

proof fn lemma_agree_subrange(s: Seq<u8>, p: nat, t: Seq<u8>, q: nat, m: nat, n: nat)
    requires
        agree(s, p, t, q, m),
        n <= m,
    ensures
        s.subrange(p as int, (p + n) as int) == t.subrange(q as int, (q + n) as int),
{
    let a = s.subrange(p as int, (p + n) as int);
    let b = t.subrange(q as int, (q + n) as int);
    assert forall|i: int| 0 <= i < n implies a[i] == b[i] by {
        assert(s[p + i] == t[q + i]);
    }
    assert(a =~= b);
}

pub proof fn lemma_span_facts(s: Seq<u8>, p: nat, f: spec_fn(char) -> bool)
    ensures
        p <= s.len() ==> p + span(s, p, f) <= s.len(),
        forall|i: int| p <= i < p + span(s, p, f) ==> f(#[trigger] s[i] as char),
        p + span(s, p, f) < s.len() ==> !f(s[(p + span(s, p, f)) as int] as char),
    decreases s.len() - p,
{
    if p < s.len() && f(s[p as int] as char) {
        lemma_span_facts(s, p + 1, f);
    }
}

proof fn lemma_span_local(
    s: Seq<u8>,
    p: nat,
    t: Seq<u8>,
    q: nat,
    m: nat,
    f: spec_fn(char) -> bool,
)
    requires
        agree(s, p, t, q, m),
        span(s, p, f) < m,
    ensures
        span(t, q, f) == span(s, p, f),
{
    let n = span(s, p, f);
    lemma_span_facts(s, p, f);
    assert forall|i: int| q <= i < q + n implies f(#[trigger] t[i] as char) by {
        lemma_agree_at(s, p, t, q, m, (i - q) as nat);
        assert(f(s[p + (i - q)] as char));
    }
    lemma_agree_at(s, p, t, q, m, n);
    lemma_span(t, q, f, n);
}

proof fn lemma_string_bound(s: Seq<u8>, p: nat, out: Seq<char>)
    ensures
        string_from(s, p, out) matches Ok((_, e)) ==> p < e <= s.len() && s[e - 1] == 34,
    decreases s.len() - p,
{
    if p < s.len() && peek(s, p) != Some('"') {
        if peek(s, p) == Some('\\') {
            if p + 1 < s.len() {
                let (c, n) = escape_at(s, p + 1);
                lemma_string_bound(s, p + 1 + n, out.push(c));
            }
        } else {
            lemma_string_bound(s, p + 1, out.push(s[p as int] as char));
        }
    }
}

proof fn lemma_string_local(s: Seq<u8>, p: nat, t: Seq<u8>, q: nat, m: nat, out: Seq<char>)
    requires
        string_from(s, p, out) matches Ok((_, e)) && e <= p + m,
        agree(s, p, t, q, m),
    ensures
        string_from(s, p, out) matches Ok((text, e)) && string_from(t, q, out) == Ok::<
            (Seq<char>, nat),
            MiError,
        >((text, (q + (e - p)) as nat)),
    decreases s.len() - p,
{
    lemma_string_bound(s, p, out);
    lemma_agree_at(s, p, t, q, m, 0);
    if peek(s, p) != Some('"') {
        if peek(s, p) == Some('\\') {
            let (c, n) = escape_at(s, p + 1);
            lemma_string_bound(s, p + 1 + n, out.push(c));
            lemma_agree_at(s, p, t, q, m, 1);
            lemma_agree_at(s, p, t, q, m, 2);
            if n > 1 {
                lemma_agree_at(s, p, t, q, m, 3);
            }
            assert(escape_at(t, q + 1) == (c, n));
            lemma_agree_from(s, p, t, q, m, 1 + n);
            lemma_string_local(
                s,
                p + 1 + n,
                t,
                q + 1 + n,
                (m - 1 - n) as nat,
                out.push(c),
            );
        } else {
            lemma_agree_from(s, p, t, q, m, 1);
            lemma_string_local(
                s,
                p + 1,
                t,
                q + 1,
                (m - 1) as nat,
                out.push(s[p as int] as char),
            );
        }
    }
}

/// Nothing behind the closing quote of a string is read: it reads the same, up to the same
/// position, whatever follows it.
pub proof fn law_strings_end_at_their_quote(s: Seq<u8>, p: nat, tail: Seq<u8>)
    requires
        string_at(s, p) is Ok,
    ensures
        string_at(s + tail, p) == string_at(s, p),
        string_at(s, p) matches Ok((_, e)) && p < e <= s.len() && s[e - 1] == 34,
{
    lemma_string_bound(s, p + 1, seq![]);
    let m = (s.len() - p - 1) as nat;
    assert(agree(s, p + 1, s + tail, p + 1, m));
    lemma_string_local(s, p + 1, s + tail, p + 1, m, seq![]);
}

proof fn lemma_tuple_forward(s: Seq<u8>, p: nat, fields: Map<Seq<char>, MiTree>)
    ensures
        tuple_from(s, p, fields) matches Ok((_, e)) ==> p <= e,
    decreases s.len() - p,
{
    if let Ok((name, value, n)) = result_at(s, p) {
        if peek(s, p + n) == Some(',') {
            lemma_tuple_forward(s, p + n + 1, fields.insert(name, value));
        }
    }
}

proof fn lemma_list_forward(s: Seq<u8>, p: nat, items: Seq<MiTree>)
    ensures
        list_from(s, p, items) matches Ok((_, e)) ==> p <= e,
    decreases s.len() - p,
{
    if let Ok((item, n)) = item_at(s, p) {
        if peek(s, p + n) == Some(',') {
            lemma_list_forward(s, p + n + 1, items.push(item));
        }
    }
}

/// A value is read up to the character that closes it, and no further than its input goes: a
/// string up to a quote, a tuple up to a brace and a list up to a bracket.
pub proof fn law_values_end_where_they_are_closed(s: Seq<u8>, p: nat)
    requires
        p <= s.len(),
        value_at(s, p) is Ok,
    ensures
        value_at(s, p) matches Ok((value, n)) && p + n <= s.len() && is_closed(s, p, p + n, value),
{
    if peek(s, p) == Some('"') {
        lemma_string_bound(s, p + 1, seq![]);
    } else if peek(s, p) == Some('{') {
        lemma_tuple_forward(s, p + 1, Map::empty());
    } else if peek(s, p) == Some('[') {
        lemma_list_forward(s, p + 1, seq![]);
    } else {
        lemma_span_facts(s, p, |c: char| is_bare_char(c));
    }
}

/// Whether a value that begins with a character has an end of its own.
pub open spec fn opens(c: Option<char>) -> bool {
    c == Some('"') || c == Some('{') || c == Some('[')
}

proof fn lemma_value_local(s: Seq<u8>, p: nat, t: Seq<u8>, q: nat, m: nat)
    requires
        agree(s, p, t, q, m),
        m > 0,
        value_at(s, p) matches Ok((_, n)) && (n < m || (n == m && opens(peek(s, p)))),
    ensures
        value_at(t, q) == value_at(s, p),
    decreases s.len() - p, 0nat,
{
    lemma_agree_at(s, p, t, q, m, 0);
    law_values_end_where_they_are_closed(s, p);
    if peek(s, p) == Some('"') {
        lemma_string_bound(s, p + 1, seq![]);
        lemma_agree_from(s, p, t, q, m, 1);
        lemma_string_local(s, p + 1, t, q + 1, (m - 1) as nat, seq![]);
    } else if peek(s, p) == Some('{') {
        lemma_agree_at(s, p, t, q, m, 1);
        lemma_agree_from(s, p, t, q, m, 1);
        if peek(s, p + 1) != Some('}') {
            lemma_tuple_forward(s, p + 1, Map::empty());
            let e = tuple_from(s, p + 1, Map::empty())->Ok_0.1;
            lemma_agree_at(s, p, t, q, m, (e - p) as nat);
            lemma_tuple_local(s, p + 1, t, q + 1, (m - 1) as nat, Map::empty());
        }
    } else if peek(s, p) == Some('[') {
        lemma_agree_at(s, p, t, q, m, 1);
        lemma_agree_from(s, p, t, q, m, 1);
        if peek(s, p + 1) != Some(']') {
            lemma_list_forward(s, p + 1, seq![]);
            let e = list_from(s, p + 1, seq![])->Ok_0.1;
            lemma_agree_at(s, p, t, q, m, (e - p) as nat);
            lemma_list_local(s, p + 1, t, q + 1, (m - 1) as nat, seq![]);
        }
    } else {
        let n = bare_len(s, p);
        lemma_span_local(s, p, t, q, m, |c: char| is_bare_char(c));
        lemma_agree_subrange(s, p, t, q, m, n);
    }
}

proof fn lemma_result_local(s: Seq<u8>, p: nat, t: Seq<u8>, q: nat, m: nat)
    requires
        agree(s, p, t, q, m),
        result_at(s, p) matches Ok((_, _, n)) && n < m,
    ensures
        result_at(t, q) == result_at(s, p),
    decreases s.len() - p, 0nat,
{
    let n = word_len(s, p);
    lemma_span_local(s, p, t, q, m, |c: char| is_word_char(c));
    lemma_agree_subrange(s, p, t, q, m, n);
    lemma_agree_at(s, p, t, q, m, n);
    lemma_agree_from(s, p, t, q, m, n + 1);
    lemma_value_local(s, p + n + 1, t, q + n + 1, (m - n - 1) as nat);
}

proof fn lemma_item_local(s: Seq<u8>, p: nat, t: Seq<u8>, q: nat, m: nat)
    requires
        agree(s, p, t, q, m),
        item_at(s, p) matches Ok((_, n)) && n < m,
    ensures
        item_at(t, q) == item_at(s, p),
    decreases s.len() - p, 1nat,
{
    let n = word_len(s, p);
    if n > 0 && peek(s, p + n) == Some('=') {
        lemma_span_local(s, p, t, q, m, |c: char| is_word_char(c));
        lemma_agree_subrange(s, p, t, q, m, n);
        lemma_agree_at(s, p, t, q, m, n);
        lemma_agree_from(s, p, t, q, m, n + 1);
        lemma_value_local(s, p + n + 1, t, q + n + 1, (m - n - 1) as nat);
    } else {
        let k = value_at(s, p)->Ok_0.1;
        lemma_value_local(s, p, t, q, m);
        lemma_agree_at(s, p, t, q, m, 0);
        lemma_span_facts(s, p, |c: char| is_word_char(c));
        assert(n <= k) by {
            if !opens(peek(s, p)) {
                lemma_span_facts(s, p, |c: char| is_bare_char(c));
                if n > k {
                    assert(is_word_char(s[(p + k) as int] as char));
                }
            } else if n > 0 {
                assert(is_word_char(s[p as int] as char));
            }
        }
        lemma_span_local(s, p, t, q, m, |c: char| is_word_char(c));
        lemma_agree_at(s, p, t, q, m, n);
    }
}

proof fn lemma_tuple_local(
    s: Seq<u8>,
    p: nat,
    t: Seq<u8>,
    q: nat,
    m: nat,
    fields: Map<Seq<char>, MiTree>,
)
    requires
        agree(s, p, t, q, m),
        tuple_from(s, p, fields) matches Ok((_, e)) && e < p + m,
    ensures
        tuple_from(s, p, fields) matches Ok((all, e)) && tuple_from(t, q, fields) == Ok::<
            (Map<Seq<char>, MiTree>, nat),
            MiError,
        >((all, (q + (e - p)) as nat)),
    decreases s.len() - p, 1nat,
{
    let (name, value, n) = result_at(s, p)->Ok_0;
    let more = fields.insert(name, value);
    lemma_tuple_forward(s, p, fields);
    if peek(s, p + n) == Some(',') {
        lemma_tuple_forward(s, p + n + 1, more);
        lemma_result_local(s, p, t, q, m);
        lemma_agree_at(s, p, t, q, m, n);
        lemma_agree_from(s, p, t, q, m, n + 1);
        lemma_tuple_local(s, p + n + 1, t, q + n + 1, (m - n - 1) as nat, more);
    } else {
        lemma_result_local(s, p, t, q, m);
        lemma_agree_at(s, p, t, q, m, n);
    }
}

proof fn lemma_list_local(s: Seq<u8>, p: nat, t: Seq<u8>, q: nat, m: nat, items: Seq<MiTree>)
    requires
        agree(s, p, t, q, m),
        list_from(s, p, items) matches Ok((_, e)) && e < p + m,
    ensures
        list_from(s, p, items) matches Ok((all, e)) && list_from(t, q, items) == Ok::<
            (Seq<MiTree>, nat),
            MiError,
        >((all, (q + (e - p)) as nat)),
    decreases s.len() - p, 2nat,
{
    let (item, n) = item_at(s, p)->Ok_0;
    let more = items.push(item);
    lemma_list_forward(s, p, items);
    if peek(s, p + n) == Some(',') {
        lemma_list_forward(s, p + n + 1, more);
        lemma_item_local(s, p, t, q, m);
        lemma_agree_at(s, p, t, q, m, n);
        lemma_agree_from(s, p, t, q, m, n + 1);
        lemma_list_local(s, p + n + 1, t, q + n + 1, (m - n - 1) as nat, more);
    } else {
        lemma_item_local(s, p, t, q, m);
        lemma_agree_at(s, p, t, q, m, n);
    }
}

/// Whether bytes are one value, and nothing else.
pub open spec fn is_value(bytes: Seq<u8>, value: MiTree) -> bool {
    value_at(bytes, 0) == Ok::<(MiTree, nat), MiError>((value, bytes.len()))
}

/// Whether a value ends before what follows it: it has an end of its own, or a comma or a bracket
/// ends it, or nothing follows.
pub open spec fn ends_before(bytes: Seq<u8>, tail: Seq<u8>) -> bool {
    opens(peek(bytes, 0)) || tail.len() == 0 || !is_bare_char(tail[0] as char)
}

/// A value reads the same wherever it stands: neither what comes before it nor what follows its
/// end is read.
pub proof fn law_values_read_the_same_anywhere(
    before: Seq<u8>,
    bytes: Seq<u8>,
    tail: Seq<u8>,
    value: MiTree,
)
    requires
        is_value(bytes, value),
        ends_before(bytes, tail),
    ensures
        value_at(before + bytes + tail, before.len()) == Ok::<(MiTree, nat), MiError>(
            (value, bytes.len()),
        ),
{
    let t = before + bytes + tail;
    let q = before.len();
    let n = bytes.len();
    assert forall|i: int| 0 <= i < n implies #[trigger] bytes[0 + i] == t[q + i] by {}
    if opens(peek(bytes, 0)) {
        lemma_value_local(bytes, 0, t, q, n);
    } else {
        let f = |c: char| is_bare_char(c);
        lemma_span_facts(bytes, 0, f);
        assert forall|i: int| q <= i < q + n implies f(#[trigger] t[i] as char) by {
            assert(t[i] == bytes[i - q]);
        }
        if n > 0 {
            lemma_agree_at(bytes, 0, t, q, n, 0);
        } else if tail.len() > 0 {
            assert(t[q as int] == tail[0]);
        }
        assert(tail.len() > 0 ==> t[(q + n) as int] == tail[0]);
        lemma_span(t, q, f, n);
        assert(t.subrange(q as int, (q + n) as int) =~= bytes.subrange(0, n as int));
    }
}

/// The bytes of a result behind a comma.
pub open spec fn result_bytes(name: Seq<u8>, bytes: Seq<u8>) -> Seq<u8> {
    seq![44u8] + name + seq![61u8] + bytes
}

pub proof fn lemma_next_result(
    before: Seq<u8>,
    name: Seq<u8>,
    bytes: Seq<u8>,
    tail: Seq<u8>,
    value: MiTree,
    results: Map<Seq<char>, MiTree>,
)
    requires
        is_word(name),
        is_value(bytes, value),
        ends_before(bytes, tail),
    ensures
        results_from(before + result_bytes(name, bytes) + tail, before.len(), results)
            == results_from(
            before + result_bytes(name, bytes) + tail,
            before.len() + result_bytes(name, bytes).len(),
            gather(results, latin(name), value),
        ),
{
    let s = before + result_bytes(name, bytes) + tail;
    let p = before.len() + 1;
    let head = before + (seq![44u8] + name + seq![61u8]);
    assert(s =~= head + bytes + tail);
    law_values_read_the_same_anywhere(head, bytes, tail, value);
    assert(s[before.len() as int] == 44);
    assert forall|i: int| p <= i < p + name.len() implies is_word_char(#[trigger] s[i] as char) by {
        assert(s[i] == name[i - p]);
    }
    assert(s[(p + name.len()) as int] == 61);
    lemma_span(s, p, |c: char| is_word_char(c), name.len());
    assert(s.subrange(p as int, (p + name.len()) as int) =~= name);
    assert(result_at(s, p) == Ok::<(Seq<char>, MiTree, nat), MiError>(
        (latin(name), value, name.len() + 1 + bytes.len()),
    ));
}

proof fn lemma_latin_tells_apart(a: Seq<u8>, b: Seq<u8>)
    requires
        latin(a) == latin(b),
    ensures
        a == b,
{
    assert(latin(a).len() == a.len() && latin(b).len() == b.len());
    assert forall|i: int| 0 <= i < a.len() implies a[i] == b[i] by {
        assert(latin(a)[i] == a[i] as char);
        assert(latin(b)[i] == b[i] as char);
    }
    assert(a =~= b);
}

proof fn lemma_two_results(
    first: Seq<u8>,
    first_bytes: Seq<u8>,
    first_value: MiTree,
    second: Seq<u8>,
    second_bytes: Seq<u8>,
    second_value: MiTree,
)
    requires
        first != second,
        is_word(first),
        is_word(second),
        is_value(first_bytes, first_value),
        is_value(second_bytes, second_value),
    ensures
        results_from(
            result_bytes(first, first_bytes) + result_bytes(second, second_bytes),
            0,
            Map::empty(),
        ) == Ok::<Map<Seq<char>, MiTree>, MiError>(
            Map::empty().insert(latin(first), first_value).insert(latin(second), second_value),
        ),
{
    let a = result_bytes(first, first_bytes);
    let b = result_bytes(second, second_bytes);
    let s = a + b;
    assert(s =~= Seq::<u8>::empty() + a + b);
    assert(s =~= a + b + Seq::<u8>::empty());
    assert(b[0] == 44);
    lemma_next_result(seq![], first, first_bytes, b, first_value, Map::empty());
    lemma_next_result(
        a,
        second,
        second_bytes,
        seq![],
        second_value,
        Map::empty().insert(latin(first), first_value),
    );
    if latin(first) == latin(second) {
        lemma_latin_tells_apart(first, second);
    }
}

/// Two results with different names are read as they stand, in either order: each name has its
/// value, whatever the values are.
pub proof fn law_results_in_either_order(
    first: Seq<u8>,
    first_bytes: Seq<u8>,
    first_value: MiTree,
    second: Seq<u8>,
    second_bytes: Seq<u8>,
    second_value: MiTree,
)
    requires
        first != second,
        is_word(first),
        is_word(second),
        is_value(first_bytes, first_value),
        is_value(second_bytes, second_value),
    ensures
        ({
            let a = result_bytes(first, first_bytes);
            let b = result_bytes(second, second_bytes);
            let both = Map::empty().insert(latin(first), first_value).insert(
                latin(second),
                second_value,
            );
            &&& results_from(a + b, 0, Map::empty()) == Ok::<Map<Seq<char>, MiTree>, MiError>(both)
            &&& results_from(b + a, 0, Map::empty()) == Ok::<Map<Seq<char>, MiTree>, MiError>(both)
        }),
{
    lemma_two_results(first, first_bytes, first_value, second, second_bytes, second_value);
    lemma_two_results(second, second_bytes, second_value, first, first_bytes, first_value);
    if latin(first) == latin(second) {
        lemma_latin_tells_apart(first, second);
    }
    let none = Map::<Seq<char>, MiTree>::empty();
    assert(none.insert(latin(first), first_value).insert(latin(second), second_value)
        =~= none.insert(latin(second), second_value).insert(latin(first), first_value));
}

} // verus!
