//! An ordered map from names to values.

use crate::text::same;
use vstd::prelude::*;
use vstd::utf8::*;

verus! {

/// Whether one byte string comes before another in lexicographic order.
pub open spec fn bytes_before(a: Seq<u8>, b: Seq<u8>) -> bool
    decreases a.len(),
{
    if b.len() == 0 {
        false
    } else if a.len() == 0 {
        true
    } else if a[0] != b[0] {
        a[0] < b[0]
    } else {
        bytes_before(a.skip(1), b.skip(1))
    }
}

/// Whether one name comes before another: by the bytes of their UTF-8 encodings.
pub open spec fn name_before(a: Seq<char>, b: Seq<char>) -> bool {
    bytes_before(encode_utf8(a), encode_utf8(b))
}

proof fn lemma_bytes_before_transitive(a: Seq<u8>, b: Seq<u8>, c: Seq<u8>)
    requires
        bytes_before(a, b),
        bytes_before(b, c),
    ensures
        bytes_before(a, c),
    decreases a.len(),
{
    if a.len() > 0 && a[0] == b[0] && b[0] == c[0] {
        lemma_bytes_before_transitive(a.skip(1), b.skip(1), c.skip(1));
    }
}

proof fn lemma_bytes_before_total(a: Seq<u8>, b: Seq<u8>)
    ensures
        a == b || bytes_before(a, b) || bytes_before(b, a),
        !(bytes_before(a, b) && bytes_before(b, a)),
        bytes_before(a, b) ==> a != b,
    decreases a.len(),
{
    if a.len() > 0 && b.len() > 0 && a[0] == b[0] {
        lemma_bytes_before_total(a.skip(1), b.skip(1));
        if a.skip(1) == b.skip(1) {
            assert(a =~= seq![a[0]] + a.skip(1));
            assert(b =~= seq![b[0]] + b.skip(1));
        }
    } else if a.len() == 0 && b.len() == 0 {
        assert(a =~= b);
    }
}

/// Whether `a` comes before `b`.
fn before(a: &str, b: &str) -> (r: bool)
    ensures
        r == name_before(a@, b@),
{
    let x = a.as_bytes();
    let y = b.as_bytes();
    let mut i: usize = 0;
    assert(x@.skip(0) =~= x@);
    assert(y@.skip(0) =~= y@);
    while i < x.len() && i < y.len()
        invariant
            i <= x@.len(),
            i <= y@.len(),
            x@ == encode_utf8(a@),
            y@ == encode_utf8(b@),
            name_before(a@, b@) == bytes_before(x@.skip(i as int), y@.skip(i as int)),
        decreases x@.len() - i,
    {
        if x[i] != y[i] {
            return x[i] < y[i];
        }
        assert(x@.skip(i as int).skip(1) =~= x@.skip(i + 1));
        assert(y@.skip(i as int).skip(1) =~= y@.skip(i + 1));
        i += 1;
    }
    i < y.len()
}

/// Where a name stands among entries.
spec fn at<V>(entries: Seq<(String, V)>, name: Seq<char>, i: int) -> bool {
    0 <= i < entries.len() && entries[i].0@ == name
}

/// Whether each entry's name comes before those of the entries behind it.
pub open spec fn ascending<V>(entries: Seq<(String, V)>) -> bool {
    forall|i: int, j: int|
        0 <= i < j < entries.len() ==> name_before(#[trigger] entries[i].0@, #[trigger] entries[j].0@)
}

proof fn lemma_unique<V>(entries: Seq<(String, V)>, name: Seq<char>, i: int)
    requires
        ascending(entries),
        at(entries, name, i),
    ensures
        forall|j: int| at(entries, name, j) ==> j == i,
{
    assert forall|j: int| at(entries, name, j) implies j == i by {
        lemma_bytes_before_total(encode_utf8(name), encode_utf8(name));
        if j < i {
            assert(name_before(entries[j].0@, entries[i].0@));
        }
        if i < j {
            assert(name_before(entries[i].0@, entries[j].0@));
        }
    }
}

/// Behind the names that come before a name stand the name itself and those that it comes before.
proof fn lemma_insert_position<V>(entries: Seq<(String, V)>, name: Seq<char>, i: int)
    requires
        ascending(entries),
        0 <= i <= entries.len(),
        forall|j: int| 0 <= j < i ==> name_before(#[trigger] entries[j].0@, name),
        i < entries.len() ==> !name_before(entries[i].0@, name),
    ensures
        forall|j: int| 0 <= j < entries.len() && j != i ==> !at(entries, name, j),
        i < entries.len() && entries[i].0@ != name ==> forall|j: int|
            i <= j < entries.len() ==> name_before(name, #[trigger] entries[j].0@),
{
    assert forall|j: int| 0 <= j < entries.len() && j != i implies !at(entries, name, j) by {
        lemma_bytes_before_total(encode_utf8(name), encode_utf8(name));
        if i < j {
            assert(name_before(entries[i].0@, entries[j].0@));
        }
    }
    if i < entries.len() && entries[i].0@ != name {
        encode_utf8_decode_utf8(name);
        encode_utf8_decode_utf8(entries[i].0@);
        lemma_bytes_before_total(encode_utf8(entries[i].0@), encode_utf8(name));
        assert forall|j: int| i <= j < entries.len() implies name_before(
            name,
            #[trigger] entries[j].0@,
        ) by {
            if i < j {
                assert(name_before(entries[i].0@, entries[j].0@));
                lemma_bytes_before_transitive(
                    encode_utf8(name),
                    encode_utf8(entries[i].0@),
                    encode_utf8(entries[j].0@),
                );
            }
        }
    }
}

proof fn lemma_insert_ascending<V>(entries: Seq<(String, V)>, name: String, value: V, i: int)
    requires
        ascending(entries),
        0 <= i <= entries.len(),
        forall|j: int| 0 <= j < i ==> name_before(#[trigger] entries[j].0@, name@),
        forall|j: int| i <= j < entries.len() ==> name_before(name@, #[trigger] entries[j].0@),
    ensures
        ascending(entries.insert(i, (name, value))),
{
    let after = entries.insert(i, (name, value));
    assert forall|a: int, b: int| 0 <= a < b < after.len() implies name_before(
        #[trigger] after[a].0@,
        #[trigger] after[b].0@,
    ) by {
        let x = if a < i {
            a
        } else {
            a - 1
        };
        let y = if b < i {
            b
        } else {
            b - 1
        };
        if a != i {
            assert(after[a] == entries[x]);
        }
        if b != i {
            assert(after[b] == entries[y]);
        }
    }
}

/// The value under a name, read off the entries.
spec fn found<V>(entries: Seq<(String, V)>) -> Map<Seq<char>, V> {
    Map::new(
        |name: Seq<char>| exists|i: int| at(entries, name, i),
        |name: Seq<char>| entries[choose|i: int| at(entries, name, i)].1,
    )
}

proof fn lemma_found<V>(entries: Seq<(String, V)>, i: int)
    requires
        ascending(entries),
        0 <= i < entries.len(),
    ensures
        found(entries).contains_key(entries[i].0@),
        found(entries)[entries[i].0@] == entries[i].1,
{
    assert(at(entries, entries[i].0@, i));
    lemma_unique(entries, entries[i].0@, i);
}

proof fn lemma_view_of_change<V>(
    before: Seq<(String, V)>,
    after: Seq<(String, V)>,
    name: Seq<char>,
    value: V,
    i: int,
)
    requires
        ascending(before),
        ascending(after),
        at(before, name, i),
        at(after, name, i),
        after == before.update(i, after[i]),
        after[i].1 == value,
    ensures
        found(after) == found(before).insert(name, value),
{
    lemma_found(after, i);
    lemma_unique(after, name, i);
    assert forall|k: Seq<char>| found(after).contains_key(k) == found(before).insert(
        name,
        value,
    ).contains_key(k) by {
        if found(before).contains_key(k) {
            let j = choose|j: int| at(before, k, j);
            assert(at(after, k, j));
        }
        if found(after).contains_key(k) && k != name {
            let j = choose|j: int| at(after, k, j);
            assert(at(before, k, j));
        }
    }
    assert forall|k: Seq<char>| #[trigger] found(after).contains_key(k) && k != name implies found(
        after,
    )[k] == found(before)[k] by {
        let j = choose|j: int| at(after, k, j);
        lemma_found(after, j);
        lemma_found(before, j);
    }
    assert(found(after) =~= found(before).insert(name, value));
}

proof fn lemma_view_of_insert<V>(
    before: Seq<(String, V)>,
    after: Seq<(String, V)>,
    name: Seq<char>,
    value: V,
    i: int,
)
    requires
        ascending(before),
        ascending(after),
        0 <= i <= before.len(),
        forall|j: int| !at(before, name, j),
        at(after, name, i),
        after == before.insert(i, after[i]),
        after[i].1 == value,
    ensures
        found(after) == found(before).insert(name, value),
{
    lemma_found(after, i);
    assert forall|k: Seq<char>| found(after).contains_key(k) == found(before).insert(
        name,
        value,
    ).contains_key(k) by {
        if found(before).contains_key(k) {
            let j = choose|j: int| at(before, k, j);
            if j < i {
                assert(at(after, k, j));
            } else {
                assert(at(after, k, j + 1));
            }
        }
        if found(after).contains_key(k) && k != name {
            let j = choose|j: int| at(after, k, j);
            if j < i {
                assert(at(before, k, j));
            } else {
                assert(at(before, k, j - 1));
            }
        }
    }
    assert forall|k: Seq<char>| #[trigger] found(after).contains_key(k) && k != name implies found(
        after,
    )[k] == found(before)[k] by {
        let j = choose|j: int| at(after, k, j);
        lemma_found(after, j);
        lemma_found(before, if j < i { j } else { j - 1 });
    }
    assert(found(after) =~= found(before).insert(name, value));
}

proof fn lemma_view_of_removal<V>(before: Seq<(String, V)>, name: Seq<char>, i: int)
    requires
        ascending(before),
        at(before, name, i),
    ensures
        ascending(before.remove(i)),
        found(before.remove(i)) == found(before).remove(name),
{
    let after = before.remove(i);
    lemma_unique(before, name, i);
    assert forall|a: int, b: int| 0 <= a < b < after.len() implies name_before(
        #[trigger] after[a].0@,
        #[trigger] after[b].0@,
    ) by {
        let x = if a < i {
            a
        } else {
            a + 1
        };
        let y = if b < i {
            b
        } else {
            b + 1
        };
        assert(after[a] == before[x] && after[b] == before[y]);
    }
    assert forall|k: Seq<char>| found(after).contains_key(k) == found(before).remove(
        name,
    ).contains_key(k) by {
        if found(before).contains_key(k) && k != name {
            let j = choose|j: int| at(before, k, j);
            if j < i {
                assert(at(after, k, j));
            } else {
                assert(at(after, k, j - 1));
            }
        }
        if found(after).contains_key(k) {
            let j = choose|j: int| at(after, k, j);
            let x = if j < i {
                j
            } else {
                j + 1
            };
            assert(at(before, k, x));
        }
    }
    assert forall|k: Seq<char>| #[trigger] found(after).contains_key(k) implies found(after)[k]
        == found(before)[k] by {
        let j = choose|j: int| at(after, k, j);
        lemma_found(after, j);
        lemma_found(before, if j < i { j } else { j + 1 });
    }
    assert(found(after) =~= found(before).remove(name));
}

/// A map from names to values. Its entries are kept in ascending order of their names, so no
/// name occurs twice.
#[derive(Debug, PartialEq)]
pub struct Fields<V> {
    entries: Vec<(String, V)>,
}

impl<V> View for Fields<V> {
    type V = Map<Seq<char>, V>;

    closed spec fn view(&self) -> Map<Seq<char>, V> {
        found(self.entries@)
    }
}

impl<V> Fields<V> {
    #[verifier::type_invariant]
    spec fn ordered(self) -> bool {
        ascending(self.entries@)
    }

    /// The names, in ascending order.
    pub closed spec fn names(self) -> Seq<Seq<char>> {
        self.entries@.map_values(|entry: (String, V)| entry.0@)
    }

    /// The empty map.
    pub fn new() -> (r: Self)
        ensures
            r@ == Map::<Seq<char>, V>::empty(),
    {
        let r = Fields { entries: Vec::new() };
        assert(r@ =~= Map::<Seq<char>, V>::empty());
        r
    }

    /// The number of entries.
    pub fn len(&self) -> (r: usize)
        ensures
            r == self.names().len(),
            self.names().no_duplicates(),
            forall|name: Seq<char>| #[trigger]
                self@.contains_key(name) <==> self.names().contains(name),
    {
        proof {
            use_type_invariant(self);
            lemma_names(*self);
        }
        self.entries.len()
    }

    /// The name of an entry.
    pub fn name(&self, i: usize) -> (r: &String)
        requires
            i < self.names().len(),
        ensures
            r@ == self.names()[i as int],
    {
        &self.entries[i].0
    }

    /// The value of an entry.
    pub fn value(&self, i: usize) -> (r: &V)
        requires
            i < self.names().len(),
        ensures
            self@.contains_key(self.names()[i as int]),
            *r == self@[self.names()[i as int]],
    {
        proof {
            use_type_invariant(self);
            let name = self.entries@[i as int].0@;
            assert(at(self.entries@, name, i as int));
            lemma_unique(self.entries@, name, i as int);
        }
        &self.entries[i].1
    }

    /// The value under a name.
    pub fn get(&self, name: &str) -> (r: Option<&V>)
        ensures
            match r {
                Some(value) => self@.contains_key(name@) && *value == self@[name@],
                None => !self@.contains_key(name@),
            },
    {
        proof {
            use_type_invariant(self);
        }
        let mut i: usize = 0;
        while i < self.entries.len()
            invariant
                i <= self.entries@.len(),
                ascending(self.entries@),
                forall|j: int| 0 <= j < i ==> !at(self.entries@, name@, j),
            decreases self.entries@.len() - i,
        {
            if same(&self.entries[i].0, name) {
                proof {
                    assert(at(self.entries@, name@, i as int));
                    lemma_unique(self.entries@, name@, i as int);
                }
                return Some(&self.entries[i].1);
            }
            i += 1;
        }
        None
    }

    /// Takes the value under a name out of the map.
    pub fn remove(self, name: &str) -> (r: (Self, Option<V>))
        ensures
            r.0@ == self@.remove(name@),
            match r.1 {
                Some(value) => self@.contains_key(name@) && value == self@[name@],
                None => !self@.contains_key(name@),
            },
    {
        proof {
            use_type_invariant(&self);
        }
        let ghost old_entries = self.entries@;
        let mut entries = self.entries;
        let mut i: usize = 0;
        while i < entries.len()
            invariant
                i <= entries@.len(),
                entries@ == old_entries,
                old_entries == self.entries@,
                ascending(old_entries),
                forall|j: int| 0 <= j < i ==> !at(entries@, name@, j),
            decreases entries@.len() - i,
        {
            if same(&entries[i].0, name) {
                proof {
                    lemma_found(old_entries, i as int);
                    lemma_view_of_removal(old_entries, name@, i as int);
                }
                let (_, value) = entries.remove(i);
                assert(entries@ =~= old_entries.remove(i as int));
                return (Fields { entries }, Some(value));
            }
            i += 1;
        }
        let r = Fields { entries };
        assert(r@ =~= self@.remove(name@));
        (r, None)
    }

    /// Puts a value under a name, in place of the one that was there.
    pub fn insert(self, name: String, value: V) -> (r: Self)
        ensures
            r@ == self@.insert(name@, value),
    {
        proof {
            use_type_invariant(&self);
        }
        let ghost old_entries = self.entries@;
        let ghost old_view = self@;
        let mut entries = self.entries;
        let mut i: usize = 0;
        while i < entries.len() && before(&entries[i].0, &name)
            invariant
                i <= entries@.len(),
                entries@ == old_entries,
                forall|j: int| 0 <= j < i ==> name_before(#[trigger] entries@[j].0@, name@),
            decreases entries@.len() - i,
        {
            i += 1;
        }
        proof {
            lemma_insert_position(entries@, name@, i as int);
        }
        if i < entries.len() && same(&entries[i].0, &name) {
            let ghost k = name@;
            entries.set(i, (name, value));
            assert(ascending(entries@)) by {
                assert forall|a: int, b: int| 0 <= a < b < entries@.len() implies name_before(
                    #[trigger] entries@[a].0@,
                    #[trigger] entries@[b].0@,
                ) by {
                    assert(entries@[a].0@ == old_entries[a].0@);
                    assert(entries@[b].0@ == old_entries[b].0@);
                }
            }
            let r = Fields { entries };
            proof {
                lemma_view_of_change(old_entries, r.entries@, k, value, i as int);
            }
            r
        } else {
            let ghost k = name@;
            entries.insert(i, (name, value));
            proof {
                assert(entries@ =~= old_entries.insert(i as int, (name, value)));
                lemma_insert_ascending(old_entries, name, value, i as int);
            }
            let r = Fields { entries };
            proof {
                lemma_view_of_insert(old_entries, r.entries@, k, value, i as int);
            }
            r
        }
    }
}

proof fn lemma_names<V>(fields: Fields<V>)
    requires
        ascending(fields.entries@),
    ensures
        fields.names().no_duplicates(),
        forall|name: Seq<char>| #[trigger]
            fields@.contains_key(name) <==> fields.names().contains(name),
{
    let names = fields.names();
    assert forall|i: int, j: int| 0 <= i < names.len() && 0 <= j < names.len() && i != j implies
        names[i] != names[j] by {
        assert(at(fields.entries@, names[i], i));
        lemma_unique(fields.entries@, names[i], i);
        assert(at(fields.entries@, names[j], j));
    }
    assert forall|name: Seq<char>| #[trigger]
        fields@.contains_key(name) <==> names.contains(name) by {
        if fields@.contains_key(name) {
            let i = choose|i: int| at(fields.entries@, name, i);
            assert(names[i] == name);
        }
        if names.contains(name) {
            let i = choose|i: int| 0 <= i < names.len() && names[i] == name;
            assert(at(fields.entries@, name, i));
        }
    }
}

/// A value in a map is smaller than the map.
pub proof fn lemma_field_is_smaller<V>(fields: Fields<V>)
    ensures
        forall|name: Seq<char>|
            #![trigger fields@[name]]
            fields@.contains_key(name) ==> decreases_to!(fields => fields@[name]),
{
    assert forall|name: Seq<char>|
        #![trigger fields@[name]]
        fields@.contains_key(name) implies decreases_to!(fields => fields@[name]) by {
        let i = choose|i: int| at(fields.entries@, name, i);
        assert(decreases_to!(fields => fields.entries@[i].1));
    }
}

} // verus!
