//! Header fields: a mapping from field name to value in which names are
//! compared exactly, letter for letter, and each name occurs at most once.
//! The fields are kept in the order in which their names first arrived.

use vstd::prelude::*;
use vstd::string::*;

use crate::text::str_eq;

verus! {

/// A header field as a mathematical value: its name and its value.
pub type Field = (Seq<char>, Seq<char>);

/// The index of the first field of `fields` that is named `name`, or
/// `fields.len()` where none is.
pub open spec fn position(fields: Seq<Field>, name: Seq<char>) -> int
    decreases fields.len(),
{
    if fields.len() == 0 || fields[0].0 == name {
        0
    } else {
        1 + position(fields.drop_first(), name)
    }
}

/// The value of the field named `name`, if there is one.
pub open spec fn lookup(fields: Seq<Field>, name: Seq<char>) -> Option<Seq<char>> {
    if position(fields, name) < fields.len() {
        Some(fields[position(fields, name)].1)
    } else {
        None
    }
}

/// `fields` after `name` has been given the value `value`: the field of that
/// name is overwritten where it stands, or a new field is added at the end.
pub open spec fn upserted(fields: Seq<Field>, name: Seq<char>, value: Seq<char>) -> Seq<Field> {
    if position(fields, name) < fields.len() {
        fields.update(position(fields, name), (name, value))
    } else {
        fields.push((name, value))
    }
}

/// Whether no two fields share a name.
pub open spec fn names_distinct(fields: Seq<Field>) -> bool {
    forall|i: int, j: int|
        0 <= i < j < fields.len() ==> #[trigger] fields[i].0 != #[trigger] fields[j].0
}

/// The position of `name` is where it first occurs.
pub proof fn lemma_position(fields: Seq<Field>, name: Seq<char>)
    ensures
        0 <= position(fields, name) <= fields.len(),
        position(fields, name) < fields.len() ==> fields[position(fields, name)].0 == name,
        forall|k: int| 0 <= k < position(fields, name) ==> (#[trigger] fields[k]).0 != name,
    decreases fields.len(),
{
    if fields.len() == 0 || fields[0].0 == name {
    } else {
        let rest = fields.drop_first();
        lemma_position(rest, name);
        assert forall|k: int| 0 <= k < position(fields, name) implies (#[trigger] fields[k]).0
            != name by {
            if k > 0 {
                assert(fields[k] == rest[k - 1]);
            }
        }
        if position(fields, name) < fields.len() {
            assert(fields[position(fields, name)] == rest[position(rest, name)]);
        }
    }
}

/// The first index that holds `name`, with none before it, is its position.
pub proof fn lemma_position_is(fields: Seq<Field>, name: Seq<char>, m: int)
    requires
        0 <= m <= fields.len(),
        forall|k: int| 0 <= k < m ==> (#[trigger] fields[k]).0 != name,
        m < fields.len() ==> fields[m].0 == name,
    ensures
        position(fields, name) == m,
    decreases m,
{
    if m > 0 {
        let rest = fields.drop_first();
        assert forall|k: int| 0 <= k < m - 1 implies (#[trigger] rest[k]).0 != name by {
            assert(rest[k] == fields[k + 1]);
        }
        lemma_position_is(rest, name, m - 1);
    }
}

/// The last write wins: after `name` was given `value`, looking `name` up
/// finds `value`, every other name is found as before, and names stay
/// distinct.
pub proof fn lemma_upserted(
    fields: Seq<Field>,
    name: Seq<char>,
    value: Seq<char>,
    other: Seq<char>,
)
    ensures
        lookup(upserted(fields, name, value), name) == Some(value),
        other != name ==> lookup(upserted(fields, name, value), other) == lookup(fields, other),
        names_distinct(fields) ==> names_distinct(upserted(fields, name, value)),
{
    let after = upserted(fields, name, value);
    let p = position(fields, name);
    lemma_position(fields, name);
    lemma_position_is(after, name, p);
    if other != name {
        let q = position(fields, other);
        lemma_position(fields, other);
        if q < fields.len() {
            lemma_position_is(after, other, q);
        } else {
            lemma_position_is(after, other, after.len() as int);
        }
    }
    if names_distinct(fields) {
        assert forall|i: int, j: int| 0 <= i < j < after.len() implies #[trigger] after[i].0
            != #[trigger] after[j].0 by {
            if p < fields.len() {
                if i != p && j != p {
                    assert(fields[i].0 != fields[j].0);
                } else if i == p {
                    assert(fields[p].0 != fields[j].0);
                } else {
                    assert(fields[i].0 != fields[p].0);
                }
            } else {
                if j < fields.len() {
                    assert(fields[i].0 != fields[j].0);
                } else {
                    assert(fields[i].0 != name);
                }
            }
        }
    }
}

/// A set of header fields.
pub struct Headers {
    entries: Vec<(String, String)>,
}

impl View for Headers {
    type V = Seq<Field>;

    /// The fields in order, each as a pair of name and value.
    closed spec fn view(&self) -> Seq<Field> {
        Seq::new(self.entries@.len(), |i: int| (self.entries@[i].0@, self.entries@[i].1@))
    }
}

impl Headers {
    #[verifier::type_invariant]
    spec fn well_formed(&self) -> bool {
        names_distinct(self@)
    }

    /// No fields.
    pub fn new() -> (headers: Headers)
        ensures
            headers@ == Seq::<Field>::empty(),
    {
        Headers { entries: Vec::new() }
    }

    /// The number of fields.
    pub fn len(&self) -> (n: usize)
        ensures
            n == self@.len(),
            names_distinct(self@),
    {
        proof {
            use_type_invariant(self);
        }
        self.entries.len()
    }

    /// The name of the field at index `i`.
    pub fn name_at(&self, i: usize) -> (name: &String)
        requires
            i < self@.len(),
        ensures
            name@ == self@[i as int].0,
    {
        &self.entries[i].0
    }

    /// The value of the field at index `i`.
    pub fn value_at(&self, i: usize) -> (value: &String)
        requires
            i < self@.len(),
        ensures
            value@ == self@[i as int].1,
    {
        &self.entries[i].1
    }

    /// The index of the field named `name`, or the number of fields where
    /// there is none.
    fn find(&self, name: &str) -> (i: usize)
        ensures
            i == position(self@, name@),
            i <= self@.len(),
    {
        let n: usize = self.entries.len();
        let mut i: usize = 0;
        while i < n
            invariant
                n == self@.len(),
                n == self.entries@.len(),
                i <= n,
                forall|k: int| 0 <= k < i ==> (#[trigger] self@[k]).0 != name@,
            decreases n - i,
        {
            if str_eq(self.entries[i].0.as_str(), name) {
                proof {
                    lemma_position_is(self@, name@, i as int);
                }
                return i;
            }
            i = i + 1;
        }
        proof {
            lemma_position_is(self@, name@, n as int);
        }
        n
    }

    /// The value of the field named `name`, if there is one. Names are
    /// compared exactly: no case folding.
    pub fn get(&self, name: &str) -> (value: Option<&String>)
        ensures
            match value {
                Some(v) => lookup(self@, name@) == Some(v@),
                None => lookup(self@, name@) is None,
            },
    {
        let i = self.find(name);
        if i < self.entries.len() {
            Some(&self.entries[i].1)
        } else {
            None
        }
    }

    /// Gives the field named `name` the value `value`. A field of that name
    /// is overwritten; otherwise the field is added after the others.
    pub fn insert(&mut self, name: String, value: String)
        ensures
            final(self)@ == upserted(old(self)@, name@, value@),
    {
        proof {
            use_type_invariant(&*self);
            lemma_upserted(self@, name@, value@, name@);
        }
        let ghost before = self@;
        let ghost name_view = name@;
        let ghost value_view = value@;
        let i = self.find(name.as_str());
        let mut entries: Vec<(String, String)> = Vec::new();
        std::mem::swap(&mut self.entries, &mut entries);
        if i < entries.len() {
            entries.set(i, (name, value));
        } else {
            entries.push((name, value));
        }
        proof {
            let after = Seq::new(entries@.len(), |k: int| (entries@[k].0@, entries@[k].1@));
            assert(after =~= upserted(before, name_view, value_view));
        }
        self.entries = entries;
    }
}

} // verus!
