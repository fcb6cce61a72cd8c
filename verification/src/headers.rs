//! Header fields: names with their values, each name at most once, in the
//! order in which the names first came.

use vstd::prelude::*;

use crate::text::chars_of;

verus! {

/// The position of the field called `name`, if there is one.
pub open spec fn position_of(fields: Seq<(Seq<char>, Seq<char>)>, name: Seq<char>) -> Option<int>
    decreases fields.len(),
{
    if fields.len() == 0 {
        None
    } else if fields.last().0 == name {
        match position_of(fields.drop_last(), name) {
            Some(i) => Some(i),
            None => Some(fields.len() - 1),
        }
    } else {
        position_of(fields.drop_last(), name)
    }
}

/// The value of the field called `name`, if there is one.
pub open spec fn value_of(fields: Seq<(Seq<char>, Seq<char>)>, name: Seq<char>) -> Option<
    Seq<char>,
> {
    match position_of(fields, name) {
        Some(i) => Some(fields[i].1),
        None => None,
    }
}

/// The fields after `name` was given `value`: a field of that name keeps
/// its place and takes the value, a new name goes to the end.
pub open spec fn with_field(
    fields: Seq<(Seq<char>, Seq<char>)>,
    name: Seq<char>,
    value: Seq<char>,
) -> Seq<(Seq<char>, Seq<char>)> {
    match position_of(fields, name) {
        Some(i) => fields.update(i, (name, value)),
        None => fields.push((name, value)),
    }
}

/// The line of one header field.
pub open spec fn field_line(field: (Seq<char>, Seq<char>)) -> Seq<char> {
    field.0 + seq![':', ' '] + field.1 + seq!['\r', '\n']
}

/// The lines of the header fields, in their order.
pub open spec fn field_lines(fields: Seq<(Seq<char>, Seq<char>)>) -> Seq<char>
    decreases fields.len(),
{
    if fields.len() == 0 {
        Seq::empty()
    } else {
        field_lines(fields.drop_last()) + field_line(fields.last())
    }
}

/// Whether no two fields share a name.
pub open spec fn distinct_names(fields: Seq<(Seq<char>, Seq<char>)>) -> bool {
    forall|i: int, j: int| 0 <= i < j < fields.len() ==> fields[i].0 != fields[j].0
}

/// What a position says of the fields: it is the first with that name.
pub proof fn lemma_position_of(fields: Seq<(Seq<char>, Seq<char>)>, name: Seq<char>)
    ensures
        match position_of(fields, name) {
            Some(i) => {
                &&& 0 <= i < fields.len()
                &&& fields[i].0 == name
                &&& forall|j: int| 0 <= j < i ==> fields[j].0 != name
            },
            None => forall|j: int| 0 <= j < fields.len() ==> fields[j].0 != name,
        },
    decreases fields.len(),
{
    if fields.len() > 0 {
        let front = fields.drop_last();
        lemma_position_of(front, name);
        match position_of(front, name) {
            Some(i) => {
                assert(front[i] == fields[i]);
                assert forall|j: int| 0 <= j < i implies fields[j].0 != name by {
                    assert(front[j] == fields[j]);
                }
            },
            None => {
                assert forall|j: int| 0 <= j < fields.len() - 1 implies fields[j].0 != name by {
                    assert(front[j] == fields[j]);
                }
            },
        }
    }
}

/// The first field with a name is at its position.
pub proof fn lemma_position_is(fields: Seq<(Seq<char>, Seq<char>)>, name: Seq<char>, i: int)
    requires
        0 <= i < fields.len(),
        fields[i].0 == name,
        forall|j: int| 0 <= j < i ==> fields[j].0 != name,
    ensures
        position_of(fields, name) == Some(i),
{
    lemma_position_of(fields, name);
}

/// Giving a field a value keeps the names distinct, and the name then has
/// that value while every other name keeps its own.
pub proof fn lemma_with_field(
    fields: Seq<(Seq<char>, Seq<char>)>,
    name: Seq<char>,
    value: Seq<char>,
    other: Seq<char>,
)
    requires
        distinct_names(fields),
    ensures
        distinct_names(with_field(fields, name, value)),
        value_of(with_field(fields, name, value), name) == Some(value),
        other != name ==> value_of(with_field(fields, name, value), other) == value_of(
            fields,
            other,
        ),
{
    let after = with_field(fields, name, value);
    lemma_position_of(fields, name);
    lemma_position_of(fields, other);
    lemma_position_of(after, name);
    lemma_position_of(after, other);
    match position_of(fields, name) {
        Some(i) => {
            assert(after[i].0 == name);
            assert forall|a: int, b: int| 0 <= a < b < after.len() implies after[a].0
                != after[b].0 by {
                assert(after[a].0 == fields[a].0);
                assert(after[b].0 == fields[b].0);
            }
            assert forall|j: int| 0 <= j < i implies after[j].0 != name by {
                assert(after[j] == fields[j]);
            }
            lemma_position_is(after, name, i);
            if other != name {
                match position_of(fields, other) {
                    Some(k) => {
                        assert(after[k] == fields[k]);
                        assert forall|j: int| 0 <= j < k implies after[j].0 != other by {
                            assert(after[j].0 == fields[j].0);
                        }
                        lemma_position_is(after, other, k);
                    },
                    None => {
                        assert forall|j: int| 0 <= j < after.len() implies after[j].0
                            != other by {
                            assert(after[j].0 == fields[j].0);
                        }
                    },
                }
            }
        },
        None => {
            let n = fields.len() as int;
            assert(after[n].0 == name);
            assert forall|a: int, b: int| 0 <= a < b < after.len() implies after[a].0
                != after[b].0 by {
                assert(after[a] == fields[a]);
                if b < n {
                    assert(after[b] == fields[b]);
                }
            }
            assert forall|j: int| 0 <= j < n implies after[j].0 != name by {
                assert(after[j] == fields[j]);
            }
            lemma_position_is(after, name, n);
            if other != name {
                match position_of(fields, other) {
                    Some(k) => {
                        assert(after[k] == fields[k]);
                        assert forall|j: int| 0 <= j < k implies after[j].0 != other by {
                            assert(after[j] == fields[j]);
                        }
                        lemma_position_is(after, other, k);
                    },
                    None => {
                        assert forall|j: int| 0 <= j < after.len() implies after[j].0
                            != other by {
                            if j < n {
                                assert(after[j] == fields[j]);
                            }
                        }
                    },
                }
            }
        },
    }
}

/// The names and values of stored fields.
pub open spec fn fields_of(entries: Seq<(String, String)>) -> Seq<(Seq<char>, Seq<char>)> {
    entries.map_values(|e: (String, String)| (e.0@, e.1@))
}

/// A set of header fields.
#[derive(Debug)]
pub struct Headers {
    entries: Vec<(String, String)>,
}

impl View for Headers {
    type V = Seq<(Seq<char>, Seq<char>)>;

    closed spec fn view(&self) -> Seq<(Seq<char>, Seq<char>)> {
        fields_of(self.entries@)
    }
}

impl Headers {
    #[verifier::type_invariant]
    spec fn well_formed(self) -> bool {
        distinct_names(self@)
    }

    /// An empty set of fields.
    pub fn new() -> (h: Headers)
        ensures
            h@ == Seq::<(Seq<char>, Seq<char>)>::empty(),
    {
        let h = Headers { entries: Vec::new() };
        assert(h@ =~= Seq::<(Seq<char>, Seq<char>)>::empty());
        h
    }

    /// The number of fields; no two of them share a name.
    pub fn len(&self) -> (n: usize)
        ensures
            n == self@.len(),
            distinct_names(self@),
    {
        proof {
            use_type_invariant(self);
        }
        self.entries.len()
    }

    /// The name of the field at `index`.
    pub fn name_at(&self, index: usize) -> (name: &String)
        requires
            index < self@.len(),
        ensures
            name@ == self@[index as int].0,
    {
        &self.entries[index].0
    }

    /// The value of the field at `index`.
    pub fn value_at(&self, index: usize) -> (value: &String)
        requires
            index < self@.len(),
        ensures
            value@ == self@[index as int].1,
    {
        &self.entries[index].1
    }

    /// Finds the place of the field called `name`.
    fn find(&self, name: &str) -> (r: Option<usize>)
        ensures
            match r {
                Some(i) => position_of(self@, name@) == Some(i as int) && i < self@.len(),
                None => position_of(self@, name@) is None,
            },
    {
        let wanted = name.to_owned();
        let mut i: usize = 0;
        while i < self.entries.len()
            invariant
                i <= self.entries.len(),
                wanted@ == name@,
                forall|j: int| 0 <= j < i ==> self@[j].0 != name@,
            decreases self.entries.len() - i,
        {
            assert(self@[i as int].0 == self.entries@[i as int].0@);
            if self.entries[i].0 == wanted {
                proof {
                    lemma_position_is(self@, name@, i as int);
                }
                return Some(i);
            }
            i += 1;
        }
        proof {
            lemma_position_of(self@, name@);
        }
        None
    }

    /// The value of the field called `name`.
    pub fn get(&self, name: &str) -> (r: Option<&String>)
        ensures
            match r {
                Some(value) => value_of(self@, name@) == Some(value@),
                None => value_of(self@, name@) is None,
            },
    {
        match self.find(name) {
            Some(i) => Some(&self.entries[i].1),
            None => None,
        }
    }

    /// Gives the field called `name` the value `value`.
    pub fn insert(&mut self, name: String, value: String)
        ensures
            final(self)@ == with_field(old(self)@, name@, value@),
            distinct_names(final(self)@),
    {
        proof {
            use_type_invariant(&*self);
            lemma_with_field(self@, name@, value@, name@);
        }
        let place = self.find(name.as_str());
        let mut taken = Headers::new();
        core::mem::swap(self, &mut taken);
        let Headers { entries } = taken;
        let mut entries = entries;
        match place {
            Some(i) => {
                entries[i] = (name, value);
            },
            None => {
                entries.push((name, value));
            },
        }
        assert(fields_of(entries@) =~= with_field(old(self)@, name@, value@));
        *self = Headers { entries };
    }

    /// Appends the lines of the fields, in their order.
    pub fn write_lines(&self, out: &mut Vec<char>)
        ensures
            final(out)@ == old(out)@ + field_lines(self@),
    {
        let n = self.len();
        let mut i: usize = 0;
        assert(self@.take(0) =~= Seq::<(Seq<char>, Seq<char>)>::empty());
        assert(out@ =~= old(out)@ + field_lines(self@.take(0)));
        while i < n
            invariant
                i <= n,
                n == self@.len(),
                out@ == old(out)@ + field_lines(self@.take(i as int)),
            decreases n - i,
        {
            let ghost before = out@;
            let name = chars_of(self.name_at(i).as_str());
            let value = chars_of(self.value_at(i).as_str());
            out.extend_from_slice(name.as_slice());
            out.push(':');
            out.push(' ');
            out.extend_from_slice(value.as_slice());
            out.push('\r');
            out.push('\n');
            proof {
                let upto = self@.take(i + 1);
                assert(upto.drop_last() =~= self@.take(i as int));
                assert(upto.last() == self@[i as int]);
                assert(out@ =~= before + field_line(self@[i as int]));
                assert(out@ =~= old(out)@ + field_lines(upto));
            }
            i += 1;
        }
        assert(self@.take(n as int) =~= self@);
    }
}

} // verus!
