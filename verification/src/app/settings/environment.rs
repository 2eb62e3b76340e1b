//! The environment variables of a profile.

use vstd::prelude::*;
use vstd::string::*;
use crate::text;

verus! {

/// Environment variables in the order in which they were first set.
#[derive(Debug, PartialEq, Eq)]
pub struct Environment {
    entries: Vec<(String, String)>,
}

/// Names and values.
pub open spec fn pairs(entries: Seq<(String, String)>) -> Seq<(Seq<char>, Seq<char>)> {
    entries.map_values(|entry: (String, String)| (entry.0@, entry.1@))
}

/// Where a name stands, or the number of variables.
pub open spec fn place_of(variables: Seq<(Seq<char>, Seq<char>)>, name: Seq<char>) -> int
    decreases variables.len(),
{
    if variables.len() == 0 || variables.first().0 == name {
        0
    } else {
        1 + place_of(variables.drop_first(), name)
    }
}

/// The variables with one more variable, or with a new value for it.
pub open spec fn with_variable(
    variables: Seq<(Seq<char>, Seq<char>)>,
    name: Seq<char>,
    value: Seq<char>,
) -> Seq<(Seq<char>, Seq<char>)> {
    let place = place_of(variables, name);
    if place < variables.len() {
        variables.update(place, (name, value))
    } else {
        variables.push((name, value))
    }
}

/// The value of a variable.
pub open spec fn value_of(variables: Seq<(Seq<char>, Seq<char>)>, name: Seq<char>) -> Option<
    Seq<char>,
> {
    let place = place_of(variables, name);
    if place < variables.len() {
        Some(variables[place].1)
    } else {
        None
    }
}

/// Whether no name occurs twice.
pub open spec fn names_distinct(variables: Seq<(Seq<char>, Seq<char>)>) -> bool {
    forall|i: int, j: int| 0 <= i < j < variables.len() ==> variables[i].0 != variables[j].0
}

pub proof fn lemma_place_of(variables: Seq<(Seq<char>, Seq<char>)>, name: Seq<char>)
    ensures
        0 <= place_of(variables, name) <= variables.len(),
        forall|i: int| 0 <= i < place_of(variables, name) ==> (#[trigger] variables[i]).0 != name,
        place_of(variables, name) < variables.len() ==> variables[place_of(variables, name)].0
            == name,
    decreases variables.len(),
{
    if variables.len() > 0 && variables.first().0 != name {
        lemma_place_of(variables.drop_first(), name);
        assert forall|i: int| 0 <= i < place_of(variables, name) implies (
        #[trigger] variables[i]).0 != name by {
            if i > 0 {
                assert(variables.drop_first()[i - 1] == variables[i]);
            }
        }
    }
}

/// A variable that was set has its value, every other one keeps its own, and
/// names stay distinct.
pub proof fn settings_are_read_back(
    variables: Seq<(Seq<char>, Seq<char>)>,
    name: Seq<char>,
    value: Seq<char>,
    other: Seq<char>,
)
    requires
        names_distinct(variables),
    ensures
        names_distinct(with_variable(variables, name, value)),
        value_of(with_variable(variables, name, value), other) == (if other == name {
            Some(value)
        } else {
            value_of(variables, other)
        }),
{
    let after = with_variable(variables, name, value);
    lemma_place_of(variables, name);
    lemma_place_of(variables, other);
    lemma_place_of(after, other);
    let place = place_of(after, other);
    if other != name {
        if place < after.len() {
            assert(place < variables.len() && variables[place].0 == other);
            let before = place_of(variables, other);
            assert(before < variables.len()) by {
                if before == variables.len() {
                    assert(variables[place].0 != other);
                }
            }
            if before < place {
                assert(after[before].0 != other);
            }
        } else if place_of(variables, other) < variables.len() {
            assert(after[place_of(variables, other)].0 != other);
        }
    } else {
        let before = place_of(variables, name);
        if before < variables.len() {
            assert(after[before].0 == name);
            if place < before {
                assert(variables[place].0 != name);
            }
            if before < place {
                assert(after[before].0 != other);
            }
        } else {
            assert(after[variables.len() as int].0 == name);
            if place < variables.len() {
                assert(variables[place].0 != name);
            }
        }
    }
}

impl View for Environment {
    type V = Seq<(Seq<char>, Seq<char>)>;

    closed spec fn view(&self) -> Seq<(Seq<char>, Seq<char>)> {
        pairs(self.entries@)
    }
}

impl Environment {
    /// No variable is set twice.
    #[verifier::type_invariant]
    spec fn well_formed(self) -> bool {
        names_distinct(pairs(self.entries@))
    }

    pub fn new() -> (environment: Environment)
        ensures
            environment@ == Seq::<(Seq<char>, Seq<char>)>::empty(),
    {
        let entries: Vec<(String, String)> = Vec::new();
        assert(pairs(entries@) == Seq::<(Seq<char>, Seq<char>)>::empty());
        let environment = Environment { entries };
        assert(environment@ == Seq::<(Seq<char>, Seq<char>)>::empty());
        environment
    }

    pub fn len(&self) -> (count: usize)
        ensures
            count == self@.len(),
    {
        self.entries.len()
    }

    pub fn is_empty(&self) -> (empty: bool)
        ensures
            empty == (self@.len() == 0),
    {
        self.entries.len() == 0
    }

    /// The name of the variable at an index.
    pub fn name(&self, index: usize) -> (name: &str)
        requires
            index < self@.len(),
        ensures
            name@ == self@[index as int].0,
    {
        self.entries[index].0.as_str()
    }

    /// The value of the variable at an index.
    pub fn value(&self, index: usize) -> (value: &str)
        requires
            index < self@.len(),
        ensures
            value@ == self@[index as int].1,
    {
        self.entries[index].1.as_str()
    }

    fn find(&self, name: &str) -> (place: usize)
        ensures
            place == place_of(self@, name@),
            place <= self@.len(),
    {
        let ghost all = self@;
        let mut index: usize = 0;
        assert(all.skip(0) == all);
        while index < self.entries.len() && !text::same_text(
            self.entries[index].0.as_str(),
            name,
        )
            invariant
                index <= self.entries@.len(),
                all == pairs(self.entries@),
                place_of(all, name@) == index + place_of(all.skip(index as int), name@),
            decreases self.entries.len() - index,
        {
            assert(all.skip(index as int).drop_first() == all.skip(index + 1));
            index += 1;
        }
        index
    }

    /// The value of a variable.
    pub fn get(&self, name: &str) -> (value: Option<&str>)
        ensures
            match value {
                Some(value) => value_of(self@, name@) == Some(value@),
                None => value_of(self@, name@) is None,
            },
    {
        let place = self.find(name);
        if place < self.entries.len() {
            Some(self.entries[place].1.as_str())
        } else {
            None
        }
    }

    /// Sets a variable.
    pub fn insert(&mut self, name: String, value: String)
        ensures
            final(self)@ == with_variable(old(self)@, name@, value@),
            names_distinct(final(self)@),
    {
        proof {
            use_type_invariant(&*self);
            settings_are_read_back(self@, name@, value@, name@);
        }
        let place = self.find(name.as_str());
        let ghost before = self.entries@;
        let ghost variable = (name, value);
        let mut entries: Vec<(String, String)> = Vec::new();
        assert(pairs(entries@) == Seq::<(Seq<char>, Seq<char>)>::empty());
        std::mem::swap(&mut entries, &mut self.entries);
        if place < entries.len() {
            entries.set(place, (name, value));
            assert(pairs(entries@) == pairs(before).update(
                place as int,
                (variable.0@, variable.1@),
            ));
        } else {
            entries.push((name, value));
            assert(pairs(entries@) == pairs(before).push((variable.0@, variable.1@)));
        }
        self.entries = entries;
    }

    pub fn copy(&self) -> (copy: Environment)
        ensures
            copy@ == self@,
            names_distinct(copy@),
    {
        proof {
            use_type_invariant(self);
        }
        let mut entries: Vec<(String, String)> = Vec::new();
        let mut index: usize = 0;
        while index < self.entries.len()
            invariant
                index <= self.entries@.len(),
                pairs(entries@) == pairs(self.entries@).take(index as int),
            decreases self.entries.len() - index,
        {
            let ghost before = pairs(entries@);
            let name = self.entries[index].0.clone();
            let value = self.entries[index].1.clone();
            entries.push((name, value));
            assert(pairs(entries@) == before.push((name@, value@)));
            assert(pairs(self.entries@).take(index + 1) == pairs(self.entries@).take(
                index as int,
            ).push((name@, value@)));
            index += 1;
        }
        assert(pairs(self.entries@).take(index as int) == pairs(self.entries@));
        Environment { entries }
    }
}

} // verus!
