//! Folding parsed entries into a mapping from names to values, in which a
//! later entry of a name takes the place of an earlier one.

use crate::entry::{Entry, ParseError, ParsedEntry};
use crate::parser::{results_model, Parser};
use crate::text::same_text;
use vstd::prelude::*;

verus! {

/// The mapping that a sequence of entries folds to: each entry in turn
/// binds its name to its value, in place of what the name was bound to
/// before.
pub open spec fn folded(entries: Seq<Entry>) -> Map<Seq<char>, Seq<char>>
    decreases entries.len(),
{
    if entries.len() == 0 {
        Map::empty()
    } else {
        folded(entries.drop_last()).insert(entries.last().name, entries.last().value)
    }
}

/// The entries among `results`, in order.
pub open spec fn entries_of(results: Seq<Result<Entry, ParseError>>) -> Seq<Entry>
    decreases results.len(),
{
    if results.len() == 0 {
        Seq::empty()
    } else {
        match results.last() {
            Ok(e) => entries_of(results.drop_last()).push(e),
            Err(_) => entries_of(results.drop_last()),
        }
    }
}

/// The first error among `results`, where there is one.
pub open spec fn first_error(results: Seq<Result<Entry, ParseError>>) -> Option<ParseError>
    decreases results.len(),
{
    if results.len() == 0 {
        None
    } else {
        match results[0] {
            Err(e) => Some(e),
            Ok(_) => first_error(results.drop_first()),
        }
    }
}

/// The contents of a sequence of entries.
pub open spec fn entry_models(entries: Seq<ParsedEntry>) -> Seq<Entry> {
    Seq::new(entries.len(), |i: int| entries[i]@)
}

/// A name is bound in the folded mapping exactly when some entry has it.
pub proof fn lemma_folded_domain(entries: Seq<Entry>, name: Seq<char>)
    ensures
        folded(entries).contains_key(name) <==> exists|i: int|
            0 <= i < entries.len() && (#[trigger] entries[i]).name == name,
    decreases entries.len(),
{
    if entries.len() > 0 {
        let init = entries.drop_last();
        lemma_folded_domain(init, name);
        if exists|i: int| 0 <= i < entries.len() && (#[trigger] entries[i]).name == name {
            let i = choose|i: int| 0 <= i < entries.len() && (#[trigger] entries[i]).name == name;
            if i < init.len() {
                assert(init[i].name == name);
            }
        }
    }
}

/// The last write wins: the folded mapping binds each name to the value of
/// the last entry that has this name. For an entry at index `i` whose name
/// no later entry has, the mapping holds that entry's value.
pub proof fn lemma_last_write_wins(entries: Seq<Entry>, i: int)
    requires
        0 <= i < entries.len(),
        forall|j: int| i < j < entries.len() ==> (#[trigger] entries[j]).name != entries[i].name,
    ensures
        folded(entries).contains_key(entries[i].name),
        folded(entries)[entries[i].name] == entries[i].value,
    decreases entries.len(),
{
    if i < entries.len() - 1 {
        lemma_last_write_wins(entries.drop_last(), i);
    }
}

/// Writing a new value over the one entry of a name changes the folded
/// mapping as binding the name anew does.
proof fn lemma_folded_update(entries: Seq<Entry>, i: int, value: Seq<char>)
    requires
        0 <= i < entries.len(),
        forall|j: int|
            0 <= j < entries.len() && j != i ==> (#[trigger] entries[j]).name != entries[i].name,
    ensures
        folded(entries.update(i, Entry { name: entries[i].name, value })) == folded(
            entries,
        ).insert(entries[i].name, value),
    decreases entries.len(),
{
    let name = entries[i].name;
    let written = entries.update(i, Entry { name, value });
    let init = entries.drop_last();
    if i == entries.len() - 1 {
        assert(written.drop_last() =~= init);
    } else {
        assert(written.drop_last() =~= init.update(i, Entry { name, value }));
        lemma_folded_update(init, i, value);
    }
}

/// Where no result is an error, there is no first error.
pub proof fn lemma_no_error(results: Seq<Result<Entry, ParseError>>)
    requires
        forall|j: int| 0 <= j < results.len() ==> (#[trigger] results[j]) is Ok,
    ensures
        first_error(results) is None,
    decreases results.len(),
{
    if results.len() > 0 {
        lemma_no_error(results.drop_first());
    }
}

/// An error before which every result is an entry is the first error.
pub proof fn lemma_first_error(results: Seq<Result<Entry, ParseError>>, i: int)
    requires
        0 <= i < results.len(),
        results[i] is Err,
        forall|j: int| 0 <= j < i ==> (#[trigger] results[j]) is Ok,
    ensures
        first_error(results) == Some(results[i]->Err_0),
    decreases results.len(),
{
    if i > 0 {
        lemma_first_error(results.drop_first(), i - 1);
    }
}

/// A mapping from variable names to values. It keeps one entry for each
/// name, in the order in which the names first came.
#[derive(Debug)]
pub struct Environment {
    entries: Vec<ParsedEntry>,
}

impl View for Environment {
    type V = Map<Seq<char>, Seq<char>>;

    closed spec fn view(&self) -> Map<Seq<char>, Seq<char>> {
        folded(entry_models(self.entries@))
    }
}

impl Environment {
    #[verifier::type_invariant]
    closed spec fn distinct(&self) -> bool {
        forall|i: int, j: int|
            0 <= i < j < self.entries@.len() ==> (#[trigger] self.entries@[i])@.name != (
            #[trigger] self.entries@[j])@.name
    }

    /// The mapping that binds no name.
    pub fn new() -> (r: Environment)
        ensures
            r@ == Map::<Seq<char>, Seq<char>>::empty(),
    {
        Environment { entries: Vec::new() }
    }

    /// The index of the entry of `name`, where there is one.
    fn index_of(&self, name: &str) -> (r: Option<usize>)
        ensures
            match r {
                Some(i) => i < self.entries@.len() && self.entries@[i as int]@.name == name@,
                None => forall|j: int|
                    0 <= j < self.entries@.len() ==> (#[trigger] self.entries@[j])@.name != name@,
            },
    {
        let mut i: usize = 0;
        while i < self.entries.len()
            invariant
                i <= self.entries@.len(),
                forall|j: int| 0 <= j < i ==> (#[trigger] self.entries@[j])@.name != name@,
            decreases self.entries@.len() - i,
        {
            if same_text(self.entries[i].name(), name) {
                return Some(i);
            }
            i += 1;
        }
        None
    }

    /// The value that `name` is bound to, where it is bound.
    pub fn get(&self, name: &str) -> (r: Option<&str>)
        ensures
            r is Some <==> self@.contains_key(name@),
            r matches Some(v) ==> v@ == self@[name@],
    {
        let found = self.index_of(name);
        proof {
            use_type_invariant(self);
            let models = entry_models(self.entries@);
            lemma_folded_domain(models, name@);
            if let Some(i) = found {
                lemma_last_write_wins(models, i as int);
            }
        }
        match found {
            Some(i) => Some(self.entries[i].value()),
            None => None,
        }
    }

    /// Binds the name of `entry` to its value, in place of what the name was
    /// bound to before.
    pub fn insert(&mut self, entry: ParsedEntry)
        ensures
            final(self)@ == old(self)@.insert(entry@.name, entry@.value),
    {
        let found = self.index_of(entry.name());
        proof {
            use_type_invariant(&*self);
        }
        let mut taken = Environment::new();
        std::mem::swap(self, &mut taken);
        let mut entries = taken.entries;
        let ghost before = entry_models(entries@);
        match found {
            Some(i) => {
                proof {
                    lemma_folded_update(before, i as int, entry@.value);
                }
                entries.set(i, entry);
                proof {
                    assert(entry_models(entries@) =~= before.update(i as int, entry@));
                }
            },
            None => {
                entries.push(entry);
                proof {
                    assert(entry_models(entries@) =~= before.push(entry@));
                    assert(before.push(entry@).drop_last() =~= before);
                }
            },
        }
        *self = Environment { entries };
    }

    /// The number of names that are bound.
    pub fn len(&self) -> (r: usize)
        ensures
            r == self@.dom().len(),
            self@.dom().finite(),
    {
        proof {
            use_type_invariant(self);
            lemma_folded_len(entry_models(self.entries@));
        }
        self.entries.len()
    }
}

/// Entries with distinct names fold to a mapping with as many names.
proof fn lemma_folded_len(entries: Seq<Entry>)
    requires
        forall|i: int, j: int|
            0 <= i < j < entries.len() ==> (#[trigger] entries[i]).name != (
            #[trigger] entries[j]).name,
    ensures
        folded(entries).dom().finite(),
        folded(entries).dom().len() == entries.len(),
    decreases entries.len(),
{
    if entries.len() > 0 {
        let init = entries.drop_last();
        lemma_folded_len(init);
        lemma_folded_domain(init, entries.last().name);
    }
}

/// Folds the results of a file into a mapping, a later entry of a name
/// taking the place of an earlier one. Where a line failed, the first such
/// error is returned instead.
pub fn fold(results: &Vec<Result<ParsedEntry, ParseError>>) -> (r: Result<Environment, ParseError>)
    ensures
        match r {
            Ok(env) => first_error(results_model(results@)) is None && env@ == folded(
                entries_of(results_model(results@)),
            ),
            Err(e) => first_error(results_model(results@)) == Some(e),
        },
{
    let mut env = Environment::new();
    let mut i: usize = 0;
    let ghost models = results_model(results@);
    while i < results.len()
        invariant
            i <= results@.len(),
            models == results_model(results@),
            forall|j: int| 0 <= j < i ==> (#[trigger] models[j]) is Ok,
            env@ == folded(entries_of(models.take(i as int))),
        decreases results@.len() - i,
    {
        proof {
            assert(models.take(i + 1).drop_last() =~= models.take(i as int));
        }
        match &results[i] {
            Ok(entry) => {
                let copy = entry.clone();
                proof {
                    let init = entries_of(models.take(i as int));
                    assert(init.push(copy@).drop_last() =~= init);
                }
                env.insert(copy);
            },
            Err(e) => {
                proof {
                    lemma_first_error(models, i as int);
                }
                return Err(*e);
            },
        }
        i += 1;
    }
    proof {
        assert(models.take(i as int) =~= models);
        lemma_no_error(models);
    }
    Ok(env)
}

/// Folds the results of a pass as [`fold`] does those of a file, and stops
/// the pass at its first error: the lines behind it are not parsed.
pub fn fold_pass(pass: Parser) -> (r: Result<Environment, ParseError>)
    ensures
        match r {
            Ok(env) => first_error(pass.remaining()) is None && env@ == folded(
                entries_of(pass.remaining()),
            ),
            Err(e) => first_error(pass.remaining()) == Some(e),
        },
{
    let ghost all = pass.remaining();
    let ghost mut seen = Seq::<Result<Entry, ParseError>>::empty();
    let mut rest = pass;
    let mut env = Environment::new();
    loop
        invariant
            all == pass.remaining(),
            seen + rest.remaining() == all,
            forall|j: int| 0 <= j < seen.len() ==> (#[trigger] seen[j]) is Ok,
            env@ == folded(entries_of(seen)),
        decreases rest.remaining().len(),
    {
        let ghost coming = rest.remaining();
        match rest.next_result() {
            None => {
                proof {
                    lemma_no_error(all);
                }
                return Ok(env);
            },
            Some(Err(e)) => {
                proof {
                    lemma_first_error(all, seen.len() as int);
                }
                return Err(e);
            },
            Some(Ok(entry)) => {
                proof {
                    let next = seen.push(coming[0]);
                    assert(next.drop_last() =~= seen);
                    assert(entries_of(next).drop_last() =~= entries_of(seen));
                    seen = next;
                }
                env.insert(entry);
            },
        }
    }
}

} // verus!
