//! Lookups: the sources of values for placeholders.

use vstd::prelude::*;
use crate::model::{
    chained, constant_bindings, lemma_chained_first, lemma_chained_unbound, single_binding, Bindings,
};
use crate::text::same_text;

verus! {

/// A source of values for placeholders.
///
/// An implementation fixes its bindings once, as a partial map from names to
/// values, and `lookup` answers from that map: a lookup is read-only and
/// gives the same answer each time it is asked.
pub trait Lookup {
    /// The names this lookup resolves, each with its value. A lookup that
    /// does not say otherwise resolves none.
    open spec fn bindings(&self) -> Bindings {
        Map::empty()
    }

    /// The value bound to `key`, or `None` where `key` is unbound.
    fn lookup(&self, key: &str) -> (found: Option<&str>)
        ensures
            match found {
                Some(value) => self.bindings().contains_key(key@) && self.bindings()[key@]
                    == value@,
                None => !self.bindings().contains_key(key@),
            },
    ;
}

/// A lookup that answers every name with the same value.
pub struct ConstantLookup {
    value: String,
}

impl ConstantLookup {
    /// A lookup that answers every name with `value`.
    pub fn new(value: String) -> (made: Self)
        ensures
            made.bindings() == constant_bindings(value@),
    {
        ConstantLookup { value }
    }
}

impl Lookup for ConstantLookup {
    closed spec fn bindings(&self) -> Bindings {
        constant_bindings(self.value@)
    }

    fn lookup(&self, _key: &str) -> (found: Option<&str>) {
        Some(self.value.as_str())
    }
}

/// A lookup that knows no name.
pub struct EmptyLookup {}

impl EmptyLookup {
    /// A lookup that knows no name.
    pub fn new() -> (made: Self)
        ensures
            made.bindings() == Bindings::empty(),
    {
        EmptyLookup {}
    }
}

impl Lookup for EmptyLookup {
    open spec fn bindings(&self) -> Bindings {
        Map::empty()
    }

    fn lookup(&self, _key: &str) -> (found: Option<&str>) {
        None
    }
}

/// A lookup that knows one name.
pub struct SingleLookup {
    key: String,
    value: String,
}

impl SingleLookup {
    /// A lookup that answers `key` with `value`, and no other name.
    pub fn new(key: &str, value: &str) -> (made: Self)
        ensures
            made.bindings() == single_binding(key@, value@),
    {
        SingleLookup { key: key.to_owned(), value: value.to_owned() }
    }
}

impl Lookup for SingleLookup {
    closed spec fn bindings(&self) -> Bindings {
        single_binding(self.key@, self.value@)
    }

    fn lookup(&self, key: &str) -> (found: Option<&str>) {
        if same_text(self.key.as_str(), key) {
            Some(self.value.as_str())
        } else {
            None
        }
    }
}

/// A lookup that asks its members in order and answers with the first value
/// found: earlier members shadow later ones.
///
/// The members are borrowed. They may be of one type `L`, or, with `L` left
/// at its default, trait objects of any mix of types.
pub struct ChainedLookup<'a, L: Lookup + ?Sized = dyn Lookup + 'a> {
    lookups: Vec<&'a L>,
}

impl<'a, L: Lookup + ?Sized> ChainedLookup<'a, L> {
    /// The bindings of the members, in the order in which they are asked.
    pub closed spec fn members(&self) -> Seq<Bindings> {
        self.lookups@.map_values(|member: &'a L| member.bindings())
    }

    /// A chain without members.
    pub fn new() -> (made: Self)
        ensures
            made.members() == Seq::<Bindings>::empty(),
    {
        ChainedLookup { lookups: Vec::new() }
    }

    /// Adds `lookup` as the last member.
    pub fn add(&mut self, lookup: &'a L) -> (chain: &Self)
        ensures
            final(self).members() == old(self).members().push(lookup.bindings()),
            *chain == *final(self),
    {
        self.lookups.push(lookup);
        assert(self.members() == old(self).members().push(lookup.bindings()));
        self
    }
}

impl<'a, L: Lookup + ?Sized> Lookup for ChainedLookup<'a, L> {
    open spec fn bindings(&self) -> Bindings {
        chained(self.members())
    }

    fn lookup(&self, key: &str) -> (found: Option<&str>) {
        for member in members: &self.lookups
            invariant
                members.seq() == self.lookups@.as_ref(),
                forall|j: int|
                    0 <= j < members.index() ==> !(#[trigger] self.members()[j]).contains_key(key@),
        {
            let value = member.lookup(key);
            if value.is_some() {
                proof {
                    lemma_chained_first(self.members(), key@, members.index());
                }
                return value;
            }
        }
        proof {
            lemma_chained_unbound(self.members(), key@);
        }
        None
    }
}

} // verus!
