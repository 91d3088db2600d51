use vstd::prelude::*;

verus! {

/// The mathematical value of a person record.
pub ghost struct PersonView {
    pub id: u64,
    pub name: Seq<char>,
    pub age: u32,
}

/// A person record: an identifier assigned by the store, a name and an age.
#[derive(Clone, Debug, PartialEq, Eq)]
pub struct Person {
    pub id: u64,
    pub name: String,
    pub age: u32,
}

impl View for Person {
    type V = PersonView;

    open spec fn view(&self) -> PersonView {
        PersonView { id: self.id, name: self.name@, age: self.age }
    }
}

impl Person {
    pub fn new(id: u64, name: String, age: u32) -> (r: Person)
        ensures
            r@ == (PersonView { id: id, name: name@, age: age }),
    {
        Person { id, name, age }
    }

    /// A copy of this record that owns its own name.
    pub fn duplicate(&self) -> (r: Person)
        ensures
            r@ == self@,
    {
        Person { id: self.id, name: self.name.clone(), age: self.age }
    }
}

} // verus!
