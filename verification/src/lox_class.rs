use crate::object::{Object, Value};
use crate::table::Table;
use vstd::prelude::*;

verus! {

/// A class, known by its name.
pub struct LoxClass {
    pub name: String,
}

impl LoxClass {
    /// A class with the given name.
    pub fn new(name: String) -> (r: Self)
        ensures
            r.name == name,
    {
        LoxClass { name }
    }

    /// The text that stands for the class when it is printed: its name.
    pub fn to_string(&self) -> (s: String)
        ensures
            s@ == self.name@,
    {
        self.name.clone()
    }
}

impl Clone for LoxClass {
    fn clone(&self) -> (r: Self)
        ensures
            r == *self,
    {
        LoxClass { name: self.name.clone() }
    }
}

/// An instance of a class, with the values of its fields.
pub struct Instance {
    pub class: LoxClass,
    pub fields: Table<Object>,
}

impl Instance {
    /// An instance of `class` without fields.
    pub fn new(class: LoxClass) -> (r: Self)
        ensures
            r.class == class,
            r.fields.wf(),
            r.fields@ == Map::<Seq<char>, Value>::empty(),
    {
        Instance { class, fields: Table::new() }
    }
}

} // verus!
