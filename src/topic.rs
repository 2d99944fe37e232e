//! Topic names.
use vstd::prelude::*;

verus! {

/// A named FIFO within a group.
#[derive(Debug, Clone, PartialEq, Eq)]
pub struct Topic {
    pub name: String,
}

impl Topic {
    pub fn new(name: String) -> (r: Self)
        ensures
            r.name@ == name@,
    {
        Self { name }
    }

    pub fn is_name_empty(&self) -> (r: bool)
        ensures
            r == (self.name@.len() == 0),
    {
        self.name.as_str().is_empty()
    }

    /// A topic with the same name.
    pub fn duplicate(&self) -> (r: Self)
        ensures
            r.name@ == self.name@,
    {
        Topic { name: self.name.clone() }
    }
}

impl Default for Topic {
    fn default() -> (r: Self)
        ensures
            r.name@.len() == 0,
    {
        Topic { name: String::new() }
    }
}

} // verus!
