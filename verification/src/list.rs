use vstd::prelude::*;

verus! {

/// A list value: the names of its active members, in the order in which they were added.
#[derive(Clone, Debug, PartialEq, Eq)]
pub struct List {
    members: Vec<String>,
}

impl View for List {
    type V = Seq<String>;

    closed spec fn view(&self) -> Seq<String> {
        self.members@
    }
}

impl List {
    /// The list without members.
    pub fn new() -> (list: List)
        ensures
            list@ == Seq::<String>::empty(),
    {
        List { members: Vec::new() }
    }

    /// Adds a member at the end.
    pub fn add(&mut self, member: String)
        ensures
            final(self)@ == old(self)@.push(member),
    {
        self.members.push(member);
    }

    /// The number of active members.
    pub fn len(&self) -> (len: usize)
        ensures
            len == self@.len(),
    {
        self.members.len()
    }

    /// Whether the list has no active member.
    pub fn is_empty(&self) -> (empty: bool)
        ensures
            empty == (self@.len() == 0),
    {
        self.members.len() == 0
    }
}

} // verus!
