use vstd::prelude::*;

verus! {

/// One step of a [`Path`]: a position inside a container, or the name of a node.
#[derive(Clone, Debug, PartialEq, Eq)]
pub enum Component {
    Index(usize),
    Name(String),
}

/// A symbolic address of content: the steps that lead to it. A path names content
/// without referring to any tree, so it outlives the trees it is used with.
#[derive(Clone, Debug, PartialEq, Eq)]
pub struct Path {
    components: Vec<Component>,
}

impl View for Path {
    type V = Seq<Component>;

    closed spec fn view(&self) -> Seq<Component> {
        self.components@
    }
}

impl Path {
    /// The path made of the given steps.
    pub fn new(components: Vec<Component>) -> (path: Path)
        ensures
            path@ == components@,
    {
        Path { components }
    }

    /// The number of steps.
    pub fn len(&self) -> (len: usize)
        ensures
            len == self@.len(),
    {
        self.components.len()
    }

    /// The steps, first to last.
    pub fn components(&self) -> (components: &Vec<Component>)
        ensures
            components@ == self@,
    {
        &self.components
    }
}

} // verus!
