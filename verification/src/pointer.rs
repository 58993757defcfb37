use crate::tree::{Container, ContainerId, ContentTree, Object, TreeView};
use vstd::prelude::*;

verus! {

/// A cursor into a [`ContentTree`] that owns nothing: it names a position inside a
/// container, or a container as a whole, or nowhere.
///
/// A pointer is never checked against the tree when it is made or moved. Only
/// [`Pointer::resolve`] looks at the tree, and it answers `None` for whatever the pointer no
/// longer finds there.
#[derive(Clone, Copy, Debug, PartialEq, Eq, Structural)]
pub struct Pointer {
    /// The container referred to; `None` only in the null pointer.
    pub container: Option<ContainerId>,
    /// The position inside the container; `None` when the container itself is meant.
    pub index: Option<usize>,
}

impl Default for Pointer {
    /// The null pointer.
    fn default() -> (pointer: Pointer)
        ensures
            pointer == Pointer::null_spec(),
    {
        Pointer { container: None, index: None }
    }
}

impl Pointer {
    /// The pointer to nowhere.
    pub open spec fn null_spec() -> Pointer {
        Pointer { container: None, index: None }
    }

    /// Whether this is the pointer to nowhere.
    pub open spec fn is_null_spec(self) -> bool {
        self.container is None && self.index is None
    }

    /// The pointer to `object` by way of the container that holds it in `tree`.
    pub open spec fn to_spec(tree: TreeView, object: Object) -> Pointer {
        Pointer {
            container: tree.parent_of(object),
            index: Some(tree.content(tree.parent_of(object)->0).index_of(object) as usize),
        }
    }

    /// What the pointer finds in `tree`: nothing without a container or with one that is not
    /// part of the tree; the container itself without an index; else the node at the index,
    /// or nothing past the end.
    pub open spec fn resolve_spec(self, tree: TreeView) -> Option<Object> {
        match self.container {
            None => None,
            Some(c) => if !tree.live(c) {
                None
            } else {
                match self.index {
                    None => Some(Object::Container(c)),
                    Some(i) => if i < tree.content(c).len() {
                        Some(tree.content(c)[i as int])
                    } else {
                        None
                    },
                }
            },
        }
    }

    /// The pointer one position further on; the same pointer when it has no index.
    pub open spec fn advanced(self) -> Pointer {
        Pointer {
            container: self.container,
            index: match self.index {
                Some(i) => Some((i + 1) as usize),
                None => None,
            },
        }
    }

    /// The pointer to nowhere.
    pub fn null() -> (pointer: Pointer)
        ensures
            pointer == Pointer::null_spec(),
            pointer.is_null_spec(),
    {
        Pointer { container: None, index: None }
    }

    /// A pointer to position `index` of `container`. The index is not held against the
    /// container's length.
    pub fn new(container: ContainerId, index: usize) -> (pointer: Pointer)
        ensures
            pointer == (Pointer { container: Some(container), index: Some(index) }),
            !pointer.is_null_spec(),
    {
        Pointer { container: Some(container), index: Some(index) }
    }

    /// A pointer to the first position of `container`.
    pub fn to_start_of_container(container: ContainerId) -> (pointer: Pointer)
        ensures
            pointer == (Pointer { container: Some(container), index: Some(0) }),
            !pointer.is_null_spec(),
    {
        Pointer::new(container, 0)
    }

    /// A pointer to the place of `object` in `tree`. The object must be part of the tree and
    /// held by a container.
    pub fn to(tree: &ContentTree, object: Object) -> (pointer: Pointer)
        requires
            tree@.wf(),
            tree@.has(object),
            tree@.parent_of(object) is Some,
        ensures
            pointer == Pointer::to_spec(tree@, object),
            pointer.container == tree@.parent_of(object),
            pointer.index matches Some(i) && i < tree@.content(pointer.container->0).len()
                && tree@.content(pointer.container->0)[i as int] == object,
            !pointer.is_null_spec(),
            pointer.resolve_spec(tree@) == Some(object),
    {
        proof {
            reveal(TreeView::wf);
        }
        let parent = tree.parent(object).unwrap();
        let container = tree.container(parent).unwrap();
        let index = container.index_of(object);
        proof {
            let content = tree@.content(parent);
            let i = content.index_of(object);
            assert(content.contains(object));
            assert(0 <= i < content.len() && content[i] == object);
        }
        Pointer { container: Some(parent), index }
    }

    /// The container referred to, if there is one and it is part of `tree`.
    pub fn container<'a>(&self, tree: &'a ContentTree) -> (found: Option<&'a Container>)
        ensures
            match found {
                Some(container) => self.container matches Some(c) && tree@.live(c) && container@
                    == tree@.containers[c],
                None => self.container matches Some(c) ==> !tree@.live(c),
            },
    {
        match self.container {
            Some(id) => tree.container(id),
            None => None,
        }
    }

    /// What the pointer finds in `tree`, or `None` when it finds nothing.
    pub fn resolve(&self, tree: &ContentTree) -> (found: Option<Object>)
        ensures
            found == self.resolve_spec(tree@),
    {
        match self.container {
            None => None,
            Some(id) => match tree.container(id) {
                None => None,
                Some(container) => match self.index {
                    None => Some(Object::Container(id)),
                    Some(index) => container.get(index),
                },
            },
        }
    }

    /// Whether this is the pointer to nowhere: no container and no index.
    pub fn is_null(&self) -> (null: bool)
        ensures
            null == self.is_null_spec(),
            null == (*self == Pointer::null_spec()),
    {
        self.container.is_none() && self.index.is_none()
    }

    /// Moves the pointer one position further on; does nothing to a pointer without an index.
    /// The tree is not consulted.
    pub fn increment_index(&mut self)
        requires
            old(self).index matches Some(i) ==> i < usize::MAX,
        ensures
            *final(self) == old(self).advanced(),
            final(self).container == old(self).container,
            match old(self).index {
                Some(i) => final(self).index == Some((i + 1) as usize),
                None => final(self).index is None,
            },
    {
        self.index = match self.index {
            Some(i) => Some(i + 1),
            None => None,
        };
    }

    /// The null pointer is the one pointer with neither container nor index, and no pointer
    /// to a position of a container is null.
    pub proof fn lemma_null_pointer_identity(pointer: Pointer, container: ContainerId, index: usize)
        ensures
            pointer.is_null_spec() <==> pointer == Pointer::null_spec(),
            pointer.is_null_spec() <==> pointer.container is None && pointer.index is None,
            !(Pointer { container: Some(container), index: Some(index) }).is_null_spec(),
            !(Pointer { container: Some(container), index: None }).is_null_spec(),
    {
    }

    /// The pointer to an object of a well-formed tree is not null and resolves to that
    /// object.
    pub proof fn lemma_round_trip(tree: TreeView, object: Object)
        requires
            tree.wf(),
            tree.has(object),
            tree.parent_of(object) is Some,
        ensures
            !Pointer::to_spec(tree, object).is_null_spec(),
            Pointer::to_spec(tree, object).resolve_spec(tree) == Some(object),
    {
        reveal(TreeView::wf);
        let content = tree.content(tree.parent_of(object)->0);
        assert(content.contains(object));
        let i = content.index_of(object);
        assert(0 <= i < content.len() && content[i] == object);
    }

    /// In a container of `n` nodes, a pointer at position `i < n` that is moved on resolves
    /// to the node at `i + 1` if there is one, and to nothing else.
    pub proof fn lemma_sequential_advance(tree: TreeView, container: ContainerId, i: usize)
        requires
            tree.wf(),
            tree.live(container),
            i < tree.content(container).len(),
        ensures
            (Pointer { container: Some(container), index: Some(i) }).resolve_spec(tree) == Some(
                tree.content(container)[i as int],
            ),
            (Pointer { container: Some(container), index: Some(i) }).advanced().resolve_spec(tree)
                == if i + 1 < tree.content(container).len() {
                Some(tree.content(container)[i + 1])
            } else {
                None
            },
    {
        reveal(TreeView::wf);
    }

    /// A pointer without an index resolves to its container as a whole, which is none of
    /// the nodes that the container holds.
    pub proof fn lemma_whole_container(tree: TreeView, container: ContainerId, i: int)
        requires
            tree.wf(),
            tree.live(container),
            0 <= i < tree.content(container).len(),
        ensures
            (Pointer { container: Some(container), index: None }).resolve_spec(tree) == Some(
                Object::Container(container),
            ),
            tree.content(container)[i] != Object::Container(container),
    {
        reveal(TreeView::wf);
        if tree.content(container)[i] == Object::Container(container) {
            assert(tree.parent_of(tree.containers[container].content[i]) == Some(container));
        }
    }

    /// Once a container has been taken out of a well-formed tree, every pointer to it, and
    /// to any container that lay below it, resolves to nothing, whatever its index.
    pub proof fn lemma_stale_pointer(
        tree: TreeView,
        discarded: ContainerId,
        referenced: ContainerId,
        pointer: Pointer,
    )
        requires
            tree.wf(),
            tree.live(discarded),
            tree.under(referenced, discarded),
            pointer.container == Some(referenced),
        ensures
            pointer.resolve_spec(tree.without(discarded)) is None,
            tree.without(discarded).wf(),
    {
        tree.lemma_without_wf(discarded);
    }

    /// Taking a container out of a well-formed tree changes nothing for a pointer into a
    /// container that lies neither below it nor directly above it.
    pub proof fn lemma_discard_elsewhere(
        tree: TreeView,
        discarded: ContainerId,
        pointer: Pointer,
    )
        requires
            tree.wf(),
            tree.live(discarded),
            pointer.container matches Some(c) && !tree.under(c, discarded)
                && tree.containers[discarded].parent != Some(c),
        ensures
            pointer.resolve_spec(tree.without(discarded)) == pointer.resolve_spec(tree),
    {
    }
}

} // verus!