use crate::try_as_ref::TryAsRef;
use vstd::prelude::*;

verus! {

/// Names a container of a [`ContentTree`]. An id is never handed out twice by one tree, so
/// it keeps naming the same container for as long as that container is part of the tree and
/// names nothing afterwards.
#[derive(Clone, Copy, PartialEq, Eq, Debug, Hash, Structural)]
pub struct ContainerId(pub usize);

/// Names a leaf content item of a [`ContentTree`].
#[derive(Clone, Copy, PartialEq, Eq, Debug, Hash, Structural)]
pub struct LeafId(pub usize);

/// An addressable node of the content tree: a nested container or a leaf content item.
/// Two objects are the same node exactly when they are equal.
#[derive(Clone, Copy, PartialEq, Eq, Debug, Hash, Structural)]
pub enum Object {
    Container(ContainerId),
    Leaf(LeafId),
}

impl TryAsRef<ContainerId> for Object {
    open spec fn held(&self) -> Option<ContainerId> {
        match self {
            Object::Container(id) => Some(*id),
            Object::Leaf(_) => None,
        }
    }

    fn try_as_ref(&self) -> (found: Option<&ContainerId>) {
        match self {
            Object::Container(id) => Some(id),
            Object::Leaf(_) => None,
        }
    }
}

/// An ordered sequence of content nodes, with the container that holds it, if any.
#[derive(Debug)]
pub struct Container {
    parent: Option<ContainerId>,
    content: Vec<Object>,
}

/// What a [`Container`] is, mathematically.
pub struct ContainerView {
    pub parent: Option<ContainerId>,
    pub content: Seq<Object>,
}

impl View for Container {
    type V = ContainerView;

    closed spec fn view(&self) -> ContainerView {
        ContainerView { parent: self.parent, content: self.content@ }
    }
}

impl Container {
    /// The container that holds this one, or `None` at a root.
    pub fn parent(&self) -> (parent: Option<ContainerId>)
        ensures
            parent == self@.parent,
    {
        self.parent
    }

    /// The number of content nodes.
    pub fn len(&self) -> (len: usize)
        ensures
            len == self@.content.len(),
    {
        self.content.len()
    }

    /// The node at `index`, or `None` past the end.
    pub fn get(&self, index: usize) -> (node: Option<Object>)
        ensures
            node == if index < self@.content.len() {
                Some(self@.content[index as int])
            } else {
                None
            },
    {
        if index < self.content.len() {
            Some(self.content[index])
        } else {
            None
        }
    }

    /// The position of `object` among the content, found by identity.
    pub fn index_of(&self, object: Object) -> (found: Option<usize>)
        ensures
            match found {
                Some(i) => i < self@.content.len() && self@.content[i as int] == object
                    && forall|j: int| 0 <= j < i ==> self@.content[j] != object,
                None => !self@.content.contains(object),
            },
    {
        let mut i: usize = 0;
        while i < self.content.len()
            invariant
                i <= self.content.len(),
                forall|j: int| 0 <= j < i ==> self.content@[j] != object,
            decreases self.content.len() - i,
        {
            if self.content[i] == object {
                return Some(i);
            }
            i += 1;
        }
        None
    }
}

/// A forest of containers and leaf content items, addressed by ids.
///
/// Every container owns its content; a node refers to the container that holds it only by
/// id. Discarding a container removes it together with everything below it, and the ids of
/// what was removed then name nothing.
#[derive(Debug)]
pub struct ContentTree {
    containers: Vec<Option<Container>>,
    leaves: Vec<Option<ContainerId>>,
}

/// What a [`ContentTree`] is, mathematically.
pub struct TreeView {
    /// The containers that are part of the tree.
    pub containers: Map<ContainerId, ContainerView>,
    /// The leaves that are part of the tree, each with the container that holds it.
    pub leaves: Map<LeafId, ContainerId>,
    /// How many container ids the tree has handed out.
    pub container_ids: nat,
    /// How many leaf ids the tree has handed out.
    pub leaf_ids: nat,
}

impl TreeView {
    /// Whether `container` is part of the tree.
    pub open spec fn live(self, container: ContainerId) -> bool {
        self.containers.dom().contains(container)
    }

    /// Whether `object` is part of the tree.
    pub open spec fn has(self, object: Object) -> bool {
        match object {
            Object::Container(c) => self.containers.dom().contains(c),
            Object::Leaf(l) => self.leaves.dom().contains(l),
        }
    }

    /// The container that holds `object`, for an object of the tree.
    pub open spec fn parent_of(self, object: Object) -> Option<ContainerId> {
        match object {
            Object::Container(c) => self.containers[c].parent,
            Object::Leaf(l) => Some(self.leaves[l]),
        }
    }

    /// The content of `container`, for a container of the tree.
    pub open spec fn content(self, container: ContainerId) -> Seq<Object> {
        self.containers[container].content
    }

    /// The containers of the tree once `object` is appended to the content of `parent`.
    pub open spec fn with_child(self, parent: ContainerId, object: Object) -> Map<
        ContainerId,
        ContainerView,
    > {
        self.containers.insert(
            parent,
            ContainerView {
                parent: self.containers[parent].parent,
                content: self.containers[parent].content.push(object),
            },
        )
    }

    /// Whether `container` is `root` or lies below it.
    pub open spec fn under(self, container: ContainerId, root: ContainerId) -> bool
        decreases container.0,
    {
        container == root || (self.containers.dom().contains(container)
            && match self.containers[container].parent {
            Some(p) => p.0 < container.0 && self.under(p, root),
            None => false,
        })
    }

    /// Whether `object` is the container `root` or lies below it.
    pub open spec fn within(self, object: Object, root: ContainerId) -> bool {
        match object {
            Object::Container(c) => self.under(c, root),
            Object::Leaf(l) => self.leaves.dom().contains(l) && self.under(self.leaves[l], root),
        }
    }

    /// The tree without the container `root` and all that lies below it: these leave the
    /// tree, and the container that held `root` no longer lists it.
    pub open spec fn without(self, root: ContainerId) -> TreeView {
        TreeView {
            containers: Map::new(
                |c: ContainerId| self.containers.dom().contains(c) && !self.under(c, root),
                |c: ContainerId|
                    if self.containers[root].parent == Some(c) {
                        ContainerView {
                            parent: self.containers[c].parent,
                            content: self.containers[c].content.remove(
                                self.containers[c].content.index_of(Object::Container(root)),
                            ),
                        }
                    } else {
                        self.containers[c]
                    },
            ),
            leaves: Map::new(
                |l: LeafId| self.leaves.dom().contains(l) && !self.under(self.leaves[l], root),
                |l: LeafId| self.leaves[l],
            ),
            container_ids: self.container_ids,
            leaf_ids: self.leaf_ids,
        }
    }

    /// What lies below a container is younger than it.
    pub proof fn lemma_under_is_younger(self, container: ContainerId, root: ContainerId)
        requires
            self.under(container, root),
        ensures
            root.0 <= container.0,
        decreases container.0,
    {
        if container != root {
            self.lemma_under_is_younger(self.containers[container].parent->0, root);
        }
    }

    /// After a container has been taken out, the tree holds exactly the nodes it held that
    /// are neither that container nor below it.
    pub proof fn lemma_without_keeps(self, root: ContainerId, object: Object)
        ensures
            self.without(root).has(object) == (self.has(object) && !self.within(object, root)),
            self.without(root).has(object) ==> self.without(root).parent_of(object)
                == self.parent_of(object),
            self.without(root).container_ids == self.container_ids,
            self.without(root).leaf_ids == self.leaf_ids,
    {
    }

    /// Taking a container and all below it out of a well-formed tree leaves a well-formed
    /// tree.
    pub proof fn lemma_without_wf(self, root: ContainerId)
        requires
            self.wf(),
            self.live(root),
        ensures
            self.without(root).wf(),
    {
        reveal(TreeView::wf);
        let after = self.without(root);
        let gone = Object::Container(root);
        assert forall|c: ContainerId| #[trigger] after.containers.dom().contains(c) implies {
            &&& c.0 < after.container_ids
            &&& after.containers[c].content.len() <= usize::MAX
            &&& after.containers[c].content.no_duplicates()
            &&& after.containers[c].parent matches Some(p) ==> {
                &&& p.0 < c.0
                &&& after.containers.dom().contains(p)
                &&& after.containers[p].content.contains(Object::Container(c))
            }
        } by {
            self.lemma_kept_content(root, c);
            if self.containers[c].parent is Some {
                let p = self.containers[c].parent->0;
                assert(self.containers[p].content.contains(Object::Container(c)));
                self.lemma_kept_content(root, p);
            }
        }
        assert forall|l: LeafId| #[trigger] after.leaves.dom().contains(l) implies {
            &&& l.0 < after.leaf_ids
            &&& after.containers.dom().contains(after.leaves[l])
            &&& after.containers[after.leaves[l]].content.contains(Object::Leaf(l))
        } by {
            assert(self.containers[self.leaves[l]].content.contains(Object::Leaf(l)));
            self.lemma_kept_content(root, self.leaves[l]);
        }
        assert forall|c: ContainerId, i: int|
            after.containers.dom().contains(c) && 0 <= i < after.containers[c].content.len()
            implies after.has(#[trigger] after.containers[c].content[i]) && after.parent_of(
            after.containers[c].content[i],
        ) == Some(c) by {
            self.lemma_kept_content(root, c);
            let o = after.containers[c].content[i];
            assert(self.containers[c].content.contains(o));
            let j = choose|j: int|
                0 <= j < self.containers[c].content.len() && self.containers[c].content[j] == o;
            assert(self.has(self.containers[c].content[j]));
        }
    }

    /// The content that a container outside the part taken out keeps: what it held, in the
    /// same order, but for the container taken out.
    proof fn lemma_kept_content(self, root: ContainerId, c: ContainerId)
        requires
            self.wf(),
            self.live(root),
            self.live(c),
            !self.under(c, root),
        ensures
            self.without(root).containers[c].parent == self.containers[c].parent,
            self.without(root).containers[c].content.no_duplicates(),
            forall|o: Object|
                self.without(root).containers[c].content.contains(o) <==> self.containers[c].content.contains(
                    o,
                ) && o != Object::Container(root),
    {
        reveal(TreeView::wf);
        let before = self.containers[c].content;
        let after = self.without(root).containers[c].content;
        let gone = Object::Container(root);
        if self.containers[root].parent == Some(c) {
            assert(before.contains(gone));
            let k = before.index_of(gone);
            before.remove_ensures(k);
            assert forall|o: Object| after.contains(o) implies before.contains(o) && o != gone by {
                let i = choose|i: int| 0 <= i < after.len() && after[i] == o;
                if i < k {
                    assert(before[i] == o);
                } else {
                    assert(before[i + 1] == o);
                }
            }
            assert forall|o: Object| before.contains(o) && o != gone implies after.contains(o) by {
                let i = choose|i: int| 0 <= i < before.len() && before[i] == o;
                if i < k {
                    assert(after[i] == o);
                } else {
                    assert(after[i - 1] == o);
                }
            }
            assert forall|i: int, j: int| 0 <= i < after.len() && 0 <= j < after.len() && i != j
                implies after[i] != after[j] by {
                let bi = if i < k { i } else { i + 1 };
                let bj = if j < k { j } else { j + 1 };
                assert(before[bi] == after[i]);
                assert(before[bj] == after[j]);
            }
        } else {
            if before.contains(gone) {
                let i = choose|i: int| 0 <= i < before.len() && before[i] == gone;
                assert(self.has(before[i]));
                assert(self.parent_of(self.containers[c].content[i]) == Some(c));
            }
        }
    }

    /// The structure that every tree keeps:
    /// ids in use were handed out; a container's content can be indexed by `usize`; each
    /// node listed in a container is part of the tree and
    /// names that container as its parent; each node with a parent is listed by it; no
    /// container lists a node twice; and a container is older than the containers it holds.
    #[verifier::opaque]
    pub open spec fn wf(self) -> bool {
        &&& forall|c: ContainerId| #[trigger]
            self.containers.dom().contains(c) ==> {
                &&& c.0 < self.container_ids
                &&& self.containers[c].content.len() <= usize::MAX
                &&& self.containers[c].content.no_duplicates()
                &&& self.containers[c].parent matches Some(p) ==> {
                    &&& p.0 < c.0
                    &&& self.containers.dom().contains(p)
                    &&& self.containers[p].content.contains(Object::Container(c))
                }
            }
        &&& forall|l: LeafId| #[trigger]
            self.leaves.dom().contains(l) ==> {
                &&& l.0 < self.leaf_ids
                &&& self.containers.dom().contains(self.leaves[l])
                &&& self.containers[self.leaves[l]].content.contains(Object::Leaf(l))
            }
        &&& forall|c: ContainerId, i: int|
            self.containers.dom().contains(c) && 0 <= i < self.containers[c].content.len() ==> {
                &&& self.has(#[trigger] self.containers[c].content[i])
                &&& self.parent_of(self.containers[c].content[i]) == Some(c)
            }
    }
}

impl View for ContentTree {
    type V = TreeView;

    closed spec fn view(&self) -> TreeView {
        TreeView {
            containers: Map::new(
                |c: ContainerId| c.0 < self.containers.len() && self.containers[c.0 as int] is Some,
                |c: ContainerId| self.containers[c.0 as int]->0@,
            ),
            leaves: Map::new(
                |l: LeafId| l.0 < self.leaves.len() && self.leaves[l.0 as int] is Some,
                |l: LeafId| self.leaves[l.0 as int]->0,
            ),
            container_ids: self.containers.len() as nat,
            leaf_ids: self.leaves.len() as nat,
        }
    }
}

impl ContentTree {
    /// A tree with nothing in it.
    pub fn new() -> (tree: ContentTree)
        ensures
            tree@.wf(),
            tree@.containers == Map::<ContainerId, ContainerView>::empty(),
            tree@.leaves == Map::<LeafId, ContainerId>::empty(),
            tree@.container_ids == 0,
            tree@.leaf_ids == 0,
    {
        let tree = ContentTree { containers: Vec::new(), leaves: Vec::new() };
        reveal(TreeView::wf);
        assert(tree@.containers =~= Map::<ContainerId, ContainerView>::empty());
        assert(tree@.leaves =~= Map::<LeafId, ContainerId>::empty());
        tree
    }

    /// The container named by `id`, or `None` when the id names nothing in this tree.
    pub fn container(&self, id: ContainerId) -> (found: Option<&Container>)
        ensures
            match found {
                Some(container) => self@.live(id) && container@ == self@.containers[id],
                None => !self@.live(id),
            },
    {
        if id.0 < self.containers.len() {
            self.containers[id.0].as_ref()
        } else {
            None
        }
    }

    /// Whether `object` is part of the tree.
    pub fn contains(&self, object: Object) -> (present: bool)
        ensures
            present == self@.has(object),
    {
        match object {
            Object::Container(c) => c.0 < self.containers.len() && self.containers[c.0].is_some(),
            Object::Leaf(l) => l.0 < self.leaves.len() && self.leaves[l.0].is_some(),
        }
    }

    /// The container that holds `object`; `None` for a root and for what is not part of the
    /// tree.
    pub fn parent(&self, object: Object) -> (parent: Option<ContainerId>)
        ensures
            parent == if self@.has(object) {
                self@.parent_of(object)
            } else {
                None
            },
    {
        match object {
            Object::Container(c) => match self.container(c) {
                Some(container) => container.parent,
                None => None,
            },
            Object::Leaf(l) => if l.0 < self.leaves.len() {
                self.leaves[l.0]
            } else {
                None
            },
        }
    }

    /// Adds an empty container that no container holds.
    pub fn add_root(&mut self) -> (id: ContainerId)
        requires
            old(self)@.wf(),
        ensures
            final(self)@.wf(),
            !old(self)@.live(id),
            id.0 == old(self)@.container_ids,
            final(self)@.containers == old(self)@.containers.insert(
                id,
                ContainerView { parent: None, content: Seq::empty() },
            ),
            final(self)@.leaves == old(self)@.leaves,
            final(self)@.container_ids == old(self)@.container_ids + 1,
            final(self)@.leaf_ids == old(self)@.leaf_ids,
    {
        let id = ContainerId(self.containers.len());
        self.containers.push(Some(Container { parent: None, content: Vec::new() }));
        reveal(TreeView::wf);
        assert(self@.containers =~= old(self)@.containers.insert(
            id,
            ContainerView { parent: None, content: Seq::empty() },
        ));
        assert(self@.leaves =~= old(self)@.leaves);
        id
    }

    /// Adds an empty container at the end of the content of `parent`. Returns `None`, and
    /// leaves the tree as it is, when `parent` is not part of the tree.
    pub fn add_container(&mut self, parent: ContainerId) -> (added: Option<ContainerId>)
        requires
            old(self)@.wf(),
        ensures
            final(self)@.wf(),
            match added {
                Some(id) => {
                    &&& old(self)@.live(parent)
                    &&& id.0 == old(self)@.container_ids
                    &&& final(self)@ == (TreeView {
                        containers: old(self)@.with_child(parent, Object::Container(id)).insert(
                            id,
                            ContainerView { parent: Some(parent), content: Seq::empty() },
                        ),
                        leaves: old(self)@.leaves,
                        container_ids: old(self)@.container_ids + 1,
                        leaf_ids: old(self)@.leaf_ids,
                    })
                },
                None => !old(self)@.live(parent) && final(self)@ == old(self)@,
            },
    {
        let id = ContainerId(self.containers.len());
        if !self.attach(parent, Object::Container(id)) {
            return None;
        }
        self.containers.push(Some(Container { parent: Some(parent), content: Vec::new() }));
        proof {
            let before = old(self)@;
            let after = self@;
            assert(after.containers =~= before.with_child(parent, Object::Container(id)).insert(
                id,
                ContainerView { parent: Some(parent), content: Seq::empty() },
            ));
            assert(after.leaves =~= before.leaves);
            Self::lemma_appended(before, after, parent, Object::Container(id));
        }
        Some(id)
    }

    /// Adds a leaf content item at the end of the content of `parent`. Returns `None`, and
    /// leaves the tree as it is, when `parent` is not part of the tree.
    pub fn add_leaf(&mut self, parent: ContainerId) -> (added: Option<LeafId>)
        requires
            old(self)@.wf(),
        ensures
            final(self)@.wf(),
            match added {
                Some(id) => {
                    &&& old(self)@.live(parent)
                    &&& id.0 == old(self)@.leaf_ids
                    &&& final(self)@ == (TreeView {
                        containers: old(self)@.with_child(parent, Object::Leaf(id)),
                        leaves: old(self)@.leaves.insert(id, parent),
                        container_ids: old(self)@.container_ids,
                        leaf_ids: old(self)@.leaf_ids + 1,
                    })
                },
                None => !old(self)@.live(parent) && final(self)@ == old(self)@,
            },
    {
        let id = LeafId(self.leaves.len());
        if !self.attach(parent, Object::Leaf(id)) {
            return None;
        }
        self.leaves.push(Some(parent));
        proof {
            let before = old(self)@;
            let after = self@;
            assert(after.containers =~= before.with_child(parent, Object::Leaf(id)));
            assert(after.leaves =~= before.leaves.insert(id, parent));
            Self::lemma_appended(before, after, parent, Object::Leaf(id));
        }
        Some(id)
    }

    /// Takes `container` and all that lies below it out of the tree. Their ids name nothing
    /// from then on, and the container that held `container` no longer lists it. Returns
    /// `false`, and leaves the tree as it is, when `container` is not part of the tree.
    pub fn discard(&mut self, container: ContainerId) -> (discarded: bool)
        requires
            old(self)@.wf(),
        ensures
            final(self)@.wf(),
            discarded == old(self)@.live(container),
            discarded ==> final(self)@ == old(self)@.without(container),
            !discarded ==> final(self)@ == old(self)@,
    {
        if container.0 >= self.containers.len() {
            return false;
        }
        let parent = match &self.containers[container.0] {
            Some(node) => node.parent,
            None => {
                return false;
            },
        };
        let ghost before = self@;
        proof {
            reveal(TreeView::wf);
            before.lemma_without_wf(container);
        }
        if let Some(p) = parent {
            assert(before.live(container));
            assert(before.live(p)) by {
                reveal(TreeView::wf);
            }
            match &mut self.containers[p.0] {
                Some(node) => {
                    let found = node.index_of(Object::Container(container));
                    assert(node.content@.contains(Object::Container(container)));
                    let at = found.unwrap();
                    assert(at == node.content@.index_of(Object::Container(container)));
                    node.content.remove(at);
                },
                None => {},
            }
        }
        let ghost detached = self.containers@;
        assert forall|k: int| 0 <= k < detached.len() implies {
            &&& (#[trigger] detached[k]) is Some == before.live(ContainerId(k as usize))
            &&& detached[k] is Some && !before.under(ContainerId(k as usize), container)
                ==> detached[k]->0@ == before.without(container).containers[ContainerId(
                k as usize,
            )]
            &&& detached[k] is Some ==> detached[k]->0.parent == before.containers[ContainerId(
                k as usize,
            )].parent
        } by {
            reveal(TreeView::wf);
            if before.under(ContainerId(k as usize), container) {
                before.lemma_under_is_younger(ContainerId(k as usize), container);
            }
        }
        assert forall|c: ContainerId| c.0 < container.0 implies !#[trigger] before.under(
            c,
            container,
        ) by {
            if before.under(c, container) {
                before.lemma_under_is_younger(c, container);
            }
        }
        let mut k: usize = container.0;
        while k < self.containers.len()
            invariant
                before.wf(),
                before.live(container),
                before.container_ids == detached.len(),
                self.leaves == old(self).leaves,
                self.containers.len() == detached.len(),
                container.0 <= k <= self.containers.len(),
                forall|j: int|
                    0 <= j < detached.len() ==> {
                        &&& (#[trigger] detached[j]) is Some == before.live(ContainerId(j as usize))
                        &&& detached[j] is Some ==> detached[j]->0.parent
                            == before.containers[ContainerId(j as usize)].parent
                    },
                forall|j: int|
                    0 <= j < k ==> (#[trigger] self.containers[j]) == if before.under(
                        ContainerId(j as usize),
                        container,
                    ) {
                        None
                    } else {
                        detached[j]
                    },
                forall|j: int| k <= j < detached.len() ==> #[trigger] self.containers[j] == detached[j],
            decreases self.containers.len() - k,
        {
            proof {
                reveal(TreeView::wf);
                assert(detached[k as int] is Some == before.live(ContainerId(k)));
            }
            let dead = match &self.containers[k] {
                Some(node) => k == container.0 || match node.parent {
                    Some(p) => {
                        assert(before.live(p));
                        assert(detached[p.0 as int] is Some);
                        self.containers[p.0].is_none()
                    },
                    None => false,
                },
                None => false,
            };
            assert(self.containers[k as int] is Some ==> dead == before.under(
                ContainerId(k),
                container,
            ));
            if dead {
                self.containers[k] = None;
            }
            k += 1;
        }
        assert(Self::swept(self.containers@, before, container));
        let mut l: usize = 0;
        while l < self.leaves.len()
            invariant
                before.wf(),
                before == old(self)@,
                before.container_ids == self.containers.len(),
                self.leaves.len() == old(self).leaves.len(),
                l <= self.leaves.len(),
                Self::swept(self.containers@, before, container),
                forall|j: int|
                    0 <= j < l ==> (#[trigger] self.leaves[j]) == if old(self).leaves[j] is Some
                        && before.under(old(self).leaves[j]->0, container) {
                        None
                    } else {
                        old(self).leaves[j]
                    },
                forall|j: int|
                    l <= j < self.leaves.len() ==> #[trigger] self.leaves[j] == old(self).leaves[j],
            decreases self.leaves.len() - l,
        {
            let dead = match self.leaves[l] {
                Some(p) => {
                    proof {
                        reveal(TreeView::wf);
                        assert(before.leaves.dom().contains(LeafId(l)));
                        assert(before.live(p));
                    }
                    assert(self.containers[p.0 as int] is Some == (before.live(ContainerId(p.0))
                        && !before.under(ContainerId(p.0), container)));
                    self.containers[p.0].is_none()
                },
                None => false,
            };
            if dead {
                self.leaves[l] = None;
            }
            l += 1;
        }
        proof {
            let after = self@;
            let want = before.without(container);
            assert(after.containers =~= want.containers);
            assert(after.leaves =~= want.leaves);
        }
        true
    }

    /// Whether `slots` holds the containers of `before` that are not `root` nor below it,
    /// each as it is once `root` has left the tree.
    spec fn swept(slots: Seq<Option<Container>>, before: TreeView, root: ContainerId) -> bool {
        &&& slots.len() == before.container_ids
        &&& forall|j: int|
            0 <= j < slots.len() ==> {
                &&& (#[trigger] slots[j]) is Some == (before.live(ContainerId(j as usize))
                    && !before.under(ContainerId(j as usize), root))
                &&& slots[j] is Some ==> slots[j]->0@ == before.without(root).containers[ContainerId(
                    j as usize,
                )]
            }
    }

    /// A tree stays well formed when a node with a fresh id is appended to a container.
    proof fn lemma_appended(before: TreeView, after: TreeView, parent: ContainerId, object: Object)
        requires
            before.wf(),
            before.live(parent),
            before.containers[parent].content.len() < usize::MAX,
            match object {
                Object::Container(id) => {
                    &&& id.0 == before.container_ids
                    &&& after.containers == before.with_child(parent, object).insert(
                        id,
                        ContainerView { parent: Some(parent), content: Seq::empty() },
                    )
                    &&& after.leaves == before.leaves
                    &&& after.container_ids == before.container_ids + 1
                    &&& after.leaf_ids == before.leaf_ids
                },
                Object::Leaf(id) => {
                    &&& id.0 == before.leaf_ids
                    &&& after.containers == before.with_child(parent, object)
                    &&& after.leaves == before.leaves.insert(id, parent)
                    &&& after.container_ids == before.container_ids
                    &&& after.leaf_ids == before.leaf_ids + 1
                },
            },
        ensures
            after.wf(),
    {
        reveal(TreeView::wf);
        let grown = before.containers[parent].content.push(object);
        assert(!before.has(object));
        assert(!before.containers[parent].content.contains(object)) by {
            if before.containers[parent].content.contains(object) {
                let i = choose|i: int|
                    0 <= i < before.containers[parent].content.len()
                        && before.containers[parent].content[i] == object;
                assert(before.has(before.containers[parent].content[i]));
            }
        }
        assert(grown.no_duplicates());
        assert(grown[grown.len() - 1] == object);
        assert forall|c: ContainerId, i: int|
            after.containers.dom().contains(c) && 0 <= i < after.containers[c].content.len()
            implies after.has(#[trigger] after.containers[c].content[i]) && after.parent_of(
            after.containers[c].content[i],
        ) == Some(c) by {
            if c == parent {
                if i < grown.len() - 1 {
                    assert(before.has(before.containers[c].content[i]));
                }
            } else if before.containers.dom().contains(c) {
                assert(before.has(before.containers[c].content[i]));
            }
        }
        assert forall|c: ContainerId| #[trigger]
            after.containers.dom().contains(c) && after.containers[c].parent is Some
            implies after.containers[after.containers[c].parent->0].content.contains(
            Object::Container(c),
        ) by {
            let p = after.containers[c].parent->0;
            if before.containers.dom().contains(c) {
                let i = choose|i: int|
                    0 <= i < before.containers[p].content.len() && before.containers[p].content[i]
                        == Object::Container(c);
                assert(after.containers[p].content[i] == Object::Container(c));
            }
        }
        assert forall|l: LeafId| #[trigger]
            after.leaves.dom().contains(l) implies after.containers[after.leaves[l]].content.contains(
            Object::Leaf(l),
        ) by {
            let p = after.leaves[l];
            if before.leaves.dom().contains(l) {
                let i = choose|i: int|
                    0 <= i < before.containers[p].content.len() && before.containers[p].content[i]
                        == Object::Leaf(l);
                assert(after.containers[p].content[i] == Object::Leaf(l));
            }
        }
    }

    /// Appends `object` to the content of `parent`, if `parent` is part of the tree.
    fn attach(&mut self, parent: ContainerId, object: Object) -> (attached: bool)
        ensures
            attached == old(self)@.live(parent),
            final(self).leaves == old(self).leaves,
            final(self).containers.len() == old(self).containers.len(),
            forall|k: int|
                0 <= k < old(self).containers.len() && k != parent.0
                    ==> final(self).containers[k] == old(self).containers[k],
            attached ==> final(self).containers[parent.0 as int] is Some,
            attached ==> old(self)@.content(parent).len() < usize::MAX,
            attached ==> final(self).containers[parent.0 as int]->0@ == (ContainerView {
                parent: old(self)@.containers[parent].parent,
                content: old(self)@.content(parent).push(object),
            }),
            !attached ==> *final(self) == *old(self),
    {
        if parent.0 >= self.containers.len() || self.containers[parent.0].is_none() {
            return false;
        }
        match &mut self.containers[parent.0] {
            Some(node) => {
                node.content.push(object);
                assert(node.content@.len() == node.content.len());
            },
            None => {},
        }
        true
    }
}

} // verus!
