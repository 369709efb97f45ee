use vstd::prelude::*;

verus! {

/// What an element of the tree may hold.
#[derive(Clone, Copy, Debug, PartialEq, Eq, Structural)]
pub enum ElementKind {
    /// An element that may have children.
    Parent,
    /// An element that never has children.
    Leaf,
}

/// Why a change of the tree was refused.
#[derive(Clone, Copy, Debug, PartialEq, Eq, Structural)]
pub enum TreeError {
    /// No element with this id is where it was looked for.
    ChildNotFound(usize),
    /// The element cannot have children.
    NoChildrenAllowed,
}

/// One element: its kind, its parent (none for the document root and for a
/// removed element) and its children in order.
#[derive(Debug)]
pub struct Node {
    pub kind: ElementKind,
    pub parent: Option<usize>,
    pub children: Vec<usize>,
}

/// `d` lies below `a`: following parents up from `d` reaches `a`.
pub open spec fn is_descendant(nodes: Seq<Node>, d: int, a: int) -> bool
    decreases d,
{
    if 0 <= d < nodes.len() {
        match nodes[d].parent {
            None => false,
            Some(p) => p == a || (p < d && is_descendant(nodes, p as int, a)),
        }
    } else {
        false
    }
}

/// The top of the tree that `d` belongs to: the ancestor without a parent.
pub open spec fn root_of(nodes: Seq<Node>, d: int) -> int
    decreases d,
{
    if 0 <= d < nodes.len() {
        match nodes[d].parent {
            Some(p) => if p < d {
                root_of(nodes, p as int)
            } else {
                d
            },
            None => d,
        }
    } else {
        d
    }
}

/// A document: the tree of its elements, kept as an arena. Elements are named by their index, and
/// parent and child relations are indices rather than references. Element 0
/// is the document itself.
pub struct Document {
    nodes: Vec<Node>,
}

impl Document {
    /// The elements, by id.
    pub closed spec fn nodes(&self) -> Seq<Node> {
        self.nodes@
    }

    /// The document exists; each parent was made before its children; the
    /// parent and child links agree; leaves have no children.
    pub open spec fn wf(&self) -> bool {
        let nodes = self.nodes();
        &&& nodes.len() >= 1
        &&& nodes.len() < usize::MAX
        &&& nodes[0].parent is None
        &&& nodes[0].kind is Parent
        &&& forall|c: int|
            #![trigger nodes[c].parent]
            0 <= c < nodes.len() && nodes[c].parent is Some ==> {
                let p = nodes[c].parent->0 as int;
                0 <= p < c && nodes[p].children@.contains(c as usize)
            }
        &&& forall|p: int|
            #![trigger nodes[p].children]
            0 <= p < nodes.len() ==> {
                &&& nodes[p].children@.no_duplicates()
                &&& nodes[p].kind is Leaf ==> nodes[p].children@.len() == 0
                &&& forall|k: int|
                    0 <= k < nodes[p].children@.len() ==> {
                        let c = #[trigger] nodes[p].children@[k] as int;
                        0 <= c < nodes.len() && nodes[c].parent == Some(p as usize)
                    }
            }
    }

    /// A document with no elements but itself.
    pub fn new() -> (t: Document)
        ensures
            t.wf(),
            t.nodes().len() == 1,
            t.nodes()[0].children@.len() == 0,
    {
        let mut nodes: Vec<Node> = Vec::new();
        nodes.push(Node { kind: ElementKind::Parent, parent: None, children: Vec::new() });
        Document { nodes }
    }

    /// Number of elements ever added, the document included.
    pub fn len(&self) -> (n: usize)
        ensures
            n == self.nodes().len(),
    {
        self.nodes.len()
    }

    /// Adds a new element of kind `kind` as the last child of `parent` and
    /// returns its id, the next free index.
    ///
    /// Fails with `ChildNotFound(parent)` if there is no such element, and
    /// with `NoChildrenAllowed` if it is a leaf.
    pub fn add_child(&mut self, parent: usize, kind: ElementKind) -> (r: Result<usize, TreeError>)
        requires
            old(self).wf(),
            old(self).nodes().len() + 1 < usize::MAX,
        ensures
            final(self).wf(),
            parent >= old(self).nodes().len() ==> r == Err::<usize, TreeError>(
                TreeError::ChildNotFound(parent),
            ) && final(self).nodes() == old(self).nodes(),
            parent < old(self).nodes().len() && old(self).nodes()[parent as int].kind is Leaf ==> r
                == Err::<usize, TreeError>(TreeError::NoChildrenAllowed) && final(self).nodes()
                == old(self).nodes(),
            parent < old(self).nodes().len() && old(self).nodes()[parent as int].kind is Parent ==> {
                let old_nodes = old(self).nodes();
                let p = old_nodes[parent as int];
                &&& r == Ok::<usize, TreeError>(old_nodes.len() as usize)
                &&& final(self).nodes().len() == old_nodes.len() + 1
                &&& forall|i: int|
                    0 <= i < old_nodes.len() && i != parent ==> #[trigger] final(self).nodes()[i]
                        == old_nodes[i]
                &&& final(self).nodes()[parent as int].kind == p.kind
                &&& final(self).nodes()[parent as int].parent == p.parent
                &&& final(self).nodes()[parent as int].children@ == p.children@.push(
                    old_nodes.len() as usize,
                )
                &&& final(self).nodes()[old_nodes.len() as int].kind == kind
                &&& final(self).nodes()[old_nodes.len() as int].parent == Some(parent)
                &&& final(self).nodes()[old_nodes.len() as int].children@.len() == 0
            },
    {
        if parent >= self.nodes.len() {
            return Err(TreeError::ChildNotFound(parent));
        }
        if matches!(self.nodes[parent].kind, ElementKind::Leaf) {
            return Err(TreeError::NoChildrenAllowed);
        }
        let id = self.nodes.len();
        let ghost old_nodes = self.nodes@;
        let mut children = self.nodes[parent].children.clone();
        assert(children@ == old_nodes[parent as int].children@);
        children.push(id);
        let node = Node { kind: self.nodes[parent].kind, parent: self.nodes[parent].parent, children };
        self.nodes.set(parent, node);
        self.nodes.push(Node { kind, parent: Some(parent), children: Vec::new() });
        proof {
            let nodes = self.nodes@;
            assert forall|c: int|
                #![trigger nodes[c].parent]
                0 <= c < nodes.len() && nodes[c].parent is Some implies {
                let q = nodes[c].parent->0 as int;
                0 <= q < c && nodes[q].children@.contains(c as usize)
            } by {
                let q = nodes[c].parent->0 as int;
                if c < id {
                    assert(old_nodes[c].parent == nodes[c].parent);
                    assert(old_nodes[q].children@.contains(c as usize));
                    if q == parent {
                        let k = choose|k: int|
                            0 <= k < old_nodes[q].children@.len() && old_nodes[q].children@[k]
                                == c as usize;
                        assert(nodes[q].children@[k] == c as usize);
                    }
                } else {
                    assert(nodes[q].children@[nodes[q].children@.len() - 1] == c as usize);
                }
            }
            assert forall|q: int|
                #![trigger nodes[q].children]
                0 <= q < nodes.len() implies {
                &&& nodes[q].children@.no_duplicates()
                &&& nodes[q].kind is Leaf ==> nodes[q].children@.len() == 0
                &&& forall|k: int|
                    0 <= k < nodes[q].children@.len() ==> {
                        let c = #[trigger] nodes[q].children@[k] as int;
                        0 <= c < nodes.len() && nodes[c].parent == Some(q as usize)
                    }
            } by {
                if q == parent {
                    let old_children = old_nodes[q].children@;
                    assert(!old_children.contains(id)) by {
                        if old_children.contains(id) {
                            let k = choose|k: int|
                                0 <= k < old_children.len() && old_children[k] == id;
                            assert(old_children[k] as int == id as int);
                        }
                    }
                    assert forall|k: int| 0 <= k < nodes[q].children@.len() implies {
                        let c = #[trigger] nodes[q].children@[k] as int;
                        0 <= c < nodes.len() && nodes[c].parent == Some(q as usize)
                    } by {
                        if k < old_children.len() {
                            assert(nodes[q].children@[k] == old_children[k]);
                        }
                    }
                } else if q < id {
                    assert(nodes[q] == old_nodes[q]);
                }
            }
        }
        Ok(id)
    }

    /// The kind of element `id`.
    pub fn kind(&self, id: usize) -> (k: ElementKind)
        requires
            id < self.nodes().len(),
        ensures
            k == self.nodes()[id as int].kind,
    {
        self.nodes[id].kind
    }

    /// The parent of element `id`: none for the document and for a removed element.
    pub fn parent(&self, id: usize) -> (p: Option<usize>)
        requires
            id < self.nodes().len(),
        ensures
            p == self.nodes()[id as int].parent,
    {
        self.nodes[id].parent
    }

    /// The children of element `id`, in order.
    pub fn children(&self, id: usize) -> (c: &Vec<usize>)
        requires
            id < self.nodes().len(),
        ensures
            c@ == self.nodes()[id as int].children@,
    {
        &self.nodes[id].children
    }

    /// Number of children of element `id`.
    pub fn child_count(&self, id: usize) -> (n: usize)
        requires
            id < self.nodes().len(),
        ensures
            n == self.nodes()[id as int].children@.len(),
    {
        self.nodes[id].children.len()
    }

    /// Whether element `id` lies anywhere below element `parent`.
    pub fn contains_id(&self, parent: usize, id: usize) -> (b: bool)
        requires
            self.wf(),
        ensures
            b == is_descendant(self.nodes(), id as int, parent as int),
    {
        if id >= self.nodes.len() {
            return false;
        }
        let mut cur = id;
        loop
            invariant
                self.wf(),
                cur < self.nodes().len(),
                is_descendant(self.nodes(), id as int, parent as int) == is_descendant(
                    self.nodes(),
                    cur as int,
                    parent as int,
                ),
            decreases cur,
        {
            assert(self.nodes()[cur as int].parent == self.nodes[cur as int].parent);
            match self.nodes[cur].parent {
                None => return false,
                Some(p) => {
                    if p == parent {
                        return true;
                    }
                    cur = p;
                },
            }
        }
    }

    /// The element `id` if it lies below element `parent`.
    pub fn get_child(&self, parent: usize, id: usize) -> (r: Option<usize>)
        requires
            self.wf(),
        ensures
            r == (if is_descendant(self.nodes(), id as int, parent as int) {
                Some(id)
            } else {
                None::<usize>
            }),
    {
        if self.contains_id(parent, id) {
            Some(id)
        } else {
            None
        }
    }

    /// The top of the tree that element `id` belongs to, found by following
    /// parents: the document, unless `id` was removed with its ancestors.
    pub fn doc(&self, id: usize) -> (r: usize)
        requires
            self.wf(),
            id < self.nodes().len(),
        ensures
            r == root_of(self.nodes(), id as int),
            self.nodes()[r as int].parent is None,
    {
        let mut cur = id;
        loop
            invariant
                self.wf(),
                cur < self.nodes().len(),
                root_of(self.nodes(), id as int) == root_of(self.nodes(), cur as int),
            decreases cur,
        {
            assert(self.nodes()[cur as int].parent == self.nodes[cur as int].parent);
            match self.nodes[cur].parent {
                None => return cur,
                Some(p) => {
                    cur = p;
                },
            }
        }
    }

    /// Detaches child `id` from element `parent`. The element and whatever
    /// lies below it stay in the arena, no longer reachable from `parent`.
    ///
    /// Fails with `ChildNotFound(id)`, changing nothing, if `id` is not a
    /// child of `parent`.
    pub fn remove_child(&mut self, parent: usize, id: usize) -> (r: Result<(), TreeError>)
        requires
            old(self).wf(),
        ensures
            final(self).wf(),
            final(self).nodes().len() == old(self).nodes().len(),
            !(parent < old(self).nodes().len() && old(self).nodes()[parent as int].children@.contains(
                id,
            )) ==> r == Err::<(), TreeError>(TreeError::ChildNotFound(id)) && final(self).nodes()
                == old(self).nodes(),
            parent < old(self).nodes().len() && old(self).nodes()[parent as int].children@.contains(
                id,
            ) ==> {
                let old_nodes = old(self).nodes();
                let old_children = old_nodes[parent as int].children@;
                &&& r is Ok
                &&& forall|i: int|
                    0 <= i < old_nodes.len() && i != parent && i != id ==> #[trigger] final(self).nodes()[i] == old_nodes[i]
                &&& final(self).nodes()[parent as int].kind == old_nodes[parent as int].kind
                &&& final(self).nodes()[parent as int].parent == old_nodes[parent as int].parent
                &&& exists|k: int|
                    0 <= k < old_children.len() && old_children[k] == id && final(self).nodes()[parent as int].children@ == old_children.remove(k)
                &&& final(self).nodes()[id as int].kind == old_nodes[id as int].kind
                &&& final(self).nodes()[id as int].parent is None
                &&& final(self).nodes()[id as int].children@ == old_nodes[id as int].children@
            },
    {
        if parent >= self.nodes.len() {
            return Err(TreeError::ChildNotFound(id));
        }
        let ghost old_nodes = self.nodes@;
        let ghost old_children = old_nodes[parent as int].children@;
        let n = self.nodes[parent].children.len();
        let mut k: usize = 0;
        while k < n && self.nodes[parent].children[k] != id
            invariant
                self.nodes@ == old_nodes,
                parent < old_nodes.len(),
                old_children == old_nodes[parent as int].children@,
                n == old_children.len(),
                k <= n,
                forall|j: int| 0 <= j < k ==> old_children[j] != id,
            decreases n - k,
        {
            k = k + 1;
        }
        if k == n {
            assert(!old_children.contains(id)) by {
                if old_children.contains(id) {
                    let j = choose|j: int| 0 <= j < old_children.len() && old_children[j] == id;
                    assert(old_children[j] != id);
                }
            }
            return Err(TreeError::ChildNotFound(id));
        }
        assert(old_children[k as int] == id);
        assert(old_nodes[parent as int].children@[k as int] == id);
        let mut children = self.nodes[parent].children.clone();
        children.remove(k);
        let node = Node { kind: self.nodes[parent].kind, parent: self.nodes[parent].parent, children };
        self.nodes.set(parent, node);
        let gone = Node {
            kind: self.nodes[id].kind,
            parent: None,
            children: self.nodes[id].children.clone(),
        };
        self.nodes.set(id, gone);
        proof {
            let nodes = self.nodes@;
            let new_children = old_children.remove(k as int);
            assert(id != parent);
            assert(nodes[parent as int].children@ == new_children);
            assert(old_nodes[id as int].parent == Some(parent));
            assert forall|c: int|
                #![trigger nodes[c].parent]
                0 <= c < nodes.len() && nodes[c].parent is Some implies {
                let q = nodes[c].parent->0 as int;
                0 <= q < c && nodes[q].children@.contains(c as usize)
            } by {
                let q = nodes[c].parent->0 as int;
                assert(c != id);
                assert(old_nodes[c].parent == nodes[c].parent);
                assert(old_nodes[q].children@.contains(c as usize));
                if q == parent {
                    let j = choose|j: int|
                        0 <= j < old_children.len() && old_children[j] == c as usize;
                    if j < k {
                        assert(new_children[j] == c as usize);
                    } else {
                        assert(j != k);
                        assert(new_children[j - 1] == c as usize);
                    }
                } else if q == id {
                    assert(nodes[q].children@ == old_nodes[q].children@);
                } else {
                    assert(nodes[q] == old_nodes[q]);
                }
            }
            assert forall|q: int|
                #![trigger nodes[q].children]
                0 <= q < nodes.len() implies {
                &&& nodes[q].children@.no_duplicates()
                &&& nodes[q].kind is Leaf ==> nodes[q].children@.len() == 0
                &&& forall|j: int|
                    0 <= j < nodes[q].children@.len() ==> {
                        let c = #[trigger] nodes[q].children@[j] as int;
                        0 <= c < nodes.len() && nodes[c].parent == Some(q as usize)
                    }
            } by {
                assert(old_nodes[q].children@.no_duplicates());
                if q == parent {
                    assert forall|a: int, b: int|
                        0 <= a < b < new_children.len() implies new_children[a] != new_children[b] by {
                        let oa = if a < k { a } else { a + 1 };
                        let ob = if b < k { b } else { b + 1 };
                        assert(new_children[a] == old_children[oa]);
                        assert(new_children[b] == old_children[ob]);
                    }
                    assert forall|j: int| 0 <= j < new_children.len() implies {
                        let c = #[trigger] new_children[j] as int;
                        0 <= c < nodes.len() && nodes[c].parent == Some(q as usize)
                    } by {
                        let oj = if j < k { j } else { j + 1 };
                        assert(new_children[j] == old_children[oj]);
                        assert(old_children[oj] != id);
                    }
                } else {
                    assert(nodes[q].children@ == old_nodes[q].children@);
                    assert forall|j: int| 0 <= j < nodes[q].children@.len() implies {
                        let c = #[trigger] nodes[q].children@[j] as int;
                        0 <= c < nodes.len() && nodes[c].parent == Some(q as usize)
                    } by {
                        let c = old_nodes[q].children@[j] as int;
                        assert(old_nodes[c].parent == Some(q as usize));
                        if c == id {
                            assert(q == parent);
                        }
                    }
                }
            }
            assert(exists|j: int|
                0 <= j < old_children.len() && old_children[j] == id && nodes[parent as int].children@
                    == old_children.remove(j)) by {
                assert(old_children[k as int] == id);
            }
        }
        Ok(())
    }
}

} // verus!
