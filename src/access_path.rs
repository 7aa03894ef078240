use vstd::prelude::*;

verus! {

/// One node of an access path.
#[derive(Debug)]
pub enum PathNode {
    /// A function argument, by its 1-based position.
    Parameter { ordinal: usize },
    /// A location reached by applying a selector (a field, an index, a dereference)
    /// to the path at index `base`.
    Qualified { base: usize, selector: String },
    /// Any other root of a path (a local, a static); it is carried through unread.
    Other { description: String },
}

/// Access paths, stored as an arena of nodes: a path is the index of its node, and a
/// qualified path points at its base, which always has a smaller index.
pub struct PathArena {
    nodes: Vec<PathNode>,
}

/// Whether every qualified node's base lies before it.
pub open spec fn acyclic(nodes: Seq<PathNode>) -> bool {
    forall|i: int|
        0 <= i < nodes.len() ==> match #[trigger] nodes[i] {
            PathNode::Qualified { base, .. } => base < i,
            _ => true,
        }
}

/// The root of the path at index `i`: the node reached by following base links until a
/// node that is not qualified.
pub open spec fn root_of(nodes: Seq<PathNode>, i: int) -> int
    decreases i,
    when 0 <= i < nodes.len() && acyclic(nodes)
{
    match nodes[i] {
        PathNode::Qualified { base, .. } => root_of(nodes, base as int),
        _ => i,
    }
}

/// The argument ordinal that a root node stands for, if it is a parameter.
pub open spec fn ordinal_of(node: PathNode) -> Option<usize> {
    match node {
        PathNode::Parameter { ordinal } => Some(ordinal),
        _ => None,
    }
}

/// Whether a node is a qualified one.
pub open spec fn is_qualified(node: PathNode) -> bool {
    node is Qualified
}

impl PathArena {
    pub closed spec fn view(&self) -> Seq<PathNode> {
        self.nodes@
    }

    pub open spec fn well_formed(&self) -> bool {
        acyclic(self@)
    }

    pub fn new() -> (r: Self)
        ensures
            r.well_formed(),
            r@.len() == 0,
    {
        PathArena { nodes: Vec::new() }
    }

    pub fn len(&self) -> (r: usize)
        ensures
            r == self@.len(),
    {
        self.nodes.len()
    }

    /// Adds the path of the argument at `ordinal` and returns its index.
    pub fn add_parameter(&mut self, ordinal: usize) -> (r: usize)
        requires
            old(self).well_formed(),
        ensures
            final(self).well_formed(),
            final(self)@ == old(self)@.push(PathNode::Parameter { ordinal }),
            r == old(self)@.len(),
    {
        let r = self.nodes.len();
        self.nodes.push(PathNode::Parameter { ordinal });
        assert(acyclic(self.nodes@));
        r
    }

    /// Adds the path reached by applying `selector` to the path at `base` and returns its
    /// index.
    pub fn add_qualified(&mut self, base: usize, selector: String) -> (r: usize)
        requires
            old(self).well_formed(),
            base < old(self)@.len(),
        ensures
            final(self).well_formed(),
            final(self)@ == old(self)@.push(PathNode::Qualified { base, selector }),
            r == old(self)@.len(),
    {
        let r = self.nodes.len();
        self.nodes.push(PathNode::Qualified { base, selector });
        assert(acyclic(self.nodes@));
        r
    }

    /// Adds a root path of another kind and returns its index.
    pub fn add_other(&mut self, description: String) -> (r: usize)
        requires
            old(self).well_formed(),
        ensures
            final(self).well_formed(),
            final(self)@ == old(self)@.push(PathNode::Other { description }),
            r == old(self)@.len(),
    {
        let r = self.nodes.len();
        self.nodes.push(PathNode::Other { description });
        assert(acyclic(self.nodes@));
        r
    }

    /// The argument ordinal of the node at `path`, if it is a parameter.
    pub fn get_ordinal(&self, path: usize) -> (r: Option<usize>)
        requires
            path < self@.len(),
        ensures
            r == ordinal_of(self@[path as int]),
    {
        match &self.nodes[path] {
            PathNode::Parameter { ordinal } => Some(*ordinal),
            _ => None,
        }
    }

    /// Follows the base links of the path at `path` to its root.
    pub fn find_root(&self, path: usize) -> (r: usize)
        requires
            self.well_formed(),
            path < self@.len(),
        ensures
            r == root_of(self@, path as int),
            r < self@.len(),
            !is_qualified(self@[r as int]),
    {
        let mut last = path;
        loop
            invariant
                acyclic(self@),
                last < self@.len(),
                root_of(self@, last as int) == root_of(self@, path as int),
            decreases last,
        {
            match &self.nodes[last] {
                PathNode::Qualified { base, .. } => {
                    assert(self@[last as int] is Qualified);
                    last = *base;
                },
                _ => {
                    return last;
                },
            }
        }
    }
}

/// The root of a root is itself.
pub proof fn lemma_root_of_root(nodes: Seq<PathNode>, i: int)
    requires
        acyclic(nodes),
        0 <= i < nodes.len(),
    ensures
        0 <= root_of(nodes, i) < nodes.len(),
        !is_qualified(nodes[root_of(nodes, i)]),
        root_of(nodes, root_of(nodes, i)) == root_of(nodes, i),
    decreases i,
{
    match nodes[i] {
        PathNode::Qualified { base, .. } => {
            lemma_root_of_root(nodes, base as int);
        },
        _ => {},
    }
}

/// Finding the root is idempotent, and two paths with the same root stand for the same
/// argument ordinal.
pub proof fn lemma_root_correlation(arena: &PathArena, p: int, q: int)
    requires
        arena.well_formed(),
        0 <= p < arena@.len(),
        0 <= q < arena@.len(),
    ensures
        root_of(arena@, root_of(arena@, p)) == root_of(arena@, p),
        root_of(arena@, p) == root_of(arena@, q) ==> ordinal_of(arena@[root_of(arena@, p)])
            == ordinal_of(arena@[root_of(arena@, q)]),
{
    lemma_root_of_root(arena@, p);
    lemma_root_of_root(arena@, q);
}

} // verus!
