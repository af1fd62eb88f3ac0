//! A forest stored as one flat vector of `(content, descendant count)` pairs
//! in preorder; a tree and all its descendants form a contiguous run.
use crate::forest::{
    decode, forest_size, lemma_concat, lemma_first, lemma_single, lemma_size, well_formed,
};
use vstd::prelude::*;

pub use crate::forest::TreeModel;

verus! {

/// An owned tree: a content and its children.
#[derive(Clone, PartialEq, Eq, Hash, Debug)]
pub struct Tree<T> {
    pub content: T,
    pub children: TreeVec<T>,
}

impl<T> View for Tree<T> {
    type V = TreeModel<T>;

    open spec fn view(&self) -> TreeModel<T> {
        TreeModel { content: self.content, children: self.children@ }
    }
}

impl<T> Tree<T> {
    /// A tree without children.
    pub fn new(content: T) -> (tree: Self)
        ensures
            tree@ == (TreeModel { content, children: Seq::<TreeModel<T>>::empty() }),
    {
        Self { content, children: TreeVec::new() }
    }

    /// A tree with the given children.
    pub fn with_children(content: T, children: TreeVec<T>) -> (tree: Self)
        ensures
            tree@ == (TreeModel { content, children: children@ }),
    {
        Self { content, children }
    }

    /// The forest made of this tree alone.
    pub fn into_tree_vec(self) -> (tree_vec: TreeVec<T>)
        ensures
            tree_vec@ == seq![self@],
    {
        proof {
            use_type_invariant(&self.children);
        }
        let Self { content, children } = self;
        let ghost child_nodes = children.nodes();
        let TreeVec(mut children) = children;
        let count = children.len();
        let mut vec: Vec<(T, usize)> = Vec::new();
        vec.push((content, count));
        vec.append(&mut children);
        proof {
            assert(vec@ =~= seq![(content, count)] + child_nodes);
            lemma_single(content, child_nodes);
        }
        TreeVec(vec)
    }
}

/// A borrowed tree: its content and the forest of its children.
pub struct TreeRef<'a, T> {
    pub content: &'a T,
    pub children: TreeSlice<'a, T>,
}

impl<'a, T> View for TreeRef<'a, T> {
    type V = TreeModel<T>;

    open spec fn view(&self) -> TreeModel<T> {
        TreeModel { content: *self.content, children: self.children@ }
    }
}

/// An owned forest, stored flat.
#[derive(PartialEq, Eq, Hash, Debug)]
pub struct TreeVec<T>(Vec<(T, usize)>);

impl<T> TreeVec<T> {
    /// The flat node sequence.
    pub closed spec fn nodes(&self) -> Seq<(T, usize)> {
        self.0@
    }

    #[verifier::type_invariant]
    closed spec fn inv(&self) -> bool {
        well_formed(self.0@)
    }
}

impl<T> View for TreeVec<T> {
    type V = Seq<TreeModel<T>>;

    closed spec fn view(&self) -> Seq<TreeModel<T>> {
        decode(self.0@)
    }
}

impl<T> Default for TreeVec<T> {
    fn default() -> (tree_vec: Self)
        ensures
            tree_vec@ == Seq::<TreeModel<T>>::empty(),
    {
        Self::new()
    }
}

impl<T: Clone> Clone for TreeVec<T> {
    /// A copy of the forest with every content cloned.
    fn clone(&self) -> (tree_vec: Self)
        ensures
            tree_vec.nodes().len() == self.nodes().len(),
            forall|i: int|
                0 <= i < self.nodes().len() ==> #[trigger] tree_vec.nodes()[i].1
                    == self.nodes()[i].1 && cloned(self.nodes()[i].0, tree_vec.nodes()[i].0),
            tree_vec@.len() == self@.len(),
            (forall|i: int|
                0 <= i < self.nodes().len() ==> #[trigger] tree_vec.nodes()[i].0
                    == self.nodes()[i].0) ==> tree_vec@ == self@,
    {
        let copy = self.as_tree_slice().to_tree_vec();
        proof {
            lemma_decode_same_shape(self.nodes(), copy.nodes());
            if forall|i: int|
                0 <= i < self.nodes().len() ==> #[trigger] copy.nodes()[i].0 == self.nodes()[i].0 {
                assert forall|i: int| 0 <= i < self.nodes().len() implies copy.nodes()[i]
                    == self.nodes()[i] by {
                    assert(copy.nodes()[i].0 == self.nodes()[i].0);
                    assert(copy.nodes()[i].1 == self.nodes()[i].1);
                }
                assert(copy.nodes() =~= self.nodes());
            }
        }
        copy
    }
}

impl<T> TreeVec<T> {
    /// An empty forest.
    pub fn new() -> (tree_vec: Self)
        ensures
            tree_vec@ == Seq::<TreeModel<T>>::empty(),
            tree_vec.nodes().len() == 0,
    {
        Self(Vec::new())
    }

    /// An empty forest with room for `capacity` nodes.
    pub fn with_capacity(capacity: usize) -> (tree_vec: Self)
        ensures
            tree_vec@ == Seq::<TreeModel<T>>::empty(),
            tree_vec.nodes().len() == 0,
    {
        Self(Vec::with_capacity(capacity))
    }

    /// Adds a tree at the end of the forest.
    pub fn push(&mut self, tree: Tree<T>)
        ensures
            final(self)@ == old(self)@.push(tree@),
            final(self).nodes().len() == old(self).nodes().len() + 1 + tree.children.nodes().len(),
    {
        proof {
            use_type_invariant(&*self);
            use_type_invariant(&tree.children);
        }
        let ghost old_nodes = self.nodes();
        let Tree { content, children } = tree;
        let ghost child_nodes = children.nodes();
        let TreeVec(mut child_vec) = children;
        let count = child_vec.len();
        let mut vec: Vec<(T, usize)> = Vec::new();
        std::mem::swap(&mut vec, &mut self.0);
        vec.push((content, count));
        vec.append(&mut child_vec);
        proof {
            assert(vec@ =~= old_nodes + (seq![(content, count)] + child_nodes));
            lemma_single(content, child_nodes);
            lemma_concat(old_nodes, seq![(content, count)] + child_nodes);
        }
        self.0 = vec;
    }

    /// Moves all trees of `other` to the end of this forest, leaving `other`
    /// empty.
    pub fn append(&mut self, other: &mut Self)
        ensures
            final(self)@ == old(self)@ + old(other)@,
            final(other)@ == Seq::<TreeModel<T>>::empty(),
    {
        proof {
            use_type_invariant(&*self);
            use_type_invariant(&*other);
        }
        let ghost a = self.nodes();
        let ghost b = other.nodes();
        let mut vec: Vec<(T, usize)> = Vec::new();
        std::mem::swap(&mut vec, &mut self.0);
        let mut other_vec: Vec<(T, usize)> = Vec::new();
        std::mem::swap(&mut other_vec, &mut other.0);
        vec.append(&mut other_vec);
        proof {
            lemma_concat(a, b);
        }
        self.0 = vec;
    }

    /// The first tree of the forest, dropping the rest.
    pub fn into_first(self) -> (first: Option<Tree<T>>)
        ensures
            match first {
                None => self@.len() == 0,
                Some(first) => self@.len() > 0 && first@ == self@[0],
            },
    {
        proof {
            use_type_invariant(&self);
            lemma_first(self.0@);
        }
        let ghost whole = self.0@;
        let TreeVec(mut vec) = self;
        if vec.len() == 0 {
            None
        } else {
            let (content, count) = vec.remove(0);
            vec.truncate(count);
            proof {
                assert(vec@ =~= whole.subrange(1, count + 1));
            }
            Some(Tree { content, children: Self(vec) })
        }
    }

    /// Splits off the first tree of the forest.
    pub fn into_first_and_rest(self) -> (split: Option<(Tree<T>, Self)>)
        ensures
            match split {
                None => self@.len() == 0,
                Some((first, rest)) => self@.len() > 0 && first@ == self@[0] && rest@
                    == self@.drop_first(),
            },
    {
        proof {
            use_type_invariant(&self);
            lemma_first(self.0@);
        }
        let ghost whole = self.0@;
        let TreeVec(mut vec) = self;
        if vec.len() == 0 {
            None
        } else {
            let (content, count) = vec.remove(0);
            let rest = vec.split_off(count);
            proof {
                let n = count as int;
                assert(vec@ =~= whole.subrange(1, n + 1));
                assert(rest@ =~= whole.subrange(n + 1, whole.len() as int));
            }
            let tree = Tree { content, children: Self(vec) };
            Some((tree, Self(rest)))
        }
    }

    /// The forest as a borrowed slice.
    pub fn as_tree_slice(&self) -> (slice: TreeSlice<'_, T>)
        ensures
            slice@ == self@,
            slice.nodes() == self.nodes(),
    {
        proof {
            use_type_invariant(self);
        }
        TreeSlice(self.0.as_slice())
    }

    /// Whether the forest has no tree.
    pub fn is_empty(&self) -> (empty: bool)
        ensures
            empty == (self@.len() == 0),
    {
        self.as_tree_slice().is_empty()
    }

    /// The number of trees (not nodes) of the forest.
    pub fn len(&self) -> (len: usize)
        ensures
            len == self@.len(),
    {
        self.as_tree_slice().len()
    }

    /// The number of nodes of the forest.
    pub fn total(&self) -> (total: usize)
        ensures
            total == forest_size(self@),
    {
        self.as_tree_slice().total()
    }

    /// An iterator over the trees of the forest.
    pub fn iter(&self) -> (iter: Iter<'_, T>)
        ensures
            iter@ == self@,
    {
        self.as_tree_slice().iter()
    }

    /// The first tree of the forest.
    pub fn first(&self) -> (first: Option<TreeRef<'_, T>>)
        ensures
            match first {
                None => self@.len() == 0,
                Some(first) => self@.len() > 0 && first@ == self@[0],
            },
    {
        self.as_tree_slice().first()
    }

    /// A by-value iterator over the trees of the forest.
    pub fn into_iter(self) -> (iter: IntoIter<T>)
        ensures
            iter@ == self@,
    {
        IntoIter(self)
    }
}

/// A borrowed forest: a valid run of nodes of some tree vector.
pub struct TreeSlice<'a, T>(&'a [(T, usize)]);

impl<'a, T> TreeSlice<'a, T> {
    /// The flat node sequence.
    pub closed spec fn nodes(&self) -> Seq<(T, usize)> {
        self.0@
    }

    #[verifier::type_invariant]
    closed spec fn inv(&self) -> bool {
        well_formed(self.0@)
    }
}

impl<'a, T> View for TreeSlice<'a, T> {
    type V = Seq<TreeModel<T>>;

    closed spec fn view(&self) -> Seq<TreeModel<T>> {
        decode(self.0@)
    }
}

/// Splits a valid run of nodes into its first tree and the remaining run.
fn split_first<'a, T>(slice: &'a [(T, usize)]) -> (split: Option<(TreeRef<'a, T>, &'a [(T, usize)])>)
    requires
        well_formed(slice@),
    ensures
        match split {
            None => slice@.len() == 0,
            Some((first, rest)) => {
                &&& slice@.len() > 0
                &&& first@ == decode(slice@)[0]
                &&& well_formed(rest@)
                &&& decode(rest@) == decode(slice@).drop_first()
                &&& rest@.len() < slice@.len()
            },
        },
{
    proof {
        lemma_first(slice@);
    }
    if slice.len() == 0 {
        None
    } else {
        let (head, tail) = slice.split_at(1);
        let node = &head[0];
        let count = node.1;
        let (children, rest) = tail.split_at(count);
        proof {
            let n = count as int;
            assert(children@ =~= slice@.subrange(1, n + 1));
            assert(rest@ =~= slice@.subrange(n + 1, slice@.len() as int));
        }
        let view = TreeRef { content: &node.0, children: TreeSlice(children) };
        Some((view, rest))
    }
}

impl<'a, T> TreeSlice<'a, T> {
    /// Whether the forest has no tree.
    pub fn is_empty(&self) -> (empty: bool)
        ensures
            empty == (self@.len() == 0),
    {
        proof {
            use_type_invariant(self);
            lemma_first(self.0@);
        }
        self.0.len() == 0
    }

    /// The number of trees (not nodes) of the forest.
    pub fn len(&self) -> (len: usize)
        ensures
            len == self@.len(),
    {
        proof {
            use_type_invariant(self);
        }
        let mut rest: &[(T, usize)] = self.0;
        let mut count: usize = 0;
        let total = self.0.len();
        loop
            invariant
                well_formed(rest@),
                count + decode(rest@).len() == self@.len(),
                count + rest@.len() <= total,
            decreases rest@.len(),
        {
            match split_first(rest) {
                None => {
                    proof {
                        lemma_first(rest@);
                    }
                    return count;
                },
                Some((_, tail)) => {
                    count = count + 1;
                    rest = tail;
                },
            }
        }
    }

    /// The number of nodes of the forest.
    pub fn total(&self) -> (total: usize)
        ensures
            total == forest_size(self@),
            total == self.nodes().len(),
    {
        proof {
            use_type_invariant(self);
            lemma_size(self.0@);
        }
        self.0.len()
    }

    /// An iterator over the trees of the forest.
    pub fn iter(&self) -> (iter: Iter<'a, T>)
        ensures
            iter@ == self@,
    {
        proof {
            use_type_invariant(self);
        }
        Iter(self.0)
    }

    /// The first tree and the remaining trees of the forest.
    pub fn first_and_rest(&self) -> (split: Option<(TreeRef<'a, T>, TreeSlice<'a, T>)>)
        ensures
            match split {
                None => self@.len() == 0,
                Some((first, rest)) => self@.len() > 0 && first@ == self@[0] && rest@
                    == self@.drop_first(),
            },
    {
        proof {
            use_type_invariant(self);
        }
        match split_first(self.0) {
            None => None,
            Some((first, rest)) => Some((first, TreeSlice(rest))),
        }
    }

    /// The first tree of the forest.
    pub fn first(&self) -> (first: Option<TreeRef<'a, T>>)
        ensures
            match first {
                None => self@.len() == 0,
                Some(first) => self@.len() > 0 && first@ == self@[0],
            },
    {
        match self.first_and_rest() {
            None => None,
            Some((first, _)) => Some(first),
        }
    }

    /// An owned copy of the forest, each content cloned.
    pub fn to_tree_vec(&self) -> (tree_vec: TreeVec<T>) where T: Clone
        ensures
            tree_vec.nodes().len() == self.nodes().len(),
            forall|i: int|
                0 <= i < self.nodes().len() ==> #[trigger] tree_vec.nodes()[i].1
                    == self.nodes()[i].1 && cloned(self.nodes()[i].0, tree_vec.nodes()[i].0),
    {
        proof {
            use_type_invariant(self);
        }
        let mut vec: Vec<(T, usize)> = Vec::with_capacity(self.0.len());
        let mut i: usize = 0;
        while i < self.0.len()
            invariant
                i <= self.0@.len(),
                vec@.len() == i,
                well_formed(self.0@),
                forall|k: int|
                    0 <= k < i ==> #[trigger] vec@[k].1 == self.0@[k].1 && cloned(
                        self.0@[k].0,
                        vec@[k].0,
                    ),
            decreases self.0@.len() - i,
        {
            let node = &self.0[i];
            let content = node.0.clone();
            vec.push((content, node.1));
            i = i + 1;
        }
        proof {
            lemma_same_shape(self.0@, vec@);
        }
        TreeVec(vec)
    }
}

/// Two node sequences with the same descendant counts are valid together.
proof fn lemma_same_shape<T>(a: Seq<(T, usize)>, b: Seq<(T, usize)>)
    requires
        well_formed(a),
        a.len() == b.len(),
        forall|i: int| 0 <= i < a.len() ==> #[trigger] a[i].1 == b[i].1,
    ensures
        well_formed(b),
    decreases a.len(),
{
    if a.len() > 0 {
        let n = a[0].1 as int;
        let (a1, b1) = (a.subrange(1, n + 1), b.subrange(1, n + 1));
        let (a2, b2) = (a.subrange(n + 1, a.len() as int), b.subrange(n + 1, b.len() as int));
        assert forall|i: int| 0 <= i < a1.len() implies #[trigger] a1[i].1 == b1[i].1 by {
            assert(a1[i] == a[i + 1] && b1[i] == b[i + 1]);
        }
        assert forall|i: int| 0 <= i < a2.len() implies #[trigger] a2[i].1 == b2[i].1 by {
            assert(a2[i] == a[i + n + 1] && b2[i] == b[i + n + 1]);
        }
        lemma_same_shape(a1, b1);
        lemma_same_shape(a2, b2);
    }
}

/// Two node sequences with the same descendant counts encode as many trees.
proof fn lemma_decode_same_shape<T>(a: Seq<(T, usize)>, b: Seq<(T, usize)>)
    requires
        a.len() == b.len(),
        forall|i: int| 0 <= i < a.len() ==> #[trigger] a[i].1 == b[i].1,
    ensures
        decode(a).len() == decode(b).len(),
    decreases a.len(),
{
    if a.len() > 0 {
        let n = a[0].1 as int;
        if n + 1 <= a.len() {
            let (a2, b2) = (a.subrange(n + 1, a.len() as int), b.subrange(n + 1, b.len() as int));
            assert forall|i: int| 0 <= i < a2.len() implies #[trigger] a2[i].1 == b2[i].1 by {
                assert(a2[i] == a[i + n + 1] && b2[i] == b[i + n + 1]);
            }
            lemma_decode_same_shape(a2, b2);
        }
    }
}

/// A forest has at most as many trees as nodes.
proof fn lemma_trees_at_most_nodes<T>(nodes: Seq<(T, usize)>)
    requires
        well_formed(nodes),
    ensures
        decode(nodes).len() <= nodes.len(),
    decreases nodes.len(),
{
    lemma_first(nodes);
    if nodes.len() > 0 {
        let n = nodes[0].1 as int;
        lemma_trees_at_most_nodes(nodes.subrange(n + 1, nodes.len() as int));
    }
}

/// An iterator over the trees of a borrowed forest.
pub struct Iter<'a, T>(&'a [(T, usize)]);

impl<'a, T> Iter<'a, T> {
    #[verifier::type_invariant]
    closed spec fn inv(&self) -> bool {
        well_formed(self.0@)
    }
}

impl<'a, T> View for Iter<'a, T> {
    type V = Seq<TreeModel<T>>;

    /// The trees not yet yielded.
    closed spec fn view(&self) -> Seq<TreeModel<T>> {
        decode(self.0@)
    }
}

impl<'a, T> Iter<'a, T> {
    /// Yields the next tree.
    pub fn next(&mut self) -> (next: Option<TreeRef<'a, T>>)
        ensures
            match next {
                None => old(self)@.len() == 0 && final(self)@ == old(self)@,
                Some(tree) => old(self)@.len() > 0 && tree@ == old(self)@[0] && final(self)@
                    == old(self)@.drop_first(),
            },
    {
        proof {
            use_type_invariant(&*self);
        }
        match split_first(self.0) {
            None => None,
            Some((first, rest)) => {
                self.0 = rest;
                Some(first)
            },
        }
    }

    /// Bounds on the number of trees left: at least one when any node is
    /// left, and at most the number of nodes left.
    pub fn size_hint(&self) -> (hint: (usize, Option<usize>))
        ensures
            hint.0 <= self@.len(),
            hint.1 is Some,
            self@.len() <= hint.1->0,
            hint.0 == if self@.len() == 0 { 0usize } else { 1usize },
    {
        proof {
            use_type_invariant(self);
            lemma_first(self.0@);
            lemma_trees_at_most_nodes(self.0@);
        }
        let len = self.0.len();
        (if len < 1 { len } else { 1 }, Some(len))
    }
}

/// A by-value iterator over the trees of a forest.
pub struct IntoIter<T>(TreeVec<T>);

impl<T> View for IntoIter<T> {
    type V = Seq<TreeModel<T>>;

    /// The trees not yet yielded.
    closed spec fn view(&self) -> Seq<TreeModel<T>> {
        self.0@
    }
}

impl<T> IntoIter<T> {
    /// Yields the next tree.
    pub fn next(&mut self) -> (next: Option<Tree<T>>)
        ensures
            match next {
                None => old(self)@.len() == 0 && final(self)@ == old(self)@,
                Some(tree) => old(self)@.len() > 0 && tree@ == old(self)@[0] && final(self)@
                    == old(self)@.drop_first(),
            },
    {
        let mut forest = TreeVec::new();
        std::mem::swap(&mut forest, &mut self.0);
        match forest.into_first_and_rest() {
            None => {
                self.0 = TreeVec::new();
                None
            },
            Some((first, rest)) => {
                self.0 = rest;
                Some(first)
            },
        }
    }

    /// Bounds on the number of trees left: at least one when any tree is
    /// left, and at most the number of nodes left.
    pub fn size_hint(&self) -> (hint: (usize, Option<usize>))
        ensures
            hint.0 <= self@.len(),
            hint.1 is Some,
            self@.len() <= hint.1->0,
            hint.0 == if self@.len() == 0 { 0usize } else { 1usize },
    {
        let len = self.0.total();
        proof {
            use_type_invariant(&self.0);
            lemma_size(self.0.nodes());
            lemma_first(self.0.nodes());
            lemma_trees_at_most_nodes(self.0.nodes());
        }
        (if len < 1 { len } else { 1 }, Some(len))
    }
}

} // verus!
