//! The flattened ("preorder with descendant counts") encoding of a forest,
//! shared by both tree containers of the crate.
use vstd::prelude::*;

verus! {

/// The mathematical tree: a content and an ordered list of children.
pub struct TreeModel<T> {
    pub content: T,
    pub children: Seq<TreeModel<T>>,
}

/// Whether a node sequence is a valid encoding: every node is followed by
/// exactly `descendant_count` nodes of its own subtree, which never overflow
/// the enclosing sequence.
pub open spec fn well_formed<T>(nodes: Seq<(T, usize)>) -> bool
    decreases nodes.len(),
{
    if nodes.len() == 0 {
        true
    } else {
        let n = nodes[0].1 as int;
        &&& n + 1 <= nodes.len()
        &&& well_formed(nodes.subrange(1, n + 1))
        &&& well_formed(nodes.subrange(n + 1, nodes.len() as int))
    }
}

/// The forest a node sequence encodes.
pub open spec fn decode<T>(nodes: Seq<(T, usize)>) -> Seq<TreeModel<T>>
    decreases nodes.len(),
{
    if nodes.len() == 0 {
        Seq::empty()
    } else {
        let n = nodes[0].1 as int;
        if n + 1 <= nodes.len() {
            seq![TreeModel { content: nodes[0].0, children: decode(nodes.subrange(1, n + 1)) }]
                + decode(nodes.subrange(n + 1, nodes.len() as int))
        } else {
            Seq::empty()
        }
    }
}

/// The number of nodes of a forest.
pub open spec fn forest_size<T>(forest: Seq<TreeModel<T>>) -> nat
    decreases forest,
{
    if forest.len() == 0 {
        0
    } else {
        proof {
            assert(decreases_to!(forest => forest[0]));
        }
        1 + forest_size(forest[0].children) + forest_size(forest.drop_first())
    }
}


/// Concatenating two valid encodings encodes the concatenated forests.
pub proof fn lemma_concat<T>(a: Seq<(T, usize)>, b: Seq<(T, usize)>)
    requires
        well_formed(a),
        well_formed(b),
    ensures
        well_formed(a + b),
        decode(a + b) == decode(a) + decode(b),
    decreases a.len(),
{
    if a.len() == 0 {
        assert(a + b =~= b);
        assert(decode(a) + decode(b) =~= decode(b));
    } else {
        let n = a[0].1 as int;
        let ab = a + b;
        let rest = a.subrange(n + 1, a.len() as int);
        lemma_concat(rest, b);
        assert(ab.subrange(1, n + 1) =~= a.subrange(1, n + 1));
        assert(ab.subrange(n + 1, ab.len() as int) =~= rest + b);
        let first = seq![TreeModel { content: a[0].0, children: decode(a.subrange(1, n + 1)) }];
        assert(decode(a) == first + decode(rest));
        assert(decode(ab) == first + decode(rest + b));
        assert(first + (decode(rest) + decode(b)) =~= (first + decode(rest)) + decode(b));
    }
}

/// A single node followed by the encoding of its children encodes one tree.
pub proof fn lemma_single<T>(content: T, children: Seq<(T, usize)>)
    requires
        well_formed(children),
        children.len() <= usize::MAX,
    ensures
        well_formed(seq![(content, children.len() as usize)] + children),
        decode(seq![(content, children.len() as usize)] + children) == seq![
            TreeModel { content, children: decode(children) },
        ],
{
    let s = seq![(content, children.len() as usize)] + children;
    let n = children.len() as int;
    assert(s.subrange(1, n + 1) =~= children);
    assert(s.subrange(n + 1, s.len() as int) =~= Seq::<(T, usize)>::empty());
    assert(decode(Seq::<(T, usize)>::empty()) =~= Seq::<TreeModel<T>>::empty());
    assert(well_formed(Seq::<(T, usize)>::empty()));
    assert(s[0].1 as int == n);
    assert(decode(s) =~= seq![TreeModel { content, children: decode(children) }]);
}

/// The node count of an encoded forest is the length of its encoding.
pub proof fn lemma_size<T>(nodes: Seq<(T, usize)>)
    requires
        well_formed(nodes),
    ensures
        forest_size(decode(nodes)) == nodes.len(),
    decreases nodes.len(),
{
    if nodes.len() > 0 {
        let n = nodes[0].1 as int;
        let children = nodes.subrange(1, n + 1);
        let rest = nodes.subrange(n + 1, nodes.len() as int);
        lemma_size(children);
        lemma_size(rest);
        let f = decode(nodes);
        assert(f[0].children == decode(children));
        assert(f.drop_first() =~= decode(rest));
    }
}


/// A valid encoding is empty exactly when its forest is, and otherwise
/// splits into its first tree and the encoding of the remaining trees.
pub proof fn lemma_first<T>(nodes: Seq<(T, usize)>)
    requires
        well_formed(nodes),
    ensures
        (decode(nodes).len() == 0) == (nodes.len() == 0),
        nodes.len() > 0 ==> ({
            let n = nodes[0].1 as int;
            &&& n + 1 <= nodes.len()
            &&& well_formed(nodes.subrange(1, n + 1))
            &&& well_formed(nodes.subrange(n + 1, nodes.len() as int))
            &&& decode(nodes)[0] == TreeModel {
                content: nodes[0].0,
                children: decode(nodes.subrange(1, n + 1)),
            }
            &&& decode(nodes).drop_first() == decode(nodes.subrange(n + 1, nodes.len() as int))
        }),
{
    if nodes.len() > 0 {
        let n = nodes[0].1 as int;
        let f = decode(nodes);
        assert(f.drop_first() =~= decode(nodes.subrange(n + 1, nodes.len() as int)));
    }
}

} // verus!
