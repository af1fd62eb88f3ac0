use butter::tree_vec::{Tree, TreeVec};

fn leaf(content: i32) -> Tree<i32> {
    Tree::new(content)
}

fn forest(trees: Vec<Tree<i32>>) -> TreeVec<i32> {
    let mut tree_vec = TreeVec::new();
    for tree in trees {
        tree_vec.push(tree);
    }
    tree_vec
}

fn sample() -> TreeVec<i32> {
    forest(vec![
        Tree::with_children(
            7,
            forest(vec![
                leaf(2),
                leaf(10),
                Tree::with_children(6, forest(vec![leaf(5), leaf(11)])),
            ]),
        ),
        leaf(5),
    ])
}

#[test]
fn tree_vec_tree_vec() {
    let tree_vec = sample();
    let mut iter = tree_vec.iter();
    let tree = iter.next().unwrap();
    assert_eq!(*tree.content, 7);
    {
        let mut iter = tree.children.iter();
        let tree = iter.next().unwrap();
        assert_eq!(*tree.content, 2);
        assert!(tree.children.is_empty());
        let tree = iter.next().unwrap();
        assert_eq!(*tree.content, 10);
        assert!(tree.children.is_empty());
        let tree = iter.next().unwrap();
        assert_eq!(*tree.content, 6);
        {
            let mut iter = tree.children.iter();
            let tree = iter.next().unwrap();
            assert_eq!(*tree.content, 5);
            assert!(tree.children.is_empty());
            let tree = iter.next().unwrap();
            assert_eq!(*tree.content, 11);
            assert!(tree.children.is_empty());
            assert!(iter.next().is_none());
        }
        assert!(iter.next().is_none());
    }
    let tree = iter.next().unwrap();
    assert_eq!(*tree.content, 5);
    assert!(tree.children.is_empty());
    assert!(iter.next().is_none());
}

#[test]
fn tree_vec_counts() {
    let tree_vec = sample();
    assert_eq!(tree_vec.len(), 2);
    assert_eq!(tree_vec.total(), 7);
    assert!(!tree_vec.is_empty());
    assert!(TreeVec::<i32>::new().is_empty());
}

#[test]
fn tree_vec_first_and_rest() {
    let tree_vec = sample();
    let (first, rest) = tree_vec.clone().into_first_and_rest().unwrap();
    assert_eq!(first.content, 7);
    assert_eq!(first.children.len(), 3);
    assert_eq!(rest.len(), 1);
    let mut rebuilt = TreeVec::new();
    rebuilt.push(first);
    let mut rest = rest;
    rebuilt.append(&mut rest);
    assert!(rest.is_empty());
    assert_eq!(rebuilt, tree_vec);
    let first = tree_vec.into_first().unwrap();
    assert_eq!(first.children.total(), 5);
}

#[test]
fn tree_vec_into_iter() {
    let mut iter = sample().into_iter();
    assert_eq!(iter.size_hint(), (1, Some(7)));
    assert_eq!(iter.next().unwrap().content, 7);
    assert_eq!(iter.next().unwrap().content, 5);
    assert!(iter.next().is_none());
    assert_eq!(iter.size_hint(), (0, Some(0)));
}
