use cancer_migration_sims::tree::{Node, Phylogeny, Tree};

#[test]
fn build_phylogeny() {
    let root = Node::<usize, Option<usize>, f64>::root(0, None);
    let mut tree = Phylogeny::new(root, 0.);

    let mut idx = 1;
    for _ in 0..2 {
        let leaves: Vec<_> = tree.leaves();
        for leaf in leaves {
            tree.add_child(leaf, idx, None, 0.5);
            idx += 1;
            tree.add_child(leaf, idx, None, 0.5);
            idx += 1;
        }
    }

    println!("{:#?}", tree);
    assert_eq!(tree.nodes.len(), 7);
    assert_eq!(tree.leaves(), vec![3, 4, 5, 6]);
}

#[test]
fn build_tree() {
    let leaf1 = Tree::new_leaf(1);
    let leaf2 = Tree::new_leaf(2);
    let tree = Tree::join_with_parent(0, leaf1, 0.5, leaf2, 0.7);
    println!("{:?}", tree);
    assert_eq!(tree.node, 0);
    assert_eq!(tree.children.len(), 2);
    assert_eq!(tree.children[0].0.node, 1);
    assert_eq!(tree.children[0].1, Some(0.5));
    assert_eq!(tree.children[1].0.node, 2);
    assert_eq!(tree.children[1].1, Some(0.7));
}

fn small_arena() -> Phylogeny<u32, char, f64> {
    // 0 -> 1, 0 -> 2, 1 -> 3, 0 -> 4
    let mut t = Phylogeny::new(Node::root(10, 'a'), 0.25);
    assert_eq!(t.add_child(0, 11, 'b', 1.0), 1);
    assert_eq!(t.add_child(0, 12, 'c', 2.0), 2);
    assert_eq!(t.add_child(1, 13, 'd', 3.0), 3);
    assert_eq!(t.add_child(0, 14, 'e', 4.0), 4);
    t
}

#[test]
fn add_child_links_both_ways() {
    let t = small_arena();
    assert_eq!(t.nodes.len(), 5);
    assert_eq!(t.nodes[3].parent, Some(1));
    assert_eq!(t.nodes[0].parent, None);
    assert_eq!(t.nodes[0].children, vec![(1, 1.0), (2, 2.0), (4, 4.0)]);
    assert_eq!(t.nodes[1].children, vec![(3, 3.0)]);
    assert_eq!(t.root, 0);
    assert_eq!(t.root_length, 0.25);
}

#[test]
fn edges_in_arena_order() {
    let t = small_arena();
    let e = t.edges();
    assert_eq!(e, vec![(0, 1, 1.0), (0, 2, 2.0), (0, 4, 4.0), (1, 3, 3.0)]);
    assert_eq!(e.len(), t.nodes.len() - 1);
}

#[test]
fn edges_of_root_alone_is_empty() {
    let t: Phylogeny<u8, u8, f64> = Phylogeny::new(Node::root(0, 0), 1.5);
    assert!(t.edges().is_empty());
    assert_eq!(t.leaves(), vec![0]);
}

#[test]
fn leaves_and_labelings() {
    let t = small_arena();
    assert_eq!(t.leaves(), vec![2, 3, 4]);
    assert_eq!(
        t.vertex_labels(),
        vec![(0, 'a'), (1, 'b'), (2, 'c'), (3, 'd'), (4, 'e')]
    );
    assert_eq!(t.leaf_labels(), vec![(0, 'c'), (1, 'd'), (2, 'e')]);
}

#[test]
fn update_label_keeps_the_rest() {
    let mut n: Node<u8, u8, f64> = Node::root(5, 1);
    n.update_label(9);
    assert_eq!(n.label, 9);
    assert_eq!(n.data, 5);
    assert_eq!(n.parent, None);
    assert!(n.children.is_empty());
}

#[test]
fn to_tree_nests_the_arena() {
    let t = small_arena();
    let nested = t.to_tree();
    assert_eq!(nested.node, 10);
    assert_eq!(nested.children.len(), 3);
    let (b, lb) = &nested.children[0];
    assert_eq!(*lb, Some(1.0));
    assert_eq!(b.node, 11);
    assert_eq!(b.children.len(), 1);
    assert_eq!(b.children[0].0.node, 13);
    assert_eq!(b.children[0].1, Some(3.0));
    assert!(b.children[0].0.children.is_empty());
    assert_eq!(nested.children[1].0.node, 12);
    assert_eq!(nested.children[1].1, Some(2.0));
    assert_eq!(nested.children[2].0.node, 14);
    assert_eq!(nested.children[2].1, Some(4.0));
}

#[test]
fn to_tree_of_a_deep_chain() {
    let mut t: Phylogeny<usize, u8, f64> = Phylogeny::new(Node::root(0, 0), 0.0);
    for i in 0..5_000usize {
        t.add_child(i, i + 1, 0, 1.0);
    }
    let nested = t.to_tree();
    let mut depth = 0;
    let mut cur = &nested;
    while let Some((next, _)) = cur.children.first() {
        depth += 1;
        cur = next;
    }
    assert_eq!(depth, 5_000);
    assert_eq!(cur.node, 5_000);
}
