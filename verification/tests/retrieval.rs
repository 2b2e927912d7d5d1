use irkle::node::Node;
use irkle::tree::Tree;

const TEST_DATA: &[u8] = b"hello world";

fn b3(bytes: &[u8]) -> [u8; 32] {
    *blake3::hash(bytes).as_bytes()
}

#[test]
fn odd_tree() {
    let hash = b3(TEST_DATA);

    // duped
    let hash_node = Node::new_leaf(hash, hash);
    let data_node = Node::new_data(TEST_DATA.to_vec());

    // unique
    let top_node = Node::new_leaf(hash_node.hash, hash_node.hash);
    let padding_node = Node::new_padding();

    let tree = Tree {
        data: vec![],
        inner: vec![
            top_node.clone(),
            hash_node.clone(),
            hash_node.clone(),
            data_node.clone(),
            data_node.clone(),
            data_node.clone(),
            padding_node.clone(),
        ],
    };

    // children
    assert_eq!(tree.left(0), Some((1, &hash_node)));
    assert_eq!(tree.right(0), Some((2, &hash_node)));
    assert_eq!(tree.left(1), Some((3, &data_node)));
    assert_eq!(tree.right(1), Some((4, &data_node)));
    assert_eq!(tree.left(2), Some((5, &data_node)));
    assert_eq!(tree.right(2), Some((6, &padding_node)));

    // parent
    assert_eq!(tree.parent(1), Some((0, &top_node)));
    assert_eq!(tree.parent(2), Some((0, &top_node)));
    assert_eq!(tree.parent(3), Some((1, &hash_node)));
    assert_eq!(tree.parent(4), Some((1, &hash_node)));
    assert_eq!(tree.parent(5), Some((2, &hash_node)));
    assert_eq!(tree.parent(6), Some((2, &hash_node)));
}

#[test]
fn parent_ref() {
    let hash = b3(TEST_DATA);

    let hash_node = Node::new_leaf(hash, hash);
    let data_node = Node::new_data(TEST_DATA.to_vec());

    let tree = Tree {
        data: vec![],
        inner: vec![hash_node.clone(), data_node.clone(), data_node.clone()],
    };

    assert_eq!(tree.parent(0), None);
    assert_eq!(tree.parent(1), Some((0, &hash_node)));
    assert_eq!(tree.parent(2), Some((0, &hash_node)));
}

#[test]
fn children_ref() {
    let hash = b3(TEST_DATA);

    let hash_node = Node::new_leaf(hash, hash);
    let data_node = Node::new_data(TEST_DATA.to_vec());

    let tree = Tree {
        data: vec![],
        inner: vec![hash_node.clone(), data_node.clone(), data_node.clone()],
    };

    // left of get
    assert_eq!(tree.left(0), Some((1, &data_node)));
    assert_eq!(tree.left(1), None);
    assert_eq!(tree.left(2), None);

    // right of get
    assert_eq!(tree.right(0), Some((2, &data_node)));
    assert_eq!(tree.right(1), None);
    assert_eq!(tree.right(2), None);
}

#[test]
fn parent_mut() {
    let hash = b3(TEST_DATA);

    let mut hash_node = Node::new_leaf(hash, hash);
    let data_node = Node::new_data(TEST_DATA.to_vec());

    let mut tree = Tree {
        data: vec![],
        inner: vec![hash_node.clone(), data_node.clone(), data_node.clone()],
    };

    assert_eq!(tree.parent_mut(0), None);
    assert_eq!(tree.parent_mut(1), Some((0, &mut hash_node)));
    assert_eq!(tree.parent_mut(2), Some((0, &mut hash_node)));
}

#[test]
fn children_mut() {
    let hash = b3(TEST_DATA);

    let hash_node = Node::new_leaf(hash, hash);
    let mut data_node = Node::new_data(TEST_DATA.to_vec());

    let mut tree = Tree {
        data: vec![],
        inner: vec![hash_node.clone(), data_node.clone(), data_node.clone()],
    };

    // left of get
    assert_eq!(tree.left_mut(0), Some((1, &mut data_node)));
    assert_eq!(tree.left_mut(1), None);
    assert_eq!(tree.left_mut(2), None);

    // right of get
    assert_eq!(tree.right_mut(0), Some((2, &mut data_node)));
    assert_eq!(tree.right_mut(1), None);
    assert_eq!(tree.right_mut(2), None);
}

#[test]
fn out_of_range_is_absent() {
    let hash = b3(TEST_DATA);
    let hash_node = Node::new_leaf(hash, hash);
    let data_node = Node::new_data(TEST_DATA.to_vec());

    let mut tree = Tree {
        data: vec![1, 2, 9],
        inner: vec![hash_node.clone(), data_node.clone(), data_node.clone()],
    };

    assert_eq!(tree.parent(3), Some((1, &data_node)));
    assert_eq!(tree.parent(6), Some((2, &data_node)));
    assert_eq!(tree.parent(7), None);
    assert_eq!(tree.parent(usize::MAX), None);
    assert_eq!(tree.left(3), None);
    assert_eq!(tree.right(3), None);
    assert_eq!(tree.left(usize::MAX), None);
    assert_eq!(tree.right(usize::MAX), None);
    assert_eq!(tree.left(usize::MAX / 2), None);
    assert_eq!(tree.right(usize::MAX / 2), None);
    assert_eq!(tree.parent_mut(usize::MAX), None);
    assert_eq!(tree.left_mut(usize::MAX), None);
    assert_eq!(tree.right_mut(usize::MAX), None);

    assert_eq!(tree.lookup_data(0), Some(&data_node));
    assert_eq!(tree.lookup_data(1), Some(&data_node));
    assert_eq!(tree.lookup_data(2), None);
    assert_eq!(tree.lookup_data(3), None);
    assert_eq!(tree.lookup_data(usize::MAX), None);
}

#[test]
fn leaf_without_children_in_the_array() {
    let hash = b3(TEST_DATA);
    let hash_node = Node::new_leaf(hash, hash);
    let data_node = Node::new_data(TEST_DATA.to_vec());

    let lone = Tree { data: vec![], inner: vec![hash_node.clone()] };
    assert_eq!(lone.left(0), None);
    assert_eq!(lone.right(0), None);
    assert!(!lone.is_well_formed());

    let half = Tree { data: vec![], inner: vec![hash_node.clone(), data_node.clone()] };
    assert_eq!(half.left(0), Some((1, &data_node)));
    assert_eq!(half.right(0), None);
    assert!(!half.is_well_formed());

    let empty = Tree { data: vec![], inner: vec![] };
    assert_eq!(empty.parent(1), None);
    assert_eq!(empty.left(0), None);
    assert!(!empty.is_well_formed());

    let whole = Tree {
        data: vec![],
        inner: vec![hash_node.clone(), data_node.clone(), data_node.clone()],
    };
    assert!(whole.is_well_formed());
}

#[test]
fn changing_a_node_in_place() {
    let hash = b3(TEST_DATA);
    let hash_node = Node::new_leaf(hash, hash);
    let data_node = Node::new_data(TEST_DATA.to_vec());

    let mut tree = Tree {
        data: vec![1, 2],
        inner: vec![hash_node.clone(), data_node.clone(), data_node.clone()],
    };

    match tree.right_mut(0) {
        Some((pos, node)) => {
            assert_eq!(pos, 2);
            node.hash = [9; 32];
        }
        None => panic!("the root has a right child"),
    }
    assert_eq!(tree.inner[0], hash_node);
    assert_eq!(tree.inner[1], data_node);
    assert_eq!(tree.inner[2].hash, [9; 32]);
    assert_eq!(tree.inner[2].inner, data_node.inner);
    assert_eq!(tree.data, vec![1, 2]);

    match tree.parent_mut(2) {
        Some((pos, node)) => {
            assert_eq!(pos, 0);
            node.hash = [3; 32];
        }
        None => panic!("position 2 has a parent"),
    }
    assert_eq!(tree.get_hash(), [3; 32]);
    assert_eq!(tree.inner.len(), 3);
}

#[test]
fn parent_of_child_is_the_node() {
    let payloads: Vec<Vec<u8>> = (0u8..11).map(|k| vec![k; 3]).collect();
    let tree = match Tree::new(payloads) {
        Ok(tree) => tree,
        Err(_) => panic!("payloads were given"),
    };
    let mut interior = 0;
    for i in 0..tree.inner.len() {
        if let Some((child, _)) = tree.left(i) {
            assert_eq!(child, 2 * i + 1);
            assert_eq!(tree.parent(child).map(|found| found.0), Some(i));
            interior += 1;
        }
        if let Some((child, _)) = tree.right(i) {
            assert_eq!(child, 2 * i + 2);
            assert_eq!(tree.parent(child).map(|found| found.0), Some(i));
        }
    }
    assert_eq!(interior, 1 + 2 + 3 + 6);
}
