use irkle::node::{Node, NodeInner};
use irkle::tree::Tree;
use irkle::verify::Mismatch;

const HELLO: &str = "hello";

fn b3(bytes: &[u8]) -> [u8; 32] {
    *blake3::hash(bytes).as_bytes()
}

fn b3_pair(left: &[u8; 32], right: &[u8; 32]) -> [u8; 32] {
    b3(&[&left[..], &right[..]].concat())
}

fn build(texts: &[&str]) -> Tree {
    match Tree::new(texts.iter().map(|text| text.as_bytes().to_vec()).collect()) {
        Ok(tree) => tree,
        Err(_) => panic!("payloads were given"),
    }
}

#[test]
fn data_verification() {
    let mut test_struct = build(&[HELLO]);
    assert!(test_struct.verify().is_ok());

    test_struct.inner[0].hash = b3(b"fknrejnfjrenf");
    assert!(test_struct.verify().is_err());
    assert_eq!(
        test_struct.verify(),
        Err(Mismatch { position: 0, expected: b3(HELLO.as_bytes()), found: b3(b"fknrejnfjrenf") })
    );
}

#[test]
fn verify_ok() {
    let node = build(&[HELLO, HELLO]);
    assert!(node.verify().is_ok());
}

#[test]
fn verify_bad() {
    let mut node = build(&[HELLO, HELLO]);

    let bad = b3(b"bad");

    match node.left_mut(0) {
        Some((_, d)) => d.hash = bad,
        _ => panic!(),
    }

    assert_eq!(
        node.verify(),
        Err(Mismatch { position: 1, expected: b3(HELLO.as_bytes()), found: bad })
    );
}

#[test]
fn built_trees_verify() {
    for count in 1usize..40 {
        let given: Vec<Vec<u8>> = (0..count).map(|k| vec![k as u8; k]).collect();
        match Tree::new(given) {
            Ok(tree) => {
                assert!(tree.is_well_formed());
                assert_eq!(tree.verify(), Ok(()));
                for pos in 0..tree.inner.len() {
                    assert_eq!(tree.verify_node(pos), Ok(()));
                }
            }
            Err(_) => panic!("payloads were given"),
        }
    }
}

#[test]
fn any_corrupted_data_block_or_pair_is_named() {
    let texts = ["a", "b", "c", "d", "e"];
    let sound = build(&texts);
    let bad = b3(b"bad");
    for pos in 0..sound.inner.len() {
        if sound.inner[pos].inner == NodeInner::Padding {
            continue;
        }
        let mut tree = sound.clone();
        tree.inner[pos].hash = bad;
        assert_eq!(
            tree.verify(),
            Err(Mismatch { position: pos, expected: sound.inner[pos].hash, found: bad })
        );
    }
}

#[test]
fn corrupted_padding_shows_at_its_parent() {
    let sound = build(&["a", "b", "c"]);
    let mut tree = sound.clone();
    let bad = b3(b"bad");
    tree.inner[6].hash = bad;
    assert_eq!(
        tree.verify(),
        Err(Mismatch {
            position: 2,
            expected: b3_pair(&b3(b"c"), &bad),
            found: b3_pair(&b3(b"c"), &[0u8; 32]),
        })
    );
}

#[test]
fn padding_outside_the_tree_is_not_read() {
    let sound = build(&["a", "b", "c", "d", "e", "f", "g", "h", "i"]);
    let mut tree = sound.clone();
    // positions 13 and 14 lie below the padding node at position 6
    assert_eq!(tree.inner[6], Node::new_padding());
    tree.inner[13].hash = b3(b"bad");
    tree.inner[14].hash = b3(b"bad");
    assert_eq!(tree.verify(), Ok(()));
}

#[test]
fn first_mismatch_is_deepest_and_leftmost() {
    let sound = build(&["a", "b", "c", "d"]);
    let bad = b3(b"bad");

    // a data block and the pair above it: the data block is met first
    let mut tree = sound.clone();
    tree.inner[1].hash = bad;
    tree.inner[4].hash = bad;
    assert_eq!(
        tree.verify(),
        Err(Mismatch { position: 4, expected: b3(b"b"), found: bad })
    );

    // one node in each half: the left half is searched first
    let mut tree = sound.clone();
    tree.inner[6].hash = bad;
    tree.inner[3].hash = bad;
    assert_eq!(
        tree.verify(),
        Err(Mismatch { position: 3, expected: b3(b"a"), found: bad })
    );

    // the right child's subtree comes before the parent
    let mut tree = sound.clone();
    tree.inner[0].hash = bad;
    tree.inner[2].hash = bad;
    assert_eq!(
        tree.verify(),
        Err(Mismatch { position: 2, expected: sound.inner[2].hash, found: bad })
    );
}

#[test]
fn changed_payload_is_a_mismatch() {
    let mut tree = build(&["a", "b"]);
    tree.inner[2].inner = NodeInner::Data(b"c".to_vec());
    assert_eq!(
        tree.verify(),
        Err(Mismatch { position: 2, expected: b3(b"c"), found: b3(b"b") })
    );
}

#[test]
fn verifying_one_subtree() {
    let sound = build(&["a", "b", "c", "d"]);
    let bad = b3(b"bad");
    let mut tree = sound.clone();
    tree.inner[5].hash = bad;
    assert_eq!(tree.verify_node(1), Ok(()));
    assert_eq!(tree.verify_node(3), Ok(()));
    assert_eq!(
        tree.verify_node(2),
        Err(Mismatch { position: 5, expected: b3(b"c"), found: bad })
    );
    assert_eq!(
        tree.verify_node(5),
        Err(Mismatch { position: 5, expected: b3(b"c"), found: bad })
    );
    assert_eq!(tree.verify_node(6), Ok(()));
    assert_eq!(
        tree.verify(),
        Err(Mismatch { position: 5, expected: b3(b"c"), found: bad })
    );
}

#[test]
fn hand_made_tree_verifies() {
    let a = Node::new_data(b"a".to_vec());
    let b = Node::new_data(b"b".to_vec());
    let tree = Tree {
        data: vec![1, 2],
        inner: vec![Node::new_leaf(a.hash, b.hash), a.clone(), b.clone()],
    };
    assert!(tree.is_well_formed());
    assert_eq!(tree.verify(), Ok(()));

    let swapped = Tree {
        data: vec![1, 2],
        inner: vec![Node::new_leaf(a.hash, b.hash), b, a],
    };
    assert!(swapped.is_well_formed());
    assert_eq!(
        swapped.verify(),
        Err(Mismatch {
            position: 0,
            expected: b3_pair(&b3(b"b"), &b3(b"a")),
            found: b3_pair(&b3(b"a"), &b3(b"b")),
        })
    );
}
