use dsa_exercises::bst::BinarySearchTree;

#[test]
fn test_insert_and_search() {
    let mut bst = BinarySearchTree::new();

    // Initially, the tree should be empty
    assert_eq!(bst.search(1), false);

    bst.insert(5);
    bst.insert(3);
    bst.insert(7);
    bst.insert(2);
    bst.insert(4);

    // Check if the values are inserted correctly
    assert_eq!(bst.search(5), true);
    assert_eq!(bst.search(3), true);
    assert_eq!(bst.search(7), true);
    assert_eq!(bst.search(2), true);
    assert_eq!(bst.search(4), true);

    // Check if a non-inserted value is not found
    assert_eq!(bst.search(1), false);
    assert_eq!(bst.search(6), false);
}

#[test]
fn test_insert_duplicate() {
    let mut bst = BinarySearchTree::new();

    bst.insert(1);
    bst.insert(1); // Inserting a duplicate value

    // Check if the value is still present
    assert_eq!(bst.search(1), true);

    match bst.root {
        Some(ref node) => {
            assert!(node.left.is_none());
            assert!(node.right.is_none());
        }
        None => panic!("Root should not be None after insertion"),
    }
}
