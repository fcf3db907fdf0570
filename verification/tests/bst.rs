use verified_collections::bst::BinarySearchTree;

#[test]
fn search_finds_what_was_inserted() {
    let mut tree = BinarySearchTree::new();
    assert!(!tree.search(5));
    for value in [5, 3, 7, 2, 4] {
        tree.insert(value);
    }
    for value in [5, 3, 7, 2, 4] {
        assert!(tree.search(value));
    }
    assert!(!tree.search(1));
    assert!(!tree.search(6));
}

#[test]
fn inserting_twice_changes_nothing() {
    let mut tree = BinarySearchTree::new();
    tree.insert(1);
    tree.insert(1);
    assert!(tree.search(1));
    assert!(!tree.search(0));
    assert!(!tree.search(2));
}

#[test]
fn tree_holds_strings_in_their_own_order() {
    let mut tree = BinarySearchTree::new();
    for word in ["pear", "apple", "quince"] {
        tree.insert(word.to_string());
    }
    assert!(tree.search("apple".to_string()));
    assert!(tree.search("quince".to_string()));
    assert!(!tree.search("plum".to_string()));
}
