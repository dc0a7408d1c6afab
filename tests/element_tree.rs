use nest::tree::ElementTree;

fn sample() -> ElementTree {
    ElementTree::new_branch(
        "root",
        vec![
            ElementTree::new_branch("a", vec![ElementTree::new_leaf("a0"), ElementTree::new_leaf("a1")]),
            ElementTree::new_leaf("b"),
        ],
    )
}

#[test]
fn leaf_and_branch() {
    let l = ElementTree::new_leaf("x");
    assert_eq!(l.text, "x");
    assert!(l.children.is_empty());
    let t = sample();
    assert_eq!(t.text, "root");
    assert_eq!(t.children.len(), 2);
}

#[test]
fn get_by_path() {
    let t = sample();
    assert_eq!(t.get_node(&[0]).unwrap().text, "a");
    assert_eq!(t.get_node(&[0, 1]).unwrap().text, "a1");
    assert_eq!(t.get_node(&[1]).unwrap().text, "b");
    assert!(t.get_node(&[2]).is_none());
    assert!(t.get_node(&[0, 5]).is_none());
}

#[test]
fn remove_by_path() {
    let mut t = sample();
    let removed = t.remove_node(&[0, 0]);
    assert_eq!(removed.text, "a0");
    assert_eq!(t.get_node(&[0, 0]).unwrap().text, "a1");
    assert_eq!(t.children[0].children.len(), 1);
    let removed = t.remove_node(&[0]);
    assert_eq!(removed.text, "a");
    assert_eq!(t.children.len(), 1);
    assert_eq!(t.children[0].text, "b");
}

#[test]
fn insert_by_path() {
    let mut t = sample();
    t.insert_node(&[0, 1], ElementTree::new_leaf("new"));
    assert_eq!(t.get_node(&[0, 1]).unwrap().text, "new");
    assert_eq!(t.get_node(&[0, 2]).unwrap().text, "a1");
    t.insert_node(&[2], ElementTree::new_leaf("end"));
    assert_eq!(t.children[2].text, "end");
}
