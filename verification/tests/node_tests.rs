use matrix_engine::Node;

#[test]
fn new_node_is_empty() {
    let node = Node::new();
    assert_eq!(node.value(), "");
    assert!(node.children().is_empty());
}

#[test]
fn with_value_keeps_the_value() {
    let node = Node::with_value(String::from("root"));
    assert_eq!(node.value(), "root");
    assert!(node.children().is_empty());
}

#[test]
fn add_link_to_node_appends_in_order() {
    let mut node = Node::with_value(String::from("root"));
    node.add_link_to_node(7);
    node.add_link_to_node(3);
    assert_eq!(node.children(), &vec![7, 3]);
}
