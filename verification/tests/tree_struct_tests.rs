use xml_tree::attrs::AttrMap;
use xml_tree::tree_struct::Node;

fn create_attributes(id: &str, author: &str) -> AttrMap {
    let mut attributes = AttrMap::new();
    attributes.insert(String::from("ID"), String::from(id));
    attributes.insert(String::from("Author"), String::from(author));
    attributes
}

#[test]
fn create_node() {
    let attributes = create_attributes("10533", "Bob Ross");
    let a_node: Node = Node::new("Root Node".to_string(), true, false, attributes, None, None, 0);
    assert_eq!(a_node.root, true);
    assert_eq!(a_node.leaf, false);
    assert_eq!(a_node.name, "Root Node");
}

#[test]
fn no_such_attribute() {
    let attributes = create_attributes("10533", "Bob Ross");
    let a_node: Node = Node::new("Some Node".to_string(), true, false, attributes, None, None, 0);

    assert!(a_node.get_attribute_value("Release Date").is_err());
    assert_eq!(
        a_node.get_attribute_value("Release Date").err().unwrap(),
        "No such key: Release Date present"
    );
}

#[test]
fn get_node_attributes() {
    let attributes = create_attributes("10533", "Bob Ross");
    let a_node: Node = Node::new("Some Node".to_string(), true, false, attributes, None, None, 1);

    assert_eq!(a_node.get_attribute_value("ID").unwrap(), "10533");
    assert_eq!(a_node.get_attribute_value("Author").unwrap(), "Bob Ross");
}

#[test]
fn get_node_root() {
    let attributes = create_attributes("10533", "Bob Ross");
    let a_node: Node = Node::new("Root Node".to_string(), true, false, attributes, None, None, 1);
    assert!(a_node.is_root());
}

#[test]
fn get_node_leaf() {
    let attributes = create_attributes("10533", "Bob Ross");
    let a_node: Node = Node::new("Leaf Node".to_string(), true, false, attributes, None, None, 1);
    assert!(!a_node.is_leaf());
}

#[test]
fn add_child_node() {
    let attributes_1 = create_attributes("10533", "Bob Ross");
    let attributes_2 = create_attributes("10532", "Mike Ross");
    let attributes_3 = create_attributes("10534", "DC");

    let mut a_node: Node =
        Node::new("Parent Node".to_string(), true, false, attributes_1, None, None, 1);
    let b_node: Node =
        Node::new("Child Node 1".to_string(), false, true, attributes_2, None, None, 2);
    let c_node: Node =
        Node::new("Child Node 2".to_string(), false, true, attributes_3, None, None, 3);

    a_node.set_child(b_node.get_id());
    a_node.set_child(c_node.get_id());

    assert_eq!(*a_node.get_child(), vec![2, 3]);
}

#[test]
fn add_parent_node() {
    let attributes_1 = create_attributes("10533", "Bob Ross");
    let attributes_2 = create_attributes("10532", "Mike Ross");

    let a_node: Node =
        Node::new("Parent Node".to_string(), true, false, attributes_1, None, None, 1);
    let mut b_node: Node =
        Node::new("Child Node".to_string(), false, true, attributes_2, None, None, 2);

    b_node.set_parent(a_node.get_id());
}

#[test]
fn inner_element_operations() {
    let attributes = create_attributes("10533", "Bob Ross");
    let mut node: Node =
        Node::new("Root Node".to_string(), true, false, attributes, None, None, 1);

    assert_eq!(node.get_inner_element(), "");

    node.set_inner_element("This is the inner element.".to_string());
    assert_eq!(node.get_inner_element(), "This is the inner element.");
}

#[test]
fn attr_map_last_write_wins() {
    let mut attributes = AttrMap::new();
    attributes.insert(String::from("k"), String::from("first"));
    attributes.insert(String::from("k"), String::from("second"));
    assert_eq!(attributes.len(), 1);
    assert_eq!(attributes.get("k").unwrap(), "second");
    assert!(attributes.get("missing").is_none());
}

#[test]
fn all_attributes_copied() {
    let attributes = create_attributes("10533", "Bob Ross");
    let a_node: Node = Node::new("Some Node".to_string(), true, false, attributes, None, None, 1);
    let copy = a_node.get_all_attributes();
    assert_eq!(copy.len(), 2);
    assert_eq!(copy.get("ID").unwrap(), "10533");
    assert_eq!(copy.get("Author").unwrap(), "Bob Ross");
}
