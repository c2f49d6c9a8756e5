use rust_gui::attribute::Attribute;
use rust_gui::node::{Document, ElementItem, NodeError, NodeList, NodeType};

#[test]
fn builds_a_tree_and_reads_its_content() {
    let mut doc = Document::new();
    let div = doc.new_element("div");
    let hello = doc.new_text("  hello ");
    let span = doc.new_element("span");
    let world = doc.new_text("world\n");
    assert!(doc.append_node(div, hello).is_ok());
    assert!(doc.append_node(span, world).is_ok());
    assert!(doc.append_node(div, span).is_ok());
    assert_eq!(doc.get_content(div), "hello world");
    assert_eq!(doc.get_content(hello), "  hello ");
    assert_eq!(doc.node_type(div), NodeType::Element);
    assert_eq!(doc.node_type(hello), NodeType::Text);
    assert_eq!(doc.tag_name(span), "span");
    assert_eq!(doc.tag_name(world), "");
    assert_eq!(doc.parrent_node(span), Some(div));
    assert!(doc.contains(div, span));
    assert!(doc.contains(div, div));
    assert!(!doc.contains(div, world));
    assert!(doc.is_inclusive_ancestor(div, world));
    assert!(!doc.is_inclusive_ancestor(span, hello));
}

#[test]
fn text_nodes_take_no_children() {
    let mut doc = Document::new();
    let t = doc.new_text("x");
    let u = doc.new_text("y");
    assert_eq!(doc.append_node(t, u), Err(NodeError::CannotAppendToTextNode));
    assert_eq!(doc.prepend_node(t, u), Err(NodeError::CannotAppendToTextNode));
    assert_eq!(doc.insert_before(t, u, u), Err(NodeError::CannotAppendToTextNode));
}

#[test]
fn appending_moves_a_node_and_removing_restores() {
    let mut doc = Document::new();
    let a = doc.new_element("a");
    let b = doc.new_element("b");
    let c = doc.new_text("c");
    doc.append_node(a, c).unwrap();
    doc.append_node(b, c).unwrap();
    assert_eq!(doc.child_nodes(a).len(), 0);
    assert_eq!(doc.child_nodes(b).iter(), vec![c]);
    assert_eq!(doc.parrent_node(c), Some(b));
    assert_eq!(doc.remove_node(a, c), Err(NodeError::NotDesendent(a, c)));
    doc.remove_node(b, c).unwrap();
    assert_eq!(doc.child_nodes(b).len(), 0);
    assert_eq!(doc.parrent_node(c), None);
}

#[test]
fn prepend_and_insert_before_keep_order() {
    let mut doc = Document::new();
    let list = doc.new_element("ul");
    let one = doc.new_element("li");
    let two = doc.new_element("li");
    let three = doc.new_element("li");
    doc.append_node(list, two).unwrap();
    doc.prepend_node(list, one).unwrap();
    doc.append_node(list, three).unwrap();
    assert_eq!(doc.child_nodes(list).iter(), vec![one, two, three]);
    let zero = doc.new_element("li");
    doc.insert_before(list, zero, one).unwrap();
    assert_eq!(doc.child_nodes(list).iter(), vec![zero, one, two, three]);
    let stray = doc.new_element("p");
    assert_eq!(doc.insert_before(list, stray, stray), Err(NodeError::NotDesendent(list, stray)));
}

#[test]
fn setting_content() {
    let mut doc = Document::new();
    let p = doc.new_element("p");
    doc.set_content(p, "  fresh ");
    assert_eq!(doc.get_content(p), "fresh");
    assert_eq!(doc.child_nodes(p).len(), 1);
    let em = doc.new_element("em");
    doc.append_node(p, em).unwrap();
    let extra = doc.new_text("old");
    doc.append_node(p, extra).unwrap();
    doc.set_content(p, "new");
    let kids = doc.child_nodes(p).iter();
    assert_eq!(kids.len(), 2);
    assert_eq!(doc.get_content(kids[0]), "new");
    assert_eq!(kids[1], em);
    let t = doc.new_text("a");
    doc.set_content(t, " b ");
    assert_eq!(doc.get_content(t), " b ");
}

#[test]
fn element_attributes_and_children() {
    let mut doc = Document::new();
    let root = ElementItem::from(doc.new_element("div"));
    let leaf = ElementItem::from(doc.new_element("span"));
    let text = doc.new_text("t");
    doc.append_node(root.node, text).unwrap();
    doc.append_node(root.node, leaf.node).unwrap();
    doc.set_class_name(root, "a  b");
    assert_eq!(doc.get_class_name(root), "a  b");
    assert_eq!(doc.class_list(root), vec!["a", "b"]);
    doc.set_id(root, "main");
    assert_eq!(doc.get_id(root), "main");
    assert_eq!(doc.get_id(leaf), "");
    doc.set_attribute(root, "tab", Attribute::Integer(3));
    assert!(doc.has_attribute(root, "tab"));
    assert_eq!(doc.get_attribute(root, "tab").unwrap().to_string(), "3");
    doc.toggle_attribute(root, "hidden", None);
    assert!(doc.has_attribute(root, "hidden"));
    doc.toggle_attribute(root, "hidden", None);
    assert!(!doc.has_attribute(root, "hidden"));
    assert_eq!(doc.attribute_names(root).len(), 3);
    assert_eq!(doc.attributes(root).len(), 3);
    assert_eq!(doc.children(root).len(), 1);
    assert_eq!(doc.first_child(root).map(|e| e.node), Some(leaf.node));
    assert_eq!(doc.last_child(root).map(|e| e.node), Some(leaf.node));
    assert_eq!(doc.parrent(leaf).map(|e| e.node), Some(root.node));
    assert!(doc.parrent(root).is_none());
}

#[test]
fn node_lists() {
    let mut doc = Document::new();
    let a = doc.new_text("a");
    let b = doc.new_text("b");
    let mut list = NodeList::new();
    list.insert_end(a);
    list.insert_start(b);
    assert_eq!(list.iter(), vec![b, a]);
    assert_eq!(list.at(1), Some(a));
    assert_eq!(list.at(2), None);
    assert_eq!(list.find_node(a), Some(1));
    assert!(list.remove_node(b));
    assert!(!list.remove_node(b));
    assert_eq!(list.len(), 1);
    assert!(list.insert_before(b, a));
    assert_eq!(list.iter(), vec![b, a]);
    assert_eq!(a.as_ref().node(), Some(a));
}

#[test]
fn a_node_cannot_go_inside_itself() {
    let mut doc = Document::new();
    let outer = doc.new_element("div");
    let inner = doc.new_element("span");
    let leaf = doc.new_text("x");
    doc.append_node(outer, inner).unwrap();
    doc.append_node(inner, leaf).unwrap();
    assert_eq!(doc.append_node(inner, outer), Err(NodeError::WouldCreateCycle(inner, outer)));
    assert_eq!(doc.prepend_node(outer, outer), Err(NodeError::WouldCreateCycle(outer, outer)));
    assert_eq!(doc.insert_before(inner, outer, leaf), Err(NodeError::WouldCreateCycle(inner, outer)));
    assert_eq!(doc.child_nodes(inner).iter(), vec![leaf]);
    assert_eq!(doc.parrent_node(outer), None);
    assert_eq!(doc.get_content(outer), "x");
}
