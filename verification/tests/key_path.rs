use std::rc::Rc;

use qs_rust::key_path::KeyPathNode;

#[test]
fn append_empty_reuses_the_same_underlying_node() {
    let root = KeyPathNode::from_raw("user.name");
    let same = root.append("");

    assert!(Rc::ptr_eq(&root.0, &same.0));
}

#[test]
fn append_preserves_materialized_path_segments() {
    let nested = KeyPathNode::from_raw("user.name")
        .append("[first.last]")
        .append("[0]");

    assert_eq!(nested.materialize(), "user.name[first.last][0]");
}

#[test]
fn dot_encoded_cache_reuses_nodes_when_segments_have_no_dots() {
    let nested = KeyPathNode::from_raw("user.name")
        .append("[first.last]")
        .append("[0]");
    let encoded_once = nested.as_dot_encoded("%2E");
    let encoded_twice = nested.as_dot_encoded("%2E");

    assert_eq!(encoded_once.materialize(), "user%2Ename[first%2Elast][0]");
    assert!(Rc::ptr_eq(&encoded_once.0, &encoded_twice.0));
}

#[test]
fn component_builders_write_dots_brackets_and_list_suffixes() {
    let root = KeyPathNode::from_raw("a");
    let same = root.append_dot_component("");
    assert!(Rc::ptr_eq(&root.0, &same.0));
    let path = root
        .append_dot_component("b")
        .append_bracketed_component("c.d")
        .append_empty_list_suffix();
    assert_eq!(path.materialize(), "a.b[c.d][]");
    assert_eq!(path.materialize(), "a.b[c.d][]");
    assert_eq!(path.as_dot_encoded("%2E").materialize(), "a%2Eb[c%2Ed][]");
}

#[test]
fn dot_free_paths_encode_to_themselves() {
    let path = KeyPathNode::from_raw("a").append("[b]").append("[0]");
    let encoded = path.as_dot_encoded("%2E");
    assert!(Rc::ptr_eq(&path.0, &encoded.0));
    assert_eq!(encoded.materialize(), "a[b][0]");
}

#[test]
fn a_different_replacement_is_applied_not_taken_from_the_cache() {
    let path = KeyPathNode::from_raw("x.y").append("[z.w]");
    assert_eq!(path.as_dot_encoded("%2E").materialize(), "x%2Ey[z%2Ew]");
    assert_eq!(path.as_dot_encoded("_").materialize(), "x_y[z_w]");
    let empty_root = KeyPathNode::from_raw("");
    assert_eq!(empty_root.append("[a]").materialize(), "[a]");
}
