//! Collections and trees of bodies.

use rigid2d::body::{Body, BodyForm};
use rigid2d::collection::{CAddInput, Collection};
use rigid2d::tree::TreeNode;
use rigid2d::vec2::Vector2;

fn unit_square(x: i64, y: i64) -> Body {
    Body::new(
        BodyForm::Polygon,
        Vector2 { x, y },
        None,
        4,
        Some(1000),
        Some(1000),
        1000,
        700,
        Vec::new(),
    )
    .unwrap()
}

#[test]
fn collection_deduplicates_bodies() {
    let mut c = Collection::new(String::from("world"));
    c.add(CAddInput::Body(unit_square(0, 0)));
    c.add(CAddInput::Body(unit_square(0, 0)));
    c.add(CAddInput::Bodies(vec![unit_square(500, 0), unit_square(0, 0)]));
    assert_eq!(c.bodies().len(), 2);
}

#[test]
fn collection_deduplicates_nested_collections() {
    let mut c = Collection::new(String::from("world"));
    let mut inner1 = Collection::new(String::from("walls"));
    inner1.add(CAddInput::Body(unit_square(0, 0)));
    let mut inner2 = Collection::new(String::from("walls"));
    inner2.add(CAddInput::Body(unit_square(0, 0)));
    let other = Collection::new(String::from("props"));
    c.add(CAddInput::Collection(inner1));
    c.add(CAddInput::Collections(vec![inner2, other]));
    assert_eq!(c.collections().len(), 2);
}

#[test]
fn tree_nodes_nest() {
    let leaf = TreeNode { children: Vec::new() };
    let root = TreeNode { children: vec![leaf] };
    assert_eq!(root.children.len(), 1);
}
