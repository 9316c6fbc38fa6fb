use orbtk_api::component::{Component, ComponentError, ComponentKind, ComponentStore};
use orbtk_api::geometry::{arrange, Constraint, Layout, Rectangle};
use orbtk_api::tree::{Entity, Tree, TreeError};

#[test]
fn create_links_parent_and_children() {
    let mut t = Tree::new();
    let root = t.create(None).unwrap();
    let a = t.create(Some(root)).unwrap();
    let b = t.create(Some(root)).unwrap();
    let c = t.create(Some(a)).unwrap();
    assert_eq!(t.parent(root), Ok(None));
    assert_eq!(t.parent(a), Ok(Some(root)));
    assert_eq!(t.parent(c), Ok(Some(a)));
    assert_eq!(t.children(root).unwrap(), vec![a, b]);
    assert_eq!(t.children(a).unwrap(), vec![c]);
    assert!(t.children(b).unwrap().is_empty());
}

#[test]
fn every_parented_entity_is_among_its_parents_children() {
    let mut t = Tree::new();
    let root = t.create(None).unwrap();
    let overlay = t.create(None).unwrap();
    t.set_root(root).unwrap();
    t.set_overlay(overlay).unwrap();
    let mut made = Vec::new();
    for i in 0..6u32 {
        let parent = if i % 2 == 0 { root } else { overlay };
        made.push(t.create(Some(parent)).unwrap());
    }
    for e in made {
        let p = t.parent(e).unwrap().unwrap();
        assert!(t.children(p).unwrap().contains(&e));
    }
    assert_eq!(t.parent(root), Ok(None));
    assert_eq!(t.parent(overlay), Ok(None));
}

#[test]
fn create_under_unknown_parent_fails() {
    let mut t = Tree::new();
    assert_eq!(t.create(Some(Entity(3))), Err(TreeError::NotFound));
    assert_eq!(t.len(), 0);
}

#[test]
fn subtree_lists_parents_before_children() {
    let mut t = Tree::new();
    let root = t.create(None).unwrap();
    let other = t.create(None).unwrap();
    let a = t.create(Some(root)).unwrap();
    let b = t.create(Some(a)).unwrap();
    let _x = t.create(Some(other)).unwrap();
    let c = t.create(Some(root)).unwrap();
    assert_eq!(t.subtree_of(root).unwrap(), vec![root, a, b, c]);
    assert_eq!(t.subtree_of(a).unwrap(), vec![a, b]);
}

#[test]
fn remove_takes_the_whole_subtree() {
    let mut t = Tree::new();
    let root = t.create(None).unwrap();
    let a = t.create(Some(root)).unwrap();
    let b = t.create(Some(a)).unwrap();
    let c = t.create(Some(root)).unwrap();
    let d = t.create(Some(b)).unwrap();
    assert_eq!(t.remove(a).unwrap(), vec![a, b, d]);
    assert!(!t.is_alive(a));
    assert!(!t.is_alive(b));
    assert!(!t.is_alive(d));
    assert!(t.is_alive(c));
    assert_eq!(t.subtree_of(root).unwrap(), vec![root, c]);
    assert_eq!(t.children(root).unwrap(), vec![c]);
    assert_eq!(t.remove(a), Err(TreeError::NotFound));
    assert_eq!(t.children(b), Err(TreeError::NotFound));
    assert_eq!(t.parent(d), Err(TreeError::NotFound));
}

#[test]
fn set_root_replaces_and_rejects_unknown() {
    let mut t = Tree::new();
    let first = t.create(None).unwrap();
    let second = t.create(None).unwrap();
    t.set_root(first).unwrap();
    t.set_root(second).unwrap();
    assert_eq!(t.root(), Some(second));
    assert!(t.is_alive(first));
    assert_eq!(t.set_overlay(Entity(9)), Err(TreeError::NotFound));
    assert_eq!(t.overlay(), None);
}

#[test]
fn store_overwrites_and_reports_errors() {
    let mut s = ComponentStore::new();
    let e = Entity(2);
    s.register(ComponentKind::Borderless, e, Component::Flag(false));
    s.register(ComponentKind::Borderless, e, Component::Flag(true));
    assert_eq!(s.len(), 1);
    assert_eq!(s.get_flag(ComponentKind::Borderless, e), Ok(true));
    assert_eq!(s.get_flag(ComponentKind::Resizeable, e), Err(ComponentError::MissingComponent));
    assert_eq!(s.get_point(ComponentKind::Borderless, e), Err(ComponentError::TypeMismatch));
    assert_eq!(s.get_flag(ComponentKind::Borderless, Entity(3)), Err(ComponentError::MissingComponent));
    s.register(ComponentKind::Title, e, Component::Text("hello".to_string()));
    assert_eq!(s.get_text(ComponentKind::Title, e).unwrap(), "hello");
    s.register(ComponentKind::Title, Entity(3), Component::Text("other".to_string()));
    s.remove_all(e);
    assert!(!s.has(ComponentKind::Borderless, e));
    assert!(!s.has(ComponentKind::Title, e));
    assert!(s.has(ComponentKind::Title, Entity(3)));
    assert_eq!(s.len(), 1);
}

#[test]
fn arrange_places_inside_the_parent() {
    let r = arrange(Layout::Stretch { margin: 4 }, None, 420, 730);
    assert_eq!(r, Rectangle { x: 4, y: 4, width: 412, height: 722 });
    let r = arrange(Layout::Sized { margin: 2 }, Some(Constraint { width: 100, height: 900 }), 420, 730);
    assert_eq!(r, Rectangle { x: 2, y: 2, width: 100, height: 726 });
    let r = arrange(Layout::Stretch { margin: 10 }, None, 15, 40);
    assert_eq!(r, Rectangle { x: 15, y: 10, width: 0, height: 20 });
    assert!(r.is_empty());
    let r = arrange(Layout::Sized { margin: 0 }, None, u32::MAX, 5);
    assert_eq!(r, Rectangle { x: 0, y: 0, width: u32::MAX, height: 5 });
    let r = Rectangle::from_constraint(Constraint { width: 420, height: 730 });
    assert_eq!(r, Rectangle { x: 0, y: 0, width: 420, height: 730 });
}

#[test]
fn reverse_subtree_lists_children_before_parents() {
    let mut t = Tree::new();
    let root = t.create(None).unwrap();
    let a = t.create(Some(root)).unwrap();
    let b = t.create(Some(a)).unwrap();
    let c = t.create(Some(root)).unwrap();
    assert_eq!(t.subtree_rev(root).unwrap(), vec![c, b, a, root]);
    assert_eq!(t.subtree_rev(Entity(7)), Err(TreeError::NotFound));
}
