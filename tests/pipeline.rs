use orbtk_api::application::{Application, WindowError};
use orbtk_api::component::{Component, ComponentError, ComponentKind};
use orbtk_api::context::{Handler, Message, RenderObject, WidgetState};
use orbtk_api::geometry::{Constraint, Layout, Point, Rectangle};
use orbtk_api::tree::{Entity, TreeError};
use orbtk_api::window::{Phase, Window};

/// A window with a root sized `width` by `height` holding every window-level component.
fn window_with_root(width: u32, height: u32) -> (Window, Entity) {
    let mut w = Window::new();
    let root = w.create(None).unwrap();
    w.register(ComponentKind::Title, root, Component::Text("Greeter".to_string()));
    w.register(ComponentKind::Borderless, root, Component::Flag(false));
    w.register(ComponentKind::Resizeable, root, Component::Flag(true));
    w.register(ComponentKind::AlwaysOnTop, root, Component::Flag(false));
    w.register(ComponentKind::Position, root, Component::Position(Point { x: 100, y: 100 }));
    w.register(ComponentKind::Constraint, root, Component::Size(Constraint { width, height }));
    (w, root)
}

fn bounds(w: &Window, e: Entity) -> Rectangle {
    w.store().get_bounds(ComponentKind::Bounds, e).unwrap()
}

fn inside(inner: Rectangle, outer: Rectangle) -> bool {
    inner.x as u64 + inner.width as u64 <= outer.width as u64
        && inner.y as u64 + inner.height as u64 <= outer.height as u64
}

#[test]
fn minimal_window_lays_out_and_renders_its_text() {
    let (mut w, root) = window_with_root(420, 730);
    let text = w.create(Some(root)).unwrap();
    w.register(
        ComponentKind::Text,
        text,
        Component::Text("OrbTk with a very very very very very very very long text".to_string()),
    );
    w.insert_layout(text, Layout::Stretch { margin: 4 });
    w.insert_render_object(text, RenderObject::Text);
    w.insert_render_object(root, RenderObject::Background);
    w.tick();
    let rb = bounds(&w, root);
    let tb = bounds(&w, text);
    assert_eq!(rb, Rectangle { x: 0, y: 0, width: 420, height: 730 });
    assert!(!tb.is_empty());
    assert!(inside(tb, rb));
    assert_eq!(tb, Rectangle { x: 4, y: 4, width: 412, height: 722 });
    assert_eq!(w.draws().len(), w.context().render_object_count());
    assert_eq!(w.draws().len(), 2);
    assert_eq!(w.draws()[0].entity, root);
    assert_eq!(w.draws()[1].entity, text);
    assert_eq!(w.draws()[1].bounds, tb);
}

#[test]
fn handler_change_is_seen_by_layout_in_the_same_tick() {
    let (mut w, root) = window_with_root(400, 300);
    let child = w.create(Some(root)).unwrap();
    w.insert_layout(child, Layout::Sized { margin: 0 });
    w.register(ComponentKind::Constraint, child, Component::Size(Constraint { width: 100, height: 20 }));
    w.insert_handler(child, Handler::SetConstraint(Constraint { width: 200, height: 40 }));
    w.tick();
    let before = bounds(&w, child);
    assert_eq!(before, Rectangle { x: 0, y: 0, width: 100, height: 20 });
    w.send(Message::Activate(child));
    w.tick();
    let after = bounds(&w, child);
    assert_ne!(before, after);
    assert_eq!(after, Rectangle { x: 0, y: 0, width: 200, height: 40 });
}

#[test]
fn resize_request_changes_root_bounds() {
    let (mut w, root) = window_with_root(400, 300);
    let child = w.create(Some(root)).unwrap();
    w.tick();
    assert_eq!(bounds(&w, child), Rectangle { x: 0, y: 0, width: 400, height: 300 });
    w.send(Message::Resize { width: 640, height: 480 });
    w.tick();
    assert_eq!(bounds(&w, root), Rectangle { x: 0, y: 0, width: 640, height: 480 });
    assert_eq!(bounds(&w, child), Rectangle { x: 0, y: 0, width: 640, height: 480 });
}

#[test]
fn post_layout_clamps_scroll_offset() {
    let (mut w, root) = window_with_root(100, 50);
    let list = w.create(Some(root)).unwrap();
    w.insert_handler(list, Handler::ScrollTo(500));
    w.insert_state(list, WidgetState::Scroll);
    w.register(ComponentKind::ScrollOffset, list, Component::Offset(10));
    let plain = w.create(Some(root)).unwrap();
    w.insert_state(plain, WidgetState::Plain);
    w.register(ComponentKind::ScrollOffset, plain, Component::Offset(900));
    w.tick();
    assert_eq!(w.store().get_offset(ComponentKind::ScrollOffset, list), Ok(10));
    w.send(Message::Activate(list));
    w.tick();
    assert_eq!(w.store().get_offset(ComponentKind::ScrollOffset, list), Ok(50));
    assert_eq!(w.store().get_offset(ComponentKind::ScrollOffset, plain), Ok(900));
}

#[test]
fn overlay_is_drawn_after_root() {
    let (mut w, root) = window_with_root(300, 300);
    let overlay = w.tree().overlay().unwrap();
    let popup = w.create(Some(overlay)).unwrap();
    let panel = w.create(Some(root)).unwrap();
    w.insert_render_object(popup, RenderObject::Border);
    w.insert_render_object(panel, RenderObject::Background);
    w.tick();
    let draws = w.draws();
    assert_eq!(draws.len(), 2);
    assert_eq!(draws[0].entity, panel);
    assert_eq!(draws[1].entity, popup);
    assert_eq!(draws[0].bounds, draws[1].bounds);
}

#[test]
fn requests_are_handled_in_send_order() {
    let (mut w, root) = window_with_root(300, 300);
    w.send(Message::TitleChanged("A".to_string()));
    w.send(Message::TitleChanged("B".to_string()));
    w.tick();
    let handled = w.handled();
    assert_eq!(handled.len(), 2);
    assert!(matches!(&handled[0], Message::TitleChanged(t) if t == "A"));
    assert!(matches!(&handled[1], Message::TitleChanged(t) if t == "B"));
    assert_eq!(w.store().get_text(ComponentKind::Title, root).unwrap(), "B");
    assert_eq!(w.context().pending(), 0);
}

#[test]
fn init_runs_once_over_many_ticks() {
    let (mut w, _root) = window_with_root(10, 10);
    assert_eq!(w.init_runs(), 0);
    assert_eq!(w.phase(), Phase::Uninitialized);
    w.tick();
    w.tick();
    w.tick();
    assert_eq!(w.init_runs(), 1);
    assert_eq!(w.phase(), Phase::Ticking);
}

#[test]
fn close_is_honored_at_the_next_tick() {
    let (mut w, _root) = window_with_root(10, 10);
    w.send(Message::Close);
    w.tick();
    assert_eq!(w.phase(), Phase::Ticking);
    w.tick();
    assert_eq!(w.phase(), Phase::Terminated);
    w.send(Message::TitleChanged("late".to_string()));
    assert_eq!(w.context().pending(), 0);
    w.tick();
    assert_eq!(w.phase(), Phase::Terminated);
    assert_eq!(w.context().pending(), 0);
}

#[test]
fn removed_entities_lose_components_and_drawables() {
    let (mut w, root) = window_with_root(200, 200);
    let a = w.create(Some(root)).unwrap();
    let b = w.create(Some(a)).unwrap();
    let c = w.create(Some(root)).unwrap();
    for e in [a, b, c] {
        w.insert_render_object(e, RenderObject::Background);
    }
    w.tick();
    assert_eq!(w.draws().len(), 3);
    assert_eq!(w.remove_entity(a).unwrap(), vec![a, b]);
    assert_eq!(w.store().get_bounds(ComponentKind::Bounds, a), Err(ComponentError::MissingComponent));
    assert_eq!(w.store().get_bounds(ComponentKind::Bounds, b), Err(ComponentError::MissingComponent));
    assert_eq!(w.context().render_object(b), None);
    assert_eq!(w.tree().subtree_of(root).unwrap(), vec![root, c]);
    w.tick();
    assert_eq!(w.draws().len(), 1);
    assert_eq!(w.draws()[0].entity, c);
    assert!(w.remove_entity(b).is_err());
}

#[test]
fn application_names() {
    let app = Application::new();
    assert_eq!(app.name(), "orbtk_application");
    assert_eq!(app.window_count(), 0);
    let app = Application::from_name("calculator");
    assert_eq!(app.name(), "calculator");
}

#[test]
fn application_reads_window_settings() {
    let (w, root) = window_with_root(420, 730);
    let mut app = Application::new();
    app.window(w).unwrap();
    assert_eq!(app.window_count(), 1);
    let s = app.settings_at(0);
    assert_eq!(s.title, "Greeter");
    assert_eq!(s.position, Point { x: 100, y: 100 });
    assert_eq!(s.size, Constraint { width: 420, height: 730 });
    assert!(!s.borderless);
    assert!(s.resizeable);
    assert!(!s.always_on_top);
    let rb = app.window_at(0).store().get_bounds(ComponentKind::Bounds, root);
    assert_eq!(rb, Ok(Rectangle { x: 0, y: 0, width: 420, height: 730 }));
}

#[test]
fn application_rejects_incomplete_windows() {
    let mut app = Application::new();
    let (good, _root) = window_with_root(10, 10);
    app.window(good).unwrap();
    assert!(matches!(app.window(Window::new()), Err(WindowError::MissingRoot)));
    let mut w = Window::new();
    let root = w.create(None).unwrap();
    w.register(ComponentKind::Title, root, Component::Flag(true));
    assert!(matches!(
        app.window(w),
        Err(WindowError::Component(ComponentKind::Title, ComponentError::TypeMismatch))
    ));
    let (mut w, root) = window_with_root(10, 10);
    w.register(ComponentKind::Position, root, Component::Flag(true));
    assert!(matches!(
        app.window(w),
        Err(WindowError::Component(ComponentKind::Position, ComponentError::TypeMismatch))
    ));
    let (mut w, root) = window_with_root(10, 10);
    w.register(ComponentKind::AlwaysOnTop, root, Component::Offset(1));
    assert!(matches!(
        app.window(w),
        Err(WindowError::Component(ComponentKind::AlwaysOnTop, ComponentError::TypeMismatch))
    ));
    assert_eq!(app.window_count(), 1);
}

#[test]
fn only_one_live_root_and_a_protected_overlay() {
    let (mut w, root) = window_with_root(10, 10);
    assert_eq!(w.create(None), Err(TreeError::RootExists));
    let overlay = w.tree().overlay().unwrap();
    assert_ne!(overlay, root);
    assert_eq!(w.tree().parent(overlay), Ok(None));
    assert_eq!(w.remove_entity(overlay), Err(TreeError::Protected));
    assert_eq!(w.remove_entity(root).unwrap(), vec![root]);
    let fresh = w.create(None).unwrap();
    assert_eq!(w.tree().root(), Some(fresh));
    assert_eq!(w.remove_entity(Entity(99)), Err(TreeError::NotFound));
}

#[test]
fn removal_drops_every_registration() {
    let (mut w, root) = window_with_root(100, 100);
    let a = w.create(Some(root)).unwrap();
    let b = w.create(Some(root)).unwrap();
    w.insert_layout(a, Layout::Stretch { margin: 1 });
    w.insert_handler(a, Handler::ScrollTo(3));
    w.insert_layout(b, Layout::Stretch { margin: 2 });
    w.insert_handler(b, Handler::ScrollTo(4));
    w.insert_state(a, WidgetState::Scroll);
    w.insert_state(b, WidgetState::Plain);
    w.remove_entity(a).unwrap();
    assert_eq!(w.context().handler(a), None);
    assert_eq!(w.context().state(a), None);
    assert_eq!(w.context().state(b), Some(WidgetState::Plain));
    assert_eq!(w.context().layout(a), Layout::Stretch { margin: 0 });
    assert_eq!(w.context().handler(b), Some(Handler::ScrollTo(4)));
    assert_eq!(w.context().layout(b), Layout::Stretch { margin: 2 });
    w.tick();
    assert_eq!(w.store().get_bounds(ComponentKind::Bounds, a), Err(ComponentError::MissingComponent));
    assert_eq!(bounds(&w, b), Rectangle { x: 2, y: 2, width: 96, height: 96 });
}

#[test]
fn application_creates_and_removes_while_running() {
    let (w, root) = window_with_root(40, 40);
    let mut app = Application::new();
    app.window(w).unwrap();
    assert!(app.run());
    let child = app.create(0, Some(root)).unwrap();
    assert!(app.run());
    assert_eq!(
        app.window_at(0).store().get_bounds(ComponentKind::Bounds, child),
        Ok(Rectangle { x: 0, y: 0, width: 40, height: 40 })
    );
    assert_eq!(app.remove_entity(0, child).unwrap(), vec![child]);
    assert!(app.run());
    assert_eq!(
        app.window_at(0).store().get_bounds(ComponentKind::Bounds, child),
        Err(ComponentError::MissingComponent)
    );
    app.send(0, Message::Close);
    assert!(app.run());
    assert!(!app.run());
    app.send(0, Message::Resize { width: 1, height: 1 });
    assert_eq!(app.window_at(0).context().pending(), 0);
}

#[test]
fn application_run_ticks_until_closed() {
    let (w, _root) = window_with_root(50, 50);
    let mut app = Application::new();
    app.window(w).unwrap();
    assert!(app.run());
    assert_eq!(app.window_at(0).phase(), Phase::Ticking);
    assert!(app.run());
    assert_eq!(app.window_at(0).init_runs(), 1);
    let mut empty = Application::new();
    assert!(!empty.run());
}

#[test]
fn removed_root_gets_no_components_back() {
    let (mut w, root) = window_with_root(100, 100);
    w.tick();
    w.send(Message::Resize { width: 10, height: 10 });
    w.send(Message::TitleChanged("after".to_string()));
    assert_eq!(w.remove_entity(root).unwrap(), vec![root]);
    assert_eq!(w.tree().root(), None);
    w.tick();
    assert_eq!(w.handled().len(), 2);
    assert_eq!(w.store().get_constraint(ComponentKind::Constraint, root), Err(ComponentError::MissingComponent));
    assert!(w.store().get_text(ComponentKind::Title, root).is_err());
    assert_eq!(w.store().get_bounds(ComponentKind::Bounds, root), Err(ComponentError::MissingComponent));
    assert!(w.draws().is_empty());
}

#[test]
fn requests_to_a_closed_window_are_dropped() {
    let (mut w, _root) = window_with_root(10, 10);
    w.send(Message::Close);
    w.tick();
    w.tick();
    assert_eq!(w.phase(), Phase::Terminated);
    w.send(Message::Resize { width: 5, height: 5 });
    w.send(Message::Close);
    assert_eq!(w.context().pending(), 0);
}
