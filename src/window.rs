//! A window: one entity tree, component store and context, driven through the
//! init phase once and then, each tick, the event, layout, post-layout and render phases.
use vstd::prelude::*;
use crate::component::{key, lemma_map_value_insert, map_value, Component, ComponentKind, ComponentStore};
use crate::context::{Context, Handler, Message, RenderObject, WidgetState};
use crate::geometry::{arrange, arrange_spec, lemma_arrange_fits, Constraint, Layout, Rectangle};
use crate::tree::{descends, ids, lemma_collect_complete, lemma_collect_members, under, Entity, Tree, TreeError};

verus! {

/// Where a window is in its lifetime.
#[derive(Clone, Copy, Debug, PartialEq, Eq, Structural)]
pub enum Phase {
    Uninitialized,
    Ticking,
    Terminated,
}

/// One entry of the render output.
#[derive(Clone, Copy, Debug, PartialEq, Eq, Structural)]
pub struct Drawable {
    pub entity: Entity,
    pub object: RenderObject,
    pub bounds: Rectangle,
}

/// What one request does to the component map.
pub open spec fn apply_message(
    m: Map<u64, Component>,
    root: Option<u32>,
    handlers: Map<u32, Handler>,
    msg: Message,
) -> Map<u64, Component> {
    match msg {
        Message::Close => m,
        Message::Resize { width, height } => match root {
            Some(r) => m.insert(
                key(Entity(r), ComponentKind::Constraint),
                Component::Size(Constraint { width, height }),
            ),
            None => m,
        },
        Message::TitleChanged(t) => match root {
            Some(r) => m.insert(key(Entity(r), ComponentKind::Title), Component::Text(t)),
            None => m,
        },
        Message::Activate(e) => if handlers.contains_key(e.0) {
            match handlers[e.0] {
                Handler::SetConstraint(c) => m.insert(key(e, ComponentKind::Constraint), Component::Size(c)),
                Handler::ScrollTo(o) => m.insert(key(e, ComponentKind::ScrollOffset), Component::Offset(o)),
            }
        } else {
            m
        },
    }
}

/// The component map after applying `msgs` in order.
pub open spec fn apply_all(
    m: Map<u64, Component>,
    root: Option<u32>,
    handlers: Map<u32, Handler>,
    msgs: Seq<Message>,
) -> Map<u64, Component>
    decreases msgs.len(),
{
    if msgs.len() == 0 {
        m
    } else {
        apply_message(apply_all(m, root, handlers, msgs.drop_last()), root, handlers, msgs.last())
    }
}

/// Some request in `msgs` asks to close the window.
pub open spec fn has_close(msgs: Seq<Message>) -> bool
    decreases msgs.len(),
{
    if msgs.len() == 0 {
        false
    } else {
        has_close(msgs.drop_last()) || msgs.last() is Close
    }
}

/// The bounds component of entity `j`, if it holds one of that shape.
pub open spec fn bounds_of(s: ComponentStore, j: u32) -> Option<Rectangle> {
    match s.value(Entity(j), ComponentKind::Bounds) {
        Some(Component::Bounds(b)) => Some(b),
        _ => None,
    }
}

/// The size constraint of entity `j`, if it holds one of that shape.
pub open spec fn constraint_of(s: ComponentStore, j: u32) -> Option<Constraint> {
    match s.value(Entity(j), ComponentKind::Constraint) {
        Some(Component::Size(c)) => Some(c),
        _ => None,
    }
}

/// `j` is live and lies under the root or under the overlay.
pub open spec fn in_trees(t: Tree, j: int) -> bool {
    &&& 0 <= j < t.len_spec()
    &&& t.alive_spec()[j]
    &&& {
        ||| (t.root_spec() matches Some(r) && descends(t.parents_spec(), j, r as int))
        ||| (t.overlay_spec() matches Some(o) && descends(t.parents_spec(), j, o as int))
    }
}

/// `j` is the root or the overlay.
pub open spec fn is_top(t: Tree, j: int) -> bool {
    t.root_spec() == Some(j as u32) || t.overlay_spec() == Some(j as u32)
}

/// The bounds of `j` are where its layout strategy places it inside its parent's bounds.
pub open spec fn laid_out(t: Tree, s: ComponentStore, c: Context, j: int) -> bool {
    match t.parents_spec()[j] {
        Some(p) => match bounds_of(s, p) {
            Some(pb) => bounds_of(s, j as u32) == Some(
                arrange_spec(c.layout_of(j as u32), constraint_of(s, j as u32), pb.width, pb.height),
            ),
            None => false,
        },
        None => false,
    }
}

/// The scroll offset of entity `j`, if it holds one of that shape.
pub open spec fn offset_of(s: ComponentStore, j: u32) -> Option<u32> {
    match s.value(Entity(j), ComponentKind::ScrollOffset) {
        Some(Component::Offset(o)) => Some(o),
        _ => None,
    }
}

/// The scroll offset of entity `j` in a component map, if it holds one of that shape.
pub open spec fn offset_in(m: Map<u64, Component>, j: u32) -> Option<u32> {
    match map_value(m, Entity(j), ComponentKind::ScrollOffset) {
        Some(Component::Offset(o)) => Some(o),
        _ => None,
    }
}

/// Requests never touch bounds.
proof fn lemma_apply_all_keeps_bounds(
    m: Map<u64, Component>,
    root: Option<u32>,
    handlers: Map<u32, Handler>,
    msgs: Seq<Message>,
    e: Entity,
)
    ensures
        map_value(apply_all(m, root, handlers, msgs), e, ComponentKind::Bounds) == map_value(m, e, ComponentKind::Bounds),
    decreases msgs.len(),
{
    if msgs.len() > 0 {
        lemma_apply_all_keeps_bounds(m, root, handlers, msgs.drop_last(), e);
        let a = apply_all(m, root, handlers, msgs.drop_last());
        let k = ComponentKind::Bounds;
        match msgs.last() {
            Message::Close => {},
            Message::Resize { width, height } => {
                if let Some(r) = root {
                    lemma_map_value_insert(a, Entity(r), ComponentKind::Constraint, Component::Size(Constraint { width, height }), e, k);
                }
            },
            Message::TitleChanged(t) => {
                if let Some(r) = root {
                    lemma_map_value_insert(a, Entity(r), ComponentKind::Title, Component::Text(t), e, k);
                }
            },
            Message::Activate(x) => {
                if handlers.contains_key(x.0) {
                    match handlers[x.0] {
                        Handler::SetConstraint(c) => {
                            lemma_map_value_insert(a, x, ComponentKind::Constraint, Component::Size(c), e, k);
                        },
                        Handler::ScrollTo(o) => {
                            lemma_map_value_insert(a, x, ComponentKind::ScrollOffset, Component::Offset(o), e, k);
                        },
                    }
                }
            },
        }
    }
}

/// The scroll offset of entity `j` after the post-layout phase, from the offset `off`
/// and bounds `b` it had before: an entity whose state object depends on geometry has
/// its offset held to its height; any other keeps its offset.
pub open spec fn settled_offset(c: Context, j: u32, off: Option<u32>, b: Option<Rectangle>) -> Option<u32> {
    if c.state_of(j) == Some(WidgetState::Scroll) {
        match (off, b) {
            (Some(o), Some(bb)) => Some(clamp_offset(o, bb)),
            (x, _) => x,
        }
    } else {
        off
    }
}

/// A scroll offset held to the height of the entity's bounds.
pub open spec fn clamp_offset(o: u32, b: Rectangle) -> u32 {
    if o <= b.height { o } else { b.height }
}

/// The drawables of the entities of `es`, in order: one for each entity that has
/// both a render object and bounds.
pub open spec fn draw_list(s: ComponentStore, c: Context, es: Seq<u32>) -> Seq<Drawable>
    decreases es.len(),
{
    if es.len() == 0 {
        Seq::empty()
    } else {
        let prev = draw_list(s, c, es.drop_last());
        let e = es.last();
        match (c.render_of(e), bounds_of(s, e)) {
            (Some(o), Some(b)) => prev.push(Drawable { entity: Entity(e), object: o, bounds: b }),
            _ => prev,
        }
    }
}

/// The live subtree at an optional top entity; empty when there is none or it was removed.
pub open spec fn top_subtree(t: Tree, top: Option<u32>) -> Seq<u32> {
    match top {
        Some(r) => if t.contains(Entity(r)) { t.subtree(Entity(r)) } else { Seq::empty() },
        None => Seq::empty(),
    }
}

/// The render output for a window state: the root's content first, the overlay's last.
pub open spec fn render_spec(t: Tree, s: ComponentStore, c: Context) -> Seq<Drawable> {
    draw_list(s, c, top_subtree(t, t.root_spec())) + draw_list(s, c, top_subtree(t, t.overlay_spec()))
}

proof fn lemma_apply_all_frame(
    m0: Map<u64, Component>,
    m1: Map<u64, Component>,
    root: Option<u32>,
    handlers: Map<u32, Handler>,
    msgs: Seq<Message>,
    t: Tree,
    e: Entity,
    k: ComponentKind,
)
    requires
        k != ComponentKind::Bounds || !in_trees(t, e.0 as int),
        forall|e2: Entity, k2: ComponentKind| k2 != ComponentKind::Bounds || !in_trees(t, e2.0 as int)
            ==> #[trigger] map_value(m1, e2, k2) == map_value(m0, e2, k2),
    ensures
        map_value(apply_all(m1, root, handlers, msgs), e, k) == map_value(apply_all(m0, root, handlers, msgs), e, k),
    decreases msgs.len(),
{
    if msgs.len() > 0 {
        assert forall|e2: Entity, k2: ComponentKind| k2 != ComponentKind::Bounds || !in_trees(t, e2.0 as int)
            implies #[trigger] map_value(apply_all(m1, root, handlers, msgs.drop_last()), e2, k2)
            == map_value(apply_all(m0, root, handlers, msgs.drop_last()), e2, k2) by {
            lemma_apply_all_frame(m0, m1, root, handlers, msgs.drop_last(), t, e2, k2);
        }
        let a = apply_all(m0, root, handlers, msgs.drop_last());
        let b = apply_all(m1, root, handlers, msgs.drop_last());
        match msgs.last() {
            Message::Close => {
                assert(map_value(a, e, k) == map_value(b, e, k));
            },
            Message::Resize { width, height } => {
                if let Some(r) = root {
                    let v = Component::Size(Constraint { width, height });
                    lemma_map_value_insert(a, Entity(r), ComponentKind::Constraint, v, e, k);
                    lemma_map_value_insert(b, Entity(r), ComponentKind::Constraint, v, e, k);
                } else {
                    assert(map_value(a, e, k) == map_value(b, e, k));
                }
            },
            Message::TitleChanged(t) => {
                if let Some(r) = root {
                    let v = Component::Text(t);
                    lemma_map_value_insert(a, Entity(r), ComponentKind::Title, v, e, k);
                    lemma_map_value_insert(b, Entity(r), ComponentKind::Title, v, e, k);
                } else {
                    assert(map_value(a, e, k) == map_value(b, e, k));
                }
            },
            Message::Activate(x) => {
                if handlers.contains_key(x.0) {
                    match handlers[x.0] {
                        Handler::SetConstraint(c) => {
                            lemma_map_value_insert(a, x, ComponentKind::Constraint, Component::Size(c), e, k);
                            lemma_map_value_insert(b, x, ComponentKind::Constraint, Component::Size(c), e, k);
                        },
                        Handler::ScrollTo(o) => {
                            lemma_map_value_insert(a, x, ComponentKind::ScrollOffset, Component::Offset(o), e, k);
                            lemma_map_value_insert(b, x, ComponentKind::ScrollOffset, Component::Offset(o), e, k);
                        },
                    }
                } else {
                    assert(map_value(a, e, k) == map_value(b, e, k));
                }
            },
        }
    }
}

/// The overlay is live and top-level; the root, if any, is top-level and distinct
/// from it; and no other live entity is top-level.
pub open spec fn tops_ok(t: Tree) -> bool {
    let o = t.overlay_spec()->0;
    &&& o < t.len_spec()
    &&& t.alive_spec()[o as int]
    &&& t.parents_spec()[o as int] is None
    &&& (t.root_spec() matches Some(r) ==> r < t.len_spec() && t.alive_spec()[r as int]
        && t.parents_spec()[r as int] is None && r != o)
    &&& forall|i: int| 0 <= i < t.len_spec() && t.alive_spec()[i] && #[trigger] t.parents_spec()[i] is None
        ==> t.root_spec() == Some(i as u32) || t.overlay_spec() == Some(i as u32)
}

/// Entity `x` has no render object, layout strategy or handler in `c`.
pub open spec fn unregistered(c: Context, x: u32) -> bool {
    &&& c.render_of(x) is None
    &&& !c.layout_map().contains_key(x)
    &&& c.handler_of(x) is None
    &&& c.state_of(x) is None
}

/// Entity `x` has the same registrations in `c` as in `c0`.
pub open spec fn same_registrations(c: Context, c0: Context, x: u32) -> bool {
    &&& c.render_of(x) == c0.render_of(x)
    &&& c.layout_map().contains_key(x) == c0.layout_map().contains_key(x)
    &&& c.layout_of(x) == c0.layout_of(x)
    &&& c.handler_of(x) == c0.handler_of(x)
    &&& c.state_of(x) == c0.state_of(x)
}

/// What `create` does to a window, from `a` before it to `b` after it, with result `r`.
pub open spec fn created(a: Window, b: Window, parent: Option<Entity>, r: Result<Entity, TreeError>) -> bool {
    &&& b.tree_spec().overlay_spec() == a.tree_spec().overlay_spec()
    &&& match parent {
        Some(p) => {
            &&& !a.tree_spec().contains(p) ==> r == Err::<Entity, TreeError>(TreeError::NotFound)
            &&& a.tree_spec().contains(p) && a.tree_spec().len_spec() < u32::MAX ==> r is Ok
            &&& a.tree_spec().contains(p) && a.tree_spec().len_spec() == u32::MAX
                ==> r == Err::<Entity, TreeError>(TreeError::Exhausted)
            &&& b.tree_spec().root_spec() == a.tree_spec().root_spec()
        },
        None => {
            &&& (a.tree_spec().root_spec() matches Some(x) && a.tree_spec().contains(Entity(x)))
                ==> r == Err::<Entity, TreeError>(TreeError::RootExists)
            &&& !(a.tree_spec().root_spec() matches Some(x) && a.tree_spec().contains(Entity(x)))
                && a.tree_spec().len_spec() < u32::MAX ==> r is Ok
            &&& !(a.tree_spec().root_spec() matches Some(x) && a.tree_spec().contains(Entity(x)))
                && a.tree_spec().len_spec() == u32::MAX ==> r == Err::<Entity, TreeError>(TreeError::Exhausted)
            &&& r matches Ok(e) ==> b.tree_spec().root_spec() == Some(e.0)
        }
    }
    &&& r is Err ==> b == a
    &&& r matches Ok(e) ==> {
        &&& e.0 == a.tree_spec().len_spec()
        &&& b.tree_spec().alive_spec() == a.tree_spec().alive_spec().push(true)
        &&& b.tree_spec().parents_spec() == a.tree_spec().parents_spec().push(
            match parent { Some(p) => Some(p.0), None => None },
        )
    }
    &&& b.store_spec() == a.store_spec()
    &&& b.ctx_spec() == a.ctx_spec()
    &&& b.phase_spec() == a.phase_spec()
    &&& b.close_requested_spec() == a.close_requested_spec()
    &&& b.init_runs_spec() == a.init_runs_spec()
    &&& b.handled_spec() == a.handled_spec()
    &&& b.draws_spec() == a.draws_spec()
}

/// What `remove_entity` does to a window, from `a` before it to `b` after it, with result `r`.
pub open spec fn removed(a: Window, b: Window, e: Entity, r: Result<Vec<Entity>, TreeError>) -> bool {
    &&& !a.tree_spec().contains(e) ==> r == Err::<Vec<Entity>, TreeError>(TreeError::NotFound)
    &&& a.tree_spec().contains(e) && a.tree_spec().overlay_spec() == Some(e.0)
        ==> r == Err::<Vec<Entity>, TreeError>(TreeError::Protected)
    &&& r is Ok <==> a.tree_spec().contains(e) && a.tree_spec().overlay_spec() != Some(e.0)
    &&& r is Err ==> b == a
    &&& r matches Ok(v) ==> ids(v@) == a.tree_spec().subtree(e)
    &&& r is Ok ==> forall|j: int| 0 <= j < a.tree_spec().len_spec() && a.tree_spec().alive_spec()[j]
        && descends(a.tree_spec().parents_spec(), j, e.0 as int) ==> {
        &&& !b.tree_spec().contains(Entity(j as u32))
        &&& #[trigger] b.store_spec().is_bare(Entity(j as u32))
        &&& unregistered(b.ctx_spec(), j as u32)
    }
    &&& r is Ok ==> forall|j: int| 0 <= j < a.tree_spec().len_spec()
        && !descends(a.tree_spec().parents_spec(), j, e.0 as int) ==> {
        &&& b.tree_spec().alive_spec()[j] == a.tree_spec().alive_spec()[j]
        &&& forall|k: ComponentKind| #[trigger] b.store_spec().value(Entity(j as u32), k)
            == a.store_spec().value(Entity(j as u32), k)
        &&& same_registrations(b.ctx_spec(), a.ctx_spec(), j as u32)
    }
    &&& b.tree_spec().parents_spec() == a.tree_spec().parents_spec()
    &&& r is Ok ==> b.tree_spec().root_spec() == if a.tree_spec().root_spec() == Some(e.0) {
        None::<u32>
    } else {
        a.tree_spec().root_spec()
    }
    &&& b.tree_spec().overlay_spec() == a.tree_spec().overlay_spec()
    &&& b.phase_spec() == a.phase_spec()
    &&& b.close_requested_spec() == a.close_requested_spec()
    &&& b.init_runs_spec() == a.init_runs_spec()
    &&& b.handled_spec() == a.handled_spec()
    &&& b.draws_spec() == a.draws_spec()
    &&& b.ctx_spec().queue_spec() == a.ctx_spec().queue_spec()
}

/// What one tick does to a window, from `a` before it to `b` after it.
pub open spec fn ticked(a: Window, b: Window) -> bool {
    &&& b.tree_spec() == a.tree_spec()
    &&& b.ctx_spec().render_map() == a.ctx_spec().render_map()
    &&& b.ctx_spec().layout_map() == a.ctx_spec().layout_map()
    &&& b.ctx_spec().handler_map() == a.ctx_spec().handler_map()
    &&& b.ctx_spec().state_map() == a.ctx_spec().state_map()
    &&& a.init_runs_spec() == 1 ==> b.init_runs_spec() == 1
    &&& a.phase_spec() is Terminated ==> b == a
    &&& !(a.phase_spec() is Terminated) && a.close_requested_spec() ==> {
        &&& b.phase_spec() is Terminated
        &&& b.store_spec() == a.store_spec()
        &&& b.ctx_spec() == a.ctx_spec()
        &&& b.draws_spec() == a.draws_spec()
    }
    &&& !(a.phase_spec() is Terminated) && !a.close_requested_spec() ==> {
        &&& b.phase_spec() is Ticking
        &&& b.init_runs_spec() == 1
        &&& b.handled_spec() == a.ctx_spec().queue_spec()
        &&& b.ctx_spec().queue_spec().len() == 0
        &&& b.close_requested_spec() == has_close(a.ctx_spec().queue_spec())
        &&& forall|e: Entity, k: ComponentKind|
            (k != ComponentKind::Bounds && k != ComponentKind::ScrollOffset) || !in_trees(b.tree_spec(), e.0 as int)
            ==> #[trigger] b.store_spec().value(e, k) == map_value(
            apply_all(
                a.store_spec().map_spec(),
                a.tree_spec().root_spec(),
                a.ctx_spec().handler_map(),
                a.ctx_spec().queue_spec(),
            ),
            e,
            k,
        )
        &&& match (b.tree_spec().root_spec(), b.tree_spec().overlay_spec()) {
            (Some(r), Some(o)) => if !b.tree_spec().contains(Entity(r)) { true } else { match constraint_of(b.store_spec(), r) {
                Some(c) => {
                    &&& bounds_of(b.store_spec(), r) == Some(Rectangle::from_constraint_spec(c))
                    &&& bounds_of(b.store_spec(), o) == Some(Rectangle::from_constraint_spec(c))
                    &&& forall|j: int| in_trees(b.tree_spec(), j) && !is_top(b.tree_spec(), j)
                        ==> #[trigger] laid_out(b.tree_spec(), b.store_spec(), b.ctx_spec(), j)
                },
                None => forall|e: Entity| #[trigger] b.store_spec().value(e, ComponentKind::Bounds)
                    == a.store_spec().value(e, ComponentKind::Bounds),
            } },
            _ => true,
        }
        &&& forall|j: int| in_trees(b.tree_spec(), j)
            ==> #[trigger] offset_of(b.store_spec(), j as u32) == settled_offset(
                b.ctx_spec(),
                j as u32,
                offset_in(apply_all(
                    a.store_spec().map_spec(),
                    a.tree_spec().root_spec(),
                    a.ctx_spec().handler_map(),
                    a.ctx_spec().queue_spec(),
                ), j as u32),
                bounds_of(b.store_spec(), j as u32),
            )
        &&& b.draws_spec() == render_spec(b.tree_spec(), b.store_spec(), b.ctx_spec())
    }
}

pub struct Window {
    tree: Tree,
    store: ComponentStore,
    ctx: Context,
    phase: Phase,
    close_requested: bool,
    init_runs: u32,
    handled: Vec<Message>,
    draws: Vec<Drawable>,
}

impl Window {
    pub closed spec fn tree_spec(&self) -> Tree {
        self.tree
    }

    pub closed spec fn store_spec(&self) -> ComponentStore {
        self.store
    }

    pub closed spec fn ctx_spec(&self) -> Context {
        self.ctx
    }

    pub closed spec fn phase_spec(&self) -> Phase {
        self.phase
    }

    pub closed spec fn close_requested_spec(&self) -> bool {
        self.close_requested
    }

    pub closed spec fn init_runs_spec(&self) -> u32 {
        self.init_runs
    }

    pub closed spec fn handled_spec(&self) -> Seq<Message> {
        self.handled@
    }

    pub closed spec fn draws_spec(&self) -> Seq<Drawable> {
        self.draws@
    }

    pub open spec fn wf(&self) -> bool {
        &&& self.tree_spec().wf()
        &&& self.tree_spec().overlay_spec() is Some
        &&& tops_ok(self.tree_spec())
        &&& self.init_runs_spec() <= 1
        &&& (self.phase_spec() is Uninitialized ==> self.init_runs_spec() == 0 && !self.close_requested_spec())
        &&& (self.phase_spec() is Ticking ==> self.init_runs_spec() == 1)
    }

    /// A window with an empty overlay entity and no root yet.
    pub fn new() -> (r: Window)
        ensures
            r.wf(),
            r.phase_spec() is Uninitialized,
            !r.close_requested_spec(),
            r.tree_spec().len_spec() == 1,
            r.tree_spec().overlay_spec() == Some(0u32),
            r.tree_spec().root_spec() is None,
            forall|e: Entity, k: ComponentKind| #[trigger] r.store_spec().value(e, k) is None,
            r.ctx_spec().queue_spec().len() == 0,
            r.draws_spec().len() == 0,
    {
        let mut tree = Tree::new();
        let overlay = tree.create(None);
        match overlay {
            Ok(o) => {
                let _ = tree.set_overlay(o);
            },
            Err(_) => {},
        }
        Window {
            tree,
            store: ComponentStore::new(),
            ctx: Context::new(),
            phase: Phase::Uninitialized,
            close_requested: false,
            init_runs: 0,
            handled: Vec::new(),
            draws: Vec::new(),
        }
    }

    pub fn tree(&self) -> (r: &Tree)
        ensures
            *r == self.tree_spec(),
    {
        &self.tree
    }

    pub fn store(&self) -> (r: &ComponentStore)
        ensures
            *r == self.store_spec(),
    {
        &self.store
    }

    pub fn context(&self) -> (r: &Context)
        ensures
            *r == self.ctx_spec(),
    {
        &self.ctx
    }

    pub fn phase(&self) -> (r: Phase)
        ensures
            r == self.phase_spec(),
    {
        self.phase
    }

    /// How many times the init phase has run: never more than once.
    pub fn init_runs(&self) -> (r: u32)
        ensures
            r == self.init_runs_spec(),
    {
        self.init_runs
    }

    /// The requests handled by the last event phase, in the order handled.
    pub fn handled(&self) -> (r: &Vec<Message>)
        ensures
            r@ == self.handled_spec(),
    {
        &self.handled
    }

    /// The render output of the last tick.
    pub fn draws(&self) -> (r: &Vec<Drawable>)
        ensures
            r@ == self.draws_spec(),
    {
        &self.draws
    }

    /// Creates an entity below `parent`; without a parent, creates the window's root,
    /// which is refused while a live root exists.
    pub fn create(&mut self, parent: Option<Entity>) -> (r: Result<Entity, TreeError>)
        requires
            old(self).wf(),
        ensures
            final(self).wf(),
            created(*old(self), *final(self), parent, r),
    {
        match parent {
            Some(p) => {
                let r = self.tree.create(Some(p));
                proof {
                    if r is Ok {
                        let t = self.tree;
                        let o = old(self).tree;
                        assert forall|i: int| 0 <= i < t.len_spec() && t.alive_spec()[i] && #[trigger] t.parents_spec()[i] is None
                            implies t.root_spec() == Some(i as u32) || t.overlay_spec() == Some(i as u32) by {
                            assert(i < o.len_spec());
                            assert(o.parents_spec()[i] is None);
                        }
                    }
                }
                r
            },
            None => {
                if let Some(x) = self.tree.root() {
                    if self.tree.is_alive(x) {
                        return Err(TreeError::RootExists);
                    }
                }
                let e = match self.tree.create(None) {
                    Ok(e) => e,
                    Err(x) => return Err(x),
                };
                let _ = self.tree.set_root(e);
                proof {
                    let t = self.tree;
                    let o = old(self).tree;
                    assert forall|i: int| 0 <= i < t.len_spec() && t.alive_spec()[i] && #[trigger] t.parents_spec()[i] is None
                        implies t.root_spec() == Some(i as u32) || t.overlay_spec() == Some(i as u32) by {
                        if i < o.len_spec() {
                            assert(o.parents_spec()[i] is None);
                            assert(o.alive_spec()[i]);
                        }
                    }
                }
                Ok(e)
            },
        }
    }

    /// Sets a component on `e`, replacing a previous one of the same kind.
    pub fn register(&mut self, kind: ComponentKind, e: Entity, value: Component)
        requires
            old(self).wf(),
        ensures
            final(self).wf(),
            final(self).store_spec().map_spec() == old(self).store_spec().map_spec().insert(key(e, kind), value),
            final(self).store_spec().value(e, kind) == Some(value),
            final(self).tree_spec() == old(self).tree_spec(),
            final(self).ctx_spec() == old(self).ctx_spec(),
            final(self).phase_spec() == old(self).phase_spec(),
            final(self).close_requested_spec() == old(self).close_requested_spec(),
            final(self).init_runs_spec() == old(self).init_runs_spec(),
            final(self).handled_spec() == old(self).handled_spec(),
            final(self).draws_spec() == old(self).draws_spec(),
    {
        self.store.register(kind, e, value)
    }

    /// Registers the drawable representation of `e`.
    pub fn insert_render_object(&mut self, e: Entity, obj: RenderObject)
        requires
            old(self).wf(),
        ensures
            final(self).wf(),
            final(self).ctx_spec().render_map() == old(self).ctx_spec().render_map().insert(e.0, obj),
            final(self).ctx_spec().layout_map() == old(self).ctx_spec().layout_map(),
            final(self).ctx_spec().handler_map() == old(self).ctx_spec().handler_map(),
            final(self).ctx_spec().state_map() == old(self).ctx_spec().state_map(),
            final(self).ctx_spec().queue_spec() == old(self).ctx_spec().queue_spec(),
            final(self).tree_spec() == old(self).tree_spec(),
            final(self).store_spec() == old(self).store_spec(),
            final(self).phase_spec() == old(self).phase_spec(),
    {
        self.ctx.insert_render_object(e, obj)
    }

    /// Registers the layout strategy of `e`.
    pub fn insert_layout(&mut self, e: Entity, layout: Layout)
        requires
            old(self).wf(),
        ensures
            final(self).wf(),
            final(self).ctx_spec().layout_map() == old(self).ctx_spec().layout_map().insert(e.0, layout),
            final(self).ctx_spec().render_map() == old(self).ctx_spec().render_map(),
            final(self).ctx_spec().handler_map() == old(self).ctx_spec().handler_map(),
            final(self).ctx_spec().state_map() == old(self).ctx_spec().state_map(),
            final(self).ctx_spec().queue_spec() == old(self).ctx_spec().queue_spec(),
            final(self).tree_spec() == old(self).tree_spec(),
            final(self).store_spec() == old(self).store_spec(),
            final(self).phase_spec() == old(self).phase_spec(),
    {
        self.ctx.insert_layout(e, layout)
    }

    /// Registers the activation handler of `e`.
    pub fn insert_handler(&mut self, e: Entity, handler: Handler)
        requires
            old(self).wf(),
        ensures
            final(self).wf(),
            final(self).ctx_spec().handler_map() == old(self).ctx_spec().handler_map().insert(e.0, handler),
            final(self).ctx_spec().state_map() == old(self).ctx_spec().state_map(),
            final(self).ctx_spec().render_map() == old(self).ctx_spec().render_map(),
            final(self).ctx_spec().layout_map() == old(self).ctx_spec().layout_map(),
            final(self).ctx_spec().queue_spec() == old(self).ctx_spec().queue_spec(),
            final(self).tree_spec() == old(self).tree_spec(),
            final(self).store_spec() == old(self).store_spec(),
            final(self).phase_spec() == old(self).phase_spec(),
    {
        self.ctx.insert_handler(e, handler)
    }

    /// Registers the state object of `e`.
    pub fn insert_state(&mut self, e: Entity, state: WidgetState)
        requires
            old(self).wf(),
        ensures
            final(self).wf(),
            final(self).ctx_spec().state_map() == old(self).ctx_spec().state_map().insert(e.0, state),
            final(self).ctx_spec().render_map() == old(self).ctx_spec().render_map(),
            final(self).ctx_spec().layout_map() == old(self).ctx_spec().layout_map(),
            final(self).ctx_spec().handler_map() == old(self).ctx_spec().handler_map(),
            final(self).ctx_spec().queue_spec() == old(self).ctx_spec().queue_spec(),
            final(self).tree_spec() == old(self).tree_spec(),
            final(self).store_spec() == old(self).store_spec(),
            final(self).phase_spec() == old(self).phase_spec(),
    {
        self.ctx.insert_state(e, state)
    }

    /// Queues a request for the next event phase; a request to a terminated window is dropped.
    pub fn send(&mut self, m: Message)
        requires
            old(self).wf(),
        ensures
            final(self).wf(),
            !(old(self).phase_spec() is Terminated)
                ==> final(self).ctx_spec().queue_spec() == old(self).ctx_spec().queue_spec().push(m),
            old(self).phase_spec() is Terminated
                ==> final(self).ctx_spec().queue_spec() == old(self).ctx_spec().queue_spec(),
            final(self).ctx_spec().render_map() == old(self).ctx_spec().render_map(),
            final(self).ctx_spec().layout_map() == old(self).ctx_spec().layout_map(),
            final(self).ctx_spec().handler_map() == old(self).ctx_spec().handler_map(),
            final(self).ctx_spec().state_map() == old(self).ctx_spec().state_map(),
            final(self).tree_spec() == old(self).tree_spec(),
            final(self).store_spec() == old(self).store_spec(),
            final(self).phase_spec() == old(self).phase_spec(),
            final(self).close_requested_spec() == old(self).close_requested_spec(),
            final(self).init_runs_spec() == old(self).init_runs_spec(),
            final(self).handled_spec() == old(self).handled_spec(),
            final(self).draws_spec() == old(self).draws_spec(),
    {
        match self.phase {
            Phase::Terminated => {},
            _ => self.ctx.send(m),
        }
    }

    /// The event phase: applies every queued request in the order sent.
    fn event_state(&mut self)
        requires
            old(self).wf(),
            old(self).phase_spec() is Ticking,
        ensures
            final(self).wf(),
            final(self).handled_spec() == old(self).ctx_spec().queue_spec(),
            final(self).store_spec().map_spec() == apply_all(
                old(self).store_spec().map_spec(),
                old(self).tree_spec().root_spec(),
                old(self).ctx_spec().handler_map(),
                old(self).ctx_spec().queue_spec(),
            ),
            final(self).close_requested_spec() == (old(self).close_requested_spec()
                || has_close(old(self).ctx_spec().queue_spec())),
            final(self).ctx_spec().queue_spec().len() == 0,
            final(self).ctx_spec().render_map() == old(self).ctx_spec().render_map(),
            final(self).ctx_spec().layout_map() == old(self).ctx_spec().layout_map(),
            final(self).ctx_spec().handler_map() == old(self).ctx_spec().handler_map(),
            final(self).ctx_spec().state_map() == old(self).ctx_spec().state_map(),
            final(self).tree_spec() == old(self).tree_spec(),
            final(self).phase_spec() == old(self).phase_spec(),
            final(self).init_runs_spec() == old(self).init_runs_spec(),
            final(self).draws_spec() == old(self).draws_spec(),
    {
        let ghost msgs0 = self.ctx.queue_spec();
        let ghost map0 = self.store.map_spec();
        let ghost close0 = self.close_requested;
        let mut msgs = self.ctx.drain();
        let root = self.tree.root();
        self.handled = Vec::new();
        let mut k: usize = 0;
        let n = msgs.len();
        while msgs.len() > 0
            invariant
                self.tree.wf(),
                self.tree.overlay_spec() is Some,
                self.init_runs <= 1,
                self.phase is Ticking,
                self.init_runs == 1,
                self.tree == old(self).tree,
                self.phase == old(self).phase,
                self.init_runs == old(self).init_runs,
                self.draws == old(self).draws,
                self.ctx.handler_map() == old(self).ctx_spec().handler_map(),
                self.ctx.state_map() == old(self).ctx_spec().state_map(),
                self.ctx.render_map() == old(self).ctx_spec().render_map(),
                self.ctx.layout_map() == old(self).ctx_spec().layout_map(),
                self.ctx.queue_spec().len() == 0,
                n == msgs0.len(),
                k + msgs@.len() == n,
                msgs@ == msgs0.skip(k as int),
                self.handled@ == msgs0.take(k as int),
                root matches Some(r) ==> self.tree.root_spec() == Some(r.0),
                root is None <==> self.tree.root_spec() is None,
                self.store.map_spec() == apply_all(map0, self.tree.root_spec(), self.ctx.handler_map(), msgs0.take(k as int)),
                self.close_requested == (close0 || has_close(msgs0.take(k as int))),
            decreases msgs@.len(),
        {
            let m = msgs.remove(0);
            assert(m == msgs0[k as int]);
            assert(msgs0.take(k as int + 1).drop_last() =~= msgs0.take(k as int));
            assert(msgs0.take(k as int + 1).last() == m);
            match &m {
                Message::Close => {
                    self.close_requested = true;
                },
                Message::Resize { width, height } => {
                    if let Some(r) = root {
                        self.store.register(
                            ComponentKind::Constraint,
                            r,
                            Component::Size(Constraint { width: *width, height: *height }),
                        );
                    }
                },
                Message::TitleChanged(t) => {
                    if let Some(r) = root {
                        self.store.register(ComponentKind::Title, r, Component::Text(t.clone()));
                    }
                },
                Message::Activate(e) => {
                    match self.ctx.handler(*e) {
                        Some(Handler::SetConstraint(c)) => {
                            self.store.register(ComponentKind::Constraint, *e, Component::Size(c));
                        },
                        Some(Handler::ScrollTo(o)) => {
                            self.store.register(ComponentKind::ScrollOffset, *e, Component::Offset(o));
                        },
                        None => {},
                    }
                },
            }
            self.handled.push(m);
            assert(self.handled@ =~= msgs0.take(k as int + 1));
            assert(msgs@ =~= msgs0.skip(k as int + 1));
            k += 1;
        }
        assert(msgs0.take(n as int) =~= msgs0);
    }

    /// The layout phase. The root and the overlay take the root's size constraint;
    /// every other entity under them is placed by its layout strategy inside its
    /// parent's new bounds. Without a root, or a root without a constraint, nothing moves.
    fn layout(&mut self)
        requires
            old(self).wf(),
        ensures
            final(self).wf(),
            match (old(self).tree_spec().root_spec(), old(self).tree_spec().overlay_spec()) {
                (Some(r), Some(o)) => if !old(self).tree_spec().contains(Entity(r)) {
                    final(self).store_spec() == old(self).store_spec()
                } else {
                    match constraint_of(old(self).store_spec(), r) {
                        Some(c) => {
                            &&& bounds_of(final(self).store_spec(), r) == Some(Rectangle::from_constraint_spec(c))
                            &&& bounds_of(final(self).store_spec(), o) == Some(Rectangle::from_constraint_spec(c))
                            &&& forall|j: int| in_trees(final(self).tree_spec(), j) && !is_top(final(self).tree_spec(), j)
                                ==> #[trigger] laid_out(final(self).tree_spec(), final(self).store_spec(), final(self).ctx_spec(), j)
                        },
                        None => final(self).store_spec() == old(self).store_spec(),
                    }
                },
                _ => final(self).store_spec() == old(self).store_spec(),
            },
            forall|e: Entity, k: ComponentKind| k != ComponentKind::Bounds || !in_trees(old(self).tree_spec(), e.0 as int)
                ==> #[trigger] final(self).store_spec().value(e, k) == old(self).store_spec().value(e, k),
            final(self).tree_spec() == old(self).tree_spec(),
            final(self).ctx_spec() == old(self).ctx_spec(),
            final(self).phase_spec() == old(self).phase_spec(),
            final(self).init_runs_spec() == old(self).init_runs_spec(),
            final(self).close_requested_spec() == old(self).close_requested_spec(),
            final(self).handled_spec() == old(self).handled_spec(),
            final(self).draws_spec() == old(self).draws_spec(),
    {
        let root = match self.tree.root() {
            Some(r) => r,
            None => return,
        };
        if !self.tree.is_alive(root) {
            return;
        }
        let overlay = match self.tree.overlay() {
            Some(o) => o,
            None => return,
        };
        let c = match self.store.get_constraint(ComponentKind::Constraint, root) {
            Ok(c) => c,
            Err(_) => return,
        };
        let ghost store0 = self.store;
        proof {
            assert(descends(self.tree.parents_spec(), root.0 as int, root.0 as int));
            assert(in_trees(self.tree, root.0 as int));
            assert(descends(self.tree.parents_spec(), overlay.0 as int, overlay.0 as int));
            assert(in_trees(self.tree, overlay.0 as int));
        }
        let area = Rectangle::from_constraint(c);
        self.store.register(ComponentKind::Bounds, root, Component::Bounds(area));
        self.store.register(ComponentKind::Bounds, overlay, Component::Bounds(area));
        let mr = self.tree.marks(root);
        let mo = self.tree.marks(overlay);
        let n = self.tree.len();
        let mut i: usize = 0;
        while i < n
            invariant
                self.tree == old(self).tree,
                self.ctx == old(self).ctx,
                self.phase == old(self).phase,
                self.init_runs == old(self).init_runs,
                self.close_requested == old(self).close_requested,
                self.handled == old(self).handled,
                self.draws == old(self).draws,
                self.tree.wf(),
                self.tree.overlay_spec() == Some(overlay.0),
                self.tree.root_spec() == Some(root.0),
                n == self.tree.len_spec(),
                i <= n,
                mr@.len() == n,
                mo@.len() == n,
                forall|k: int| 0 <= k < n ==> mr@[k] == descends(self.tree.parents_spec(), k, root.0 as int),
                forall|k: int| 0 <= k < n ==> mo@[k] == descends(self.tree.parents_spec(), k, overlay.0 as int),
                bounds_of(self.store, root.0) == Some(area),
                bounds_of(self.store, overlay.0) == Some(area),
                constraint_of(store0, root.0) == Some(c),
                forall|e: Entity, k: ComponentKind| k != ComponentKind::Bounds || !in_trees(self.tree, e.0 as int)
                    ==> #[trigger] self.store.value(e, k) == store0.value(e, k),
                self.tree.contains(root),
                forall|j: int| 0 <= j < i && in_trees(self.tree, j) && !is_top(self.tree, j)
                    ==> #[trigger] laid_out(self.tree, self.store, self.ctx, j),
            decreases n - i,
        {
            if self.tree.is_alive(Entity(i as u32)) && (mr[i] || mo[i]) && i as u32 != root.0
                && i as u32 != overlay.0 {
                let ghost ii = i as int;
                assert(in_trees(self.tree, ii));
                let p = match self.tree.parent(Entity(i as u32)) {
                    Ok(Some(p)) => p,
                    _ => {
                        assert(false);
                        return;
                    },
                };
                assert(self.tree.parents_spec()[ii] == Some(p.0));
                assert(p.0 < i);
                assert(in_trees(self.tree, p.0 as int));
                proof {
                    if !is_top(self.tree, p.0 as int) {
                        assert(laid_out(self.tree, self.store, self.ctx, p.0 as int));
                    }
                }
                let pb = match self.store.get_bounds(ComponentKind::Bounds, p) {
                    Ok(b) => b,
                    Err(_) => {
                        assert(false);
                        return;
                    },
                };
                let layout = self.ctx.layout(Entity(i as u32));
                let desired = match self.store.get_constraint(ComponentKind::Constraint, Entity(i as u32)) {
                    Ok(d) => Some(d),
                    Err(_) => None,
                };
                let b = arrange(layout, desired, pb.width, pb.height);
                let ghost before = self.store;
                self.store.register(ComponentKind::Bounds, Entity(i as u32), Component::Bounds(b));
                proof {
                    assert forall|j: int| 0 <= j < i + 1 && in_trees(self.tree, j) && !is_top(self.tree, j)
                        implies #[trigger] laid_out(self.tree, self.store, self.ctx, j) by {
                        if j < i {
                            assert(laid_out(self.tree, before, self.ctx, j));
                            let q = self.tree.parents_spec()[j]->0;
                            assert(self.tree.parents_spec()[j] == Some(q));
                            assert(q < j);
                            assert(bounds_of(self.store, q) == bounds_of(before, q));
                            assert(bounds_of(self.store, j as u32) == bounds_of(before, j as u32));
                            assert(constraint_of(self.store, j as u32) == constraint_of(before, j as u32));
                        } else {
                            assert(bounds_of(self.store, p.0) == bounds_of(before, p.0));
                            assert(constraint_of(self.store, i as u32) == constraint_of(before, i as u32));
                        }
                    }
                }
            }
            i += 1;
        }
    }

    /// The post-layout phase: scroll offsets under the root or the overlay are held
    /// to the height of their new bounds.
    fn post_layout(&mut self)
        requires
            old(self).wf(),
        ensures
            final(self).wf(),
            forall|j: int| #![trigger offset_of(final(self).store_spec(), j as u32)]
                in_trees(old(self).tree_spec(), j) ==> offset_of(final(self).store_spec(), j as u32) == settled_offset(
                old(self).ctx_spec(),
                j as u32,
                offset_of(old(self).store_spec(), j as u32),
                bounds_of(old(self).store_spec(), j as u32),
            ),
            forall|e: Entity, k: ComponentKind| k != ComponentKind::ScrollOffset
                ==> #[trigger] final(self).store_spec().value(e, k) == old(self).store_spec().value(e, k),
            forall|e: Entity| !in_trees(old(self).tree_spec(), e.0 as int)
                ==> #[trigger] final(self).store_spec().value(e, ComponentKind::ScrollOffset)
                == old(self).store_spec().value(e, ComponentKind::ScrollOffset),
            final(self).tree_spec() == old(self).tree_spec(),
            final(self).ctx_spec() == old(self).ctx_spec(),
            final(self).phase_spec() == old(self).phase_spec(),
            final(self).init_runs_spec() == old(self).init_runs_spec(),
            final(self).close_requested_spec() == old(self).close_requested_spec(),
            final(self).handled_spec() == old(self).handled_spec(),
            final(self).draws_spec() == old(self).draws_spec(),
    {
        let ghost store0 = self.store;
        let overlay = match self.tree.overlay() {
            Some(o) => o,
            None => return,
        };
        let mo = self.tree.marks(overlay);
        let root = self.tree.root();
        let mr = match root {
            Some(r) => self.tree.marks(r),
            None => self.tree.marks(overlay),
        };
        let n = self.tree.len();
        let mut i: usize = 0;
        while i < n
            invariant
                self.tree == old(self).tree,
                self.ctx == old(self).ctx,
                self.phase == old(self).phase,
                self.init_runs == old(self).init_runs,
                self.close_requested == old(self).close_requested,
                self.handled == old(self).handled,
                self.draws == old(self).draws,
                self.tree.wf(),
                self.tree.overlay_spec() == Some(overlay.0),
                root matches Some(r) ==> self.tree.root_spec() == Some(r.0),
                root is None <==> self.tree.root_spec() is None,
                n == self.tree.len_spec(),
                i <= n,
                mr@.len() == n,
                mo@.len() == n,
                forall|k: int| 0 <= k < n ==> mr@[k] == descends(self.tree.parents_spec(), k,
                    match root { Some(r) => r.0 as int, None => overlay.0 as int }),
                forall|k: int| 0 <= k < n ==> mo@[k] == descends(self.tree.parents_spec(), k, overlay.0 as int),
                forall|e: Entity, k: ComponentKind| k != ComponentKind::ScrollOffset
                    ==> #[trigger] self.store.value(e, k) == store0.value(e, k),
                forall|e: Entity| (e.0 >= i || !in_trees(self.tree, e.0 as int))
                    ==> #[trigger] self.store.value(e, ComponentKind::ScrollOffset)
                    == store0.value(e, ComponentKind::ScrollOffset),
                forall|j: int| #![trigger offset_of(self.store, j as u32)]
                    0 <= j < i && in_trees(self.tree, j) ==> offset_of(self.store, j as u32) == settled_offset(self.ctx, j as u32, offset_of(store0, j as u32), bounds_of(store0, j as u32)),
            decreases n - i,
        {
            let e = Entity(i as u32);
            let ghost before = self.store;
            assert(self.store.value(e, ComponentKind::ScrollOffset) == store0.value(e, ComponentKind::ScrollOffset));
            assert(self.store.value(e, ComponentKind::Bounds) == store0.value(e, ComponentKind::Bounds));
            let scrolls = match self.ctx.state(e) {
                Some(WidgetState::Scroll) => true,
                _ => false,
            };
            if self.tree.is_alive(e) && ((root.is_some() && mr[i]) || mo[i]) && scrolls {
                match (
                    self.store.get_offset(ComponentKind::ScrollOffset, e),
                    self.store.get_bounds(ComponentKind::Bounds, e),
                ) {
                    (Ok(o), Ok(b)) => {
                        if o > b.height {
                            self.store.register(ComponentKind::ScrollOffset, e, Component::Offset(b.height));
                        }
                    },
                    _ => {},
                }
            }
            proof {
                assert forall|j: int| #![trigger offset_of(self.store, j as u32)]
                    0 <= j < i + 1 && in_trees(self.tree, j) implies offset_of(self.store, j as u32) == settled_offset(self.ctx, j as u32, offset_of(store0, j as u32), bounds_of(store0, j as u32)) by {
                    if j < i {
                        assert(offset_of(before, j as u32) == offset_of(self.store, j as u32));
                    }
                }
            }
            i += 1;
        }
    }

    /// The drawables of the entities of `es`, appended to `out`.
    fn emit(&self, es: &Vec<Entity>, out: &mut Vec<Drawable>)
        ensures
            final(out)@ == old(out)@ + draw_list(self.store, self.ctx, ids(es@)),
    {
        let ghost start = out@;
        let mut i: usize = 0;
        while i < es.len()
            invariant
                i <= es@.len(),
                out@ == start + draw_list(self.store, self.ctx, ids(es@.take(i as int))),
            decreases es@.len() - i,
        {
            let e = es[i];
            assert(ids(es@.take(i as int + 1)).drop_last() =~= ids(es@.take(i as int)));
            assert(ids(es@.take(i as int + 1)).last() == e.0);
            match (self.ctx.render_object(e), self.store.get_bounds(ComponentKind::Bounds, e)) {
                (Some(o), Ok(b)) => {
                    out.push(Drawable { entity: e, object: o, bounds: b });
                    assert(out@ =~= start + draw_list(self.store, self.ctx, ids(es@.take(i as int + 1))));
                },
                _ => {
                    assert(out@ =~= start + draw_list(self.store, self.ctx, ids(es@.take(i as int + 1))));
                },
            }
            i += 1;
        }
        assert(es@.take(es@.len() as int) =~= es@);
    }

    /// The render phase: the root's content first, then the overlay's, so overlay
    /// content composites above root content.
    fn render(&mut self)
        requires
            old(self).wf(),
        ensures
            final(self).wf(),
            final(self).draws_spec() == render_spec(old(self).tree_spec(), old(self).store_spec(), old(self).ctx_spec()),
            final(self).tree_spec() == old(self).tree_spec(),
            final(self).store_spec() == old(self).store_spec(),
            final(self).ctx_spec() == old(self).ctx_spec(),
            final(self).phase_spec() == old(self).phase_spec(),
            final(self).init_runs_spec() == old(self).init_runs_spec(),
            final(self).close_requested_spec() == old(self).close_requested_spec(),
            final(self).handled_spec() == old(self).handled_spec(),
    {
        let mut out: Vec<Drawable> = Vec::new();
        if let Some(r) = self.tree.root() {
            if let Ok(es) = self.tree.subtree_of(r) {
                self.emit(&es, &mut out);
            }
        }
        if let Some(o) = self.tree.overlay() {
            if let Ok(es) = self.tree.subtree_of(o) {
                self.emit(&es, &mut out);
            }
        }
        self.draws = out;
    }

    /// The init phase: marks the window initialized, once, before its first tick's phases.
    fn init(&mut self)
        requires
            old(self).wf(),
            old(self).phase_spec() is Uninitialized,
        ensures
            final(self).wf(),
            final(self).init_runs_spec() == 1,
            final(self).phase_spec() is Ticking,
            final(self).store_spec() == old(self).store_spec(),
            final(self).tree_spec() == old(self).tree_spec(),
            final(self).ctx_spec() == old(self).ctx_spec(),
            final(self).close_requested_spec() == old(self).close_requested_spec(),
            final(self).handled_spec() == old(self).handled_spec(),
            final(self).draws_spec() == old(self).draws_spec(),
    {
        self.init_runs = self.init_runs + 1;
        self.phase = Phase::Ticking;
    }

    /// One tick. A terminated window does nothing; a window that was asked to close
    /// terminates; otherwise the init phase runs if it never has, then the event,
    /// layout, post-layout and render phases run in that order.
    pub fn tick(&mut self)
        requires
            old(self).wf(),
        ensures
            final(self).wf(),
            ticked(*old(self), *final(self)),
    {
        if self.phase == Phase::Terminated {
            return;
        }
        if self.close_requested {
            self.phase = Phase::Terminated;
            return;
        }
        let ghost s0 = self.store;
        if self.phase == Phase::Uninitialized {
            self.init();
        }
        let ghost s1 = self.store;
        assert forall|e: Entity, k: ComponentKind| k != ComponentKind::Bounds || !in_trees(self.tree, e.0 as int)
            implies #[trigger] map_value(s1.map_spec(), e, k) == map_value(s0.map_spec(), e, k) by {
            assert(s1.value(e, k) == s0.value(e, k));
        }
        self.event_state();
        let ghost s2 = self.store;
        proof {
            assert forall|e: Entity, k: ComponentKind| k != ComponentKind::Bounds || !in_trees(self.tree, e.0 as int)
                implies #[trigger] map_value(s2.map_spec(), e, k) == map_value(apply_all(
                    s0.map_spec(), self.tree.root_spec(), self.ctx.handler_map(), self.handled@), e, k) by {
                lemma_apply_all_frame(s0.map_spec(), s1.map_spec(), self.tree.root_spec(), self.ctx.handler_map(), self.handled@, self.tree, e, k);
            }
        }
        self.layout();
        let ghost s3 = self.store;
        self.post_layout();
        let ghost s4 = self.store;
        proof {
            let t = self.tree;
            let c = self.ctx;
            assert forall|j: int| in_trees(t, j) && !is_top(t, j) && laid_out(t, s3, c, j)
                implies #[trigger] laid_out(t, s4, c, j) by {
                let p = t.parents_spec()[j]->0;
                assert(s4.value(Entity(p), ComponentKind::Bounds) == s3.value(Entity(p), ComponentKind::Bounds));
                assert(s4.value(Entity(j as u32), ComponentKind::Bounds) == s3.value(Entity(j as u32), ComponentKind::Bounds));
                assert(s4.value(Entity(j as u32), ComponentKind::Constraint) == s3.value(Entity(j as u32), ComponentKind::Constraint));
            }
            assert forall|j: int| in_trees(t, j) implies #[trigger] offset_of(s4, j as u32) == settled_offset(c, j as u32, offset_in(s2.map_spec(), j as u32), bounds_of(s4, j as u32)) by {
                assert(s4.value(Entity(j as u32), ComponentKind::Bounds) == s3.value(Entity(j as u32), ComponentKind::Bounds));
                assert(s3.value(Entity(j as u32), ComponentKind::ScrollOffset) == s2.value(Entity(j as u32), ComponentKind::ScrollOffset));
            }
            assert forall|e: Entity, k: ComponentKind|
                (k != ComponentKind::Bounds && k != ComponentKind::ScrollOffset) || !in_trees(t, e.0 as int)
                implies #[trigger] s4.value(e, k) == map_value(s2.map_spec(), e, k) by {
                assert(s4.value(e, k) == s3.value(e, k));
                assert(s3.value(e, k) == s2.value(e, k));
            }
            match (t.root_spec(), t.overlay_spec()) {
                (Some(r), Some(o)) => {
                    assert(s4.value(Entity(r), ComponentKind::Constraint) == s2.value(Entity(r), ComponentKind::Constraint));
                    assert(s4.value(Entity(r), ComponentKind::Bounds) == s3.value(Entity(r), ComponentKind::Bounds));
                    assert(s4.value(Entity(o), ComponentKind::Bounds) == s3.value(Entity(o), ComponentKind::Bounds));
                    if constraint_of(s4, r) is None {
                        assert forall|e: Entity| #[trigger] s4.value(e, ComponentKind::Bounds)
                            == s0.value(e, ComponentKind::Bounds) by {
                            assert(s4.value(e, ComponentKind::Bounds) == s3.value(e, ComponentKind::Bounds));
                            lemma_apply_all_keeps_bounds(s0.map_spec(), t.root_spec(), c.handler_map(), self.handled@, e);
                        }
                    }
                },
                _ => {},
            }
        }
        self.render();
    }

    /// Removes `e` with everything below it, and runs the cleanup phase on each removed
    /// entity: its components and registrations are dropped.
    pub fn remove_entity(&mut self, e: Entity) -> (r: Result<Vec<Entity>, TreeError>)
        requires
            old(self).wf(),
        ensures
            final(self).wf(),
            removed(*old(self), *final(self), e, r),
    {
        let is_overlay = match self.tree.overlay() {
            Some(o) => o.0 == e.0,
            None => false,
        };
        if self.tree.is_alive(e) && is_overlay {
            return Err(TreeError::Protected);
        }
        let is_root = match self.tree.root() {
            Some(r) => r.0 == e.0,
            None => false,
        };
        let freed = match self.tree.remove(e) {
            Ok(v) => v,
            Err(x) => return Err(x),
        };
        if is_root {
            self.tree.clear_root();
        }
        let ghost s0 = self.store;
        let ghost c0 = self.ctx;
        let ghost t0 = old(self).tree_spec();
        let ghost t1 = self.tree;
        proof {
            let o = t0.overlay_spec()->0;
            assert(!descends(t0.parents_spec(), o as int, e.0 as int));
            if let Some(r) = t0.root_spec() {
                if r != e.0 {
                    lemma_one_top_not_below(t0.parents_spec(), r as int, e.0 as int);
                    assert(t1.alive_spec()[r as int] == (t0.alive_spec()[r as int] && !descends(t0.parents_spec(), r as int, e.0 as int)));
                }
            }
            assert forall|k: int| 0 <= k < t1.len_spec() && t1.alive_spec()[k] && #[trigger] t1.parents_spec()[k] is None
                implies t1.root_spec() == Some(k as u32) || t1.overlay_spec() == Some(k as u32) by {
                assert(t1.alive_spec()[k] == (t0.alive_spec()[k] && !descends(t0.parents_spec(), k, e.0 as int)));
            }
            assert(t1.alive_spec()[o as int] == (t0.alive_spec()[o as int] && !descends(t0.parents_spec(), o as int, e.0 as int)));
            lemma_collect_members(t0.alive_spec(), under(t0.parents_spec(), e.0 as int), t0.len_spec());
            assert forall|m: int| 0 <= m < freed@.len() implies 0 <= #[trigger] freed@[m].0 < t0.len_spec()
                && descends(t0.parents_spec(), freed@[m].0 as int, e.0 as int) by {
                assert(ids(freed@)[m] == freed@[m].0);
            }
        }
        let mut i: usize = 0;
        while i < freed.len()
            invariant
                self.tree.wf(),
                self.tree.overlay_spec() is Some,
                tops_ok(self.tree),
                self.init_runs <= 1,
                (self.phase is Uninitialized ==> self.init_runs == 0 && !self.close_requested),
                (self.phase is Ticking ==> self.init_runs == 1),
                self.tree == t1,
                self.init_runs == old(self).init_runs,
                self.handled == old(self).handled,
                self.draws == old(self).draws,
                self.phase == old(self).phase,
                self.close_requested == old(self).close_requested,
                self.ctx.queue_spec() == old(self).ctx_spec().queue_spec(),
                i <= freed@.len(),
                ids(freed@) == t0.subtree(e),
                forall|m: int| 0 <= m < freed@.len() ==> 0 <= #[trigger] freed@[m].0 < t0.len_spec()
                    && descends(t0.parents_spec(), freed@[m].0 as int, e.0 as int),
                forall|m: int| 0 <= m < i ==> #[trigger] self.store.is_bare(freed@[m]),
                forall|m: int| 0 <= m < i ==> #[trigger] unregistered(self.ctx, freed@[m].0),
                forall|x: Entity, k: ComponentKind| !(0 <= x.0 < t0.len_spec() && descends(t0.parents_spec(), x.0 as int, e.0 as int))
                    ==> #[trigger] self.store.value(x, k) == s0.value(x, k),
                forall|x: u32| !(0 <= x < t0.len_spec() && descends(t0.parents_spec(), x as int, e.0 as int))
                    ==> #[trigger] same_registrations(self.ctx, c0, x),
            decreases freed@.len() - i,
        {
            let x = freed[i];
            assert(0 <= freed@[i as int].0 < t0.len_spec() && descends(t0.parents_spec(), x.0 as int, e.0 as int));
            let ghost before = self.store;
            let ghost cb = self.ctx;
            self.store.remove_all(x);
            self.ctx.remove_entity(x);
            proof {
                assert forall|y: u32| !(0 <= y < t0.len_spec() && descends(t0.parents_spec(), y as int, e.0 as int))
                    implies #[trigger] same_registrations(self.ctx, c0, y) by {
                    assert(y != x.0);
                    assert(same_registrations(cb, c0, y));
                }
                assert forall|m: int| 0 <= m < i + 1 implies #[trigger] unregistered(self.ctx, freed@[m].0) by {
                    if m < i {
                        assert(unregistered(cb, freed@[m].0));
                    }
                }
                assert forall|m: int| 0 <= m < i + 1 implies #[trigger] self.store.is_bare(freed@[m]) by {
                    if m < i {
                        let y = freed@[m];
                        assert(before.is_bare(y));
                        if y != x {
                            assert forall|k: ComponentKind| #[trigger] self.store.value(y, k) is None by {
                                assert(before.value(y, k) is None);
                            }
                        }
                    }
                }
            }
            i += 1;
        }
        proof {
            assert forall|j: int| 0 <= j < t0.len_spec() && t0.alive_spec()[j] && descends(t0.parents_spec(), j, e.0 as int) implies {
                &&& !self.tree.contains(Entity(j as u32))
                &&& #[trigger] self.store.is_bare(Entity(j as u32))
                &&& unregistered(self.ctx, j as u32)
            } by {
                lemma_collect_complete(t0.alive_spec(), under(t0.parents_spec(), e.0 as int), t0.len_spec(), j);
                let m = choose|m: int| 0 <= m < t0.subtree(e).len() && #[trigger] t0.subtree(e)[m] == j as u32;
                assert(ids(freed@)[m] == freed@[m].0);
                assert(freed@[m] == Entity(j as u32));
            }
        }
        Ok(freed)
    }
}

/// Every drawable of a list comes from an entity of the list it was made from.
pub proof fn lemma_draw_list_from(s: ComponentStore, c: Context, es: Seq<u32>)
    ensures
        forall|i: int| 0 <= i < draw_list(s, c, es).len() ==> es.contains(#[trigger] draw_list(s, c, es)[i].entity.0),
    decreases es.len(),
{
    if es.len() > 0 {
        let prev = draw_list(s, c, es.drop_last());
        lemma_draw_list_from(s, c, es.drop_last());
        assert forall|i: int| 0 <= i < draw_list(s, c, es).len() implies es.contains(
            #[trigger] draw_list(s, c, es)[i].entity.0,
        ) by {
            if i < prev.len() {
                assert(draw_list(s, c, es)[i] == prev[i]);
                let x = prev[i].entity.0;
                let m = choose|m: int| 0 <= m < es.drop_last().len() && es.drop_last()[m] == x;
                assert(es[m] == x);
            } else {
                assert(es[es.len() - 1] == es.last());
            }
        }
    }
}

/// Overlay content is drawn after root content: the render output splits into a
/// first part drawn from the root's subtree and a last part drawn from the overlay's.
pub proof fn lemma_overlay_drawn_last(t: Tree, s: ComponentStore, c: Context)
    ensures
        forall|i: int| 0 <= i < draw_list(s, c, top_subtree(t, t.root_spec())).len()
            ==> top_subtree(t, t.root_spec()).contains(#[trigger] render_spec(t, s, c)[i].entity.0),
        forall|i: int| draw_list(s, c, top_subtree(t, t.root_spec())).len() <= i < render_spec(t, s, c).len()
            ==> top_subtree(t, t.overlay_spec()).contains(#[trigger] render_spec(t, s, c)[i].entity.0),
{
    let a = draw_list(s, c, top_subtree(t, t.root_spec()));
    let b = draw_list(s, c, top_subtree(t, t.overlay_spec()));
    lemma_draw_list_from(s, c, top_subtree(t, t.root_spec()));
    lemma_draw_list_from(s, c, top_subtree(t, t.overlay_spec()));
    let r = render_spec(t, s, c);
    assert forall|i: int| 0 <= i < a.len() implies top_subtree(t, t.root_spec()).contains(#[trigger] r[i].entity.0) by {
        assert(r[i] == a[i]);
    }
    assert forall|i: int| a.len() <= i < r.len() implies top_subtree(t, t.overlay_spec()).contains(#[trigger] r[i].entity.0) by {
        assert(r[i] == b[i - a.len()]);
    }
}

/// A laid-out entity's bounds lie inside its parent's bounds.
pub proof fn lemma_laid_out_fits(t: Tree, s: ComponentStore, c: Context, j: int)
    requires
        laid_out(t, s, c, j),
    ensures
        bounds_of(s, j as u32)->0.fits_in(
            bounds_of(s, t.parents_spec()[j]->0)->0.width as int,
            bounds_of(s, t.parents_spec()[j]->0)->0.height as int,
        ),
{
    let p = t.parents_spec()[j]->0;
    let pb = bounds_of(s, p)->0;
    lemma_arrange_fits(c.layout_of(j as u32), constraint_of(s, j as u32), pb.width, pb.height);
}

/// Requests are handled in the order sent: of two requests queued before a tick,
/// the earlier one is handled first.
pub proof fn lemma_requests_handled_in_order(a: Window, b: Window, i: int, j: int)
    requires
        a.wf(),
        ticked(a, b),
        !(a.phase_spec() is Terminated),
        !a.close_requested_spec(),
        0 <= i < j < a.ctx_spec().queue_spec().len(),
    ensures
        b.handled_spec()[i] == a.ctx_spec().queue_spec()[i],
        b.handled_spec()[j] == a.ctx_spec().queue_spec()[j],
        b.handled_spec().len() == a.ctx_spec().queue_spec().len(),
{
}

/// Within one tick, layout sees what the event phase changed: an entity's new bounds
/// are placed using the size constraint that the tick's requests left on it, inside
/// its parent's new bounds.
pub proof fn lemma_layout_sees_events(a: Window, b: Window, j: int)
    requires
        a.wf(),
        ticked(a, b),
        !(a.phase_spec() is Terminated),
        !a.close_requested_spec(),
        b.tree_spec().root_spec() is Some,
        b.tree_spec().contains(Entity(b.tree_spec().root_spec()->0)),
        constraint_of(b.store_spec(), b.tree_spec().root_spec()->0) is Some,
        in_trees(b.tree_spec(), j),
        !is_top(b.tree_spec(), j),
    ensures
        ({
            let p = b.tree_spec().parents_spec()[j]->0;
            let pb = bounds_of(b.store_spec(), p)->0;
            let m = apply_all(
                a.store_spec().map_spec(),
                a.tree_spec().root_spec(),
                a.ctx_spec().handler_map(),
                a.ctx_spec().queue_spec(),
            );
            let desired = match map_value(m, Entity(j as u32), ComponentKind::Constraint) {
                Some(Component::Size(c)) => Some(c),
                _ => None,
            };
            &&& bounds_of(b.store_spec(), p) is Some
            &&& bounds_of(b.store_spec(), j as u32) == Some(
                arrange_spec(a.ctx_spec().layout_of(j as u32), desired, pb.width, pb.height),
            )
        }),
{
    assert(b.tree_spec().overlay_spec() is Some);
    assert(laid_out(b.tree_spec(), b.store_spec(), b.ctx_spec(), j));
    assert(b.store_spec().value(Entity(j as u32), ComponentKind::Constraint) == map_value(
        apply_all(
            a.store_spec().map_spec(),
            a.tree_spec().root_spec(),
            a.ctx_spec().handler_map(),
            a.ctx_spec().queue_spec(),
        ),
        Entity(j as u32),
        ComponentKind::Constraint,
    ));
}

/// Init runs at most once: a tick of a window that is past its first tick never runs it again.
pub proof fn lemma_init_never_repeats(a: Window, b: Window)
    requires
        a.wf(),
        b.wf(),
        ticked(a, b),
        !(a.phase_spec() is Uninitialized),
    ensures
        b.init_runs_spec() == a.init_runs_spec(),
        b.init_runs_spec() <= 1,
{
}

/// In a window, the only live entities without a parent are the root and the overlay.
pub proof fn lemma_only_tops_lack_parent(w: Window, e: Entity)
    requires
        w.wf(),
        w.tree_spec().contains(e),
        w.tree_spec().parent_of(e) is None,
    ensures
        w.tree_spec().root_spec() == Some(e.0) || w.tree_spec().overlay_spec() == Some(e.0),
{
    assert(w.tree_spec().parents_spec()[e.0 as int] is None);
}

proof fn lemma_one_top_not_below(parents: Seq<Option<u32>>, r: int, e: int)
    requires
        0 <= r < parents.len(),
        parents[r] is None,
        r != e,
    ensures
        !descends(parents, r, e),
{
}

proof fn lemma_one_top(parents: Seq<Option<u32>>, j: int, a: int, b: int)
    requires
        0 <= a < parents.len(),
        0 <= b < parents.len(),
        a != b,
        parents[a] is None,
        parents[b] is None,
    ensures
        !(descends(parents, j, a) && descends(parents, j, b)),
    decreases j,
{
    if j != a && j != b && a <= j < parents.len() && b <= j {
        if let Some(p) = parents[j] {
            if p < j {
                lemma_one_top(parents, p as int, a, b);
            }
        }
    }
}

/// In a window, no entity lies both under the root and under the overlay, so the
/// render output draws each entity at most once, root content before overlay content.
pub proof fn lemma_root_and_overlay_disjoint(w: Window, j: int)
    requires
        w.wf(),
        w.tree_spec().root_spec() is Some,
    ensures
        !(descends(w.tree_spec().parents_spec(), j, w.tree_spec().root_spec()->0 as int)
            && descends(w.tree_spec().parents_spec(), j, w.tree_spec().overlay_spec()->0 as int)),
{
    let t = w.tree_spec();
    lemma_one_top(t.parents_spec(), j, t.root_spec()->0 as int, t.overlay_spec()->0 as int);
}

} // verus!
