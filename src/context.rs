//! Per-window shared state: the render, layout and handler registries and the
//! ordered message queue that carries window requests and input to the event phase.
use vstd::prelude::*;
use std::collections::HashMap;
use crate::geometry::{Constraint, Layout};
use crate::tree::Entity;

verus! {

broadcast use vstd::std_specs::hash::group_hash_axioms;

/// The drawable representation of an entity.
#[derive(Clone, Copy, Debug, PartialEq, Eq, Structural)]
pub enum RenderObject {
    Background,
    Border,
    Text,
}

/// What an entity does when it is activated.
#[derive(Clone, Copy, Debug, PartialEq, Eq, Structural)]
pub enum Handler {
    /// Replace the entity's size constraint.
    SetConstraint(Constraint),
    /// Replace the entity's scroll offset.
    ScrollTo(u32),
}

/// The behavioural state object of an entity.
#[derive(Clone, Copy, Debug, PartialEq, Eq, Structural)]
pub enum WidgetState {
    /// A scrolling container: after layout, its scroll offset is held to its new height.
    Scroll,
    /// A state with no dependency on geometry.
    Plain,
}

/// A request carried by the message queue.
#[derive(Clone, Debug)]
pub enum Message {
    Close,
    Resize { width: u32, height: u32 },
    TitleChanged(String),
    Activate(Entity),
}

pub struct Context {
    render_objects: HashMap<u32, RenderObject>,
    layouts: HashMap<u32, Layout>,
    handlers: HashMap<u32, Handler>,
    states: HashMap<u32, WidgetState>,
    queue: Vec<Message>,
}

impl Context {
    pub closed spec fn render_map(&self) -> Map<u32, RenderObject> {
        self.render_objects@
    }

    pub closed spec fn layout_map(&self) -> Map<u32, Layout> {
        self.layouts@
    }

    pub closed spec fn handler_map(&self) -> Map<u32, Handler> {
        self.handlers@
    }

    pub closed spec fn state_map(&self) -> Map<u32, WidgetState> {
        self.states@
    }

    pub open spec fn state_of(&self, e: u32) -> Option<WidgetState> {
        if self.state_map().contains_key(e) { Some(self.state_map()[e]) } else { None }
    }

    pub closed spec fn queue_spec(&self) -> Seq<Message> {
        self.queue@
    }

    pub open spec fn render_of(&self, e: u32) -> Option<RenderObject> {
        if self.render_map().contains_key(e) { Some(self.render_map()[e]) } else { None }
    }

    /// The layout strategy of `e`; one without a registered strategy fills its parent.
    pub open spec fn layout_of(&self, e: u32) -> Layout {
        if self.layout_map().contains_key(e) { self.layout_map()[e] } else { Layout::Stretch { margin: 0 } }
    }

    pub open spec fn handler_of(&self, e: u32) -> Option<Handler> {
        if self.handler_map().contains_key(e) { Some(self.handler_map()[e]) } else { None }
    }

    /// Empty registries and an empty queue.
    pub fn new() -> (r: Context)
        ensures
            r.render_map().is_empty(),
            r.layout_map().is_empty(),
            r.handler_map().is_empty(),
            r.state_map().is_empty(),
            r.queue_spec().len() == 0,
    {
        Context {
            render_objects: HashMap::new(),
            layouts: HashMap::new(),
            handlers: HashMap::new(),
            states: HashMap::new(),
            queue: Vec::new(),
        }
    }

    /// Registers the drawable representation of `e`, replacing any previous one.
    pub fn insert_render_object(&mut self, e: Entity, obj: RenderObject)
        ensures
            final(self).render_map() == old(self).render_map().insert(e.0, obj),
            final(self).layout_map() == old(self).layout_map(),
            final(self).handler_map() == old(self).handler_map(),
            final(self).state_map() == old(self).state_map(),
            final(self).queue_spec() == old(self).queue_spec(),
    {
        self.render_objects.insert(e.0, obj);
    }

    /// Registers the layout strategy of `e`, replacing any previous one.
    pub fn insert_layout(&mut self, e: Entity, layout: Layout)
        ensures
            final(self).layout_map() == old(self).layout_map().insert(e.0, layout),
            final(self).render_map() == old(self).render_map(),
            final(self).handler_map() == old(self).handler_map(),
            final(self).state_map() == old(self).state_map(),
            final(self).queue_spec() == old(self).queue_spec(),
    {
        self.layouts.insert(e.0, layout);
    }

    /// Registers the activation handler of `e`, replacing any previous one.
    pub fn insert_handler(&mut self, e: Entity, handler: Handler)
        ensures
            final(self).handler_map() == old(self).handler_map().insert(e.0, handler),
            final(self).state_map() == old(self).state_map(),
            final(self).render_map() == old(self).render_map(),
            final(self).layout_map() == old(self).layout_map(),
            final(self).queue_spec() == old(self).queue_spec(),
    {
        self.handlers.insert(e.0, handler);
    }

    /// Registers the state object of `e`, replacing any previous one.
    pub fn insert_state(&mut self, e: Entity, state: WidgetState)
        ensures
            final(self).state_map() == old(self).state_map().insert(e.0, state),
            final(self).render_map() == old(self).render_map(),
            final(self).layout_map() == old(self).layout_map(),
            final(self).handler_map() == old(self).handler_map(),
            final(self).queue_spec() == old(self).queue_spec(),
    {
        self.states.insert(e.0, state);
    }

    pub fn state(&self, e: Entity) -> (r: Option<WidgetState>)
        ensures
            r == self.state_of(e.0),
    {
        match self.states.get(&e.0) {
            Some(x) => Some(*x),
            None => None,
        }
    }

    pub fn render_object(&self, e: Entity) -> (r: Option<RenderObject>)
        ensures
            r == self.render_of(e.0),
    {
        match self.render_objects.get(&e.0) {
            Some(o) => Some(*o),
            None => None,
        }
    }

    pub fn layout(&self, e: Entity) -> (r: Layout)
        ensures
            r == self.layout_of(e.0),
    {
        match self.layouts.get(&e.0) {
            Some(l) => *l,
            None => Layout::Stretch { margin: 0 },
        }
    }

    pub fn handler(&self, e: Entity) -> (r: Option<Handler>)
        ensures
            r == self.handler_of(e.0),
    {
        match self.handlers.get(&e.0) {
            Some(h) => Some(*h),
            None => None,
        }
    }

    /// The number of registered render objects.
    pub fn render_object_count(&self) -> (r: usize)
        ensures
            r == self.render_map().len(),
    {
        self.render_objects.len()
    }

    /// Appends a request to the queue.
    pub fn send(&mut self, m: Message)
        ensures
            final(self).queue_spec() == old(self).queue_spec().push(m),
            final(self).render_map() == old(self).render_map(),
            final(self).layout_map() == old(self).layout_map(),
            final(self).handler_map() == old(self).handler_map(),
            final(self).state_map() == old(self).state_map(),
    {
        self.queue.push(m);
    }

    /// The number of requests waiting.
    pub fn pending(&self) -> (r: usize)
        ensures
            r == self.queue_spec().len(),
    {
        self.queue.len()
    }

    /// Takes every waiting request, in the order sent, leaving the queue empty.
    pub fn drain(&mut self) -> (r: Vec<Message>)
        ensures
            r@ == old(self).queue_spec(),
            final(self).queue_spec().len() == 0,
            final(self).render_map() == old(self).render_map(),
            final(self).layout_map() == old(self).layout_map(),
            final(self).handler_map() == old(self).handler_map(),
            final(self).state_map() == old(self).state_map(),
    {
        let mut out: Vec<Message> = Vec::new();
        std::mem::swap(&mut out, &mut self.queue);
        out
    }

    /// Drops every registration of `e`.
    pub fn remove_entity(&mut self, e: Entity)
        ensures
            final(self).render_map() == old(self).render_map().remove(e.0),
            final(self).layout_map() == old(self).layout_map().remove(e.0),
            final(self).handler_map() == old(self).handler_map().remove(e.0),
            final(self).state_map() == old(self).state_map().remove(e.0),
            final(self).queue_spec() == old(self).queue_spec(),
    {
        self.render_objects.remove(&e.0);
        self.layouts.remove(&e.0);
        self.handlers.remove(&e.0);
        self.states.remove(&e.0);
    }
}

} // verus!
