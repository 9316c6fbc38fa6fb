//! The component store: at most one value of each kind per entity.
use vstd::prelude::*;
use std::collections::HashMap;
use crate::geometry::{Constraint, Point, Rectangle};
use crate::tree::Entity;

verus! {

broadcast use vstd::std_specs::hash::group_hash_axioms;

/// The closed set of component kinds.
#[derive(Clone, Copy, Debug, PartialEq, Eq, Structural)]
pub enum ComponentKind {
    Title,
    Text,
    Borderless,
    Resizeable,
    AlwaysOnTop,
    Position,
    Constraint,
    Bounds,
    ScrollOffset,
}

/// A component value.
#[derive(Clone, Debug)]
pub enum Component {
    Text(String),
    Flag(bool),
    Position(Point),
    Size(Constraint),
    Bounds(Rectangle),
    Offset(u32),
}

/// Why a component could not be read.
#[derive(Clone, Copy, Debug, PartialEq, Eq, Structural)]
pub enum ComponentError {
    /// The entity holds no component of that kind.
    MissingComponent,
    /// The entity holds a component of that kind, with a value of another shape.
    TypeMismatch,
}

/// The number of slots reserved per entity in the key space.
pub const KIND_SLOTS: u64 = 16;

pub open spec fn kind_index(k: ComponentKind) -> u64 {
    match k {
        ComponentKind::Title => 0,
        ComponentKind::Text => 1,
        ComponentKind::Borderless => 2,
        ComponentKind::Resizeable => 3,
        ComponentKind::AlwaysOnTop => 4,
        ComponentKind::Position => 5,
        ComponentKind::Constraint => 6,
        ComponentKind::Bounds => 7,
        ComponentKind::ScrollOffset => 8,
    }
}

pub open spec fn kind_at(i: int) -> ComponentKind {
    if i == 0 {
        ComponentKind::Title
    } else if i == 1 {
        ComponentKind::Text
    } else if i == 2 {
        ComponentKind::Borderless
    } else if i == 3 {
        ComponentKind::Resizeable
    } else if i == 4 {
        ComponentKind::AlwaysOnTop
    } else if i == 5 {
        ComponentKind::Position
    } else if i == 6 {
        ComponentKind::Constraint
    } else if i == 7 {
        ComponentKind::Bounds
    } else {
        ComponentKind::ScrollOffset
    }
}

/// The map key of a component kind on an entity.
pub open spec fn key(e: Entity, k: ComponentKind) -> u64 {
    (e.0 as int * 16 + kind_index(k)) as u64
}

proof fn lemma_key_injective(e1: Entity, k1: ComponentKind, e2: Entity, k2: ComponentKind)
    ensures
        key(e1, k1) == key(e2, k2) ==> e1 == e2 && k1 == k2,
{
    if key(e1, k1) == key(e2, k2) {
        assert(e1.0 == e2.0);
        assert(kind_index(k1) == kind_index(k2));
        match k1 {
            ComponentKind::Title => {},
            ComponentKind::Text => {},
            ComponentKind::Borderless => {},
            ComponentKind::Resizeable => {},
            ComponentKind::AlwaysOnTop => {},
            ComponentKind::Position => {},
            ComponentKind::Constraint => {},
            ComponentKind::Bounds => {},
            ComponentKind::ScrollOffset => {},
        }
    }
}

fn key_of(e: Entity, k: ComponentKind) -> (r: u64)
    ensures
        r == key(e, k),
{
    let i: u64 = match k {
        ComponentKind::Title => 0,
        ComponentKind::Text => 1,
        ComponentKind::Borderless => 2,
        ComponentKind::Resizeable => 3,
        ComponentKind::AlwaysOnTop => 4,
        ComponentKind::Position => 5,
        ComponentKind::Constraint => 6,
        ComponentKind::Bounds => 7,
        ComponentKind::ScrollOffset => 8,
    };
    (e.0 as u64) * KIND_SLOTS + i
}

fn kind_from_index(i: u64) -> (r: ComponentKind)
    requires
        i < 9,
    ensures
        r == kind_at(i as int),
        kind_index(r) == i,
{
    if i == 0 {
        ComponentKind::Title
    } else if i == 1 {
        ComponentKind::Text
    } else if i == 2 {
        ComponentKind::Borderless
    } else if i == 3 {
        ComponentKind::Resizeable
    } else if i == 4 {
        ComponentKind::AlwaysOnTop
    } else if i == 5 {
        ComponentKind::Position
    } else if i == 6 {
        ComponentKind::Constraint
    } else if i == 7 {
        ComponentKind::Bounds
    } else {
        ComponentKind::ScrollOffset
    }
}

/// The component of kind `k` on `e` in a map keyed as the store keys it.
pub open spec fn map_value(m: Map<u64, Component>, e: Entity, k: ComponentKind) -> Option<Component> {
    if m.contains_key(key(e, k)) {
        Some(m[key(e, k)])
    } else {
        None
    }
}

pub proof fn lemma_map_value_insert(
    m: Map<u64, Component>,
    e1: Entity,
    k1: ComponentKind,
    v: Component,
    e: Entity,
    k: ComponentKind,
)
    ensures
        map_value(m.insert(key(e1, k1), v), e, k) == if e == e1 && k == k1 {
            Some(v)
        } else {
            map_value(m, e, k)
        },
{
    lemma_key_injective(e1, k1, e, k);
}

pub struct ComponentStore {
    values: HashMap<u64, Component>,
}

impl ComponentStore {
    pub closed spec fn map_spec(&self) -> Map<u64, Component> {
        self.values@
    }

    /// The component of kind `k` on `e`, if any.
    pub open spec fn value(&self, e: Entity, k: ComponentKind) -> Option<Component> {
        map_value(self.map_spec(), e, k)
    }

    /// `e` holds no component of any kind.
    pub open spec fn is_bare(&self, e: Entity) -> bool {
        forall|k: ComponentKind| #[trigger] self.value(e, k) is None
    }

    /// An empty store.
    pub fn new() -> (r: ComponentStore)
        ensures
            forall|e: Entity, k: ComponentKind| #[trigger] r.value(e, k) is None,
            r.map_spec().len() == 0,
    {
        ComponentStore { values: HashMap::new() }
    }

    /// The number of components held, over all entities and kinds.
    pub fn len(&self) -> (r: usize)
        ensures
            r == self.map_spec().len(),
    {
        self.values.len()
    }

    /// Sets the component of kind `kind` on `e`, replacing any previous value.
    pub fn register(&mut self, kind: ComponentKind, e: Entity, value: Component)
        ensures
            final(self).value(e, kind) == Some(value),
            forall|e2: Entity, k2: ComponentKind| !(e2 == e && k2 == kind)
                ==> #[trigger] final(self).value(e2, k2) == old(self).value(e2, k2),
            final(self).map_spec() == old(self).map_spec().insert(key(e, kind), value),
    {
        let k = key_of(e, kind);
        self.values.insert(k, value);
        proof {
            assert forall|e2: Entity, k2: ComponentKind| !(e2 == e && k2 == kind)
                implies #[trigger] self.value(e2, k2) == old(self).value(e2, k2) by {
                lemma_key_injective(e, kind, e2, k2);
            }
        }
    }

    /// True when `e` holds a component of kind `kind`.
    pub fn has(&self, kind: ComponentKind, e: Entity) -> (r: bool)
        ensures
            r == self.value(e, kind) is Some,
    {
        let k = key_of(e, kind);
        self.values.contains_key(&k)
    }

    /// The component of kind `kind` on `e`.
    pub fn get(&self, kind: ComponentKind, e: Entity) -> (r: Result<&Component, ComponentError>)
        ensures
            match self.value(e, kind) {
                Some(v) => r == Ok::<&Component, ComponentError>(&v),
                None => r == Err::<&Component, ComponentError>(ComponentError::MissingComponent),
            },
    {
        let k = key_of(e, kind);
        match self.values.get(&k) {
            Some(v) => Ok(v),
            None => Err(ComponentError::MissingComponent),
        }
    }

    /// A flag component.
    pub fn get_flag(&self, kind: ComponentKind, e: Entity) -> (r: Result<bool, ComponentError>)
        ensures
            r == match self.value(e, kind) {
                Some(Component::Flag(b)) => Ok(b),
                Some(_) => Err(ComponentError::TypeMismatch),
                None => Err(ComponentError::MissingComponent),
            },
    {
        match self.get(kind, e) {
            Ok(Component::Flag(b)) => Ok(*b),
            Ok(_) => Err(ComponentError::TypeMismatch),
            Err(x) => Err(x),
        }
    }

    /// A point component.
    pub fn get_point(&self, kind: ComponentKind, e: Entity) -> (r: Result<Point, ComponentError>)
        ensures
            r == match self.value(e, kind) {
                Some(Component::Position(p)) => Ok(p),
                Some(_) => Err(ComponentError::TypeMismatch),
                None => Err(ComponentError::MissingComponent),
            },
    {
        match self.get(kind, e) {
            Ok(Component::Position(p)) => Ok(*p),
            Ok(_) => Err(ComponentError::TypeMismatch),
            Err(x) => Err(x),
        }
    }

    /// A size-constraint component.
    pub fn get_constraint(&self, kind: ComponentKind, e: Entity) -> (r: Result<Constraint, ComponentError>)
        ensures
            r == match self.value(e, kind) {
                Some(Component::Size(c)) => Ok(c),
                Some(_) => Err(ComponentError::TypeMismatch),
                None => Err(ComponentError::MissingComponent),
            },
    {
        match self.get(kind, e) {
            Ok(Component::Size(c)) => Ok(*c),
            Ok(_) => Err(ComponentError::TypeMismatch),
            Err(x) => Err(x),
        }
    }

    /// A rectangle component.
    pub fn get_bounds(&self, kind: ComponentKind, e: Entity) -> (r: Result<Rectangle, ComponentError>)
        ensures
            r == match self.value(e, kind) {
                Some(Component::Bounds(b)) => Ok(b),
                Some(_) => Err(ComponentError::TypeMismatch),
                None => Err(ComponentError::MissingComponent),
            },
    {
        match self.get(kind, e) {
            Ok(Component::Bounds(b)) => Ok(*b),
            Ok(_) => Err(ComponentError::TypeMismatch),
            Err(x) => Err(x),
        }
    }

    /// An offset component.
    pub fn get_offset(&self, kind: ComponentKind, e: Entity) -> (r: Result<u32, ComponentError>)
        ensures
            r == match self.value(e, kind) {
                Some(Component::Offset(o)) => Ok(o),
                Some(_) => Err(ComponentError::TypeMismatch),
                None => Err(ComponentError::MissingComponent),
            },
    {
        match self.get(kind, e) {
            Ok(Component::Offset(o)) => Ok(*o),
            Ok(_) => Err(ComponentError::TypeMismatch),
            Err(x) => Err(x),
        }
    }

    /// A text component.
    pub fn get_text(&self, kind: ComponentKind, e: Entity) -> (r: Result<&String, ComponentError>)
        ensures
            match self.value(e, kind) {
                Some(Component::Text(t)) => r == Ok::<&String, ComponentError>(&t),
                Some(_) => r == Err::<&String, ComponentError>(ComponentError::TypeMismatch),
                None => r == Err::<&String, ComponentError>(ComponentError::MissingComponent),
            },
    {
        match self.get(kind, e) {
            Ok(Component::Text(t)) => Ok(t),
            Ok(_) => Err(ComponentError::TypeMismatch),
            Err(x) => Err(x),
        }
    }

    /// Drops every component of `e`.
    pub fn remove_all(&mut self, e: Entity)
        ensures
            final(self).is_bare(e),
            forall|e2: Entity, k2: ComponentKind| e2 != e
                ==> #[trigger] final(self).value(e2, k2) == old(self).value(e2, k2),
    {
        let mut i: u64 = 0;
        while i < 9
            invariant
                i <= 9,
                forall|k: ComponentKind| kind_index(k) < i ==> #[trigger] self.value(e, k) is None,
                forall|e2: Entity, k2: ComponentKind| e2 != e
                    ==> #[trigger] self.value(e2, k2) == old(self).value(e2, k2),
            decreases 9 - i,
        {
            let kind = kind_from_index(i);
            let k = key_of(e, kind);
            let ghost before = *self;
            self.values.remove(&k);
            proof {
                assert forall|e2: Entity, k2: ComponentKind| !(e2 == e && k2 == kind)
                    implies #[trigger] self.value(e2, k2) == before.value(e2, k2) by {
                    lemma_key_injective(e, kind, e2, k2);
                }
                assert forall|k2: ComponentKind| kind_index(k2) < i + 1 implies #[trigger] self.value(e, k2) is None by {
                    if k2 != kind {
                        assert(before.value(e, k2) is None);
                    }
                }
            }
            i += 1;
        }
        proof {
            assert forall|k: ComponentKind| #[trigger] self.value(e, k) is None by {
                assert(kind_index(k) < 9);
            }
        }
    }
}

} // verus!
