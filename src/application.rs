//! The application: a name and a set of windows, each ticked in turn.
use vstd::prelude::*;
use crate::component::{Component, ComponentError, ComponentKind, ComponentStore};
use crate::geometry::{Constraint, Point, Rectangle};
use crate::context::Message;
use crate::tree::{Entity, TreeError};
use crate::window::{created, removed, ticked, Phase, Window};

verus! {

/// The window-level settings read from the root when a window is added.
#[derive(Clone, Debug)]
pub struct WindowSettings {
    pub title: String,
    pub position: Point,
    pub size: Constraint,
    pub borderless: bool,
    pub resizeable: bool,
    pub always_on_top: bool,
}

/// Why a window could not be added.
#[derive(Clone, Copy, Debug, PartialEq, Eq, Structural)]
pub enum WindowError {
    /// The window has no root entity.
    MissingRoot,
    /// A window-level component of the root is absent or of the wrong shape.
    Component(ComponentKind, ComponentError),
}

pub open spec fn text_result(s: ComponentStore, k: ComponentKind, e: crate::tree::Entity) -> Result<String, WindowError> {
    match s.value(e, k) {
        Some(Component::Text(t)) => Ok(t),
        Some(_) => Err(WindowError::Component(k, ComponentError::TypeMismatch)),
        None => Err(WindowError::Component(k, ComponentError::MissingComponent)),
    }
}

pub open spec fn flag_result(s: ComponentStore, k: ComponentKind, e: crate::tree::Entity) -> Result<bool, WindowError> {
    match s.value(e, k) {
        Some(Component::Flag(b)) => Ok(b),
        Some(_) => Err(WindowError::Component(k, ComponentError::TypeMismatch)),
        None => Err(WindowError::Component(k, ComponentError::MissingComponent)),
    }
}

pub open spec fn point_result(s: ComponentStore, k: ComponentKind, e: crate::tree::Entity) -> Result<Point, WindowError> {
    match s.value(e, k) {
        Some(Component::Position(p)) => Ok(p),
        Some(_) => Err(WindowError::Component(k, ComponentError::TypeMismatch)),
        None => Err(WindowError::Component(k, ComponentError::MissingComponent)),
    }
}

pub open spec fn constraint_result(s: ComponentStore, k: ComponentKind, e: crate::tree::Entity) -> Result<Constraint, WindowError> {
    match s.value(e, k) {
        Some(Component::Size(c)) => Ok(c),
        Some(_) => Err(WindowError::Component(k, ComponentError::TypeMismatch)),
        None => Err(WindowError::Component(k, ComponentError::MissingComponent)),
    }
}

/// The settings of a window, read from its root in the order title, borderless,
/// resizeable, always-on-top, position, constraint; the first failing read is the error.
pub open spec fn settings_result(w: Window) -> Result<WindowSettings, WindowError> {
    match w.tree_spec().root_spec() {
        None => Err(WindowError::MissingRoot),
        Some(r) => {
            let s = w.store_spec();
            let e = crate::tree::Entity(r);
            match text_result(s, ComponentKind::Title, e) {
                Err(x) => Err(x),
                Ok(title) => match flag_result(s, ComponentKind::Borderless, e) {
                    Err(x) => Err(x),
                    Ok(borderless) => match flag_result(s, ComponentKind::Resizeable, e) {
                        Err(x) => Err(x),
                        Ok(resizeable) => match flag_result(s, ComponentKind::AlwaysOnTop, e) {
                            Err(x) => Err(x),
                            Ok(always_on_top) => match point_result(s, ComponentKind::Position, e) {
                                Err(x) => Err(x),
                                Ok(position) => match constraint_result(s, ComponentKind::Constraint, e) {
                                    Err(x) => Err(x),
                                    Ok(size) => Ok(
                                        WindowSettings { title, position, size, borderless, resizeable, always_on_top },
                                    ),
                                },
                            },
                        },
                    },
                },
            }
        },
    }
}

fn read_settings(w: &Window) -> (r: Result<WindowSettings, WindowError>)
    requires
        w.wf(),
    ensures
        r == settings_result(*w),
{
    let root = match w.tree().root() {
        Some(r) => r,
        None => return Err(WindowError::MissingRoot),
    };
    let s = w.store();
    let title = match s.get_text(ComponentKind::Title, root) {
        Ok(t) => t.clone(),
        Err(x) => return Err(WindowError::Component(ComponentKind::Title, x)),
    };
    let borderless = match s.get_flag(ComponentKind::Borderless, root) {
        Ok(b) => b,
        Err(x) => return Err(WindowError::Component(ComponentKind::Borderless, x)),
    };
    let resizeable = match s.get_flag(ComponentKind::Resizeable, root) {
        Ok(b) => b,
        Err(x) => return Err(WindowError::Component(ComponentKind::Resizeable, x)),
    };
    let always_on_top = match s.get_flag(ComponentKind::AlwaysOnTop, root) {
        Ok(b) => b,
        Err(x) => return Err(WindowError::Component(ComponentKind::AlwaysOnTop, x)),
    };
    let position = match s.get_point(ComponentKind::Position, root) {
        Ok(p) => p,
        Err(x) => return Err(WindowError::Component(ComponentKind::Position, x)),
    };
    let size = match s.get_constraint(ComponentKind::Constraint, root) {
        Ok(c) => c,
        Err(x) => return Err(WindowError::Component(ComponentKind::Constraint, x)),
    };
    Ok(WindowSettings { title, position, size, borderless, resizeable, always_on_top })
}

/// The entry point of an application: a name and its windows.
pub struct Application {
    windows: Vec<Window>,
    settings: Vec<WindowSettings>,
    name: String,
}

impl Application {
    pub closed spec fn windows_spec(&self) -> Seq<Window> {
        self.windows@
    }

    pub closed spec fn settings_spec(&self) -> Seq<WindowSettings> {
        self.settings@
    }

    pub closed spec fn name_spec(&self) -> Seq<char> {
        self.name@
    }

    pub open spec fn wf(&self) -> bool {
        &&& self.windows_spec().len() == self.settings_spec().len()
        &&& forall|i: int| 0 <= i < self.windows_spec().len() ==> #[trigger] self.windows_spec()[i].wf()
    }

    /// An application with the default name.
    pub fn new() -> (r: Application)
        ensures
            r.wf(),
            r.name_spec() == "orbtk_application"@,
            r.windows_spec().len() == 0,
    {
        Application::from_name("orbtk_application")
    }

    /// An application with the given name and no windows.
    pub fn from_name(name: &str) -> (r: Application)
        ensures
            r.wf(),
            r.name_spec() == name@,
            r.windows_spec().len() == 0,
    {
        Application { windows: Vec::new(), settings: Vec::new(), name: name.to_owned() }
    }

    pub fn name(&self) -> (r: &str)
        ensures
            r@ == self.name_spec(),
    {
        self.name.as_str()
    }

    pub fn window_count(&self) -> (r: usize)
        ensures
            r == self.windows_spec().len(),
    {
        self.windows.len()
    }

    /// The window at position `i`.
    pub fn window_at(&self, i: usize) -> (r: &Window)
        requires
            i < self.windows_spec().len(),
        ensures
            *r == self.windows_spec()[i as int],
    {
        &self.windows[i]
    }

    /// The settings of the window at position `i`.
    pub fn settings_at(&self, i: usize) -> (r: &WindowSettings)
        requires
            i < self.settings_spec().len(),
        ensures
            *r == self.settings_spec()[i as int],
    {
        &self.settings[i]
    }

    /// Adds a built window. Its root must hold the window-level components (title,
    /// borderless, resizeable, always-on-top, position, constraint); the root's bounds
    /// are then set from its constraint. A root that lacks one of them, or holds one
    /// of another shape, is a caller error: the call returns it, naming the component,
    /// and leaves the application as it was, with every earlier window.
    pub fn window(&mut self, w: Window) -> (r: Result<(), WindowError>)
        requires
            old(self).wf(),
            w.wf(),
        ensures
            final(self).wf(),
            r is Ok <==> settings_result(w) is Ok,
            r matches Err(x) ==> settings_result(w) == Err::<WindowSettings, WindowError>(x) && *final(self) == *old(self),
            r is Ok ==> {
                &&& final(self).name_spec() == old(self).name_spec()
                &&& final(self).windows_spec().len() == old(self).windows_spec().len() + 1
                &&& final(self).windows_spec().drop_last() == old(self).windows_spec()
                &&& final(self).settings_spec() == old(self).settings_spec().push(settings_result(w)->Ok_0)
                &&& final(self).windows_spec().last().tree_spec() == w.tree_spec()
                &&& final(self).windows_spec().last().ctx_spec() == w.ctx_spec()
                &&& final(self).windows_spec().last().phase_spec() == w.phase_spec()
                &&& final(self).windows_spec().last().close_requested_spec() == w.close_requested_spec()
                &&& final(self).windows_spec().last().init_runs_spec() == w.init_runs_spec()
                &&& final(self).windows_spec().last().handled_spec() == w.handled_spec()
                &&& final(self).windows_spec().last().draws_spec() == w.draws_spec()
                &&& final(self).windows_spec().last().store_spec().map_spec() == w.store_spec().map_spec().insert(
                    crate::component::key(crate::tree::Entity(w.tree_spec().root_spec()->0), ComponentKind::Bounds),
                    Component::Bounds(Rectangle::from_constraint_spec(settings_result(w)->Ok_0.size)),
                )
            },
    {
        let settings = match read_settings(&w) {
            Ok(s) => s,
            Err(x) => return Err(x),
        };
        let mut w = w;
        let root = match w.tree().root() {
            Some(r) => r,
            None => return Err(WindowError::MissingRoot),
        };
        w.register(ComponentKind::Bounds, root, Component::Bounds(Rectangle::from_constraint(settings.size)));
        self.windows.push(w);
        self.settings.push(settings);
        proof {
            assert(self.windows@.drop_last() =~= old(self).windows@);
            assert forall|i: int| 0 <= i < self.windows_spec().len() implies #[trigger] self.windows_spec()[i].wf() by {
                if i < old(self).windows@.len() {
                    assert(self.windows@[i] == old(self).windows@[i]);
                }
            }
        }
        Ok(())
    }

    /// Creates an entity in the window at position `i`, while the application runs.
    pub fn create(&mut self, i: usize, parent: Option<Entity>) -> (r: Result<Entity, TreeError>)
        requires
            old(self).wf(),
            i < old(self).windows_spec().len(),
        ensures
            final(self).wf(),
            final(self).name_spec() == old(self).name_spec(),
            final(self).settings_spec() == old(self).settings_spec(),
            final(self).windows_spec().len() == old(self).windows_spec().len(),
            forall|j: int| 0 <= j < old(self).windows_spec().len() && j != i
                ==> #[trigger] final(self).windows_spec()[j] == old(self).windows_spec()[j],
            created(old(self).windows_spec()[i as int], final(self).windows_spec()[i as int], parent, r),
    {
        let mut w = self.windows.remove(i);
        assert(w.wf());
        let r = w.create(parent);
        self.windows.insert(i, w);
        proof {
            assert forall|j: int| 0 <= j < self.windows_spec().len() implies #[trigger] self.windows_spec()[j].wf() by {
                if j != i {
                    assert(self.windows_spec()[j] == old(self).windows_spec()[j]);
                }
            }
        }
        r
    }

    /// Removes an entity with its subtree from the window at position `i`, while the
    /// application runs; the cleanup phase drops their components and registrations.
    pub fn remove_entity(&mut self, i: usize, e: Entity) -> (r: Result<Vec<Entity>, TreeError>)
        requires
            old(self).wf(),
            i < old(self).windows_spec().len(),
        ensures
            final(self).wf(),
            final(self).name_spec() == old(self).name_spec(),
            final(self).settings_spec() == old(self).settings_spec(),
            final(self).windows_spec().len() == old(self).windows_spec().len(),
            forall|j: int| 0 <= j < old(self).windows_spec().len() && j != i
                ==> #[trigger] final(self).windows_spec()[j] == old(self).windows_spec()[j],
            removed(old(self).windows_spec()[i as int], final(self).windows_spec()[i as int], e, r),
    {
        let mut w = self.windows.remove(i);
        assert(w.wf());
        let r = w.remove_entity(e);
        self.windows.insert(i, w);
        proof {
            assert forall|j: int| 0 <= j < self.windows_spec().len() implies #[trigger] self.windows_spec()[j].wf() by {
                if j != i {
                    assert(self.windows_spec()[j] == old(self).windows_spec()[j]);
                }
            }
        }
        r
    }

    /// Forwards a request to the window at position `i`, for its next tick; a
    /// terminated window drops it.
    pub fn send(&mut self, i: usize, m: Message)
        requires
            old(self).wf(),
            i < old(self).windows_spec().len(),
        ensures
            final(self).wf(),
            final(self).name_spec() == old(self).name_spec(),
            final(self).settings_spec() == old(self).settings_spec(),
            final(self).windows_spec().len() == old(self).windows_spec().len(),
            forall|j: int| 0 <= j < old(self).windows_spec().len() && j != i
                ==> #[trigger] final(self).windows_spec()[j] == old(self).windows_spec()[j],
            !(old(self).windows_spec()[i as int].phase_spec() is Terminated)
                ==> final(self).windows_spec()[i as int].ctx_spec().queue_spec()
                == old(self).windows_spec()[i as int].ctx_spec().queue_spec().push(m),
            old(self).windows_spec()[i as int].phase_spec() is Terminated
                ==> final(self).windows_spec()[i as int].ctx_spec().queue_spec()
                == old(self).windows_spec()[i as int].ctx_spec().queue_spec(),
            final(self).windows_spec()[i as int].tree_spec() == old(self).windows_spec()[i as int].tree_spec(),
            final(self).windows_spec()[i as int].store_spec() == old(self).windows_spec()[i as int].store_spec(),
            final(self).windows_spec()[i as int].phase_spec() == old(self).windows_spec()[i as int].phase_spec(),
            final(self).windows_spec()[i as int].close_requested_spec() == old(self).windows_spec()[i as int].close_requested_spec(),
            final(self).windows_spec()[i as int].init_runs_spec() == old(self).windows_spec()[i as int].init_runs_spec(),
            final(self).windows_spec()[i as int].handled_spec() == old(self).windows_spec()[i as int].handled_spec(),
            final(self).windows_spec()[i as int].draws_spec() == old(self).windows_spec()[i as int].draws_spec(),
            final(self).windows_spec()[i as int].ctx_spec().render_map() == old(self).windows_spec()[i as int].ctx_spec().render_map(),
            final(self).windows_spec()[i as int].ctx_spec().layout_map() == old(self).windows_spec()[i as int].ctx_spec().layout_map(),
            final(self).windows_spec()[i as int].ctx_spec().handler_map() == old(self).windows_spec()[i as int].ctx_spec().handler_map(),
            final(self).windows_spec()[i as int].ctx_spec().state_map() == old(self).windows_spec()[i as int].ctx_spec().state_map(),
    {
        let mut w = self.windows.remove(i);
        assert(w.wf());
        w.send(m);
        self.windows.insert(i, w);
        proof {
            assert forall|j: int| 0 <= j < self.windows_spec().len() implies #[trigger] self.windows_spec()[j].wf() by {
                if j != i {
                    assert(self.windows_spec()[j] == old(self).windows_spec()[j]);
                }
            }
        }
    }

    /// Ticks every window once, in order; true while some window is still open.
    pub fn run(&mut self) -> (r: bool)
        requires
            old(self).wf(),
        ensures
            final(self).wf(),
            final(self).name_spec() == old(self).name_spec(),
            final(self).settings_spec() == old(self).settings_spec(),
            final(self).windows_spec().len() == old(self).windows_spec().len(),
            forall|i: int| 0 <= i < old(self).windows_spec().len()
                ==> ticked(old(self).windows_spec()[i], #[trigger] final(self).windows_spec()[i]),
            r == exists|i: int| 0 <= i < final(self).windows_spec().len()
                && !(#[trigger] final(self).windows_spec()[i].phase_spec() is Terminated),
    {
        let mut rest: Vec<Window> = Vec::new();
        std::mem::swap(&mut rest, &mut self.windows);
        let ghost ws0 = rest@;
        let total = rest.len();
        let mut out: Vec<Window> = Vec::new();
        let mut open = false;
        let mut k: usize = 0;
        while rest.len() > 0
            invariant
                self.settings == old(self).settings,
                self.name == old(self).name,
                ws0 == old(self).windows_spec(),
                ws0.len() == total,
                ws0.len() == self.settings@.len(),
                forall|i: int| 0 <= i < ws0.len() ==> #[trigger] ws0[i].wf(),
                k + rest@.len() == ws0.len(),
                rest@ == ws0.skip(k as int),
                out@.len() == k,
                forall|i: int| 0 <= i < k ==> ticked(ws0[i], #[trigger] out@[i]) && out@[i].wf(),
                open == exists|i: int| 0 <= i < k && !(#[trigger] out@[i].phase_spec() is Terminated),
            decreases rest@.len(),
        {
            let mut w = rest.remove(0);
            assert(w == ws0[k as int]);
            w.tick();
            let still = match w.phase() {
                Phase::Terminated => false,
                _ => true,
            };
            let ghost out0 = out@;
            out.push(w);
            proof {
                assert(out@.drop_last() =~= out0);
                if open {
                    let j = choose|i: int| 0 <= i < k && !(#[trigger] out0[i].phase_spec() is Terminated);
                    assert(out@[j] == out0[j]);
                }
                if still {
                    assert(!(out@[k as int].phase_spec() is Terminated));
                }
                assert forall|i: int| 0 <= i < k + 1 && !(#[trigger] out@[i].phase_spec() is Terminated)
                    implies i == k || (0 <= i < k && !(out@.drop_last()[i].phase_spec() is Terminated)) by {
                    if i < k {
                        assert(out@[i] == out@.drop_last()[i]);
                    }
                }
                assert(rest@ =~= ws0.skip(k as int + 1));
            }
            open = open || still;
            k += 1;
        }
        self.windows = out;
        open
    }
}

} // verus!
