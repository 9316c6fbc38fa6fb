//! The entity tree: entities are indices into an arena, each with an optional parent.
//!
//! A parent is always created before its children, so a parent's index is smaller
//! than its child's: the tree has no cycles, and ascending index order visits every
//! parent before its children.
use vstd::prelude::*;

verus! {

/// An opaque entity identifier.
#[derive(Clone, Copy, Debug, PartialEq, Eq, Structural, Hash)]
pub struct Entity(pub u32);

/// A structural failure of a tree operation.
#[derive(Clone, Copy, Debug, PartialEq, Eq, Structural)]
pub enum TreeError {
    /// The entity is unknown or was removed.
    NotFound,
    /// No further entity index is available.
    Exhausted,
    /// A live root already exists: only the root and the overlay are top-level.
    RootExists,
    /// The overlay belongs to the window for its whole life and cannot be removed.
    Protected,
}

pub struct Tree {
    parents: Vec<Option<u32>>,
    alive: Vec<bool>,
    root: Option<u32>,
    overlay: Option<u32>,
}

/// `i` is `e` or lies below it, following parent links in `parents`.
pub open spec fn descends(parents: Seq<Option<u32>>, i: int, e: int) -> bool
    decreases i,
{
    if i == e {
        true
    } else if i < e || i >= parents.len() {
        false
    } else {
        match parents[i] {
            Some(p) => p < i && descends(parents, p as int, e),
            None => false,
        }
    }
}

/// The entities at or below `e`.
pub open spec fn under(parents: Seq<Option<u32>>, e: int) -> spec_fn(int) -> bool {
    |i: int| descends(parents, i, e)
}

/// The entities whose parent is `e`.
pub open spec fn child_of(parents: Seq<Option<u32>>, e: u32) -> spec_fn(int) -> bool {
    |i: int| parents[i] == Some(e)
}

/// The indices of a sequence of entities.
pub open spec fn ids(s: Seq<Entity>) -> Seq<u32> {
    s.map_values(|x: Entity| x.0)
}

/// The live entities among the first `n` indices that satisfy `pick`, ascending.
pub open spec fn collect(alive: Seq<bool>, pick: spec_fn(int) -> bool, n: int) -> Seq<u32>
    decreases n,
{
    if n <= 0 {
        Seq::empty()
    } else if alive[n - 1] && pick(n - 1) {
        collect(alive, pick, n - 1).push((n - 1) as u32)
    } else {
        collect(alive, pick, n - 1)
    }
}

/// Every entry of `collect` is a live index below `n` that satisfies `pick`, and
/// the entries ascend.
pub proof fn lemma_collect_members(alive: Seq<bool>, pick: spec_fn(int) -> bool, n: int)
    requires
        n <= alive.len(),
        n <= u32::MAX + 1,
    ensures
        forall|m: int| 0 <= m < collect(alive, pick, n).len() ==> {
            let x = #[trigger] collect(alive, pick, n)[m];
            &&& 0 <= x < n
            &&& alive[x as int]
            &&& pick(x as int)
        },
        forall|a: int, b: int| 0 <= a < b < collect(alive, pick, n).len()
            ==> collect(alive, pick, n)[a] < collect(alive, pick, n)[b],
    decreases n,
{
    if n > 0 {
        lemma_collect_members(alive, pick, n - 1);
        let prev = collect(alive, pick, n - 1);
        if alive[n - 1] && pick(n - 1) {
            let c = prev.push((n - 1) as u32);
            assert(collect(alive, pick, n) == c);
            assert forall|m: int| 0 <= m < c.len() implies {
                let x = #[trigger] c[m];
                &&& 0 <= x < n
                &&& alive[x as int]
                &&& pick(x as int)
            } by {
                if m < prev.len() {
                    assert(c[m] == prev[m]);
                }
            }
            assert forall|a: int, b: int| 0 <= a < b < c.len() implies c[a] < c[b] by {
                assert(c[a] == prev[a]);
                assert(0 <= prev[a] < n - 1);
                if b < prev.len() {
                    assert(c[b] == prev[b]);
                }
            }
        }
    }
}

/// Every live index below `n` that satisfies `pick` is an entry of `collect`.
pub proof fn lemma_collect_complete(alive: Seq<bool>, pick: spec_fn(int) -> bool, n: int, j: int)
    requires
        0 <= j < n <= alive.len(),
        n <= u32::MAX + 1,
        alive[j],
        pick(j),
    ensures
        exists|m: int| 0 <= m < collect(alive, pick, n).len() && collect(alive, pick, n)[m] == j as u32,
    decreases n,
{
    if j < n - 1 {
        lemma_collect_complete(alive, pick, n - 1, j);
        let m = choose|m: int| 0 <= m < collect(alive, pick, n - 1).len() && #[trigger] collect(alive, pick, n - 1)[m] == j as u32;
        assert(collect(alive, pick, n)[m] == j as u32);
    } else {
        let c = collect(alive, pick, n);
        assert(c[c.len() - 1] == j as u32);
    }
}

impl Tree {
    pub closed spec fn parents_spec(&self) -> Seq<Option<u32>> {
        self.parents@
    }

    pub closed spec fn alive_spec(&self) -> Seq<bool> {
        self.alive@
    }

    pub closed spec fn root_spec(&self) -> Option<u32> {
        self.root
    }

    pub closed spec fn overlay_spec(&self) -> Option<u32> {
        self.overlay
    }

    pub open spec fn len_spec(&self) -> int {
        self.alive_spec().len() as int
    }

    /// `e` names an entity that exists and was not removed.
    pub open spec fn contains(&self, e: Entity) -> bool {
        e.0 < self.len_spec() && self.alive_spec()[e.0 as int]
    }

    pub open spec fn parent_of(&self, e: Entity) -> Option<u32> {
        self.parents_spec()[e.0 as int]
    }

    /// The live entities of the subtree at `e`, in ascending index order.
    pub open spec fn subtree(&self, e: Entity) -> Seq<u32> {
        collect(self.alive_spec(), under(self.parents_spec(), e.0 as int), self.len_spec())
    }

    /// The live children of `e`, in ascending index order.
    pub open spec fn children_spec(&self, e: Entity) -> Seq<u32> {
        collect(self.alive_spec(), child_of(self.parents_spec(), e.0), self.len_spec())
    }

    pub open spec fn wf(&self) -> bool {
        &&& self.parents_spec().len() == self.alive_spec().len()
        &&& self.len_spec() <= u32::MAX
        &&& forall|i: int| 0 <= i < self.len_spec() ==> match #[trigger] self.parents_spec()[i] {
            Some(p) => p < i && (self.alive_spec()[i] ==> self.alive_spec()[p as int]),
            None => true,
        }
    }

    /// An empty tree.
    pub fn new() -> (r: Tree)
        ensures
            r.wf(),
            r.len_spec() == 0,
            r.root_spec() is None,
            r.overlay_spec() is None,
    {
        Tree { parents: Vec::new(), alive: Vec::new(), root: None, overlay: None }
    }

    /// The number of entities created so far, removed ones included.
    pub fn len(&self) -> (r: usize)
        ensures
            r == self.len_spec(),
    {
        self.alive.len()
    }

    /// True when `e` exists and was not removed.
    pub fn is_alive(&self, e: Entity) -> (r: bool)
        requires
            self.wf(),
        ensures
            r == self.contains(e),
    {
        (e.0 as usize) < self.alive.len() && self.alive[e.0 as usize]
    }

    /// Creates an entity below `parent`, or at the top level.
    pub fn create(&mut self, parent: Option<Entity>) -> (r: Result<Entity, TreeError>)
        requires
            old(self).wf(),
        ensures
            final(self).wf(),
            final(self).root_spec() == old(self).root_spec(),
            final(self).overlay_spec() == old(self).overlay_spec(),
            match parent {
                Some(p) => !old(self).contains(p) ==> r == Err::<Entity, TreeError>(TreeError::NotFound),
                None => true,
            },
            (parent is None || old(self).contains(parent->0)) && old(self).len_spec() < u32::MAX
                ==> r is Ok,
            (parent is None || old(self).contains(parent->0)) && old(self).len_spec() == u32::MAX
                ==> r == Err::<Entity, TreeError>(TreeError::Exhausted),
            r is Err ==> *final(self) == *old(self),
            r matches Ok(e) ==> {
                &&& e.0 == old(self).len_spec()
                &&& final(self).alive_spec() == old(self).alive_spec().push(true)
                &&& final(self).parents_spec() == old(self).parents_spec().push(
                    match parent { Some(p) => Some(p.0), None => None },
                )
            },
    {
        if let Some(p) = parent {
            if !self.is_alive(p) {
                return Err(TreeError::NotFound);
            }
        }
        if self.alive.len() >= u32::MAX as usize {
            return Err(TreeError::Exhausted);
        }
        let id = self.alive.len() as u32;
        let link = match parent {
            Some(p) => Some(p.0),
            None => None,
        };
        self.parents.push(link);
        self.alive.push(true);
        proof {
            assert forall|i: int| 0 <= i < self.len_spec() implies match #[trigger] self.parents_spec()[i] {
                Some(p) => p < i && (self.alive_spec()[i] ==> self.alive_spec()[p as int]),
                None => true,
            } by {
                if i < id {
                    assert(self.parents_spec()[i] == old(self).parents_spec()[i]);
                }
            }
        }
        Ok(Entity(id))
    }

    /// The designated root, if any.
    pub fn root(&self) -> (r: Option<Entity>)
        ensures
            r matches Some(e) ==> self.root_spec() == Some(e.0),
            r is None <==> self.root_spec() is None,
    {
        match self.root {
            Some(i) => Some(Entity(i)),
            None => None,
        }
    }

    /// The designated overlay, if any.
    pub fn overlay(&self) -> (r: Option<Entity>)
        ensures
            r matches Some(e) ==> self.overlay_spec() == Some(e.0),
            r is None <==> self.overlay_spec() is None,
    {
        match self.overlay {
            Some(i) => Some(Entity(i)),
            None => None,
        }
    }

    /// Makes `e` the root; a previous root stays in the tree, unreachable from it.
    pub fn set_root(&mut self, e: Entity) -> (r: Result<(), TreeError>)
        requires
            old(self).wf(),
        ensures
            final(self).wf(),
            r is Ok <==> old(self).contains(e),
            r is Err ==> r == Err::<(), TreeError>(TreeError::NotFound) && *final(self) == *old(self),
            r is Ok ==> final(self).root_spec() == Some(e.0),
            r is Ok ==> final(self).overlay_spec() == old(self).overlay_spec(),
            final(self).parents_spec() == old(self).parents_spec(),
            final(self).alive_spec() == old(self).alive_spec(),
    {
        if !self.is_alive(e) {
            return Err(TreeError::NotFound);
        }
        self.root = Some(e.0);
        Ok(())
    }

    /// Makes `e` the overlay; a previous overlay stays in the tree, unreachable from it.
    pub fn set_overlay(&mut self, e: Entity) -> (r: Result<(), TreeError>)
        requires
            old(self).wf(),
        ensures
            final(self).wf(),
            r is Ok <==> old(self).contains(e),
            r is Err ==> r == Err::<(), TreeError>(TreeError::NotFound) && *final(self) == *old(self),
            r is Ok ==> final(self).overlay_spec() == Some(e.0),
            r is Ok ==> final(self).root_spec() == old(self).root_spec(),
            final(self).parents_spec() == old(self).parents_spec(),
            final(self).alive_spec() == old(self).alive_spec(),
    {
        if !self.is_alive(e) {
            return Err(TreeError::NotFound);
        }
        self.overlay = Some(e.0);
        Ok(())
    }

    /// Clears the root designation; the entity itself is untouched.
    pub fn clear_root(&mut self)
        requires
            old(self).wf(),
        ensures
            final(self).wf(),
            final(self).root_spec() is None,
            final(self).overlay_spec() == old(self).overlay_spec(),
            final(self).parents_spec() == old(self).parents_spec(),
            final(self).alive_spec() == old(self).alive_spec(),
    {
        self.root = None;
    }

    /// The parent of `e`; `None` for a top-level entity.
    pub fn parent(&self, e: Entity) -> (r: Result<Option<Entity>, TreeError>)
        requires
            self.wf(),
        ensures
            r is Err <==> !self.contains(e),
            r is Err ==> r == Err::<Option<Entity>, TreeError>(TreeError::NotFound),
            r matches Ok(o) ==> match o {
                Some(p) => self.parent_of(e) == Some(p.0),
                None => self.parent_of(e) is None,
            },
    {
        if !self.is_alive(e) {
            return Err(TreeError::NotFound);
        }
        match self.parents[e.0 as usize] {
            Some(p) => Ok(Some(Entity(p))),
            None => Ok(None),
        }
    }

    /// The live children of `e`, in creation order.
    pub fn children(&self, e: Entity) -> (r: Result<Vec<Entity>, TreeError>)
        requires
            self.wf(),
        ensures
            r is Err <==> !self.contains(e),
            r is Err ==> r == Err::<Vec<Entity>, TreeError>(TreeError::NotFound),
            r matches Ok(v) ==> ids(v@) == self.children_spec(e),
    {
        if !self.is_alive(e) {
            return Err(TreeError::NotFound);
        }
        let mut out: Vec<Entity> = Vec::new();
        let n = self.alive.len();
        let mut i: usize = 0;
        while i < n
            invariant
                self.wf(),
                n == self.len_spec(),
                i <= n,
                ids(out@) == collect(self.alive_spec(), child_of(self.parents_spec(), e.0), i as int),
            decreases n - i,
        {
            if self.alive[i] && self.parents[i] == Some(e.0) {
                out.push(Entity(i as u32));
                assert(ids(out@) =~= ids(out@.drop_last()).push(i as u32));
            }
            i += 1;
        }
        Ok(out)
    }

    /// For each index, whether it lies at or below `e`.
    pub(crate) fn marks(&self, e: Entity) -> (r: Vec<bool>)
        requires
            self.wf(),
        ensures
            r@.len() == self.len_spec(),
            forall|k: int| 0 <= k < self.len_spec() ==> r@[k] == descends(self.parents_spec(), k, e.0 as int),
    {
        let mut m: Vec<bool> = Vec::new();
        let n = self.alive.len();
        let mut i: usize = 0;
        while i < n
            invariant
                self.wf(),
                n == self.len_spec(),
                i <= n,
                m@.len() == i,
                forall|k: int| 0 <= k < i ==> m@[k] == descends(self.parents_spec(), k, e.0 as int),
            decreases n - i,
        {
            let inside = if i == e.0 as usize {
                true
            } else if i < e.0 as usize {
                false
            } else {
                match self.parents[i] {
                    Some(p) => {
                        assert(self.parents_spec()[i as int] == Some(p));
                        m[p as usize]
                    },
                    None => false,
                }
            };
            m.push(inside);
            i += 1;
        }
        m
    }

    /// The live entities at or below `e`, each parent before its children.
    pub fn subtree_of(&self, e: Entity) -> (r: Result<Vec<Entity>, TreeError>)
        requires
            self.wf(),
        ensures
            r is Err <==> !self.contains(e),
            r is Err ==> r == Err::<Vec<Entity>, TreeError>(TreeError::NotFound),
            r matches Ok(v) ==> ids(v@) == self.subtree(e),
    {
        if !self.is_alive(e) {
            return Err(TreeError::NotFound);
        }
        let m = self.marks(e);
        let mut out: Vec<Entity> = Vec::new();
        let n = self.alive.len();
        let mut i: usize = 0;
        while i < n
            invariant
                self.wf(),
                n == self.len_spec(),
                i <= n,
                m@.len() == n,
                forall|k: int| 0 <= k < n ==> m@[k] == descends(self.parents_spec(), k, e.0 as int),
                ids(out@) == collect(self.alive_spec(), under(self.parents_spec(), e.0 as int), i as int),
            decreases n - i,
        {
            if self.alive[i] && m[i] {
                out.push(Entity(i as u32));
                assert(ids(out@) =~= ids(out@.drop_last()).push(i as u32));
            }
            i += 1;
        }
        Ok(out)
    }

    /// The live entities at or below `e`, each child before its parent: the
    /// traversal of `subtree_of` in reverse, for bottom-up passes.
    pub fn subtree_rev(&self, e: Entity) -> (r: Result<Vec<Entity>, TreeError>)
        requires
            self.wf(),
        ensures
            r is Err <==> !self.contains(e),
            r is Err ==> r == Err::<Vec<Entity>, TreeError>(TreeError::NotFound),
            r matches Ok(v) ==> ids(v@) == self.subtree(e).reverse(),
    {
        let fwd = match self.subtree_of(e) {
            Ok(v) => v,
            Err(x) => return Err(x),
        };
        let mut out: Vec<Entity> = Vec::new();
        let mut i: usize = fwd.len();
        while i > 0
            invariant
                i <= fwd@.len(),
                out@.len() == fwd@.len() - i,
                forall|k: int| 0 <= k < out@.len() ==> #[trigger] out@[k] == fwd@[fwd@.len() - 1 - k],
            decreases i,
        {
            i -= 1;
            out.push(fwd[i]);
        }
        assert(ids(out@) =~= ids(fwd@).reverse());
        Ok(out)
    }

    /// Removes `e` and everything below it; returns the removed entities, ascending.
    pub fn remove(&mut self, e: Entity) -> (r: Result<Vec<Entity>, TreeError>)
        requires
            old(self).wf(),
        ensures
            final(self).wf(),
            r is Err <==> !old(self).contains(e),
            r is Err ==> r == Err::<Vec<Entity>, TreeError>(TreeError::NotFound) && *final(self) == *old(self),
            r matches Ok(v) ==> ids(v@) == old(self).subtree(e),
            final(self).parents_spec() == old(self).parents_spec(),
            final(self).root_spec() == old(self).root_spec(),
            final(self).overlay_spec() == old(self).overlay_spec(),
            final(self).len_spec() == old(self).len_spec(),
            r is Ok ==> forall|k: int| 0 <= k < old(self).len_spec() ==> #[trigger] final(self).alive_spec()[k]
                == (old(self).alive_spec()[k] && !descends(old(self).parents_spec(), k, e.0 as int)),
    {
        if !self.is_alive(e) {
            return Err(TreeError::NotFound);
        }
        let m = self.marks(e);
        let mut out: Vec<Entity> = Vec::new();
        let n = self.alive.len();
        let mut i: usize = 0;
        let ghost before = self.alive@;
        while i < n
            invariant
                n == self.len_spec(),
                n == before.len(),
                self.parents_spec() == old(self).parents_spec(),
                self.parents_spec().len() == n,
                before == old(self).alive_spec(),
                self.root_spec() == old(self).root_spec(),
                self.overlay_spec() == old(self).overlay_spec(),
                old(self).wf(),
                i <= n,
                m@.len() == n,
                forall|k: int| 0 <= k < n ==> m@[k] == descends(self.parents_spec(), k, e.0 as int),
                forall|k: int| 0 <= k < i ==> self.alive_spec()[k] == (before[k] && !m@[k]),
                forall|k: int| i <= k < n ==> self.alive_spec()[k] == before[k],
                ids(out@) == collect(before, under(self.parents_spec(), e.0 as int), i as int),
            decreases n - i,
        {
            let ghost prev = self.alive@;
            if self.alive[i] && m[i] {
                self.alive.set(i, false);
                out.push(Entity(i as u32));
                assert(ids(out@) =~= ids(out@.drop_last()).push(i as u32));
            }
            assert(self.alive_spec()[i as int] == (before[i as int] && !m@[i as int]));
            assert(self.alive_spec() == self.alive@);
            assert(forall|k: int| 0 <= k < n && k != i ==> self.alive@[k] == prev[k]);
            assert(forall|k: int| 0 <= k < i ==> prev[k] == (before[k] && !m@[k]));
            i += 1;
        }
        proof {
            assert forall|k: int| 0 <= k < self.len_spec() implies match #[trigger] self.parents_spec()[k] {
                Some(p) => p < k && (self.alive_spec()[k] ==> self.alive_spec()[p as int]),
                None => true,
            } by {
                assert(old(self).parents_spec()[k] == self.parents_spec()[k]);
                if let Some(p) = self.parents_spec()[k] {
                    assert(self.alive_spec()[k] == (before[k] && !m@[k]));
                    assert(self.alive_spec()[p as int] == (before[p as int] && !m@[p as int]));
                    if self.alive_spec()[k] && m@[p as int] {
                        assert(descends(self.parents_spec(), k, e.0 as int));
                    }
                }
            }
        }
        Ok(out)
    }
}

/// A live entity with a parent is listed among that parent's children, and the
/// parent is live.
pub proof fn lemma_child_listed(t: Tree, e: Entity)
    requires
        t.wf(),
        t.contains(e),
        t.parent_of(e) is Some,
    ensures
        t.contains(Entity(t.parent_of(e)->0)),
        t.children_spec(Entity(t.parent_of(e)->0)).contains(e.0),
{
    let p = t.parent_of(e)->0;
    assert(t.parents_spec()[e.0 as int] == Some(p));
    lemma_collect_complete(t.alive_spec(), child_of(t.parents_spec(), p), t.len_spec(), e.0 as int);
    let m = choose|m: int| 0 <= m < t.children_spec(Entity(p)).len() && #[trigger] t.children_spec(Entity(p))[m] == e.0;
    assert(t.children_spec(Entity(p))[m] == e.0);
}

/// An entity that is not live, removed ones included, is in no traversal.
pub proof fn lemma_removed_not_traversed(t: Tree, top: Entity, j: u32)
    requires
        t.wf(),
        !t.contains(Entity(j)),
    ensures
        !t.subtree(top).contains(j),
        !t.children_spec(top).contains(j),
{
    lemma_collect_members(t.alive_spec(), under(t.parents_spec(), top.0 as int), t.len_spec());
    lemma_collect_members(t.alive_spec(), child_of(t.parents_spec(), top.0), t.len_spec());
    if t.subtree(top).contains(j) {
        let m = choose|m: int| 0 <= m < t.subtree(top).len() && t.subtree(top)[m] == j;
        assert(t.alive_spec()[t.subtree(top)[m] as int]);
    }
    if t.children_spec(top).contains(j) {
        let m = choose|m: int| 0 <= m < t.children_spec(top).len() && t.children_spec(top)[m] == j;
        assert(t.alive_spec()[t.children_spec(top)[m] as int]);
    }
}

/// A traversal lists each parent before its children: its entries ascend, and a
/// parent's index is below its child's.
pub proof fn lemma_subtree_parent_first(t: Tree, top: Entity, a: int, b: int)
    requires
        t.wf(),
        0 <= a < b < t.subtree(top).len(),
    ensures
        t.subtree(top)[a] < t.subtree(top)[b],
        forall|i: int| 0 <= i < t.len_spec() ==> match #[trigger] t.parents_spec()[i] {
            Some(p) => p < i,
            None => true,
        },
{
    lemma_collect_members(t.alive_spec(), under(t.parents_spec(), top.0 as int), t.len_spec());
}

} // verus!
