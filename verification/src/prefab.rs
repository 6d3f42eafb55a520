use vstd::prelude::*;
use std::collections::HashMap;
use std::marker::PhantomData;
use crate::store::{EntityStore, LiveEntity, LiveComponentModel, ResourcesModel};

verus! {

broadcast use vstd::std_specs::hash::group_hash_axioms;

/// The contract every payload type must satisfy to ride in a prefab tree:
/// it can be applied to a live entity (consuming itself), and it can attempt
/// to resolve its pending external references against the store's
/// capabilities.
pub trait PrefabData: Sized {
    /// The components that applying this payload attaches, in order, given
    /// the identity of the entity it is applied to.
    spec fn inserted(self, entity: usize) -> Seq<LiveComponentModel>;

    /// How one resolution attempt rewrites the payload, given the resources
    /// it saw.
    spec fn resolve_rel(pre: Self, post: Self, res: ResourcesModel) -> bool;

    /// The resources after one resolution attempt by this payload: the load
    /// requests it issued, recorded.
    spec fn resolve_requests(self, res: ResourcesModel) -> ResourcesModel;

    /// Whether one resolution attempt by this payload reports a problem.
    spec fn resolve_fails(self, res: ResourcesModel) -> bool;

    /// Applies the payload to a live entity, attaching its components.
    fn insert_into_entity(self, entidade: &mut LiveEntity)
        ensures
            final(entidade)@ == (crate::store::EntityModel {
                components: old(entidade)@.components + self.inserted(old(entidade)@.id),
                ..old(entidade)@
            }),
    ;

    /// Attempts once to resolve the payload's pending references; `true`
    /// means resolution failed or is incomplete for this payload. Entities
    /// and the callback registry are left untouched; only load requests are
    /// recorded.
    fn load_sub_assets(&mut self, world: &mut EntityStore) -> (r: bool)
        requires
            old(world).inv(),
        ensures
            Self::resolve_rel(*old(self), *final(self), old(world)@.resources),
            final(world)@.entities == old(world)@.entities,
            final(world)@.resources == old(self).resolve_requests(old(world)@.resources),
            final(world).resources.button_callbacks == old(world).resources.button_callbacks,
            r == old(self).resolve_fails(old(world)@.resources),
    ;
}

/// One slot of a prefab tree: an optional parent index and an optional payload.
///
/// A slot whose `parent` is `None` at an index other than 0 is an orphan: the
/// children map still allocates it an (empty) bucket, but nothing ever reaches
/// it from the root, so materialization leaves it untouched.
pub struct PrefabEntityBuilder<T> {
    pub parent: Option<usize>,
    pub data: Option<T>,
}

impl<T> PrefabEntityBuilder<T> {
    pub fn new(parent: Option<usize>, data: Option<T>) -> (r: Self)
        ensures
            r.parent == parent,
            r.data == data,
    {
        Self { parent, data }
    }

    pub fn get_data(&self) -> (r: Option<&T>)
        ensures
            match r {
                Some(d) => self.data == Some(*d),
                None => self.data is None,
            },
    {
        self.data.as_ref()
    }

    pub fn set_parent(&mut self, parent: usize)
        ensures
            final(self).parent == Some(parent),
            final(self).data == old(self).data,
    {
        self.parent = Some(parent);
    }

    pub fn set_data(&mut self, data: T)
        ensures
            final(self).data == Some(data),
            final(self).parent == old(self).parent,
    {
        self.data = Some(data);
    }

    pub fn take_data(&mut self) -> (r: Option<T>)
        ensures
            r == old(self).data,
            final(self).data is None,
            final(self).parent == old(self).parent,
    {
        self.data.take()
    }

    pub fn get_data_mut(&mut self) -> (r: Option<&mut T>)
        ensures
            match *old(self) {
                PrefabEntityBuilder { data: None, .. } => *final(self) == *old(self) && r
                    is None,
                PrefabEntityBuilder { data: Some(d), parent } => r.is_some() && *r.unwrap() == d
                    && final(self).parent == parent && final(self).data == Some(
                    *final(r.unwrap()),
                ),
            },
    {
        self.data.as_mut()
    }

    /// Returns the payload, first installing the one `f` makes if the slot
    /// holds none.
    pub fn get_data_or_insert_with<F: FnOnce() -> T>(&mut self, f: F) -> (r: &mut T)
        requires
            old(self).data is None ==> f.requires(()),
        ensures
            final(self).parent == old(self).parent,
            final(self).data == Some(*final(r)),
            match old(self).data {
                Some(d) => *r == d,
                None => f.ensures((), *r),
            },
    {
        if self.data.is_none() {
            let v = f();
            self.data = Some(v);
        }
        self.data.as_mut().unwrap()
    }

    /// Returns the payload, first installing `T::default()` if the slot
    /// holds none.
    pub fn get_data_or_default(&mut self) -> (r: &mut T) where T: Default
        ensures
            final(self).parent == old(self).parent,
            final(self).data == Some(*final(r)),
            match old(self).data {
                Some(d) => *r == d,
                None => call_ensures(T::default, (), *r),
            },
    {
        if self.data.is_none() {
            let v = T::default();
            self.data = Some(v);
        }
        self.data.as_mut().unwrap()
    }

    /// Asks the payload, if there is one, to resolve its pending references.
    pub fn prepare_data(&mut self, world: &mut EntityStore) -> (r: bool) where T: PrefabData
        requires
            old(world).inv(),
        ensures
            final(self).parent == old(self).parent,
            match old(self).data {
                Some(d) => final(self).data matches Some(d2) && T::resolve_rel(
                    d,
                    d2,
                    old(world)@.resources,
                ),
                None => final(self).data is None,
            },
            final(world)@.entities == old(world)@.entities,
            final(world)@.resources == (match old(self).data {
                Some(d) => d.resolve_requests(old(world)@.resources),
                None => old(world)@.resources,
            }),
            final(world).resources.button_callbacks == old(world).resources.button_callbacks,
            r == (old(self).data matches Some(d) && d.resolve_fails(old(world)@.resources)),
    {
        match self.data.as_mut() {
            Some(d) => d.load_sub_assets(world),
            None => false,
        }
    }
}

impl<T> Default for PrefabEntityBuilder<T> {
    fn default() -> (r: Self)
        ensures
            r.parent is None,
            r.data is None,
    {
        Self { parent: None, data: None }
    }
}

impl<T: Clone> Clone for PrefabEntityBuilder<T> {
    fn clone(&self) -> (r: Self)
        ensures
            r.parent == self.parent,
            r.data is Some <==> self.data is Some,
            self.data matches Some(d) ==> (r.data matches Some(d2) && cloned::<T>(d, d2)),
    {
        Self {
            parent: self.parent,
            data: match &self.data {
                Some(d) => Some(d.clone()),
                None => None,
            },
        }
    }
}

/// A flat, append-only tree: an ordered sequence of slots, index 0 being the
/// conventional root. Nodes are only ever appended, never removed or
/// reordered, so an index handed out by `add` stays valid for the tree's
/// whole life.
pub struct Prefab<T> {
    pub entities: Vec<PrefabEntityBuilder<T>>,
}

impl<T> Prefab<T> {
    /// Every parented slot points strictly upward: its parent's index is
    /// smaller than its own. Trees built purely by `add`, handing `add` only
    /// indices the tree already contains, always satisfy this.
    pub open spec fn parents_ordered(self) -> bool {
        forall|i: int|
            0 <= i < self.entities@.len() ==> ((#[trigger] self.entities@[i]).parent matches Some(p)
                ==> p < i)
    }

    /// A tree as the constructors hand it out: never empty.
    pub open spec fn rooted(self) -> bool {
        self.entities@.len() >= 1
    }

    pub fn new() -> (r: Self)
        ensures
            r.entities@.len() == 1,
            r.entities@[0].parent is None,
            r.entities@[0].data is None,
            r.parents_ordered(),
            r.rooted(),
    {
        Self { entities: vec![PrefabEntityBuilder { parent: None, data: None }] }
    }

    pub fn from_data(data: Option<T>) -> (r: Self)
        ensures
            r.entities@.len() == 1,
            r.entities@[0].parent is None,
            r.entities@[0].data == data,
            r.parents_ordered(),
            r.rooted(),
    {
        Self { entities: vec![PrefabEntityBuilder { parent: None, data }] }
    }

    /// Appends a slot and returns its index. No validation of `parent` is
    /// performed; a caller that wants an ordered tree must pass an index the
    /// tree already contains (or `None`).
    pub fn add(&mut self, parent: Option<usize>, data: Option<T>) -> (index: usize)
        ensures
            index == old(self).entities@.len(),
            final(self).entities@ == old(self).entities@.push(
                PrefabEntityBuilder { parent, data },
            ),
    {
        let index = self.entities.len();
        self.entities.push(PrefabEntityBuilder { parent, data });
        index
    }

    pub fn get_entity(&self, index: usize) -> (r: Option<&PrefabEntityBuilder<T>>)
        ensures
            match r {
                Some(e) => index < self.entities@.len() && *e == self.entities@[index as int],
                None => index >= self.entities@.len(),
            },
    {
        if index < self.entities.len() {
            Some(&self.entities[index])
        } else {
            None
        }
    }

    pub fn get_entity_mut(&mut self, index: usize) -> (r: Option<&mut PrefabEntityBuilder<T>>)
        ensures
            index < old(self).entities@.len() ==> r.is_some() && *r.unwrap() == old(
                self,
            ).entities@[index as int] && final(self).entities@ == old(self).entities@.update(
                index as int,
                *final(r.unwrap()),
            ),
            index >= old(self).entities@.len() ==> r.is_none() && *final(self) == *old(self),
    {
        if index < self.entities.len() {
            Some(&mut self.entities[index])
        } else {
            None
        }
    }
}

impl<T> Default for Prefab<T> {
    fn default() -> (r: Self)
        ensures
            r.entities@.len() == 1,
            r.entities@[0].parent is None,
            r.entities@[0].data is None,
            r.parents_ordered(),
            r.rooted(),
    {
        Self::new()
    }
}

impl<T: Clone> Clone for Prefab<T> {
    fn clone(&self) -> (r: Self)
        ensures
            r.entities@.len() == self.entities@.len(),
            forall|i: int|
                0 <= i < self.entities@.len() ==> (#[trigger] r.entities@[i]).parent
                    == self.entities@[i].parent && (r.entities@[i].data is Some
                    <==> self.entities@[i].data is Some),
            self.parents_ordered() ==> r.parents_ordered(),
    {
        let entities = self.entities.clone();
        proof {
            assert forall|i: int|
                0 <= i < self.entities@.len() implies (#[trigger] entities@[i]).parent
                == self.entities@[i].parent && (entities@[i].data is Some
                <==> self.entities@[i].data is Some) by {
                assert(cloned::<PrefabEntityBuilder<T>>(self.entities@[i], entities@[i]));
            }
        }
        Self { entities }
    }
}

/// The indices `j` in `[lo, hi)` whose slot names `p` as its parent, in
/// increasing order.
pub open spec fn children_in<T>(
    s: Seq<PrefabEntityBuilder<T>>,
    p: usize,
    lo: int,
    hi: int,
) -> Seq<usize>
    decreases hi - lo,
{
    if hi <= lo {
        Seq::empty()
    } else {
        let rest = children_in(s, p, lo, hi - 1);
        if s[hi - 1].parent == Some(p) {
            rest.push((hi - 1) as usize)
        } else {
            rest
        }
    }
}

/// Every element of `children_in(s, p, lo, hi)` lies in `[lo, hi)` and names
/// `p` as its parent.
pub proof fn lemma_children_in_elems<T>(s: Seq<PrefabEntityBuilder<T>>, p: usize, lo: int, hi: int)
    requires
        0 <= lo,
        hi <= usize::MAX + 1,
    ensures
        forall|q: int|
            0 <= q < children_in(s, p, lo, hi).len() ==> {
                let j = #[trigger] children_in(s, p, lo, hi)[q];
                lo <= j < hi && s[j as int].parent == Some(p)
            },
    decreases hi - lo,
{
    if hi > lo {
        lemma_children_in_elems(s, p, lo, hi - 1);
        let rest = children_in(s, p, lo, hi - 1);
        let c = children_in(s, p, lo, hi);
        assert forall|q: int|
            0 <= q < c.len() implies {
            let j = #[trigger] c[q];
            lo <= j < hi && s[j as int].parent == Some(p)
        } by {
            if s[hi - 1].parent == Some(p) {
                assert(c == rest.push((hi - 1) as usize));
                if q < rest.len() {
                    assert(c[q] == rest[q]);
                } else {
                    assert(c[q] == (hi - 1) as usize);
                }
            } else {
                assert(c == rest);
                assert(c[q] == rest[q]);
            }
        }
    }
}

/// Conversely, every index in `[lo, hi)` whose slot names `p` as its parent
/// occurs in `children_in(s, p, lo, hi)`.
pub proof fn lemma_children_in_has<T>(
    s: Seq<PrefabEntityBuilder<T>>,
    p: usize,
    lo: int,
    hi: int,
    j: int,
)
    requires
        0 <= lo <= j < hi <= usize::MAX + 1,
        s[j].parent == Some(p),
    ensures
        children_in(s, p, lo, hi).contains(j as usize),
    decreases hi - lo,
{
    if j == hi - 1 {
        let c = children_in(s, p, lo, hi);
        assert(c[c.len() - 1] == j as usize);
    } else {
        lemma_children_in_has(s, p, lo, hi - 1, j);
        let rest = children_in(s, p, lo, hi - 1);
        let q = choose|q: int| 0 <= q < rest.len() && rest[q] == j as usize;
        assert(children_in(s, p, lo, hi)[q] == j as usize);
    }
}

/// Contents of the derived children map at key `p`, part way through the
/// derivation: after the first `upto` slots have been processed. Processing
/// slot `p` itself resets its bucket to empty, so once `p < upto` only
/// children above `p` remain.
pub open spec fn bucket_at<T>(s: Seq<PrefabEntityBuilder<T>>, p: usize, upto: int) -> Seq<usize> {
    if p < upto {
        children_in(s, p, p + 1, upto)
    } else {
        children_in(s, p, 0, upto)
    }
}

impl<T> Prefab<T> {
    /// Contents of the derived children map at key `p`. For a key inside the
    /// tree this holds exactly the children above `p` (all of them, for an
    /// ordered tree); a parent pointer aimed beyond the tree yields a key
    /// `p >= len` holding every slot that names it.
    pub open spec fn bucket(self, p: usize) -> Seq<usize> {
        bucket_at(self.entities@, p, self.entities@.len() as int)
    }

    /// Derives the parent-to-children adjacency map in one pass: every index
    /// of the tree gets a (possibly empty) bucket, and each parented slot is
    /// filed under its parent's key.
    pub fn all_parents_childs(&self) -> (m: HashMap<usize, Vec<usize>>)
        ensures
            forall|p: usize| #[trigger]
                m@.contains_key(p) <==> (p < self.entities@.len() || children_in(
                    self.entities@,
                    p,
                    0,
                    self.entities@.len() as int,
                ).len() > 0),
            forall|p: usize| m@.contains_key(p) ==> #[trigger] m@[p]@ == self.bucket(p),
            forall|i: usize| i < self.entities@.len() ==> m@.contains_key(i),
    {
        let mut hash: HashMap<usize, Vec<usize>> = HashMap::new();
        let n = self.entities.len();
        let mut index: usize = 0;
        while index < n
            invariant
                n == self.entities@.len(),
                index <= n,
                forall|p: usize| #[trigger]
                    hash@.contains_key(p) <==> (p < index || children_in(
                        self.entities@,
                        p,
                        0,
                        index as int,
                    ).len() > 0),
                forall|p: usize|
                    hash@.contains_key(p) ==> #[trigger] hash@[p]@ == bucket_at(
                        self.entities@,
                        p,
                        index as int,
                    ),
            decreases n - index,
        {
            let ghost s = self.entities@;
            let ghost pre = hash@;
            if let Some(parent) = self.entities[index].parent {
                let mut v = match hash.remove(&parent) {
                    Some(v) => v,
                    None => Vec::new(),
                };
                proof {
                    if !pre.contains_key(parent) {
                        assert(bucket_at(s, parent, index as int) =~= Seq::<usize>::empty());
                    }
                }
                v.push(index);
                hash.insert(parent, v);
                proof {
                    assert(hash@ =~= pre.insert(parent, v));
                }
            }
            let ghost mid = hash@;
            hash.insert(index, Vec::new());
            proof {
                let i = index as int;
                assert forall|p: usize| #[trigger]
                    hash@.contains_key(p) <==> (p < index + 1 || children_in(s, p, 0, i + 1).len()
                        > 0) by {
                    if p != index {
                        assert(children_in(s, p, 0, i + 1).len() == children_in(s, p, 0, i).len()
                            + (if s[i].parent == Some(p) {
                            1int
                        } else {
                            0int
                        }));
                    }
                }
                assert forall|p: usize| hash@.contains_key(p) implies #[trigger] hash@[p]@
                    == bucket_at(s, p, i + 1) by {
                    if p == index {
                        assert(hash@[p]@ =~= Seq::<usize>::empty());
                        assert(bucket_at(s, p, i + 1) == children_in(s, p, i + 1, i + 1));
                    } else {
                        if s[i].parent == Some(p) {
                            assert(hash@[p] == mid[p]);
                            assert(mid[p]@ == bucket_at(s, p, i).push(index));
                            if p < i {
                                assert(children_in(s, p, p + 1, i + 1) == children_in(
                                    s,
                                    p,
                                    p + 1,
                                    i,
                                ).push(index));
                            } else {
                                assert(children_in(s, p, 0, i + 1) == children_in(s, p, 0, i).push(
                                    index,
                                ));
                            }
                        } else {
                            if pre.contains_key(p) {
                                assert(hash@[p] == pre[p]);
                            }
                            assert(children_in(s, p, 0, i + 1) == children_in(s, p, 0, i));
                            if p < i {
                                assert(children_in(s, p, p + 1, i + 1) == children_in(
                                    s,
                                    p,
                                    p + 1,
                                    i,
                                ));
                            }
                        }
                    }
                }
            }
            index += 1;
        }
        hash
    }
}

/// The resources after the first `i` slots of a resolution pass: each slot
/// with a payload records its load requests, in index order.
pub open spec fn resolve_res_upto<T: PrefabData>(
    slots: Seq<PrefabEntityBuilder<T>>,
    res: ResourcesModel,
    i: int,
) -> ResourcesModel
    decreases i,
{
    if i <= 0 {
        res
    } else {
        let prev = resolve_res_upto(slots, res, i - 1);
        if i - 1 < slots.len() {
            match slots[i - 1].data {
                Some(d) => d.resolve_requests(prev),
                None => prev,
            }
        } else {
            prev
        }
    }
}

/// Whether any of the first `i` slots reported a resolution problem.
pub open spec fn resolve_fails_upto<T: PrefabData>(
    slots: Seq<PrefabEntityBuilder<T>>,
    res: ResourcesModel,
    i: int,
) -> bool
    decreases i,
{
    if i <= 0 {
        false
    } else {
        resolve_fails_upto(slots, res, i - 1) || (i - 1 < slots.len() && (slots[i - 1].data
            matches Some(d) && d.resolve_fails(resolve_res_upto(slots, res, i - 1))))
    }
}

/// Law: the overall result of a resolution pass is the disjunction of the
/// per-slot results: if any one slot's payload reports a problem, the pass
/// over the whole tree does.
pub proof fn lemma_resolve_fails_any<T: PrefabData>(
    slots: Seq<PrefabEntityBuilder<T>>,
    res: ResourcesModel,
    i: int,
    n: int,
)
    requires
        0 <= i < n,
        i < slots.len(),
        slots[i].data matches Some(d) && d.resolve_fails(resolve_res_upto(slots, res, i)),
    ensures
        resolve_fails_upto(slots, res, n),
    decreases n,
{
    if i < n - 1 {
        lemma_resolve_fails_any(slots, res, i, n - 1);
    }
}

impl<T: PrefabData> Prefab<T> {
    /// Runs one resolution pass across every slot, in index order, and
    /// returns the disjunction of the per-slot results: `true` when any
    /// payload's resolution failed or was incomplete. The pass runs exactly
    /// once per slot; no slot's resolution depends on another's.
    pub fn prepare_entities(&mut self, world: &mut EntityStore) -> (r: bool)
        requires
            old(world).inv(),
        ensures
            final(self).entities@.len() == old(self).entities@.len(),
            forall|i: int|
                0 <= i < old(self).entities@.len() ==> (#[trigger] final(self).entities@[i]).parent
                    == old(self).entities@[i].parent,
            forall|i: int|
                0 <= i < old(self).entities@.len() ==> (match old(self).entities@[i].data {
                    Some(d) => (#[trigger] final(self).entities@[i]).data matches Some(d2)
                        && T::resolve_rel(
                        d,
                        d2,
                        resolve_res_upto(old(self).entities@, old(world)@.resources, i),
                    ),
                    None => final(self).entities@[i].data is None,
                }),
            final(world)@.entities == old(world)@.entities,
            final(world)@.resources == resolve_res_upto(
                old(self).entities@,
                old(world)@.resources,
                old(self).entities@.len() as int,
            ),
            final(world).resources.button_callbacks == old(world).resources.button_callbacks,
            final(world).inv(),
            r == resolve_fails_upto(
                old(self).entities@,
                old(world)@.resources,
                old(self).entities@.len() as int,
            ),
    {
        let ghost slots0 = self.entities@;
        let ghost res0 = world@.resources;
        let mut loaded = false;
        let n = self.entities.len();
        let mut i: usize = 0;
        while i < n
            invariant
                old(world).inv(),
                world.inv(),
                n == self.entities@.len(),
                i <= n,
                slots0 == old(self).entities@,
                res0 == old(world)@.resources,
                n == slots0.len(),
                forall|j: int| i <= j < n ==> #[trigger] self.entities@[j] == slots0[j],
                forall|j: int|
                    0 <= j < n ==> (#[trigger] self.entities@[j]).parent == slots0[j].parent,
                forall|j: int|
                    0 <= j < i ==> (match slots0[j].data {
                        Some(d) => (#[trigger] self.entities@[j]).data matches Some(d2)
                            && T::resolve_rel(d, d2, resolve_res_upto(slots0, res0, j)),
                        None => self.entities@[j].data is None,
                    }),
                world@.entities == old(world)@.entities,
                world@.resources == resolve_res_upto(slots0, res0, i as int),
                world.resources.button_callbacks == old(world).resources.button_callbacks,
                loaded == resolve_fails_upto(slots0, res0, i as int),
            decreases n - i,
        {
            let slot = &mut self.entities[i];
            let f = slot.prepare_data(world);
            loaded = loaded || f;
            i += 1;
        }
        loaded
    }
}

/// The buckets of a children map, at the level contracts speak of: key to
/// the ordered child indices under it.
pub open spec fn map_seq_view(m: Map<usize, Vec<usize>>) -> Map<usize, Seq<usize>> {
    Map::new(|k: usize| m.contains_key(k), |k: usize| m[k]@)
}

/// A children map fit for materializing a tree of `n` slots: every child
/// index filed under a key lies strictly between the key and `n`. The
/// children map derived from a parent-ordered tree satisfies this, and the
/// materialization walk needs it to terminate.
pub open spec fn map_ok(m: Map<usize, Seq<usize>>, n: nat) -> bool {
    forall|k: usize, q: int|
        m.contains_key(k) && 0 <= q < m[k].len() ==> k < #[trigger] m[k][q] < n
}

/// A live entity as materialization first creates it.
pub open spec fn empty_entity(id: usize) -> crate::store::EntityModel {
    crate::store::EntityModel {
        id,
        parent: None,
        children: Seq::empty(),
        components: Seq::empty(),
        from_prefab: false,
    }
}

/// The outcome of one materialization walk: the tree afterwards (payloads
/// moved out), the store's entities afterwards, and the returned root.
pub ghost struct SpawnOutcome<T> {
    pub slots: Seq<PrefabEntityBuilder<T>>,
    pub entities: Seq<crate::store::EntityModel>,
    pub result: Option<int>,
}

/// The outcome of materializing a list of children under one parent entity.
pub ghost struct ChildrenOutcome<T> {
    pub slots: Seq<PrefabEntityBuilder<T>>,
    pub entities: Seq<crate::store::EntityModel>,
}

/// What materializing the subtree at slot `init` does, starting from store
/// entities `es`: a fresh entity is created first in any case; if the
/// children map has no bucket for `init` the walk aborts there (reporting
/// absence, the fresh entity left empty); otherwise the slot's payload is
/// moved onto the new entity, the entity is tagged, and the children are
/// walked in order. `n` is the tree's size and only feeds the termination
/// measure.
pub open spec fn spawn_spec<T: PrefabData>(
    slots: Seq<PrefabEntityBuilder<T>>,
    m: Map<usize, Seq<usize>>,
    init: usize,
    es: Seq<crate::store::EntityModel>,
    n: nat,
) -> SpawnOutcome<T>
    decreases n - init, 1int, 0int,
{
    let root = es.len() as int;
    let es1 = es.push(empty_entity(es.len() as usize));
    if !m.contains_key(init) {
        SpawnOutcome { slots, entities: es1, result: None }
    } else {
        let slots2 = if init < slots.len() {
            slots.update(
                init as int,
                PrefabEntityBuilder { parent: slots[init as int].parent, data: None },
            )
        } else {
            slots
        };
        let es2 = if init < slots.len() {
            let with_data = match slots[init as int].data {
                Some(d) => es1.update(
                    root,
                    crate::store::EntityModel {
                        components: es1[root].components + d.inserted(es1[root].id),
                        ..es1[root]
                    },
                ),
                None => es1,
            };
            with_data.update(
                root,
                crate::store::EntityModel { from_prefab: true, ..with_data[root] },
            )
        } else {
            es1
        };
        let o = spawn_children_spec(slots2, m, m[init], init, root, es2, n);
        SpawnOutcome { slots: o.slots, entities: o.entities, result: Some(root) }
    }
}

/// Folds the materialization of a child list `cs` of slot `from`, attaching
/// each materialized child to the parent entity `parent_entity`.
pub open spec fn spawn_children_spec<T: PrefabData>(
    slots: Seq<PrefabEntityBuilder<T>>,
    m: Map<usize, Seq<usize>>,
    cs: Seq<usize>,
    from: usize,
    parent_entity: int,
    es: Seq<crate::store::EntityModel>,
    n: nat,
) -> ChildrenOutcome<T>
    decreases n - from, 0int, cs.len(),
{
    if cs.len() == 0 {
        ChildrenOutcome { slots, entities: es }
    } else {
        let child = cs[0];
        if from < child < n {
            let o = spawn_spec(slots, m, child, es, n);
            let es2 = match o.result {
                Some(cid) => o.entities.update(
                    parent_entity,
                    crate::store::EntityModel {
                        children: o.entities[parent_entity].children.push(cid as usize),
                        ..o.entities[parent_entity]
                    },
                ).update(
                    cid,
                    crate::store::EntityModel {
                        parent: Some(parent_entity as usize),
                        ..o.entities[cid]
                    },
                ),
                None => o.entities,
            };
            spawn_children_spec(o.slots, m, cs.skip(1), from, parent_entity, es2, n)
        } else {
            spawn_children_spec(slots, m, cs.skip(1), from, parent_entity, es, n)
        }
    }
}

/// Frame facts about a materialization walk: the tree keeps its size and
/// parent pointers; the store only gains entities, every entity that
/// existed before is untouched, and the returned root is the first entity
/// created (absence exactly when the start has no bucket).
pub proof fn lemma_spawn_spec_props<T: PrefabData>(
    slots: Seq<PrefabEntityBuilder<T>>,
    m: Map<usize, Seq<usize>>,
    init: usize,
    es: Seq<crate::store::EntityModel>,
    n: nat,
)
    requires
        slots.len() == n,
    ensures
        ({
            let o = spawn_spec(slots, m, init, es, n);
            &&& o.slots.len() == n
            &&& forall|i: int| 0 <= i < n ==> (#[trigger] o.slots[i]).parent == slots[i].parent
            &&& o.entities.len() > es.len()
            &&& forall|j: int| 0 <= j < es.len() ==> #[trigger] o.entities[j] == es[j]
            &&& o.result == (if m.contains_key(init) {
                Some(es.len() as int)
            } else {
                None::<int>
            })
        }),
    decreases n - init, 1int, 0int,
{
    let root = es.len() as int;
    let es1 = es.push(empty_entity(es.len() as usize));
    if m.contains_key(init) {
        let slots2 = if init < slots.len() {
            slots.update(
                init as int,
                PrefabEntityBuilder { parent: slots[init as int].parent, data: None },
            )
        } else {
            slots
        };
        let es2 = if init < slots.len() {
            let with_data = match slots[init as int].data {
                Some(d) => es1.update(
                    root,
                    crate::store::EntityModel {
                        components: es1[root].components + d.inserted(es1[root].id),
                        ..es1[root]
                    },
                ),
                None => es1,
            };
            with_data.update(
                root,
                crate::store::EntityModel { from_prefab: true, ..with_data[root] },
            )
        } else {
            es1
        };
        assert(es2.len() == es.len() + 1);
        assert(forall|j: int| 0 <= j < es.len() ==> #[trigger] es2[j] == es[j]);
        lemma_spawn_children_props(slots2, m, m[init], init, root, es2, n);
    }
}

/// Frame facts about materializing a child list; the parent entity only
/// gains children, everything else that existed before is untouched.
pub proof fn lemma_spawn_children_props<T: PrefabData>(
    slots: Seq<PrefabEntityBuilder<T>>,
    m: Map<usize, Seq<usize>>,
    cs: Seq<usize>,
    from: usize,
    parent_entity: int,
    es: Seq<crate::store::EntityModel>,
    n: nat,
)
    requires
        slots.len() == n,
        0 <= parent_entity < es.len(),
    ensures
        ({
            let o = spawn_children_spec(slots, m, cs, from, parent_entity, es, n);
            &&& o.slots.len() == n
            &&& forall|i: int| 0 <= i < n ==> (#[trigger] o.slots[i]).parent == slots[i].parent
            &&& o.entities.len() >= es.len()
            &&& forall|j: int|
                0 <= j < es.len() && j != parent_entity ==> #[trigger] o.entities[j] == es[j]
            &&& o.entities[parent_entity].parent == es[parent_entity].parent
            &&& o.entities[parent_entity].components == es[parent_entity].components
            &&& o.entities[parent_entity].from_prefab == es[parent_entity].from_prefab
        }),
    decreases n - from, 0int, cs.len(),
{
    if cs.len() != 0 {
        let child = cs[0];
        if from < child < n {
            lemma_spawn_spec_props(slots, m, child, es, n);
            let o = spawn_spec(slots, m, child, es, n);
            let es2 = match o.result {
                Some(cid) => o.entities.update(
                    parent_entity,
                    crate::store::EntityModel {
                        children: o.entities[parent_entity].children.push(cid as usize),
                        ..o.entities[parent_entity]
                    },
                ).update(
                    cid,
                    crate::store::EntityModel {
                        parent: Some(parent_entity as usize),
                        ..o.entities[cid]
                    },
                ),
                None => o.entities,
            };
            lemma_spawn_children_props(o.slots, m, cs.skip(1), from, parent_entity, es2, n);
        } else {
            lemma_spawn_children_props(slots, m, cs.skip(1), from, parent_entity, es, n);
        }
    }
}

impl<T: PrefabData> Prefab<T> {
    /// Materializes the subtree at `init` into `world`, using a children map
    /// derived beforehand (the tree must be prepared first). A fresh entity
    /// is created, the slot's payload is moved onto it, the entity is tagged
    /// as prefab-produced, and each child is materialized in order and then
    /// attached — the parent's cached location being re-derived after every
    /// recursive step, since the store may have grown. Returns the root
    /// entity's id, or absence (with a structural warning) when `init` has
    /// no bucket in the map.
    #[verifier::loop_isolation(false)]
    pub fn spawn(
        &mut self,
        processed_children: &HashMap<usize, Vec<usize>>,
        init: &usize,
        world: &mut EntityStore,
    ) -> (r: Option<usize>)
        requires
            map_ok(map_seq_view(processed_children@), old(self).entities@.len() as nat),
        ensures
            ({
                let o = spawn_spec(
                    old(self).entities@,
                    map_seq_view(processed_children@),
                    *init,
                    old(world)@.entities,
                    old(self).entities@.len() as nat,
                );
                &&& final(self).entities@ == o.slots
                &&& final(world)@.entities == o.entities
                &&& final(world).resources == old(world).resources
                &&& match r {
                    Some(id) => o.result == Some(id as int),
                    None => o.result is None,
                }
            }),
        decreases self.entities@.len() - *init,
    {
        let ghost slots0 = self.entities@;
        let ghost es0 = world@.entities;
        let ghost mv = map_seq_view(processed_children@);
        let ghost n = slots0.len() as nat;
        let mut root_entity = world.spawn_empty();
        let ghost root = root_entity.id as int;
        proof {
            assert(world@.entities =~= es0.push(empty_entity(es0.len() as usize)));
        }
        match processed_children.get(init) {
            None => {
                proof {
                    assert(!mv.contains_key(*init));
                }
                None
            },
            Some(c) => {
                proof {
                    assert(mv.contains_key(*init));
                    assert(mv[*init] == c@);
                }
                let ghost es1 = world@.entities;
                if *init < self.entities.len() {
                    let slot = &mut self.entities[*init];
                    let data = slot.take_data();
                    proof {
                        assert(self.entities@ =~= slots0.update(
                            *init as int,
                            PrefabEntityBuilder { parent: slots0[*init as int].parent, data: None },
                        ));
                    }
                    if let Some(d) = data {
                        let ghost pre = world@.entities;
                        let e = world.entity_at_mut(&root_entity);
                        d.insert_into_entity(e);
                        proof {
                            assert(world@.entities =~= pre.update(
                                root,
                                crate::store::EntityModel {
                                    components: pre[root].components + d.inserted(pre[root].id),
                                    ..pre[root]
                                },
                            ));
                            assert(root_entity.valid(*world));
                        }
                    }
                    world.set_prefab_tag(&root_entity);
                }
                let ghost slots2 = self.entities@;
                let ghost es2 = world@.entities;
                proof {
                    if *init < n {
                        assert(es2 == ({
                            let with_data = match slots0[*init as int].data {
                                Some(d) => es1.update(
                                    root,
                                    crate::store::EntityModel {
                                        components: es1[root].components + d.inserted(es1[root].id),
                                        ..es1[root]
                                    },
                                ),
                                None => es1,
                            };
                            with_data.update(
                                root,
                                crate::store::EntityModel { from_prefab: true, ..with_data[root] },
                            )
                        }));
                    } else {
                        assert(slots2 == slots0);
                        assert(es2 == es1);
                    }
                    assert(root < es2.len());
                    assert(root_entity.valid(*world));
                    assert(c@.skip(0) =~= c@);
                }
                let mut k: usize = 0;
                let cl = c.len();
                while k < cl
                    invariant
                        cl == c@.len(),
                        k <= cl,
                        map_ok(mv, n),
                        mv == map_seq_view(processed_children@),
                        mv.contains_key(*init),
                        mv[*init] == c@,
                        n == self.entities@.len(),
                        root == root_entity.id as int,
                        0 <= root < es2.len(),
                        es2.len() <= world@.entities.len(),
                        root_entity.valid(*world),
                        world.resources == old(world).resources,
                        spawn_children_spec(slots2, mv, c@, *init, root, es2, n)
                            == spawn_children_spec(
                            self.entities@,
                            mv,
                            c@.skip(k as int),
                            *init,
                            root,
                            world@.entities,
                            n,
                        ),
                    decreases cl - k,
                {
                    let child = c[k];
                    let ghost pre_slots = self.entities@;
                    let ghost pre_es = world@.entities;
                    proof {
                        assert(mv[*init][k as int] == child);
                        assert(*init < child < n);
                        assert(c@.skip(k as int)[0] == child);
                    }
                    let cr = self.spawn(processed_children, &child, world);
                    root_entity.update_location(world);
                    proof {
                        lemma_spawn_spec_props::<T>(pre_slots, mv, child, pre_es, n);
                        assert(world@.entities.len() > pre_es.len());
                        assert(root_entity.valid(*world));
                    }
                    let ghost o = spawn_spec::<T>(pre_slots, mv, child, pre_es, n);
                    if let Some(child_id) = cr {
                        proof {
                            assert(o.result == Some(child_id as int));
                            assert(child_id == pre_es.len());
                            assert(child_id < world@.entities.len());
                            assert(child_id != root_entity.id);
                        }
                        let ghost pre_add = world@.entities;
                        world.add_child(&root_entity, child_id);
                        proof {
                            assert(world@.entities == pre_add.update(
                                root,
                                crate::store::EntityModel {
                                    children: pre_add[root].children.push(child_id),
                                    ..pre_add[root]
                                },
                            ).update(
                                child_id as int,
                                crate::store::EntityModel {
                                    parent: Some(root_entity.id),
                                    ..pre_add[child_id as int]
                                },
                            ));
                        }
                    }
                    proof {
                        assert(c@.skip(k as int).skip(1) =~= c@.skip(k as int + 1));
                        assert(spawn_children_spec(pre_slots, mv, c@.skip(k as int), *init, root, pre_es, n)
                            == spawn_children_spec(
                            self.entities@,
                            mv,
                            c@.skip(k as int + 1),
                            *init,
                            root,
                            world@.entities,
                            n,
                        ));
                    }
                    k += 1;
                }
                proof {
                    assert(c@.skip(cl as int) =~= Seq::<usize>::empty());
                    assert(spawn_children_spec(slots2, mv, c@, *init, root, es2, n)
                        == ChildrenOutcome { slots: self.entities@, entities: world@.entities });
                }
                Some(root_entity.id())
            },
        }
    }
}

/// What materializing the subtree at slot `init` onto the existing entity
/// `root` does: like [`spawn_spec`], but no fresh root entity is created and
/// the existing one is not tagged; on a missing bucket nothing at all is
/// changed.
pub open spec fn spawn_with_root_spec<T: PrefabData>(
    slots: Seq<PrefabEntityBuilder<T>>,
    m: Map<usize, Seq<usize>>,
    init: usize,
    root: int,
    es: Seq<crate::store::EntityModel>,
    n: nat,
) -> SpawnOutcome<T> {
    if !m.contains_key(init) {
        SpawnOutcome { slots, entities: es, result: None }
    } else {
        let slots2 = if init < slots.len() {
            slots.update(
                init as int,
                PrefabEntityBuilder { parent: slots[init as int].parent, data: None },
            )
        } else {
            slots
        };
        let es2 = if init < slots.len() {
            match slots[init as int].data {
                Some(d) => es.update(
                    root,
                    crate::store::EntityModel {
                        components: es[root].components + d.inserted(es[root].id),
                        ..es[root]
                    },
                ),
                None => es,
            }
        } else {
            es
        };
        let o = spawn_children_spec(slots2, m, m[init], init, root, es2, n);
        SpawnOutcome { slots: o.slots, entities: o.entities, result: Some(root) }
    }
}

impl<T: PrefabData> Prefab<T> {
    /// Materializes the subtree at `init` onto the existing entity `root`,
    /// which must exist in the store; otherwise exactly like [`Prefab::spawn`],
    /// except that the pre-existing root is not tagged.
    #[verifier::loop_isolation(false)]
    pub fn spawn_with_root(
        &mut self,
        processed_children: &HashMap<usize, Vec<usize>>,
        init: &usize,
        world: &mut EntityStore,
        root: usize,
    ) -> (r: Option<usize>)
        requires
            map_ok(map_seq_view(processed_children@), old(self).entities@.len() as nat),
            root < old(world)@.entities.len(),
        ensures
            ({
                let o = spawn_with_root_spec(
                    old(self).entities@,
                    map_seq_view(processed_children@),
                    *init,
                    root as int,
                    old(world)@.entities,
                    old(self).entities@.len() as nat,
                );
                &&& final(self).entities@ == o.slots
                &&& final(world)@.entities == o.entities
                &&& final(world).resources == old(world).resources
                &&& match r {
                    Some(id) => o.result == Some(id as int),
                    None => o.result is None,
                }
            }),
    {
        let ghost slots0 = self.entities@;
        let ghost es0 = world@.entities;
        let ghost mv = map_seq_view(processed_children@);
        let ghost n = slots0.len() as nat;
        let mut root_entity = world.entity_location(root);
        match processed_children.get(init) {
            None => {
                proof {
                    assert(!mv.contains_key(*init));
                }
                None
            },
            Some(c) => {
                proof {
                    assert(mv.contains_key(*init));
                    assert(mv[*init] == c@);
                }
                if *init < self.entities.len() {
                    let slot = &mut self.entities[*init];
                    let data = slot.take_data();
                    proof {
                        assert(self.entities@ =~= slots0.update(
                            *init as int,
                            PrefabEntityBuilder { parent: slots0[*init as int].parent, data: None },
                        ));
                    }
                    if let Some(d) = data {
                        let ghost pre = world@.entities;
                        let e = world.entity_at_mut(&root_entity);
                        d.insert_into_entity(e);
                        proof {
                            assert(world@.entities =~= pre.update(
                                root as int,
                                crate::store::EntityModel {
                                    components: pre[root as int].components + d.inserted(pre[root as int].id),
                                    ..pre[root as int]
                                },
                            ));
                            assert(root_entity.valid(*world));
                        }
                    }
                }
                let ghost slots2 = self.entities@;
                let ghost es2 = world@.entities;
                proof {
                    assert(root < es2.len());
                    assert(root_entity.valid(*world));
                    assert(c@.skip(0) =~= c@);
                }
                let mut k: usize = 0;
                let cl = c.len();
                while k < cl
                    invariant
                        cl == c@.len(),
                        k <= cl,
                        map_ok(mv, n),
                        mv == map_seq_view(processed_children@),
                        mv.contains_key(*init),
                        mv[*init] == c@,
                        n == self.entities@.len(),
                        root == root_entity.id,
                        root < es2.len(),
                        es2.len() <= world@.entities.len(),
                        root_entity.valid(*world),
                        world.resources == old(world).resources,
                        spawn_children_spec(slots2, mv, c@, *init, root as int, es2, n)
                            == spawn_children_spec(
                            self.entities@,
                            mv,
                            c@.skip(k as int),
                            *init,
                            root as int,
                            world@.entities,
                            n,
                        ),
                    decreases cl - k,
                {
                    let child = c[k];
                    let ghost pre_slots = self.entities@;
                    let ghost pre_es = world@.entities;
                    proof {
                        assert(mv[*init][k as int] == child);
                        assert(*init < child < n);
                        assert(c@.skip(k as int)[0] == child);
                    }
                    let cr = self.spawn(processed_children, &child, world);
                    root_entity.update_location(world);
                    proof {
                        lemma_spawn_spec_props::<T>(pre_slots, mv, child, pre_es, n);
                        assert(world@.entities.len() > pre_es.len());
                        assert(root_entity.valid(*world));
                    }
                    let ghost o = spawn_spec::<T>(pre_slots, mv, child, pre_es, n);
                    if let Some(child_id) = cr {
                        proof {
                            assert(o.result == Some(child_id as int));
                            assert(child_id == pre_es.len());
                            assert(child_id < world@.entities.len());
                            assert(child_id != root_entity.id);
                        }
                        let ghost pre_add = world@.entities;
                        world.add_child(&root_entity, child_id);
                        proof {
                            assert(world@.entities == pre_add.update(
                                root as int,
                                crate::store::EntityModel {
                                    children: pre_add[root as int].children.push(child_id),
                                    ..pre_add[root as int]
                                },
                            ).update(
                                child_id as int,
                                crate::store::EntityModel {
                                    parent: Some(root_entity.id),
                                    ..pre_add[child_id as int]
                                },
                            ));
                        }
                    }
                    proof {
                        assert(c@.skip(k as int).skip(1) =~= c@.skip(k as int + 1));
                        assert(spawn_children_spec(
                            pre_slots,
                            mv,
                            c@.skip(k as int),
                            *init,
                            root as int,
                            pre_es,
                            n,
                        ) == spawn_children_spec(
                            self.entities@,
                            mv,
                            c@.skip(k as int + 1),
                            *init,
                            root as int,
                            world@.entities,
                            n,
                        ));
                    }
                    k += 1;
                }
                proof {
                    assert(c@.skip(cl as int) =~= Seq::<usize>::empty());
                    assert(spawn_children_spec(slots2, mv, c@, *init, root as int, es2, n)
                        == ChildrenOutcome { slots: self.entities@, entities: world@.entities });
                }
                Some(root_entity.id())
            },
        }
    }
}

/// The children map a tree denotes, at the level contracts speak of:
/// exactly what `all_parents_childs` builds.
pub open spec fn children_map_spec<T>(s: Seq<PrefabEntityBuilder<T>>) -> Map<usize, Seq<usize>> {
    Map::new(
        |p: usize| p < s.len() || children_in(s, p, 0, s.len() as int).len() > 0,
        |p: usize| bucket_at(s, p, s.len() as int),
    )
}

impl<T> Prefab<T> {
    /// The children map this tree denotes (see [`Prefab::all_parents_childs`]).
    pub open spec fn children_map_of(self) -> Map<usize, Seq<usize>> {
        children_map_spec(self.entities@)
    }
}

/// The children map of a parent-ordered tree is fit for materialization:
/// every bucket entry lies strictly between its key and the tree's size.
pub proof fn lemma_ordered_map_ok<T>(s: Seq<PrefabEntityBuilder<T>>)
    requires
        s.len() <= usize::MAX,
        forall|i: int|
            0 <= i < s.len() ==> ((#[trigger] s[i]).parent matches Some(p) ==> p < i),
    ensures
        map_ok(children_map_spec(s), s.len() as nat),
{
    let m = children_map_spec(s);
    let n = s.len() as int;
    assert forall|k: usize, q: int|
        m.contains_key(k) && 0 <= q < m[k].len() implies k < #[trigger] m[k][q] < s.len() by {
        if k < s.len() {
            lemma_children_in_elems(s, k, k + 1, n);
            let j = m[k][q];
            assert(s[j as int].parent == Some(k));
        } else {
            lemma_children_in_elems(s, k, 0, n);
            let j = m[k][q];
            assert(s[j as int].parent == Some(k));
            assert(k < j);
            assert(false);
        }
    }
}

/// An index is reachable from the root: following parent pointers upward
/// from it reaches slot 0.
pub open spec fn reachable<T>(s: Seq<PrefabEntityBuilder<T>>, i: int) -> bool
    decreases i,
{
    0 <= i < s.len() && (i == 0 || (s[i].parent matches Some(p) && p < i && reachable(s, p as int)))
}

/// In a parent-ordered tree without orphans, every index is reachable from
/// the root.
pub proof fn lemma_all_reachable<T>(s: Seq<PrefabEntityBuilder<T>>, i: int)
    requires
        forall|j: int|
            0 <= j < s.len() ==> ((#[trigger] s[j]).parent matches Some(p) ==> p < j),
        forall|j: int| 1 <= j < s.len() ==> (#[trigger] s[j]).parent is Some,
        0 <= i < s.len(),
    ensures
        reachable(s, i),
    decreases i,
{
    if i > 0 {
        let p = s[i].parent.unwrap();
        lemma_all_reachable(s, p as int);
    }
}

/// The index `i` occurs in some bucket of the tree's children map.
pub open spec fn filed_in_children_map<T>(t: Prefab<T>, i: usize) -> bool {
    exists|p: usize|
        #[trigger] t.children_map_of().contains_key(p) && t.children_map_of()[p].contains(i)
}

/// Law: for a parent-ordered tree without orphans, the union of all the
/// children map's buckets, together with the root index 0, is exactly the
/// set of indices reachable from the root — which is every index of the
/// tree.
pub proof fn lemma_children_cover_reachable<T>(t: Prefab<T>)
    requires
        t.parents_ordered(),
        t.rooted(),
        forall|i: int| 1 <= i < t.entities@.len() ==> (#[trigger] t.entities@[i]).parent is Some,
    ensures
        forall|i: int| 0 <= i < t.entities@.len() ==> reachable(t.entities@, i),
        forall|i: usize| 1 <= i < t.entities@.len() ==> #[trigger] filed_in_children_map(t, i),
        forall|p: usize, q: int|
            t.children_map_of().contains_key(p) && 0 <= q < t.children_map_of()[p].len() ==> {
                let j = #[trigger] t.children_map_of()[p][q];
                1 <= j < t.entities@.len() && reachable(t.entities@, j as int)
            },
{
    let s = t.entities@;
    let n = s.len() as int;
    let m = t.children_map_of();
    assert(t.entities.len() == s.len());
    assert forall|i: int| 0 <= i < s.len() implies reachable(s, i) by {
        lemma_all_reachable(s, i);
    }
    assert forall|i: usize| 1 <= i < s.len() implies #[trigger] filed_in_children_map(t, i) by {
        let p = s[i as int].parent.unwrap();
        assert(p < i < s.len());
        lemma_children_in_has(s, p, p + 1, n, i as int);
        assert(m.contains_key(p) && m[p].contains(i));
    }
    assert forall|p: usize, q: int|
        m.contains_key(p) && 0 <= q < m[p].len() implies {
        let j = #[trigger] m[p][q];
        1 <= j < s.len() && reachable(s, j as int)
    } by {
        assert(t.entities.len() == s.len());
        lemma_ordered_map_ok(s);
        let j = m[p][q];
        assert(p < j < s.len());
        lemma_all_reachable(s, j as int);
    }
}

/// Materializing never touches a slot that is neither the start slot nor
/// filed in any bucket of the children map: its payload stays in place.
pub proof fn lemma_spawn_children_untouched<T: PrefabData>(
    slots: Seq<PrefabEntityBuilder<T>>,
    m: Map<usize, Seq<usize>>,
    cs: Seq<usize>,
    from: usize,
    parent_entity: int,
    es: Seq<crate::store::EntityModel>,
    n: nat,
    i: int,
)
    requires
        slots.len() == n,
        0 <= i < n,
        forall|k: usize| #[trigger] m.contains_key(k) ==> !m[k].contains(i as usize),
        !cs.contains(i as usize),
    ensures
        spawn_children_spec(slots, m, cs, from, parent_entity, es, n).slots[i] == slots[i],
    decreases n - from, 0int, cs.len(),
{
    if cs.len() != 0 {
        let child = cs[0];
        assert(child != i as usize);
        assert(forall|q: int| 0 <= q < cs.skip(1).len() ==> #[trigger] cs.skip(1)[q] == cs[q + 1]);
        assert(!cs.skip(1).contains(i as usize));
        if from < child < n {
            lemma_spawn_spec_untouched(slots, m, child, es, n, i);
            let o = spawn_spec(slots, m, child, es, n);
            let es2 = match o.result {
                Some(cid) => o.entities.update(
                    parent_entity,
                    crate::store::EntityModel {
                        children: o.entities[parent_entity].children.push(cid as usize),
                        ..o.entities[parent_entity]
                    },
                ).update(
                    cid,
                    crate::store::EntityModel {
                        parent: Some(parent_entity as usize),
                        ..o.entities[cid]
                    },
                ),
                None => o.entities,
            };
            lemma_spawn_spec_props(slots, m, child, es, n);
            lemma_spawn_children_untouched(o.slots, m, cs.skip(1), from, parent_entity, es2, n, i);
        } else {
            lemma_spawn_children_untouched(slots, m, cs.skip(1), from, parent_entity, es, n, i);
        }
    }
}

/// See [`lemma_spawn_children_untouched`].
pub proof fn lemma_spawn_spec_untouched<T: PrefabData>(
    slots: Seq<PrefabEntityBuilder<T>>,
    m: Map<usize, Seq<usize>>,
    init: usize,
    es: Seq<crate::store::EntityModel>,
    n: nat,
    i: int,
)
    requires
        slots.len() == n,
        0 <= i < n,
        i != init,
        forall|k: usize| #[trigger] m.contains_key(k) ==> !m[k].contains(i as usize),
    ensures
        spawn_spec(slots, m, init, es, n).slots[i] == slots[i],
    decreases n - init, 1int, 0int,
{
    if m.contains_key(init) {
        let root = es.len() as int;
        let es1 = es.push(empty_entity(es.len() as usize));
        let slots2 = if init < slots.len() {
            slots.update(
                init as int,
                PrefabEntityBuilder { parent: slots[init as int].parent, data: None },
            )
        } else {
            slots
        };
        let es2 = if init < slots.len() {
            let with_data = match slots[init as int].data {
                Some(d) => es1.update(
                    root,
                    crate::store::EntityModel {
                        components: es1[root].components + d.inserted(es1[root].id),
                        ..es1[root]
                    },
                ),
                None => es1,
            };
            with_data.update(
                root,
                crate::store::EntityModel { from_prefab: true, ..with_data[root] },
            )
        } else {
            es1
        };
        assert(slots2[i] == slots[i]);
        assert(!m[init].contains(i as usize));
        lemma_spawn_children_untouched(slots2, m, m[init], init, root, es2, n, i);
    }
}

/// Materialization never puts a payload back: a slot already empty stays
/// empty through the walk.
pub proof fn lemma_spawn_spec_keeps_none<T: PrefabData>(
    slots: Seq<PrefabEntityBuilder<T>>,
    m: Map<usize, Seq<usize>>,
    init: usize,
    es: Seq<crate::store::EntityModel>,
    n: nat,
    i: int,
)
    requires
        slots.len() == n,
        0 <= i < n,
        slots[i].data is None,
    ensures
        spawn_spec(slots, m, init, es, n).slots[i].data is None,
    decreases n - init, 1int, 0int,
{
    if m.contains_key(init) {
        let root = es.len() as int;
        let es1 = es.push(empty_entity(es.len() as usize));
        let slots2 = if init < slots.len() {
            slots.update(
                init as int,
                PrefabEntityBuilder { parent: slots[init as int].parent, data: None },
            )
        } else {
            slots
        };
        let es2 = if init < slots.len() {
            let with_data = match slots[init as int].data {
                Some(d) => es1.update(
                    root,
                    crate::store::EntityModel {
                        components: es1[root].components + d.inserted(es1[root].id),
                        ..es1[root]
                    },
                ),
                None => es1,
            };
            with_data.update(
                root,
                crate::store::EntityModel { from_prefab: true, ..with_data[root] },
            )
        } else {
            es1
        };
        assert(slots2[i].data is None);
        lemma_spawn_children_keep_none(slots2, m, m[init], init, root, es2, n, i);
    }
}

/// See [`lemma_spawn_spec_keeps_none`].
pub proof fn lemma_spawn_children_keep_none<T: PrefabData>(
    slots: Seq<PrefabEntityBuilder<T>>,
    m: Map<usize, Seq<usize>>,
    cs: Seq<usize>,
    from: usize,
    parent_entity: int,
    es: Seq<crate::store::EntityModel>,
    n: nat,
    i: int,
)
    requires
        slots.len() == n,
        0 <= i < n,
        slots[i].data is None,
    ensures
        spawn_children_spec(slots, m, cs, from, parent_entity, es, n).slots[i].data is None,
    decreases n - from, 0int, cs.len(),
{
    if cs.len() != 0 {
        let child = cs[0];
        if from < child < n {
            lemma_spawn_spec_keeps_none(slots, m, child, es, n, i);
            lemma_spawn_spec_props(slots, m, child, es, n);
            let o = spawn_spec(slots, m, child, es, n);
            let es2 = match o.result {
                Some(cid) => o.entities.update(
                    parent_entity,
                    crate::store::EntityModel {
                        children: o.entities[parent_entity].children.push(cid as usize),
                        ..o.entities[parent_entity]
                    },
                ).update(
                    cid,
                    crate::store::EntityModel {
                        parent: Some(parent_entity as usize),
                        ..o.entities[cid]
                    },
                ),
                None => o.entities,
            };
            lemma_spawn_children_keep_none(o.slots, m, cs.skip(1), from, parent_entity, es2, n, i);
        } else {
            lemma_spawn_children_keep_none(slots, m, cs.skip(1), from, parent_entity, es, n, i);
        }
    }
}

/// An index is reachable from `from` through the children map: it is `from`
/// itself, or sits (transitively) in a bucket on a downward path from
/// `from`.
pub open spec fn map_reaches(m: Map<usize, Seq<usize>>, from: usize, i: usize, n: nat) -> bool
    decreases n - from, 0int,
{
    i == from || (m.contains_key(from) && exists|q: int|
        0 <= q < m[from].len() && from < #[trigger] m[from][q] < n && map_reaches(
            m,
            m[from][q],
            i,
            n,
        ))
}

/// Law: materialization moves the payload out of every slot the children
/// map reaches from the start — together with [`lemma_spawn_spec_untouched`],
/// the slots a walk from the root empties are exactly the reachable ones.
pub proof fn lemma_spawn_visits_reachable<T: PrefabData>(
    slots: Seq<PrefabEntityBuilder<T>>,
    m: Map<usize, Seq<usize>>,
    init: usize,
    es: Seq<crate::store::EntityModel>,
    n: nat,
    i: usize,
)
    requires
        slots.len() == n,
        forall|j: usize| j < n ==> m.contains_key(j),
        map_reaches(m, init, i, n),
        init < n,
        i < n,
    ensures
        spawn_spec(slots, m, init, es, n).slots[i as int].data is None,
    decreases n - init, 1int, 0int,
{
    let root = es.len() as int;
    let es1 = es.push(empty_entity(es.len() as usize));
    let slots2 = slots.update(
        init as int,
        PrefabEntityBuilder { parent: slots[init as int].parent, data: None },
    );
    let es2 = {
        let with_data = match slots[init as int].data {
            Some(d) => es1.update(
                root,
                crate::store::EntityModel {
                    components: es1[root].components + d.inserted(es1[root].id),
                    ..es1[root]
                },
            ),
            None => es1,
        };
        with_data.update(root, crate::store::EntityModel { from_prefab: true, ..with_data[root] })
    };
    if i == init {
        lemma_spawn_children_keep_none(slots2, m, m[init], init, root, es2, n, i as int);
    } else {
        let q = choose|q: int|
            0 <= q < m[init].len() && init < #[trigger] m[init][q] < n && map_reaches(
                m,
                m[init][q],
                i,
                n,
            );
        lemma_spawn_children_visit(slots2, m, m[init], init, root, es2, n, q, i);
    }
}

/// See [`lemma_spawn_visits_reachable`]: the child list visits the slots
/// reachable through its `q`-th entry.
pub proof fn lemma_spawn_children_visit<T: PrefabData>(
    slots: Seq<PrefabEntityBuilder<T>>,
    m: Map<usize, Seq<usize>>,
    cs: Seq<usize>,
    from: usize,
    parent_entity: int,
    es: Seq<crate::store::EntityModel>,
    n: nat,
    q: int,
    i: usize,
)
    requires
        slots.len() == n,
        forall|j: usize| j < n ==> m.contains_key(j),
        0 <= q < cs.len(),
        from < cs[q] < n,
        map_reaches(m, cs[q], i, n),
        i < n,
    ensures
        spawn_children_spec(slots, m, cs, from, parent_entity, es, n).slots[i as int].data
            is None,
    decreases n - from, 0int, cs.len(),
{
    let child = cs[0];
    if q == 0 {
        lemma_spawn_visits_reachable(slots, m, child, es, n, i);
        lemma_spawn_spec_props(slots, m, child, es, n);
        let o = spawn_spec(slots, m, child, es, n);
        let es2 = match o.result {
            Some(cid) => o.entities.update(
                parent_entity,
                crate::store::EntityModel {
                    children: o.entities[parent_entity].children.push(cid as usize),
                    ..o.entities[parent_entity]
                },
            ).update(
                cid,
                crate::store::EntityModel {
                    parent: Some(parent_entity as usize),
                    ..o.entities[cid]
                },
            ),
            None => o.entities,
        };
        lemma_spawn_children_keep_none(o.slots, m, cs.skip(1), from, parent_entity, es2, n, i as int);
    } else {
        if from < child < n {
            lemma_spawn_spec_props(slots, m, child, es, n);
            let o = spawn_spec(slots, m, child, es, n);
            let es2 = match o.result {
                Some(cid) => o.entities.update(
                    parent_entity,
                    crate::store::EntityModel {
                        children: o.entities[parent_entity].children.push(cid as usize),
                        ..o.entities[parent_entity]
                    },
                ).update(
                    cid,
                    crate::store::EntityModel {
                        parent: Some(parent_entity as usize),
                        ..o.entities[cid]
                    },
                ),
                None => o.entities,
            };
            assert(cs.skip(1)[q - 1] == cs[q]);
            lemma_spawn_children_visit(o.slots, m, cs.skip(1), from, parent_entity, es2, n, q - 1, i);
        } else {
            assert(cs.skip(1)[q - 1] == cs[q]);
            lemma_spawn_children_visit(slots, m, cs.skip(1), from, parent_entity, es, n, q - 1, i);
        }
    }
}

/// A reachability path through the children map extends by one bucket step
/// at its end.
pub proof fn lemma_map_reaches_step(
    m: Map<usize, Seq<usize>>,
    a: usize,
    b: usize,
    c: usize,
    n: nat,
    q: int,
)
    requires
        map_reaches(m, a, b, n),
        m.contains_key(b),
        0 <= q < m[b].len(),
        m[b][q] == c,
        b < c < n,
    ensures
        map_reaches(m, a, c, n),
    decreases n - a, 0int,
{
    if a == b {
        assert(map_reaches(m, c, c, n));
    } else {
        let q0 = choose|q0: int|
            0 <= q0 < m[a].len() && a < #[trigger] m[a][q0] < n && map_reaches(m, m[a][q0], b, n);
        lemma_map_reaches_step(m, m[a][q0], b, c, n, q);
    }
}

/// In a parent-ordered tree without orphans, every index is reachable from
/// the root through the derived children map.
pub proof fn lemma_tree_reachable_in_map<T>(t: Prefab<T>, i: usize)
    requires
        t.parents_ordered(),
        t.rooted(),
        forall|j: int| 1 <= j < t.entities@.len() ==> (#[trigger] t.entities@[j]).parent is Some,
        i < t.entities@.len(),
    ensures
        map_reaches(t.children_map_of(), 0, i, t.entities@.len() as nat),
    decreases i,
{
    let s = t.entities@;
    let n = s.len() as nat;
    let m = t.children_map_of();
    assert(t.entities.len() == s.len());
    if i > 0 {
        let p = s[i as int].parent.unwrap();
        lemma_tree_reachable_in_map(t, p);
        lemma_children_in_has(s, p, p + 1, s.len() as int, i as int);
        let q = choose|q: int| 0 <= q < m[p].len() && m[p][q] == i;
        lemma_children_in_elems(s, p, p + 1, s.len() as int);
        lemma_map_reaches_step(m, 0, p, i, n, q);
    }
}

/// Law: materializing a parent-ordered, orphan-free tree from its root
/// moves every slot's payload into the live store — nothing reachable is
/// left behind.
pub proof fn lemma_spawn_takes_all<T: PrefabData>(
    t: Prefab<T>,
    es: Seq<crate::store::EntityModel>,
    i: usize,
)
    requires
        t.parents_ordered(),
        t.rooted(),
        forall|j: int| 1 <= j < t.entities@.len() ==> (#[trigger] t.entities@[j]).parent is Some,
        i < t.entities@.len(),
    ensures
        spawn_spec(
            t.entities@,
            t.children_map_of(),
            0,
            es,
            t.entities@.len() as nat,
        ).slots[i as int].data is None,
{
    lemma_tree_reachable_in_map(t, i);
    lemma_spawn_visits_reachable(
        t.entities@,
        t.children_map_of(),
        0,
        es,
        t.entities@.len() as nat,
        i,
    );
}

/// Law: an orphan slot — parent absent, index other than 0 — is dead data:
/// it sits in no bucket of the derived children map, so materialization
/// from the root leaves its payload in place and attaches it to no entity.
pub proof fn lemma_orphan_excluded<T: PrefabData>(
    t: Prefab<T>,
    es: Seq<crate::store::EntityModel>,
    i: int,
)
    requires
        1 <= i < t.entities@.len(),
        t.entities@[i].parent is None,
    ensures
        spawn_spec(
            t.entities@,
            t.children_map_of(),
            0,
            es,
            t.entities@.len() as nat,
        ).slots[i] == t.entities@[i],
{
    let s = t.entities@;
    let m = t.children_map_of();
    assert(t.entities.len() == s.len());
    assert forall|k: usize| #[trigger] m.contains_key(k) implies !m[k].contains(i as usize) by {
        if m[k].contains(i as usize) {
            let q = choose|q: int| 0 <= q < m[k].len() && m[k][q] == i as usize;
            if k < s.len() {
                lemma_children_in_elems(s, k, k + 1, s.len() as int);
            } else {
                lemma_children_in_elems(s, k, 0, s.len() as int);
            }
            assert(s[i].parent == Some(k));
        }
    }
    lemma_spawn_spec_untouched(s, m, 0, es, s.len() as nat, i);
}

/// Buckets depend only on parent pointers: two trees of the same size with
/// equal parents derive equal buckets.
pub proof fn lemma_children_in_parents<T>(
    a: Seq<PrefabEntityBuilder<T>>,
    b: Seq<PrefabEntityBuilder<T>>,
    p: usize,
    lo: int,
    hi: int,
)
    requires
        a.len() == b.len(),
        0 <= lo,
        hi <= a.len(),
        forall|i: int| 0 <= i < a.len() ==> (#[trigger] a[i]).parent == b[i].parent,
    ensures
        children_in(a, p, lo, hi) == children_in(b, p, lo, hi),
    decreases hi - lo,
{
    if hi > lo {
        lemma_children_in_parents(a, b, p, lo, hi - 1);
    }
}

/// Two trees of the same size with equal parents derive the same children
/// map.
pub proof fn lemma_children_map_parents<T>(
    a: Seq<PrefabEntityBuilder<T>>,
    b: Seq<PrefabEntityBuilder<T>>,
)
    requires
        a.len() == b.len(),
        forall|i: int| 0 <= i < a.len() ==> (#[trigger] a[i]).parent == b[i].parent,
    ensures
        children_map_spec(a) == children_map_spec(b),
{
    assert forall|p: usize|
        children_map_spec(a).contains_key(p) == children_map_spec(b).contains_key(p) by {
        lemma_children_in_parents(a, b, p, 0, a.len() as int);
    }
    assert forall|p: usize|
        children_map_spec(a).contains_key(p) implies children_map_spec(a)[p]
        == children_map_spec(b)[p] by {
        lemma_children_in_parents(a, b, p, 0, a.len() as int);
        if p < a.len() {
            lemma_children_in_parents(a, b, p, p + 1, a.len() as int);
        }
    }
    assert(children_map_spec(a) =~= children_map_spec(b));
}

/// How one resolution pass rewrites a tree: size and parents kept, each
/// payload rewritten by its own resolution relation at its point in the
/// pass.
pub open spec fn prepared_rel<T: PrefabData>(
    pre: Seq<PrefabEntityBuilder<T>>,
    post: Seq<PrefabEntityBuilder<T>>,
    res: ResourcesModel,
) -> bool {
    &&& post.len() == pre.len()
    &&& forall|i: int| 0 <= i < pre.len() ==> (#[trigger] post[i]).parent == pre[i].parent
    &&& forall|i: int|
        0 <= i < pre.len() ==> (match pre[i].data {
            Some(d) => (#[trigger] post[i]).data matches Some(d2) && T::resolve_rel(
                d,
                d2,
                resolve_res_upto(pre, res, i),
            ),
            None => post[i].data is None,
        })
}

/// Command: materialize a prefab (already prepared) onto an existing live
/// entity.
pub struct SpawnPrefab<PD: PrefabData>(pub Prefab<PD>, pub usize);

impl<PD: PrefabData> SpawnPrefab<PD> {
    /// Derives the adjacency and materializes the whole tree onto the
    /// command's entity.
    pub fn apply(self, world: &mut EntityStore)
        requires
            self.0.parents_ordered(),
            self.0.rooted(),
            self.1 < old(world)@.entities.len(),
        ensures
            ({
                let o = spawn_with_root_spec(
                    self.0.entities@,
                    children_map_spec(self.0.entities@),
                    0,
                    self.1 as int,
                    old(world)@.entities,
                    self.0.entities@.len() as nat,
                );
                &&& final(world)@.entities == o.entities
                &&& final(world).resources == old(world).resources
            }),
    {
        let mut prefab = self.0;
        let processed_children = prefab.all_parents_childs();
        proof {
            assert(prefab.entities.len() == prefab.entities@.len());
            assert(map_seq_view(processed_children@) =~= children_map_spec(prefab.entities@));
            lemma_ordered_map_ok(prefab.entities@);
        }
        let r = prefab.spawn_with_root(&processed_children, &0, world, self.1);
        proof {
            assert(map_seq_view(processed_children@).contains_key(0));
        }
        r.unwrap();
    }
}

/// Command: run the resolution pass, then materialize onto an existing live
/// entity — unless any payload failed to resolve, in which case only a
/// warning is due and nothing is materialized.
pub struct PrepareAndSpawnPrefab<PD: PrefabData>(pub Prefab<PD>, pub usize);

impl<PD: PrefabData> PrepareAndSpawnPrefab<PD> {
    pub fn apply(self, world: &mut EntityStore)
        requires
            old(world).inv(),
            self.0.parents_ordered(),
            self.0.rooted(),
            self.1 < old(world)@.entities.len(),
        ensures
            ({
                let res0 = old(world)@.resources;
                let pre = self.0.entities@;
                let fails = resolve_fails_upto(pre, res0, pre.len() as int);
                &&& final(world)@.resources == resolve_res_upto(pre, res0, pre.len() as int)
                &&& final(world).resources.button_callbacks == old(
                    world,
                ).resources.button_callbacks
                &&& (fails ==> final(world)@.entities == old(world)@.entities)
                &&& (!fails ==> exists|mid: Seq<PrefabEntityBuilder<PD>>|
                    #[trigger] prepared_rel(pre, mid, res0) && final(world)@.entities
                        == spawn_with_root_spec(
                        mid,
                        children_map_spec(pre),
                        0,
                        self.1 as int,
                        old(world)@.entities,
                        pre.len() as nat,
                    ).entities)
            }),
    {
        let ghost pre = self.0.entities@;
        let mut prefab = self.0;
        let resultado = prefab.prepare_entities(world);
        if resultado {
            // Not every asset of the prefab could be loaded; warn and stop.
        } else {
            let ghost mid = prefab.entities@;
            let processed_children = prefab.all_parents_childs();
            proof {
                assert(prefab.entities.len() == prefab.entities@.len());
                assert(map_seq_view(processed_children@) =~= children_map_spec(prefab.entities@));
                lemma_children_map_parents(prefab.entities@, pre);
                lemma_ordered_map_ok(prefab.entities@);
            }
            prefab.spawn_with_root(&processed_children, &0, world, self.1);
            proof {
                assert(prepared_rel(pre, mid, old(world)@.resources));
            }
        }
    }
}

/// Command: run the resolution pass only, handing the tree back as a
/// [`LoadedPrefab`] event. Its `succefully_loaded` field carries the pass's
/// raw result: `true` when something failed to resolve.
pub struct PreparePrefab<PD: PrefabData>(pub Prefab<PD>);

impl<PD: PrefabData> PreparePrefab<PD> {
    pub fn apply(self, world: &mut EntityStore) -> (r: LoadedPrefab<PD>)
        requires
            old(world).inv(),
        ensures
            prepared_rel(self.0.entities@, r.prefab.entities@, old(world)@.resources),
            r.succefully_loaded == resolve_fails_upto(
                self.0.entities@,
                old(world)@.resources,
                self.0.entities@.len() as int,
            ),
            final(world)@.entities == old(world)@.entities,
            final(world)@.resources == resolve_res_upto(
                self.0.entities@,
                old(world)@.resources,
                self.0.entities@.len() as int,
            ),
            final(world).resources.button_callbacks == old(world).resources.button_callbacks,
    {
        let mut prefab = self.0;
        let resultado = prefab.prepare_entities(world);
        LoadedPrefab { prefab, succefully_loaded: resultado }
    }
}

/// The deserializer used to turn raw bytes into a prefab tree: produces a
/// well-formed tree or reports a deserialization failure, after which no
/// partial tree is kept.
pub trait Format<PD>: Sized {
    fn load_from_bytes(bytes: Vec<u8>) -> Result<Prefab<PD>, FormatError>;
}

/// A deserialization failure: the input bytes did not describe a prefab.
pub struct FormatError {
    pub message: String,
}

/// Helper for prefab loading; reading the serialized bytes from their file
/// lives with the surrounding program, not here.
pub struct PrefabLoader;

/// Marker attached to every entity a prefab materialization creates, for
/// downstream identification.
pub struct PrefabEntity<PD>(pub PhantomData<PD>);

/// The event handed back when a prefab asked only to be prepared has run its
/// resolution pass.
pub struct LoadedPrefab<PD> {
    pub prefab: Prefab<PD>,
    pub succefully_loaded: bool,
}

/// Law: growing a tree by `add` preserves the upward order of parent
/// pointers, as long as the parent handed to `add` is an index the tree
/// already contains. In particular every non-root node of a tree built
/// purely via such `add` calls has a parent index strictly less than its own.
pub proof fn lemma_add_keeps_parents_ordered<T>(
    pre: Prefab<T>,
    post: Prefab<T>,
    parent: Option<usize>,
    data: Option<T>,
)
    requires
        pre.parents_ordered(),
        parent matches Some(p) ==> p < pre.entities@.len(),
        post.entities@ == pre.entities@.push(PrefabEntityBuilder { parent, data }),
    ensures
        post.parents_ordered(),
{
    assert forall|i: int|
        0 <= i < post.entities@.len() implies ((#[trigger] post.entities@[i]).parent matches Some(p)
        ==> p < i) by {
        if i < pre.entities@.len() {
            assert(post.entities@[i] == pre.entities@[i]);
        }
    }
}

} // verus!
