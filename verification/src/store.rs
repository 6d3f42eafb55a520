use vstd::prelude::*;
use crate::components::{
    ButtonBundleComponent, ImageBundleComponent, Label, NodeComponent, Text, TextBundleComponent,
    TextBundleComponentModel, TextModel, UiImage, Visibility, ZIndex,
};
use crate::ui::{CallBack, CallBackModel, UiButtonCallbacks};

verus! {

/// The handle standing for an asset when a reference names no file at all.
pub const DEFAULT_HANDLE: u64 = 0;

/// The handle that the next accepted load request will return; handles are
/// handed out counting upward from 1 and saturate at the top of the range.
pub open spec fn bump_handle(h: u64) -> u64 {
    if h == u64::MAX {
        h
    } else {
        (h + 1) as u64
    }
}

/// Ghost mirror of [`AssetServer`].
pub ghost struct AssetServerModel {
    pub next_handle: u64,
    pub loads: Seq<Seq<char>>,
}

/// The store's asset-loading capability. Loading is asynchronous: a request
/// immediately yields a handle standing for the asset, while the data behind
/// it may still be loading out of band; this module never awaits it. The
/// server records each requested path in order.
pub struct AssetServer {
    pub next_handle: u64,
    pub loads: Vec<String>,
}

impl View for AssetServer {
    type V = AssetServerModel;

    open spec fn view(&self) -> AssetServerModel {
        AssetServerModel { next_handle: self.next_handle, loads: self.loads.deep_view() }
    }
}

impl AssetServer {
    pub fn new() -> (r: Self)
        ensures
            r@.next_handle == 0,
            r@.loads == Seq::<Seq<char>>::empty(),
    {
        let r = AssetServer { next_handle: 0, loads: Vec::new() };
        proof {
            assert(r@.loads =~= Seq::<Seq<char>>::empty());
        }
        r
    }

    /// Issues an asynchronous load request for `path` and returns the fresh
    /// handle standing for the asset to come.
    pub fn load(&mut self, path: &String) -> (h: u64)
        ensures
            final(self)@.loads == old(self)@.loads.push(path@),
            final(self)@.next_handle == bump_handle(old(self)@.next_handle),
            h == bump_handle(old(self)@.next_handle),
    {
        if self.next_handle < u64::MAX {
            self.next_handle = self.next_handle + 1;
        }
        self.loads.push(path.clone());
        proof {
            assert(self@.loads =~= old(self)@.loads.push(path@));
        }
        self.next_handle
    }
}

/// One live component attached to an entity: the closed set of shapes this
/// library's payloads produce.
pub enum LiveComponent {
    Node(NodeComponent),
    TextBundle(TextBundleComponent),
    Text(Text),
    Image(ImageBundleComponent),
    UiImage(UiImage),
    Button(ButtonBundleComponent),
    Callback(CallBack),
    Label(Label),
    Visibility(Visibility),
    ZIndex(ZIndex),
}

/// Ghost mirror of [`LiveComponent`].
pub ghost enum LiveComponentModel {
    Node(NodeComponent),
    TextBundle(TextBundleComponentModel),
    Text(TextModel),
    Image(ImageBundleComponent),
    UiImage(UiImage),
    Button(ButtonBundleComponent),
    Callback(CallBackModel),
    Label(Label),
    Visibility(Visibility),
    ZIndex(ZIndex),
}

impl View for LiveComponent {
    type V = LiveComponentModel;

    open spec fn view(&self) -> LiveComponentModel {
        match self {
            LiveComponent::Node(c) => LiveComponentModel::Node(*c),
            LiveComponent::TextBundle(c) => LiveComponentModel::TextBundle(c@),
            LiveComponent::Text(c) => LiveComponentModel::Text(c@),
            LiveComponent::Image(c) => LiveComponentModel::Image(*c),
            LiveComponent::UiImage(c) => LiveComponentModel::UiImage(*c),
            LiveComponent::Button(c) => LiveComponentModel::Button(*c),
            LiveComponent::Callback(c) => LiveComponentModel::Callback(c@),
            LiveComponent::Label(c) => LiveComponentModel::Label(*c),
            LiveComponent::Visibility(c) => LiveComponentModel::Visibility(*c),
            LiveComponent::ZIndex(c) => LiveComponentModel::ZIndex(*c),
        }
    }
}

impl DeepView for LiveComponent {
    type V = LiveComponentModel;

    open spec fn deep_view(&self) -> LiveComponentModel {
        self.view()
    }
}

/// One live entity: its place in the live parent/child graph and the
/// components attached to it.
pub struct LiveEntity {
    pub id: usize,
    pub parent: Option<usize>,
    pub children: Vec<usize>,
    pub components: Vec<LiveComponent>,
    pub from_prefab: bool,
}

/// Ghost mirror of [`LiveEntity`].
pub ghost struct EntityModel {
    pub id: usize,
    pub parent: Option<usize>,
    pub children: Seq<usize>,
    pub components: Seq<LiveComponentModel>,
    pub from_prefab: bool,
}

impl View for LiveEntity {
    type V = EntityModel;

    open spec fn view(&self) -> EntityModel {
        EntityModel {
            id: self.id,
            parent: self.parent,
            children: self.children@,
            components: self.components.deep_view(),
            from_prefab: self.from_prefab,
        }
    }
}

impl DeepView for LiveEntity {
    type V = EntityModel;

    open spec fn deep_view(&self) -> EntityModel {
        self.view()
    }
}

/// The capabilities a store may have registered; each is looked up by the
/// logic that needs it and may be absent.
pub struct Resources {
    pub asset_server: Option<AssetServer>,
    pub button_callbacks: Option<UiButtonCallbacks>,
}

/// Ghost mirror of [`Resources`].
pub ghost struct ResourcesModel {
    pub asset_server: Option<AssetServerModel>,
    pub button_callbacks: Option<Map<Seq<char>, u64>>,
}

impl View for Resources {
    type V = ResourcesModel;

    open spec fn view(&self) -> ResourcesModel {
        ResourcesModel {
            asset_server: match self.asset_server {
                Some(s) => Some(s@),
                None => None,
            },
            button_callbacks: match self.button_callbacks {
                Some(c) => Some(c.as_map()),
                None => None,
            },
        }
    }
}

/// Ghost mirror of [`EntityStore`].
pub ghost struct StoreModel {
    pub entities: Seq<EntityModel>,
    pub resources: ResourcesModel,
}

/// The external store that materialization fills: a growable arena of live
/// entities plus the registered capabilities. An entity's index in the arena
/// is its stable identity; it never moves, but growing the arena may
/// relocate the backing storage, which is what [`LiveHandle`] models.
pub struct EntityStore {
    pub entities: Vec<LiveEntity>,
    pub resources: Resources,
}

impl View for EntityStore {
    type V = StoreModel;

    open spec fn view(&self) -> StoreModel {
        StoreModel { entities: self.entities.deep_view(), resources: self.resources@ }
    }
}

/// A handle to a live entity: the stable identity (`id`) plus a perishable
/// record of how large the arena was when the handle last looked (its cached
/// location). Any growth of the arena stales the location; it must be
/// refreshed before the handle is used again.
pub struct LiveHandle {
    pub id: usize,
    pub seen_len: usize,
}

impl LiveHandle {
    /// The cached location is current: the arena has not grown since it was
    /// taken.
    pub open spec fn fresh(self, store: EntityStore) -> bool {
        self.seen_len == store@.entities.len()
    }

    /// Fresh and in bounds: safe to dereference.
    pub open spec fn valid(self, store: EntityStore) -> bool {
        self.fresh(store) && self.id < store@.entities.len()
    }

    pub fn id(&self) -> (r: usize)
        ensures
            r == self.id,
    {
        self.id
    }

    /// Re-derives the cached location from the stable identity. This is the
    /// step that must follow every mutation of the shared store before the
    /// handle is used again.
    pub fn update_location(&mut self, store: &EntityStore)
        ensures
            final(self).id == old(self).id,
            final(self).fresh(*store),
            old(self).id < store@.entities.len() ==> final(self).valid(*store),
    {
        self.seen_len = store.entities.len();
    }
}

impl EntityStore {
    /// The store's capabilities are internally consistent: a registered
    /// callback table holds each name at most once.
    pub open spec fn inv(self) -> bool {
        self.resources.button_callbacks matches Some(cb) ==> cb.wf()
    }

    pub fn new(resources: Resources) -> (r: Self)
        ensures
            r@.entities == Seq::<EntityModel>::empty(),
            r.resources == resources,
    {
        let r = EntityStore { entities: Vec::new(), resources };
        proof {
            assert(r@.entities =~= Seq::<EntityModel>::empty());
        }
        r
    }

    /// Creates a new, initially empty entity and returns a fresh handle to
    /// it.
    pub fn spawn_empty(&mut self) -> (h: LiveHandle)
        ensures
            final(self)@.entities == old(self)@.entities.push(
                EntityModel {
                    id: old(self)@.entities.len() as usize,
                    parent: None,
                    children: Seq::empty(),
                    components: Seq::empty(),
                    from_prefab: false,
                },
            ),
            final(self).resources == old(self).resources,
            h.id == old(self)@.entities.len(),
            h.valid(*final(self)),
    {
        let id = self.entities.len();
        self.entities.push(
            LiveEntity {
                id,
                parent: None,
                children: Vec::new(),
                components: Vec::new(),
                from_prefab: false,
            },
        );
        proof {
            assert(self.entities@[id as int]@.components =~= Seq::<LiveComponentModel>::empty());
            assert(self.entities@[id as int]@.children =~= Seq::<usize>::empty());
            assert(self@.entities =~= old(self)@.entities.push(
                EntityModel {
                    id,
                    parent: None,
                    children: Seq::empty(),
                    components: Seq::empty(),
                    from_prefab: false,
                },
            ));
        }
        LiveHandle { id, seen_len: self.entities.len() }
    }

    /// A fresh handle to the entity with identity `id`, which must exist.
    pub fn entity_location(&self, id: usize) -> (h: LiveHandle)
        requires
            id < self@.entities.len(),
        ensures
            h.id == id,
            h.valid(*self),
    {
        LiveHandle { id, seen_len: self.entities.len() }
    }

    /// Grants mutable access to the entity behind a handle whose cached
    /// location is current.
    pub fn entity_at_mut(&mut self, h: &LiveHandle) -> (e: &mut LiveEntity)
        requires
            h.valid(*old(self)),
        ensures
            *e == old(self).entities@[h.id as int],
            final(self).entities@ == old(self).entities@.update(h.id as int, *final(e)),
            final(self).resources == old(self).resources,
    {
        proof {
            assert(self.entities@.len() == self@.entities.len());
        }
        &mut self.entities[h.id]
    }

    /// Attaches a component to the entity behind a current handle.
    pub fn insert(&mut self, h: &LiveHandle, c: LiveComponent)
        requires
            h.valid(*old(self)),
        ensures
            final(self)@.entities == old(self)@.entities.update(
                h.id as int,
                EntityModel {
                    components: old(self)@.entities[h.id as int].components.push(c@),
                    ..old(self)@.entities[h.id as int]
                },
            ),
            final(self).resources == old(self).resources,
            h.valid(*final(self)),
    {
        proof {
            assert(self.entities@.len() == self@.entities.len());
        }
        let ghost pre = self@.entities;
        let e = &mut self.entities[h.id];
        e.components.push(c);
        proof {
            assert(self.entities@[h.id as int].components.deep_view() =~= pre[h.id as int]
                .components.push(c@));
            assert(self@.entities =~= pre.update(
                h.id as int,
                EntityModel {
                    components: pre[h.id as int].components.push(c@),
                    ..pre[h.id as int]
                },
            ));
        }
    }

    /// Marks the entity behind a current handle as produced by a prefab.
    pub fn set_prefab_tag(&mut self, h: &LiveHandle)
        requires
            h.valid(*old(self)),
        ensures
            final(self)@.entities == old(self)@.entities.update(
                h.id as int,
                EntityModel { from_prefab: true, ..old(self)@.entities[h.id as int] },
            ),
            final(self).resources == old(self).resources,
            h.valid(*final(self)),
    {
        proof {
            assert(self.entities@.len() == self@.entities.len());
        }
        let ghost pre = self@.entities;
        let e = &mut self.entities[h.id];
        e.from_prefab = true;
        proof {
            assert(self@.entities =~= pre.update(
                h.id as int,
                EntityModel { from_prefab: true, ..pre[h.id as int] },
            ));
        }
    }

    /// Establishes the live parent/child relation: files `child` under the
    /// entity behind the (current) parent handle, and records that entity as
    /// the child's parent.
    pub fn add_child(&mut self, h: &LiveHandle, child: usize)
        requires
            h.valid(*old(self)),
            child < old(self)@.entities.len(),
            child != h.id,
        ensures
            final(self)@.entities == old(self)@.entities.update(
                h.id as int,
                EntityModel {
                    children: old(self)@.entities[h.id as int].children.push(child),
                    ..old(self)@.entities[h.id as int]
                },
            ).update(
                child as int,
                EntityModel {
                    parent: Some(h.id),
                    ..old(self)@.entities[child as int]
                },
            ),
            final(self).resources == old(self).resources,
            h.valid(*final(self)),
    {
        proof {
            assert(self.entities@.len() == self@.entities.len());
        }
        let ghost pre = self@.entities;
        let id = h.id;
        let e = &mut self.entities[id];
        e.children.push(child);
        proof {
            assert(self@.entities =~= pre.update(
                id as int,
                EntityModel {
                    children: pre[id as int].children.push(child),
                    ..pre[id as int]
                },
            ));
        }
        let ghost mid = self@.entities;
        let c = &mut self.entities[child];
        c.parent = Some(id);
        proof {
            assert(self@.entities =~= mid.update(
                child as int,
                EntityModel { parent: Some(id), ..mid[child as int] },
            ));
        }
    }
}

} // verus!
