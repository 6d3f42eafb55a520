use vstd::prelude::*;
use crate::prefab::PrefabData;
use crate::store::{
    AssetServer, AssetServerModel, DEFAULT_HANDLE, EntityModel, EntityStore, LiveComponent,
    LiveComponentModel, LiveEntity, ResourcesModel, bump_handle,
};

verus! {

// ---------------------------------------------------------------------------
// Live component values: the shapes that payloads turn into when they are
// applied to an entity. The renderer-specific detail of the original
// component set is out of scope here; these carry exactly what the loading
// logic reads and produces.
// ---------------------------------------------------------------------------

#[derive(Clone, Copy, Debug, PartialEq, Eq, Structural)]
pub enum Visibility {
    Inherited,
    Hidden,
    Visible,
}

#[derive(Clone, Copy, Debug, PartialEq, Eq, Structural)]
pub enum ZIndex {
    Local(i32),
    Global(i32),
}

/// A marker identifying an accessibility label.
#[derive(Clone, Copy, Debug, PartialEq, Eq, Structural)]
pub struct Label;

#[derive(Clone, Copy, Debug, PartialEq, Eq, Structural)]
pub struct TextStyle {
    pub font: u64,
}

#[derive(Clone, Debug)]
pub struct TextSection {
    pub value: String,
    pub style: TextStyle,
}

/// Ghost mirror of [`TextSection`].
pub ghost struct TextSectionModel {
    pub value: Seq<char>,
    pub style: TextStyle,
}

impl View for TextSection {
    type V = TextSectionModel;

    open spec fn view(&self) -> TextSectionModel {
        TextSectionModel { value: self.value@, style: self.style }
    }
}

impl DeepView for TextSection {
    type V = TextSectionModel;

    open spec fn deep_view(&self) -> TextSectionModel {
        self.view()
    }
}

#[derive(Clone, Debug)]
pub struct Text {
    pub sections: Vec<TextSection>,
}

/// Ghost mirror of [`Text`].
pub ghost struct TextModel {
    pub sections: Seq<TextSectionModel>,
}

impl View for Text {
    type V = TextModel;

    open spec fn view(&self) -> TextModel {
        TextModel { sections: self.sections.deep_view() }
    }
}

#[derive(Clone, Copy, Debug, PartialEq, Eq, Structural)]
pub struct UiImage {
    pub texture: u64,
    pub flip_x: bool,
    pub flip_y: bool,
}

#[derive(Clone, Copy, Debug, PartialEq, Eq, Structural)]
pub struct NodeComponent {
    pub visibility: Visibility,
    pub z_index: ZIndex,
}

#[derive(Clone, Debug)]
pub struct TextBundleComponent {
    pub text: Text,
    pub visibility: Visibility,
    pub z_index: ZIndex,
}

/// Ghost mirror of [`TextBundleComponent`].
pub ghost struct TextBundleComponentModel {
    pub text: TextModel,
    pub visibility: Visibility,
    pub z_index: ZIndex,
}

impl View for TextBundleComponent {
    type V = TextBundleComponentModel;

    open spec fn view(&self) -> TextBundleComponentModel {
        TextBundleComponentModel {
            text: self.text@,
            visibility: self.visibility,
            z_index: self.z_index,
        }
    }
}

#[derive(Clone, Copy, Debug, PartialEq, Eq, Structural)]
pub struct ImageBundleComponent {
    pub image: UiImage,
    pub visibility: Visibility,
    pub z_index: ZIndex,
}

#[derive(Clone, Copy, Debug, PartialEq, Eq, Structural)]
pub struct ButtonBundleComponent {
    pub image: UiImage,
    pub visibility: Visibility,
    pub z_index: ZIndex,
}

// ---------------------------------------------------------------------------
// Prefab payload building blocks.
// ---------------------------------------------------------------------------

/// Turns a simple payload into the single component it stands for.
pub trait IntoComponent: Sized {
    type Component;

    /// The component this payload denotes.
    spec fn component_spec(self) -> Self::Component;

    fn into_component(self) -> (r: Self::Component)
        ensures
            r == self.component_spec(),
    ;
}

#[derive(Clone, Copy, Debug)]
pub enum VisibilityPrefab {
    Inherited,
    Hidden,
    Visible,
}

impl Default for VisibilityPrefab {
    fn default() -> (r: Self)
        ensures
            r is Inherited,
    {
        VisibilityPrefab::Inherited
    }
}

impl VisibilityPrefab {
    pub open spec fn visibility_spec(self) -> Visibility {
        match self {
            VisibilityPrefab::Inherited => Visibility::Inherited,
            VisibilityPrefab::Hidden => Visibility::Hidden,
            VisibilityPrefab::Visible => Visibility::Visible,
        }
    }

    pub fn into_visibility(self) -> (r: Visibility)
        ensures
            r == self.visibility_spec(),
    {
        match self {
            VisibilityPrefab::Inherited => Visibility::Inherited,
            VisibilityPrefab::Hidden => Visibility::Hidden,
            VisibilityPrefab::Visible => Visibility::Visible,
        }
    }
}

impl IntoComponent for VisibilityPrefab {
    type Component = Visibility;

    open spec fn component_spec(self) -> Visibility {
        self.visibility_spec()
    }

    fn into_component(self) -> Visibility {
        self.into_visibility()
    }
}

#[derive(Clone, Copy, Debug)]
pub enum ZIndexPrefab {
    Local(i32),
    Global(i32),
}

impl Default for ZIndexPrefab {
    fn default() -> (r: Self)
        ensures
            r == ZIndexPrefab::Local(0i32),
    {
        ZIndexPrefab::Local(0)
    }
}

impl ZIndexPrefab {
    pub open spec fn z_index_spec(self) -> ZIndex {
        match self {
            ZIndexPrefab::Local(l) => ZIndex::Local(l),
            ZIndexPrefab::Global(g) => ZIndex::Global(g),
        }
    }
}

impl IntoComponent for ZIndexPrefab {
    type Component = ZIndex;

    open spec fn component_spec(self) -> ZIndex {
        self.z_index_spec()
    }

    fn into_component(self) -> ZIndex {
        match self {
            ZIndexPrefab::Local(l) => ZIndex::Local(l),
            ZIndexPrefab::Global(g) => ZIndex::Global(g),
        }
    }
}

/// Marks an entity as a text label.
#[derive(Clone, Copy, Debug)]
pub struct LabelPrefab;

impl IntoComponent for LabelPrefab {
    type Component = Label;

    open spec fn component_spec(self) -> Label {
        Label
    }

    fn into_component(self) -> Label {
        Label
    }
}

/// A reference to an external asset: still a pending path, already resolved
/// to a live handle, or deliberately absent (standing for the default
/// handle).
#[derive(Debug, PartialEq, Eq)]
pub enum HandlePrefab {
    File(String),
    Loaded(u64),
    Empty,
}

impl HandlePrefab {
    /// What consuming the reference yields: a pending path yields nothing
    /// (the asset was never loaded), a resolved reference yields its handle,
    /// an absent one the default handle.
    pub open spec fn into_handle_spec(self) -> Option<u64> {
        match self {
            HandlePrefab::File(_) => None,
            HandlePrefab::Loaded(h) => Some(h),
            HandlePrefab::Empty => Some(DEFAULT_HANDLE),
        }
    }

    pub fn into_handle(self) -> (r: Option<u64>)
        ensures
            r == self.into_handle_spec(),
    {
        match self {
            HandlePrefab::File(_) => None,
            HandlePrefab::Loaded(h) => Some(h),
            HandlePrefab::Empty => Some(DEFAULT_HANDLE),
        }
    }

    /// Whether asking this reference to resolve reports a problem: only a
    /// reference that is already resolved does, as that signals a misuse of
    /// the one-pass protocol.
    pub open spec fn load_fails(self) -> bool {
        self is Loaded
    }

    /// The handle that resolving this reference yields, given the server's
    /// current state.
    pub open spec fn load_result(self, srv: AssetServerModel) -> Option<u64> {
        match self {
            HandlePrefab::File(_) => Some(bump_handle(srv.next_handle)),
            HandlePrefab::Loaded(_) => None,
            HandlePrefab::Empty => Some(DEFAULT_HANDLE),
        }
    }

    /// The server's state after resolving this reference: only a pending
    /// path issues a load request.
    pub open spec fn load_server(self, srv: AssetServerModel) -> AssetServerModel {
        match self {
            HandlePrefab::File(p) => AssetServerModel {
                next_handle: bump_handle(srv.next_handle),
                loads: srv.loads.push(p@),
            },
            _ => srv,
        }
    }

    /// Asks the server to resolve this reference. A pending path is handed
    /// to the server and yields the fresh handle; an absent reference yields
    /// the default handle; a reference that is already resolved yields
    /// nothing, signalling a protocol misuse.
    pub fn load_self(&self, asset_server: &mut AssetServer) -> (r: Option<u64>)
        ensures
            r == self.load_result(old(asset_server)@),
            final(asset_server)@ == self.load_server(old(asset_server)@),
    {
        match self {
            HandlePrefab::File(s) => Some(asset_server.load(s)),
            HandlePrefab::Loaded(_) => None,
            HandlePrefab::Empty => Some(DEFAULT_HANDLE),
        }
    }

    /// The resolved form: what the reference becomes after one resolution
    /// pass against a server in state `srv`.
    pub open spec fn loaded_form(self, srv: AssetServerModel) -> HandlePrefab {
        match self {
            HandlePrefab::File(_) => HandlePrefab::Loaded(bump_handle(srv.next_handle)),
            HandlePrefab::Loaded(h) => HandlePrefab::Loaded(h),
            HandlePrefab::Empty => HandlePrefab::Loaded(DEFAULT_HANDLE),
        }
    }
}

impl Clone for HandlePrefab {
    fn clone(&self) -> (r: Self)
        ensures
            r == *self,
    {
        match self {
            HandlePrefab::File(s) => HandlePrefab::File(s.clone()),
            HandlePrefab::Loaded(h) => HandlePrefab::Loaded(*h),
            HandlePrefab::Empty => HandlePrefab::Empty,
        }
    }
}

/// The style of one text section: here just which font renders it. A font
/// must come either from the section itself or from the text's default.
#[derive(Debug)]
pub struct TextStylePrefab {
    pub font: Option<HandlePrefab>,
}

impl Clone for TextStylePrefab {
    fn clone(&self) -> (r: Self)
        ensures
            r == *self,
    {
        TextStylePrefab {
            font: match &self.font {
                Some(h) => Some(h.clone()),
                None => None,
            },
        }
    }
}

impl TextStylePrefab {
    /// The live style this one denotes, falling back to `def_handle` when it
    /// carries no font of its own; absent when no font is available at all,
    /// or the chosen reference is still pending.
    pub open spec fn text_style_spec(self, def_handle: Option<HandlePrefab>) -> Option<TextStyle> {
        let handle = match self.font {
            Some(h) => h.into_handle_spec(),
            None => match def_handle {
                Some(h) => h.into_handle_spec(),
                None => None,
            },
        };
        match handle {
            Some(f) => Some(TextStyle { font: f }),
            None => None,
        }
    }

    pub fn into_text_style(self, def_handle: Option<HandlePrefab>) -> (r: Option<TextStyle>)
        ensures
            r == self.text_style_spec(def_handle),
    {
        let handle = match self.font {
            Some(h) => h.into_handle(),
            None => match def_handle {
                Some(h) => h.into_handle(),
                None => None,
            },
        };
        match handle {
            Some(font) => Some(TextStyle { font }),
            None => None,
        }
    }

    /// Resolution reports a problem exactly when the section's own font
    /// reference is already resolved (a misuse of the one-pass protocol).
    pub open spec fn load_fails(self) -> bool {
        self.font matches Some(h) && h.load_fails()
    }

    pub open spec fn load_after(self, srv: AssetServerModel) -> TextStylePrefab {
        match self.font {
            Some(h) => TextStylePrefab { font: Some(h.loaded_form(srv)) },
            None => self,
        }
    }

    pub open spec fn load_server(self, srv: AssetServerModel) -> AssetServerModel {
        match self.font {
            Some(h) => h.load_server(srv),
            None => srv,
        }
    }

    /// Resolves the section's own font reference, if it has one.
    pub fn load_self(&mut self, asset_server: &mut AssetServer) -> (r: bool)
        ensures
            *final(self) == old(self).load_after(old(asset_server)@),
            final(asset_server)@ == old(self).load_server(old(asset_server)@),
            r == old(self).load_fails(),
    {
        let res = match &self.font {
            Some(h) => h.load_self(asset_server),
            None => {
                return false;
            },
        };
        match res {
            Some(handle) => {
                self.font = Some(HandlePrefab::Loaded(handle));
                false
            },
            None => true,
        }
    }
}

/// One run of text and the style that renders it.
#[derive(Debug)]
pub struct TextSectionPrefab {
    pub text: String,
    pub style: TextStylePrefab,
}

impl Clone for TextSectionPrefab {
    fn clone(&self) -> (r: Self)
        ensures
            r == *self,
    {
        TextSectionPrefab { text: self.text.clone(), style: self.style.clone() }
    }
}

impl TextSectionPrefab {
    /// The live section this one denotes, or absence when no font is
    /// available for it.
    pub open spec fn section_spec(self, def_handle: Option<HandlePrefab>) -> Option<
        TextSectionModel,
    > {
        match self.style.text_style_spec(def_handle) {
            Some(st) => Some(TextSectionModel { value: self.text@, style: st }),
            None => None,
        }
    }

    pub fn into_section(self, def_handle: Option<HandlePrefab>) -> (r: Option<TextSection>)
        ensures
            r is Some <==> self.section_spec(def_handle) is Some,
            r matches Some(sec) ==> Some(sec@) == self.section_spec(def_handle),
    {
        match self.style.into_text_style(def_handle) {
            Some(s) => Some(TextSection { value: self.text, style: s }),
            None => None,
        }
    }
}

/// The live sections that a section list denotes: sections that can name a
/// font, in order; the others are dropped.
pub open spec fn sections_spec(
    ss: Seq<TextSectionPrefab>,
    def_handle: Option<HandlePrefab>,
) -> Seq<TextSectionModel>
    decreases ss.len(),
{
    if ss.len() == 0 {
        Seq::empty()
    } else {
        let rest = sections_spec(ss.skip(1), def_handle);
        match ss[0].section_spec(def_handle) {
            Some(m) => seq![m] + rest,
            None => rest,
        }
    }
}

/// A block of text: a list of sections and an optional default font that
/// sections without a font of their own fall back to.
#[derive(Debug)]
pub struct TextPrefab {
    pub sections: Vec<TextSectionPrefab>,
    pub default_font: Option<HandlePrefab>,
}

impl Clone for TextPrefab {
    fn clone(&self) -> (r: Self)
        ensures
            r.sections@ == self.sections@,
            r.default_font == self.default_font,
    {
        let sections = self.sections.clone();
        proof {
            assert forall|i: int| 0 <= i < self.sections@.len() implies sections@[i]
                == self.sections@[i] by {
                assert(cloned::<TextSectionPrefab>(self.sections@[i], sections@[i]));
            }
            assert(sections@ =~= self.sections@);
        }
        TextPrefab {
            sections,
            default_font: match &self.default_font {
                Some(h) => Some(h.clone()),
                None => None,
            },
        }
    }
}

impl Default for TextPrefab {
    fn default() -> (r: Self)
        ensures
            r.sections@ == Seq::<TextSectionPrefab>::empty(),
            r.default_font is None,
    {
        TextPrefab { sections: Vec::new(), default_font: None }
    }
}

impl TextPrefab {
    /// The live text this block denotes.
    pub open spec fn text_spec(self) -> TextModel {
        TextModel { sections: sections_spec(self.sections@, self.default_font) }
    }

    /// Converts the block, dropping every section for which no font is
    /// available and keeping the rest in order.
    pub fn into_text(self) -> (r: Text)
        ensures
            r@ == self.text_spec(),
    {
        let mut out: Vec<TextSection> = Vec::new();
        let n = self.sections.len();
        let mut i: usize = 0;
        proof {
            assert(self.sections@.skip(0) =~= self.sections@);
            assert(out.deep_view() + sections_spec(self.sections@, self.default_font)
                =~= sections_spec(self.sections@, self.default_font));
        }
        while i < n
            invariant
                n == self.sections@.len(),
                i <= n,
                sections_spec(self.sections@, self.default_font) == out.deep_view()
                    + sections_spec(self.sections@.skip(i as int), self.default_font),
            decreases n - i,
        {
            let ghost pre_out = out.deep_view();
            let ghost tail = self.sections@.skip(i as int);
            let def = match &self.default_font {
                Some(h) => Some(h.clone()),
                None => None,
            };
            let sec = self.sections[i].clone();
            proof {
                assert(tail[0] == self.sections@[i as int]);
                assert(tail.skip(1) =~= self.sections@.skip(i + 1));
            }
            match sec.into_section(def) {
                Some(s) => {
                    out.push(s);
                    proof {
                        assert(out.deep_view() =~= pre_out.push(s@));
                        let m = self.sections@[i as int].section_spec(self.default_font).unwrap();
                        assert(s@ == m);
                        assert(pre_out + (seq![m] + sections_spec(
                            self.sections@.skip(i + 1),
                            self.default_font,
                        )) =~= out.deep_view() + sections_spec(
                            self.sections@.skip(i + 1),
                            self.default_font,
                        ));
                    }
                },
                None => {},
            }
            i += 1;
        }
        proof {
            assert(self.sections@.skip(n as int) =~= Seq::<TextSectionPrefab>::empty());
            assert(out.deep_view() + Seq::<TextSectionModel>::empty() =~= out.deep_view());
        }
        let r = Text { sections: out };
        proof {
            assert(r@.sections == sections_spec(self.sections@, self.default_font));
        }
        r
    }

    /// Whether a resolution pass over this block reports a problem: the
    /// default font or any section's own font is already resolved.
    pub open spec fn load_fails(self) -> bool {
        (self.default_font matches Some(h) && h.load_fails()) || exists|i: int|
            0 <= i < self.sections@.len() && (#[trigger] self.sections@[i]).style.load_fails()
    }

    /// The server state after resolving the first `i` sections (the default
    /// font having been resolved first).
    pub open spec fn load_server_upto(self, srv: AssetServerModel, i: int) -> AssetServerModel
        decreases i,
    {
        if i <= 0 {
            match self.default_font {
                Some(h) => h.load_server(srv),
                None => srv,
            }
        } else {
            let prev = self.load_server_upto(srv, i - 1);
            if i - 1 < self.sections@.len() {
                self.sections@[i - 1].style.load_server(prev)
            } else {
                prev
            }
        }
    }

    /// The server state after a whole resolution pass over this block.
    pub open spec fn load_server(self, srv: AssetServerModel) -> AssetServerModel {
        self.load_server_upto(srv, self.sections@.len() as int)
    }

    /// How one resolution pass rewrites the block: the default font becomes
    /// its loaded form, and each section's style becomes its loaded form
    /// against the server state current when its turn came.
    pub open spec fn load_rel(pre: Self, post: Self, srv: AssetServerModel) -> bool {
        &&& post.default_font == (match pre.default_font {
            Some(h) => Some(h.loaded_form(srv)),
            None => None::<HandlePrefab>,
        })
        &&& post.sections@.len() == pre.sections@.len()
        &&& forall|i: int|
            0 <= i < pre.sections@.len() ==> (#[trigger] post.sections@[i]).text
                == pre.sections@[i].text && post.sections@[i].style
                == pre.sections@[i].style.load_after(pre.load_server_upto(srv, i))
    }

    /// Resolves the default font and every section's font in order, reporting
    /// whether anything went wrong anywhere.
    pub fn load(&mut self, asset_server: &mut AssetServer) -> (r: bool)
        ensures
            Self::load_rel(*old(self), *final(self), old(asset_server)@),
            final(asset_server)@ == old(self).load_server(old(asset_server)@),
            r == old(self).load_fails(),
    {
        let ghost srv0 = asset_server@;
        let ghost pre = *self;
        let mut loaded = false;
        let def_res = match &self.default_font {
            Some(h) => Some(h.load_self(asset_server)),
            None => None,
        };
        match def_res {
            Some(Some(dh)) => {
                self.default_font = Some(HandlePrefab::Loaded(dh));
            },
            Some(None) => {
                loaded = true;
            },
            None => {},
        }
        let n = self.sections.len();
        let mut i: usize = 0;
        while i < n
            invariant
                n == self.sections@.len(),
                i <= n,
                n == pre.sections@.len(),
                self.default_font == (match pre.default_font {
                    Some(h) => Some(h.loaded_form(srv0)),
                    None => None::<HandlePrefab>,
                }),
                loaded == ((pre.default_font matches Some(h) && h.load_fails()) || exists|j: int|
                    0 <= j < i && (#[trigger] pre.sections@[j]).style.load_fails()),
                asset_server@ == pre.load_server_upto(srv0, i as int),
                forall|j: int|
                    i <= j < n ==> #[trigger] self.sections@[j] == pre.sections@[j],
                forall|j: int|
                    0 <= j < i ==> (#[trigger] self.sections@[j]).text == pre.sections@[j].text
                        && self.sections@[j].style == pre.sections@[j].style.load_after(
                        pre.load_server_upto(srv0, j),
                    ),
            decreases n - i,
        {
            let ghost srv_i = asset_server@;
            let sec = &mut self.sections[i];
            let f = sec.style.load_self(asset_server);
            loaded = loaded || f;
            proof {
                assert(pre.load_server_upto(srv0, i + 1) == pre.sections@[i as int].style
                    .load_server(srv_i));
                if f {
                    assert(pre.sections@[i as int].style.load_fails());
                }
                if !f && loaded {
                    assert((pre.default_font matches Some(h) && h.load_fails()) || exists|j: int|
                        0 <= j < i + 1 && (#[trigger] pre.sections@[j]).style.load_fails());
                }
            }
            i += 1;
        }
        proof {
            if loaded {
            } else {
                assert(!pre.load_fails());
            }
        }
        loaded
    }
}

/// A reference to an image asset together with how to flip it.
#[derive(Debug)]
pub struct UiImagePrefab {
    pub texture: HandlePrefab,
    pub flip_x: bool,
    pub flip_y: bool,
}

impl Clone for UiImagePrefab {
    fn clone(&self) -> (r: Self)
        ensures
            r == *self,
    {
        UiImagePrefab { texture: self.texture.clone(), flip_x: self.flip_x, flip_y: self.flip_y }
    }
}

impl UiImagePrefab {
    /// The live image this one denotes; absence when the texture reference
    /// is still pending.
    pub open spec fn image_spec(self) -> Option<UiImage> {
        match self.texture.into_handle_spec() {
            Some(t) => Some(UiImage { texture: t, flip_x: self.flip_x, flip_y: self.flip_y }),
            None => None,
        }
    }

    pub fn into_image(self) -> (r: Option<UiImage>)
        ensures
            r == self.image_spec(),
    {
        match self.texture.into_handle() {
            Some(t) => Some(UiImage { texture: t, flip_x: self.flip_x, flip_y: self.flip_y }),
            None => None,
        }
    }

    pub open spec fn load_fails(self) -> bool {
        self.texture.load_fails()
    }

    pub open spec fn load_after(self, srv: AssetServerModel) -> UiImagePrefab {
        UiImagePrefab {
            texture: self.texture.loaded_form(srv),
            flip_x: self.flip_x,
            flip_y: self.flip_y,
        }
    }

    pub open spec fn load_server(self, srv: AssetServerModel) -> AssetServerModel {
        self.texture.load_server(srv)
    }

    /// Resolves the texture reference.
    pub fn load(&mut self, asset_server: &mut AssetServer) -> (r: bool)
        ensures
            *final(self) == old(self).load_after(old(asset_server)@),
            final(asset_server)@ == old(self).load_server(old(asset_server)@),
            r == old(self).load_fails(),
    {
        match self.texture.load_self(asset_server) {
            Some(handle) => {
                self.texture = HandlePrefab::Loaded(handle);
                false
            },
            None => true,
        }
    }
}

/// A plain container node.
#[derive(Clone, Copy, Debug)]
pub struct NodeBundlePrefab {
    pub visibility: VisibilityPrefab,
    pub z_index: ZIndexPrefab,
}

impl Default for NodeBundlePrefab {
    fn default() -> (r: Self)
        ensures
            r.visibility is Inherited,
            r.z_index == ZIndexPrefab::Local(0i32),
    {
        NodeBundlePrefab { visibility: VisibilityPrefab::Inherited, z_index: ZIndexPrefab::Local(0) }
    }
}

impl NodeBundlePrefab {
    pub open spec fn component_spec(self) -> NodeComponent {
        NodeComponent {
            visibility: self.visibility.visibility_spec(),
            z_index: self.z_index.z_index_spec(),
        }
    }
}

/// A text node: a block of text plus the common node fields.
#[derive(Debug)]
pub struct TextBundlePrefab {
    pub text: TextPrefab,
    pub visibility: VisibilityPrefab,
    pub z_index: ZIndexPrefab,
}

impl Clone for TextBundlePrefab {
    fn clone(&self) -> (r: Self)
        ensures
            r.text.sections@ == self.text.sections@,
            r.text.default_font == self.text.default_font,
            r.visibility == self.visibility,
            r.z_index == self.z_index,
    {
        TextBundlePrefab {
            text: self.text.clone(),
            visibility: self.visibility,
            z_index: self.z_index,
        }
    }
}

impl Default for TextBundlePrefab {
    fn default() -> (r: Self)
        ensures
            r.text.sections@ == Seq::<TextSectionPrefab>::empty(),
            r.text.default_font is None,
            r.visibility is Inherited,
            r.z_index == ZIndexPrefab::Local(0i32),
    {
        TextBundlePrefab {
            text: TextPrefab { sections: Vec::new(), default_font: None },
            visibility: VisibilityPrefab::Inherited,
            z_index: ZIndexPrefab::Local(0),
        }
    }
}

impl TextBundlePrefab {
    /// The live component this bundle denotes.
    pub open spec fn component_spec(self) -> TextBundleComponentModel {
        TextBundleComponentModel {
            text: self.text.text_spec(),
            visibility: self.visibility.visibility_spec(),
            z_index: self.z_index.z_index_spec(),
        }
    }
}

/// An image node: an image plus the common node fields.
#[derive(Debug)]
pub struct ImageBundlePrefab {
    pub image: UiImagePrefab,
    pub visibility: VisibilityPrefab,
    pub z_index: ZIndexPrefab,
}

impl Clone for ImageBundlePrefab {
    fn clone(&self) -> (r: Self)
        ensures
            r == *self,
    {
        ImageBundlePrefab {
            image: self.image.clone(),
            visibility: self.visibility,
            z_index: self.z_index,
        }
    }
}

/// A button node: an optional image plus the common node fields.
#[derive(Debug)]
pub struct ButtonBundlePrefab {
    pub image: Option<UiImagePrefab>,
    pub visibility: VisibilityPrefab,
    pub z_index: ZIndexPrefab,
}

impl Clone for ButtonBundlePrefab {
    fn clone(&self) -> (r: Self)
        ensures
            r == *self,
    {
        ButtonBundlePrefab {
            image: match &self.image {
                Some(i) => Some(i.clone()),
                None => None,
            },
            visibility: self.visibility,
            z_index: self.z_index,
        }
    }
}

impl Default for ButtonBundlePrefab {
    fn default() -> (r: Self)
        ensures
            r.image is None,
            r.visibility is Inherited,
            r.z_index == ZIndexPrefab::Local(0i32),
    {
        ButtonBundlePrefab {
            image: None,
            visibility: VisibilityPrefab::Inherited,
            z_index: ZIndexPrefab::Local(0),
        }
    }
}

/// The callback a button asks for: a named system still to be looked up, an
/// event to send on press, or a system already resolved to its id.
#[derive(Debug)]
pub enum CallbackPrefab {
    System(String),
    Event { name: String },
    LoadedSystem(u64),
}

impl Clone for CallbackPrefab {
    fn clone(&self) -> (r: Self)
        ensures
            r == *self,
    {
        match self {
            CallbackPrefab::System(s) => CallbackPrefab::System(s.clone()),
            CallbackPrefab::Event { name } => CallbackPrefab::Event { name: name.clone() },
            CallbackPrefab::LoadedSystem(s) => CallbackPrefab::LoadedSystem(*s),
        }
    }
}

// ---------------------------------------------------------------------------
// Payload contract implementations. The empty payload, options and tuples
// compose by delegation, with a composite's resolution result being the
// disjunction of its parts'.
// ---------------------------------------------------------------------------

impl PrefabData for () {
    open spec fn inserted(self, entity: usize) -> Seq<LiveComponentModel> {
        Seq::empty()
    }

    open spec fn resolve_rel(pre: Self, post: Self, res: ResourcesModel) -> bool {
        true
    }

    open spec fn resolve_requests(self, res: ResourcesModel) -> ResourcesModel {
        res
    }

    open spec fn resolve_fails(self, res: ResourcesModel) -> bool {
        false
    }

    fn insert_into_entity(self, entidade: &mut LiveEntity) {
        proof {
            assert(entidade@.components + Seq::<LiveComponentModel>::empty() =~= entidade@.components);
        }
    }

    fn load_sub_assets(&mut self, world: &mut EntityStore) -> (r: bool) {
        false
    }
}

impl<T: PrefabData> PrefabData for Option<T> {
    open spec fn inserted(self, entity: usize) -> Seq<LiveComponentModel> {
        match self {
            Some(d) => d.inserted(entity),
            None => Seq::empty(),
        }
    }

    open spec fn resolve_rel(pre: Self, post: Self, res: ResourcesModel) -> bool {
        match (pre, post) {
            (Some(a), Some(b)) => T::resolve_rel(a, b, res),
            (None, None) => true,
            _ => false,
        }
    }

    open spec fn resolve_requests(self, res: ResourcesModel) -> ResourcesModel {
        match self {
            Some(d) => d.resolve_requests(res),
            None => res,
        }
    }

    open spec fn resolve_fails(self, res: ResourcesModel) -> bool {
        match self {
            Some(d) => d.resolve_fails(res),
            None => false,
        }
    }

    fn insert_into_entity(self, entidade: &mut LiveEntity) {
        match self {
            Some(d) => d.insert_into_entity(entidade),
            None => {
                proof {
                    assert(entidade@.components + Seq::<LiveComponentModel>::empty()
                        =~= entidade@.components);
                }
            },
        }
    }

    fn load_sub_assets(&mut self, world: &mut EntityStore) -> (r: bool) {
        match self {
            Some(d) => d.load_sub_assets(world),
            None => false,
        }
    }
}

impl<A: PrefabData, B: PrefabData> PrefabData for (A, B) {
    open spec fn inserted(self, entity: usize) -> Seq<LiveComponentModel> {
        self.0.inserted(entity) + self.1.inserted(entity)
    }

    open spec fn resolve_rel(pre: Self, post: Self, res: ResourcesModel) -> bool {
        &&& A::resolve_rel(pre.0, post.0, res)
        &&& B::resolve_rel(pre.1, post.1, pre.0.resolve_requests(res))
    }

    open spec fn resolve_requests(self, res: ResourcesModel) -> ResourcesModel {
        self.1.resolve_requests(self.0.resolve_requests(res))
    }

    open spec fn resolve_fails(self, res: ResourcesModel) -> bool {
        self.0.resolve_fails(res) || self.1.resolve_fails(self.0.resolve_requests(res))
    }

    fn insert_into_entity(self, entidade: &mut LiveEntity)
    {
        let ghost pre = entidade@;
        let ghost id = entidade@.id;
        let (a, b) = self;
        a.insert_into_entity(entidade);
        b.insert_into_entity(entidade);
        proof {
            assert(pre.components + a.inserted(id) + b.inserted(id) =~= pre.components + (
            a.inserted(id) + b.inserted(id)));
        }
    }

    fn load_sub_assets(&mut self, world: &mut EntityStore) -> (r: bool) {
        let fa = self.0.load_sub_assets(world);
        let fb = self.1.load_sub_assets(world);
        fa || fb
    }
}

impl<A: PrefabData, B: PrefabData, C: PrefabData> PrefabData for (A, B, C) {
    open spec fn inserted(self, entity: usize) -> Seq<LiveComponentModel> {
        self.0.inserted(entity) + self.1.inserted(entity) + self.2.inserted(entity)
    }

    open spec fn resolve_rel(pre: Self, post: Self, res: ResourcesModel) -> bool {
        &&& A::resolve_rel(pre.0, post.0, res)
        &&& B::resolve_rel(pre.1, post.1, pre.0.resolve_requests(res))
        &&& C::resolve_rel(pre.2, post.2, pre.1.resolve_requests(pre.0.resolve_requests(res)))
    }

    open spec fn resolve_requests(self, res: ResourcesModel) -> ResourcesModel {
        self.2.resolve_requests(self.1.resolve_requests(self.0.resolve_requests(res)))
    }

    open spec fn resolve_fails(self, res: ResourcesModel) -> bool {
        ||| self.0.resolve_fails(res)
        ||| self.1.resolve_fails(self.0.resolve_requests(res))
        ||| self.2.resolve_fails(self.1.resolve_requests(self.0.resolve_requests(res)))
    }

    fn insert_into_entity(self, entidade: &mut LiveEntity)
    {
        let ghost pre = entidade@;
        let ghost id = entidade@.id;
        let (a, b, c) = self;
        a.insert_into_entity(entidade);
        b.insert_into_entity(entidade);
        c.insert_into_entity(entidade);
        proof {
            assert(pre.components + a.inserted(id) + b.inserted(id) + c.inserted(id) =~= pre.components
                + (a.inserted(id) + b.inserted(id) + c.inserted(id)));
        }
    }

    fn load_sub_assets(&mut self, world: &mut EntityStore) -> (r: bool) {
        let fa = self.0.load_sub_assets(world);
        let fb = self.1.load_sub_assets(world);
        let fc = self.2.load_sub_assets(world);
        fa || fb || fc
    }
}

impl PrefabData for VisibilityPrefab {
    open spec fn inserted(self, entity: usize) -> Seq<LiveComponentModel> {
        seq![LiveComponentModel::Visibility(self.visibility_spec())]
    }

    open spec fn resolve_rel(pre: Self, post: Self, res: ResourcesModel) -> bool {
        post == pre
    }

    open spec fn resolve_requests(self, res: ResourcesModel) -> ResourcesModel {
        res
    }

    open spec fn resolve_fails(self, res: ResourcesModel) -> bool {
        false
    }

    fn insert_into_entity(self, entidade: &mut LiveEntity) {
        let ghost pre = entidade@;
        entidade.components.push(LiveComponent::Visibility(self.into_component()));
        proof {
            assert(entidade@.components =~= pre.components + self.inserted(pre.id));
        }
    }

    fn load_sub_assets(&mut self, world: &mut EntityStore) -> (r: bool) {
        false
    }
}

impl PrefabData for ZIndexPrefab {
    open spec fn inserted(self, entity: usize) -> Seq<LiveComponentModel> {
        seq![LiveComponentModel::ZIndex(self.z_index_spec())]
    }

    open spec fn resolve_rel(pre: Self, post: Self, res: ResourcesModel) -> bool {
        post == pre
    }

    open spec fn resolve_requests(self, res: ResourcesModel) -> ResourcesModel {
        res
    }

    open spec fn resolve_fails(self, res: ResourcesModel) -> bool {
        false
    }

    fn insert_into_entity(self, entidade: &mut LiveEntity) {
        let ghost pre = entidade@;
        entidade.components.push(LiveComponent::ZIndex(self.into_component()));
        proof {
            assert(entidade@.components =~= pre.components + self.inserted(pre.id));
        }
    }

    fn load_sub_assets(&mut self, world: &mut EntityStore) -> (r: bool) {
        false
    }
}

impl PrefabData for LabelPrefab {
    open spec fn inserted(self, entity: usize) -> Seq<LiveComponentModel> {
        seq![LiveComponentModel::Label(Label)]
    }

    open spec fn resolve_rel(pre: Self, post: Self, res: ResourcesModel) -> bool {
        post == pre
    }

    open spec fn resolve_requests(self, res: ResourcesModel) -> ResourcesModel {
        res
    }

    open spec fn resolve_fails(self, res: ResourcesModel) -> bool {
        false
    }

    fn insert_into_entity(self, entidade: &mut LiveEntity) {
        let ghost pre = entidade@;
        entidade.components.push(LiveComponent::Label(self.into_component()));
        proof {
            assert(entidade@.components =~= pre.components + self.inserted(pre.id));
        }
    }

    fn load_sub_assets(&mut self, world: &mut EntityStore) -> (r: bool) {
        false
    }
}

impl PrefabData for NodeBundlePrefab {
    open spec fn inserted(self, entity: usize) -> Seq<LiveComponentModel> {
        seq![LiveComponentModel::Node(self.component_spec())]
    }

    open spec fn resolve_rel(pre: Self, post: Self, res: ResourcesModel) -> bool {
        post == pre
    }

    open spec fn resolve_requests(self, res: ResourcesModel) -> ResourcesModel {
        res
    }

    open spec fn resolve_fails(self, res: ResourcesModel) -> bool {
        false
    }

    fn insert_into_entity(self, entidade: &mut LiveEntity) {
        let ghost pre = entidade@;
        let node = NodeComponent {
            visibility: self.visibility.into_visibility(),
            z_index: self.z_index.into_component(),
        };
        entidade.components.push(LiveComponent::Node(node));
        proof {
            assert(entidade@.components =~= pre.components + self.inserted(pre.id));
        }
    }

    fn load_sub_assets(&mut self, world: &mut EntityStore) -> (r: bool) {
        false
    }
}

impl PrefabData for TextPrefab {
    open spec fn inserted(self, entity: usize) -> Seq<LiveComponentModel> {
        seq![LiveComponentModel::Text(self.text_spec())]
    }

    open spec fn resolve_rel(pre: Self, post: Self, res: ResourcesModel) -> bool {
        match res.asset_server {
            Some(srv) => TextPrefab::load_rel(pre, post, srv),
            None => post == pre,
        }
    }

    open spec fn resolve_requests(self, res: ResourcesModel) -> ResourcesModel {
        match res.asset_server {
            Some(srv) => ResourcesModel { asset_server: Some(self.load_server(srv)), ..res },
            None => res,
        }
    }

    open spec fn resolve_fails(self, res: ResourcesModel) -> bool {
        match res.asset_server {
            Some(_) => self.load_fails(),
            None => true,
        }
    }

    fn insert_into_entity(self, entidade: &mut LiveEntity) {
        let ghost pre = entidade@;
        let ghost me = self;
        let text = self.into_text();
        entidade.components.push(LiveComponent::Text(text));
        proof {
            assert(entidade@.components =~= pre.components + me.inserted(pre.id));
        }
    }

    fn load_sub_assets(&mut self, world: &mut EntityStore) -> (r: bool) {
        match &mut world.resources.asset_server {
            Some(srv) => self.load(srv),
            None => {
                // The store has no asset-loading capability registered.
                true
            },
        }
    }
}

impl PrefabData for UiImagePrefab {
    open spec fn inserted(self, entity: usize) -> Seq<LiveComponentModel> {
        match self.image_spec() {
            Some(i) => seq![LiveComponentModel::UiImage(i)],
            None => Seq::empty(),
        }
    }

    open spec fn resolve_rel(pre: Self, post: Self, res: ResourcesModel) -> bool {
        match res.asset_server {
            Some(srv) => post == pre.load_after(srv),
            None => post == pre,
        }
    }

    open spec fn resolve_requests(self, res: ResourcesModel) -> ResourcesModel {
        match res.asset_server {
            Some(srv) => ResourcesModel { asset_server: Some(self.load_server(srv)), ..res },
            None => res,
        }
    }

    open spec fn resolve_fails(self, res: ResourcesModel) -> bool {
        match res.asset_server {
            Some(_) => self.load_fails(),
            None => true,
        }
    }

    fn insert_into_entity(self, entidade: &mut LiveEntity) {
        let ghost pre = entidade@;
        let ghost me = self;
        match self.into_image() {
            Some(image) => {
                entidade.components.push(LiveComponent::UiImage(image));
                proof {
                    assert(entidade@.components =~= pre.components + me.inserted(pre.id));
                }
            },
            None => {
                proof {
                    assert(pre.components + me.inserted(pre.id) =~= pre.components);
                }
            },
        }
    }

    fn load_sub_assets(&mut self, world: &mut EntityStore) -> (r: bool) {
        match &mut world.resources.asset_server {
            Some(srv) => self.load(srv),
            None => {
                // The store has no asset-loading capability registered.
                true
            },
        }
    }
}

impl PrefabData for TextBundlePrefab {
    open spec fn inserted(self, entity: usize) -> Seq<LiveComponentModel> {
        seq![LiveComponentModel::TextBundle(self.component_spec())]
    }

    open spec fn resolve_rel(pre: Self, post: Self, res: ResourcesModel) -> bool {
        &&& post.visibility == pre.visibility
        &&& post.z_index == pre.z_index
        &&& (match res.asset_server {
            Some(srv) => TextPrefab::load_rel(pre.text, post.text, srv),
            None => post.text == pre.text,
        })
    }

    open spec fn resolve_requests(self, res: ResourcesModel) -> ResourcesModel {
        self.text.resolve_requests(res)
    }

    open spec fn resolve_fails(self, res: ResourcesModel) -> bool {
        self.text.resolve_fails(res)
    }

    fn insert_into_entity(self, entidade: &mut LiveEntity) {
        let ghost pre = entidade@;
        let ghost me = self;
        let bundle = TextBundleComponent {
            text: self.text.into_text(),
            visibility: self.visibility.into_visibility(),
            z_index: self.z_index.into_component(),
        };
        entidade.components.push(LiveComponent::TextBundle(bundle));
        proof {
            assert(entidade@.components =~= pre.components + me.inserted(pre.id));
        }
    }

    fn load_sub_assets(&mut self, world: &mut EntityStore) -> (r: bool) {
        match &mut world.resources.asset_server {
            Some(srv) => self.text.load(srv),
            None => {
                // The store has no asset-loading capability registered.
                true
            },
        }
    }
}

impl PrefabData for ImageBundlePrefab {
    open spec fn inserted(self, entity: usize) -> Seq<LiveComponentModel> {
        match self.image.image_spec() {
            Some(i) => seq![
                LiveComponentModel::Image(
                    ImageBundleComponent {
                        image: i,
                        visibility: self.visibility.visibility_spec(),
                        z_index: self.z_index.z_index_spec(),
                    },
                ),
            ],
            None => Seq::empty(),
        }
    }

    open spec fn resolve_rel(pre: Self, post: Self, res: ResourcesModel) -> bool {
        &&& post.visibility == pre.visibility
        &&& post.z_index == pre.z_index
        &&& (match res.asset_server {
            Some(srv) => post.image == pre.image.load_after(srv),
            None => post.image == pre.image,
        })
    }

    open spec fn resolve_requests(self, res: ResourcesModel) -> ResourcesModel {
        self.image.resolve_requests(res)
    }

    open spec fn resolve_fails(self, res: ResourcesModel) -> bool {
        self.image.resolve_fails(res)
    }

    fn insert_into_entity(self, entidade: &mut LiveEntity) {
        let ghost pre = entidade@;
        let ghost me = self;
        match self.image.into_image() {
            Some(image) => {
                let bundle = ImageBundleComponent {
                    image,
                    visibility: self.visibility.into_visibility(),
                    z_index: self.z_index.into_component(),
                };
                entidade.components.push(LiveComponent::Image(bundle));
                proof {
                    assert(entidade@.components =~= pre.components + me.inserted(pre.id));
                }
            },
            None => {
                // An image node whose texture was never resolved attaches
                // nothing.
                proof {
                    assert(pre.components + me.inserted(pre.id) =~= pre.components);
                }
            },
        }
    }

    fn load_sub_assets(&mut self, world: &mut EntityStore) -> (r: bool) {
        match &mut world.resources.asset_server {
            Some(srv) => self.image.load(srv),
            None => {
                // The store has no asset-loading capability registered.
                true
            },
        }
    }
}

impl ButtonBundlePrefab {
    /// The image a materialized button shows: its own when it has one and
    /// that one resolved, the default image otherwise.
    pub open spec fn button_image_spec(self) -> UiImage {
        match self.image {
            Some(img) => match img.image_spec() {
                Some(i) => i,
                None => UiImage { texture: DEFAULT_HANDLE, flip_x: false, flip_y: false },
            },
            None => UiImage { texture: DEFAULT_HANDLE, flip_x: false, flip_y: false },
        }
    }
}

impl PrefabData for ButtonBundlePrefab {
    open spec fn inserted(self, entity: usize) -> Seq<LiveComponentModel> {
        seq![
            LiveComponentModel::Button(
                ButtonBundleComponent {
                    image: self.button_image_spec(),
                    visibility: self.visibility.visibility_spec(),
                    z_index: self.z_index.z_index_spec(),
                },
            ),
        ]
    }

    open spec fn resolve_rel(pre: Self, post: Self, res: ResourcesModel) -> bool {
        &&& post.visibility == pre.visibility
        &&& post.z_index == pre.z_index
        &&& (match (pre.image, post.image) {
            (Some(a), Some(b)) => match res.asset_server {
                Some(srv) => b == a.load_after(srv),
                None => b == a,
            },
            (None, None) => true,
            _ => false,
        })
    }

    open spec fn resolve_requests(self, res: ResourcesModel) -> ResourcesModel {
        match self.image {
            Some(img) => img.resolve_requests(res),
            None => res,
        }
    }

    open spec fn resolve_fails(self, res: ResourcesModel) -> bool {
        match self.image {
            Some(img) => img.resolve_fails(res),
            None => false,
        }
    }

    fn insert_into_entity(self, entidade: &mut LiveEntity) {
        let ghost pre = entidade@;
        let ghost me = self;
        let ui_image = match self.image {
            Some(image) => match image.into_image() {
                Some(i) => i,
                None => {
                    // The button's image was never resolved; fall back to the
                    // default image.
                    UiImage { texture: DEFAULT_HANDLE, flip_x: false, flip_y: false }
                },
            },
            None => UiImage { texture: DEFAULT_HANDLE, flip_x: false, flip_y: false },
        };
        let bundle = ButtonBundleComponent {
            image: ui_image,
            visibility: self.visibility.into_visibility(),
            z_index: self.z_index.into_component(),
        };
        entidade.components.push(LiveComponent::Button(bundle));
        proof {
            assert(entidade@.components =~= pre.components + me.inserted(pre.id));
        }
    }

    fn load_sub_assets(&mut self, world: &mut EntityStore) -> (r: bool) {
        match &mut self.image {
            Some(img) => {
                match &mut world.resources.asset_server {
                    Some(srv) => img.load(srv),
                    None => {
                        // The store has no asset-loading capability registered.
                        true
                    },
                }
            },
            None => {
                // Nothing to load.
                false
            },
        }
    }
}

impl CallbackPrefab {
    /// What one resolution pass finds for this callback: the id registered
    /// under its name, when it still names a system and a registry holding
    /// that name is present.
    pub open spec fn lookup_spec(self, res: ResourcesModel) -> Option<u64> {
        match self {
            CallbackPrefab::System(name) => match res.button_callbacks {
                Some(cb) => if cb.contains_key(name@) {
                    Some(cb[name@])
                } else {
                    None
                },
                None => None,
            },
            _ => None,
        }
    }
}

impl PrefabData for CallbackPrefab {
    open spec fn inserted(self, entity: usize) -> Seq<LiveComponentModel> {
        match self {
            CallbackPrefab::LoadedSystem(s) => seq![
                LiveComponentModel::Callback(crate::ui::CallBackModel::RegisteredSystem(s)),
            ],
            CallbackPrefab::Event { name } => seq![
                LiveComponentModel::Callback(
                    crate::ui::CallBackModel::EventSender(
                        crate::ui::PressedButtonEventModel { button_name: name@, entity },
                    ),
                ),
            ],
            CallbackPrefab::System(_) => Seq::empty(),
        }
    }

    open spec fn resolve_rel(pre: Self, post: Self, res: ResourcesModel) -> bool {
        match pre.lookup_spec(res) {
            Some(s) => post == CallbackPrefab::LoadedSystem(s),
            None => post == pre,
        }
    }

    open spec fn resolve_requests(self, res: ResourcesModel) -> ResourcesModel {
        res
    }

    open spec fn resolve_fails(self, res: ResourcesModel) -> bool {
        match self {
            CallbackPrefab::System(_) => self.lookup_spec(res) is None,
            CallbackPrefab::Event { .. } => false,
            // A callback that is already resolved reports failure when asked
            // to resolve again: resolution is one-shot, and asking twice is a
            // misuse of the protocol.
            CallbackPrefab::LoadedSystem(_) => true,
        }
    }

    fn insert_into_entity(self, entidade: &mut LiveEntity) {
        let ghost pre = entidade@;
        let ghost me = self;
        let id = entidade.id;
        match self {
            CallbackPrefab::LoadedSystem(s) => {
                entidade.components.push(
                    LiveComponent::Callback(crate::ui::CallBack::RegisteredSystem(s)),
                );
                proof {
                    assert(entidade@.components =~= pre.components + me.inserted(pre.id));
                }
            },
            CallbackPrefab::Event { name } => {
                entidade.components.push(
                    LiveComponent::Callback(
                        crate::ui::CallBack::EventSender(crate::ui::PressedButtonEvent::new(name, id)),
                    ),
                );
                proof {
                    assert(entidade@.components =~= pre.components + me.inserted(pre.id));
                }
            },
            CallbackPrefab::System(_) => {
                // An unresolved callback cannot be attached; warn and skip.
                proof {
                    assert(pre.components + me.inserted(pre.id) =~= pre.components);
                }
            },
        }
    }

    fn load_sub_assets(&mut self, world: &mut EntityStore) -> (r: bool) {
        let found = match &*self {
            CallbackPrefab::System(name) => Some(
                match &world.resources.button_callbacks {
                    Some(callbacks) => callbacks.get_system(name),
                    None => {
                        // The callback registry resource is not registered.
                        None
                    },
                },
            ),
            _ => None,
        };
        match found {
            Some(Some(system)) => {
                *self = CallbackPrefab::LoadedSystem(system);
                false
            },
            Some(None) => true,
            None => {
                match &*self {
                    // Already resolved: a second resolution attempt is a
                    // protocol misuse; warn and report failure.
                    CallbackPrefab::LoadedSystem(_) => true,
                    // An event sender has nothing to resolve.
                    _ => false,
                }
            },
        }
    }
}

/// The node fields common to the concrete widget kinds, applied field by
/// field as the payload contract composes them.
#[derive(Clone, Copy, Debug)]
pub struct Common {
    pub visibility: VisibilityPrefab,
    pub z_index: ZIndexPrefab,
}

impl PrefabData for Common {
    open spec fn inserted(self, entity: usize) -> Seq<LiveComponentModel> {
        self.visibility.inserted(entity) + self.z_index.inserted(entity)
    }

    open spec fn resolve_rel(pre: Self, post: Self, res: ResourcesModel) -> bool {
        post == pre
    }

    open spec fn resolve_requests(self, res: ResourcesModel) -> ResourcesModel {
        res
    }

    open spec fn resolve_fails(self, res: ResourcesModel) -> bool {
        false
    }

    fn insert_into_entity(self, entidade: &mut LiveEntity) {
        let ghost pre = entidade@;
        let ghost id = entidade@.id;
        self.visibility.insert_into_entity(entidade);
        self.z_index.insert_into_entity(entidade);
        proof {
            assert(pre.components + self.visibility.inserted(id) + self.z_index.inserted(id)
                =~= pre.components + (self.visibility.inserted(id) + self.z_index.inserted(id)));
        }
    }

    fn load_sub_assets(&mut self, world: &mut EntityStore) -> (r: bool) {
        false
    }
}

/// A grab-bag payload of the optional text and image parts, composed by
/// delegation.
#[derive(Debug)]
pub struct General {
    pub text_data: Option<TextPrefab>,
    pub image_data: Option<UiImagePrefab>,
}

impl PrefabData for General {
    open spec fn inserted(self, entity: usize) -> Seq<LiveComponentModel> {
        self.text_data.inserted(entity) + self.image_data.inserted(entity)
    }

    open spec fn resolve_rel(pre: Self, post: Self, res: ResourcesModel) -> bool {
        &&& <Option<TextPrefab> as PrefabData>::resolve_rel(pre.text_data, post.text_data, res)
        &&& <Option<UiImagePrefab> as PrefabData>::resolve_rel(
            pre.image_data,
            post.image_data,
            pre.text_data.resolve_requests(res),
        )
    }

    open spec fn resolve_requests(self, res: ResourcesModel) -> ResourcesModel {
        self.image_data.resolve_requests(self.text_data.resolve_requests(res))
    }

    open spec fn resolve_fails(self, res: ResourcesModel) -> bool {
        self.text_data.resolve_fails(res) || self.image_data.resolve_fails(
            self.text_data.resolve_requests(res),
        )
    }

    fn insert_into_entity(self, entidade: &mut LiveEntity) {
        let ghost pre = entidade@;
        let ghost id = entidade@.id;
        let General { text_data, image_data } = self;
        text_data.insert_into_entity(entidade);
        image_data.insert_into_entity(entidade);
        proof {
            assert(pre.components + text_data.inserted(id) + image_data.inserted(id)
                =~= pre.components + (text_data.inserted(id) + image_data.inserted(id)));
        }
    }

    fn load_sub_assets(&mut self, world: &mut EntityStore) -> (r: bool) {
        let ft = self.text_data.load_sub_assets(world);
        let fi = self.image_data.load_sub_assets(world);
        ft || fi
    }
}

} // verus!
