use vstd::prelude::*;
use crate::components::{
    ButtonBundlePrefab, CallbackPrefab, ImageBundlePrefab, NodeBundlePrefab, TextBundlePrefab,
};
use crate::prefab::{Prefab, PrefabData, PrefabEntityBuilder};
use crate::store::{EntityStore, LiveComponentModel, LiveEntity, ResourcesModel};

verus! {

/// An event recording that a prefab-created button was pressed.
pub struct PressedButtonEvent {
    pub button_name: String,
    pub entity: usize,
}

/// Ghost mirror of [`PressedButtonEvent`].
pub ghost struct PressedButtonEventModel {
    pub button_name: Seq<char>,
    pub entity: usize,
}

impl View for PressedButtonEvent {
    type V = PressedButtonEventModel;

    open spec fn view(&self) -> PressedButtonEventModel {
        PressedButtonEventModel { button_name: self.button_name@, entity: self.entity }
    }
}

impl PressedButtonEvent {
    pub fn new(name: String, entity: usize) -> (r: Self)
        ensures
            r.button_name == name,
            r.entity == entity,
    {
        Self { button_name: name, entity }
    }

    /// Compares the button's name with the given name.
    pub fn is_name(&self, name: String) -> (r: bool)
        ensures
            r == (self.button_name@ == name@),
    {
        self.button_name == name
    }

    /// Compares the button's entity with the given entity.
    pub fn is_entity(&self, entity: usize) -> (r: bool)
        ensures
            r == (self.entity == entity),
    {
        self.entity == entity
    }
}

/// A live callback component attached to a spawned button: either a system
/// registered under a name and resolved to its id, or an event sender that
/// the consumer handles itself.
pub enum CallBack {
    RegisteredSystem(u64),
    EventSender(PressedButtonEvent),
}

/// Ghost mirror of [`CallBack`].
pub ghost enum CallBackModel {
    RegisteredSystem(u64),
    EventSender(PressedButtonEventModel),
}

impl View for CallBack {
    type V = CallBackModel;

    open spec fn view(&self) -> CallBackModel {
        match self {
            CallBack::RegisteredSystem(s) => CallBackModel::RegisteredSystem(*s),
            CallBack::EventSender(e) => CallBackModel::EventSender(e@),
        }
    }
}

/// No two entries share a name.
pub open spec fn distinct_names(s: Seq<(String, u64)>) -> bool {
    forall|i: int, j: int|
        0 <= i < j < s.len() ==> (#[trigger] s[i]).0@ != (#[trigger] s[j]).0@
}

/// The name-to-system-id table that a callback list denotes; a later entry
/// for the same name wins.
pub open spec fn callbacks_map(s: Seq<(String, u64)>) -> Map<Seq<char>, u64>
    decreases s.len(),
{
    if s.len() == 0 {
        Map::empty()
    } else {
        callbacks_map(s.drop_last()).insert(s.last().0@, s.last().1)
    }
}

pub proof fn lemma_callbacks_map_contains(s: Seq<(String, u64)>, k: Seq<char>)
    ensures
        callbacks_map(s).contains_key(k) <==> exists|i: int|
            0 <= i < s.len() && (#[trigger] s[i]).0@ == k,
    decreases s.len(),
{
    if s.len() > 0 {
        let d = s.drop_last();
        lemma_callbacks_map_contains(d, k);
        if s.last().0@ == k {
            assert((s[s.len() - 1]).0@ == k);
        } else {
            if callbacks_map(s).contains_key(k) {
                let i = choose|i: int| 0 <= i < d.len() && (#[trigger] d[i]).0@ == k;
                assert((s[i]).0@ == k);
            }
            if exists|i: int| 0 <= i < s.len() && (#[trigger] s[i]).0@ == k {
                let i = choose|i: int| 0 <= i < s.len() && (#[trigger] s[i]).0@ == k;
                assert(i < s.len() - 1);
                assert((d[i]).0@ == k);
            }
        }
    }
}

pub proof fn lemma_callbacks_map_value(s: Seq<(String, u64)>, i: int)
    requires
        distinct_names(s),
        0 <= i < s.len(),
    ensures
        callbacks_map(s).contains_key(s[i].0@),
        callbacks_map(s)[s[i].0@] == s[i].1,
    decreases s.len(),
{
    let d = s.drop_last();
    if i == s.len() - 1 {
    } else {
        lemma_callbacks_map_value(d, i);
        assert(s[i].0@ != s.last().0@);
    }
}

pub proof fn lemma_callbacks_map_remove(s: Seq<(String, u64)>, i: int)
    requires
        distinct_names(s),
        0 <= i < s.len(),
    ensures
        callbacks_map(s.remove(i)) =~= callbacks_map(s).remove(s[i].0@),
    decreases s.len(),
{
    let d = s.drop_last();
    let k = s[i].0@;
    if i == s.len() - 1 {
        assert(s.remove(i) =~= d);
        lemma_callbacks_map_contains(d, k);
        assert(!callbacks_map(d).contains_key(k));
        assert(callbacks_map(d) =~= callbacks_map(d).insert(k, s[i].1).remove(k));
    } else {
        lemma_callbacks_map_remove(d, i);
        assert(s.remove(i).drop_last() =~= d.remove(i));
        assert(s.remove(i).last() == s.last());
        assert(callbacks_map(s.remove(i)) == callbacks_map(d.remove(i)).insert(
            s.last().0@,
            s.last().1,
        ));
        assert(s[i].0@ != s.last().0@);
        assert(callbacks_map(d).remove(k).insert(s.last().0@, s.last().1) =~= callbacks_map(
            d,
        ).insert(s.last().0@, s.last().1).remove(k));
    }
}

/// Registry of named button callbacks: a table from callback name to the id
/// of the registered system to run.
pub struct UiButtonCallbacks {
    pub callbacks: Vec<(String, u64)>,
}

impl UiButtonCallbacks {
    /// The registry as a map from callback name to system id.
    pub open spec fn as_map(self) -> Map<Seq<char>, u64> {
        callbacks_map(self.callbacks@)
    }

    /// Each name registered at most once.
    pub open spec fn wf(self) -> bool {
        distinct_names(self.callbacks@)
    }

    pub fn new() -> (r: Self)
        ensures
            r.wf(),
            r.as_map() == Map::<Seq<char>, u64>::empty(),
    {
        Self { callbacks: Vec::new() }
    }

    /// Builds the registry from an existing name-to-id table, given as a list
    /// of pairs with pairwise distinct names.
    pub fn new_with_hash(callbacks: Vec<(String, u64)>) -> (r: Self)
        requires
            distinct_names(callbacks@),
        ensures
            r.wf(),
            r.as_map() == callbacks_map(callbacks@),
    {
        Self { callbacks }
    }

    /// Registers `callback` under `name`, returning the id that `name` was
    /// previously bound to, if any.
    pub fn push_callback(&mut self, name: String, callback: u64) -> (r: Option<u64>)
        requires
            old(self).wf(),
        ensures
            final(self).wf(),
            final(self).as_map() =~= old(self).as_map().insert(name@, callback),
            match r {
                Some(v) => old(self).as_map().contains_key(name@) && old(self).as_map()[name@]
                    == v,
                None => !old(self).as_map().contains_key(name@),
            },
    {
        let prev = self.remove_callback(name.clone());
        let ghost mid = self.callbacks@;
        self.callbacks.push((name, callback));
        proof {
            assert(self.callbacks@.drop_last() =~= mid);
            assert(self.callbacks@.last() == (name, callback));
            assert(forall|i: int, j: int|
                0 <= i < j < self.callbacks@.len() ==> (#[trigger] self.callbacks@[i]).0@
                    != (#[trigger] self.callbacks@[j]).0@);
        }
        prev
    }

    /// Unregisters `name`, returning the id it was bound to, if any.
    pub fn remove_callback(&mut self, name: String) -> (r: Option<u64>)
        requires
            old(self).wf(),
        ensures
            final(self).wf(),
            final(self).as_map() =~= old(self).as_map().remove(name@),
            forall|j: int|
                0 <= j < final(self).callbacks@.len() ==> (#[trigger] final(self).callbacks@[j]).0@
                    != name@,
            match r {
                Some(v) => old(self).as_map().contains_key(name@) && old(self).as_map()[name@]
                    == v,
                None => !old(self).as_map().contains_key(name@),
            },
    {
        let ghost s = self.callbacks@;
        let n = self.callbacks.len();
        let mut i: usize = 0;
        while i < n
            invariant
                n == self.callbacks@.len(),
                i <= n,
                self.wf(),
                s == self.callbacks@,
                s == old(self).callbacks@,
                forall|j: int| 0 <= j < i ==> (#[trigger] self.callbacks@[j]).0@ != name@,
            decreases n - i,
        {
            if self.callbacks[i].0 == name {
                proof {
                    lemma_callbacks_map_value(s, i as int);
                    lemma_callbacks_map_remove(s, i as int);
                }
                let pair = self.callbacks.remove(i);
                proof {
                    assert(self.callbacks@ =~= s.remove(i as int));
                    assert forall|p: int, q: int|
                        0 <= p < q < self.callbacks@.len() implies (#[trigger] self.callbacks@[p]).0@
                        != (#[trigger] self.callbacks@[q]).0@ by {
                        assert(self.callbacks@[p] == if p < i as int {
                            s[p]
                        } else {
                            s[p + 1]
                        });
                        assert(self.callbacks@[q] == if q < i as int {
                            s[q]
                        } else {
                            s[q + 1]
                        });
                    }
                    assert forall|j: int| 0 <= j < self.callbacks@.len() implies (#[trigger] self
                        .callbacks@[j]).0@ != name@ by {
                        assert(self.callbacks@[j] == if j < i as int {
                            s[j]
                        } else {
                            s[j + 1]
                        });
                    }
                }
                return Some(pair.1);
            }
            i += 1;
        }
        proof {
            lemma_callbacks_map_contains(s, name@);
            assert(!self.as_map().contains_key(name@));
            assert(self.as_map() =~= self.as_map().remove(name@));
        }
        None
    }

    /// Looks up the system registered under `name`.
    pub fn get_system(&self, name: &String) -> (r: Option<u64>)
        requires
            self.wf(),
        ensures
            match r {
                Some(v) => self.as_map().contains_key(name@) && self.as_map()[name@] == v,
                None => !self.as_map().contains_key(name@),
            },
    {
        let n = self.callbacks.len();
        let mut i: usize = 0;
        while i < n
            invariant
                n == self.callbacks@.len(),
                i <= n,
                self.wf(),
                forall|j: int| 0 <= j < i ==> (#[trigger] self.callbacks@[j]).0@ != name@,
            decreases n - i,
        {
            if self.callbacks[i].0 == *name {
                proof {
                    lemma_callbacks_map_value(self.callbacks@, i as int);
                }
                return Some(self.callbacks[i].1);
            }
            i += 1;
        }
        proof {
            lemma_callbacks_map_contains(self.callbacks@, name@);
        }
        None
    }
}

/// Lists of native text widgets weigh one per entry and are trivially
/// expandable.
pub proof fn lemma_text_seq_weight<C, CD>(
    s: Seq<Ui<C, CD>>,
    fuel: spec_fn(C) -> nat,
    ok: spec_fn(C) -> bool,
)
    requires
        forall|i: int| 0 <= i < s.len() ==> (#[trigger] s[i]) matches Ui::Text { .. },
    ensures
        ui_seq_weight(s, fuel) == s.len(),
        ui_seq_customs_ok(s, ok),
    decreases s.len(),
{
    if s.len() > 0 {
        let rest = s.subrange(1, s.len() as int);
        assert(forall|i: int|
            0 <= i < rest.len() ==> (#[trigger] rest[i]) matches Ui::Text { .. });
        lemma_text_seq_weight(rest, fuel, ok);
        assert(ui_weight(s[0], fuel) == 1);
        assert(s[0] matches Ui::Text { .. });
        assert(ui_customs_ok(s[0], ok));
    }
}

/// A built-in custom widget: repeats a text template a declared number of
/// times as the children of a fresh container. Copy `k` of the template,
/// counting from 0, carries the declared starting offset plus `k` appended
/// (after a space) to each of its sections' texts: with base text "Item" and
/// offset 0 the copies read "Item 0", "Item 1", "Item 2", and so on.
pub struct RepeatWidget {
    pub template: TextBundlePrefab,
    pub count: usize,
    pub start: usize,
}

/// `child` is a text widget equal to `template` except that every section's
/// text carries the suffix for repetition index `k`.
pub open spec fn suffixed_copy(
    template: TextBundlePrefab,
    child: Ui<RepeatWidget, ()>,
    k: nat,
) -> bool {
    child matches Ui::Text { text_data, custom_data } && custom_data is None
        && text_data.visibility == template.visibility && text_data.z_index == template.z_index
        && text_data.text.default_font == template.text.default_font
        && text_data.text.sections@.len() == template.text.sections@.len() && (forall|i: int|
        0 <= i < template.text.sections@.len() ==> (#[trigger] text_data.text.sections@[i]).style
            == template.text.sections@[i].style && text_data.text.sections@[i].text@
            == template.text.sections@[i].text@ + index_suffix_spec(k))
}

impl CustomWidget for RepeatWidget {
    type CustomData = ();

    open spec fn fuel(&self) -> nat {
        (self.count + 1) as nat
    }

    open spec fn can_expand(&self) -> bool {
        self.start + self.count <= usize::MAX
    }

    open spec fn expands_to(&self, r: Ui<Self, ()>) -> bool {
        r matches Ui::Container { node, children, custom_data } && custom_data is None && node
            == (NodeBundlePrefab {
            visibility: crate::components::VisibilityPrefab::Inherited,
            z_index: crate::components::ZIndexPrefab::Local(0),
        }) && children@.len() == self.count && (forall|k: int|
            0 <= k < self.count ==> suffixed_copy(
                self.template,
                #[trigger] children@[k],
                (self.start + k) as nat,
            ))
    }

    #[verifier::loop_isolation(false)]
    fn into_native(&self) -> (r: Ui<Self, ()>) {
        let mut children: Vec<Ui<RepeatWidget, ()>> = Vec::new();
        let mut k: usize = 0;
        while k < self.count
            invariant
                k <= self.count,
                children@.len() == k,
                forall|i: int|
                    0 <= i < k ==> suffixed_copy(
                        self.template,
                        #[trigger] children@[i],
                        (self.start + i) as nat,
                    ),
                forall|i: int| 0 <= i < k ==> (#[trigger] children@[i]) matches Ui::Text { .. },
            decreases self.count - k,
        {
            let mut text_bundle = self.template.clone();
            let suffix = index_suffix(self.start + k);
            let n = text_bundle.text.sections.len();
            let mut i: usize = 0;
            while i < n
                invariant
                    i <= n,
                    n == text_bundle.text.sections@.len(),
                    n == self.template.text.sections@.len(),
                    text_bundle.visibility == self.template.visibility,
                    text_bundle.z_index == self.template.z_index,
                    text_bundle.text.default_font == self.template.text.default_font,
                    suffix@ == index_suffix_spec((self.start + k) as nat),
                    forall|j: int|
                        0 <= j < i ==> (#[trigger] text_bundle.text.sections@[j]).style
                            == self.template.text.sections@[j].style
                            && text_bundle.text.sections@[j].text@
                            == self.template.text.sections@[j].text@ + index_suffix_spec(
                            (self.start + k) as nat,
                        ),
                    forall|j: int|
                        i <= j < n ==> #[trigger] text_bundle.text.sections@[j]
                            == self.template.text.sections@[j],
                decreases n - i,
            {
                let sec = &mut text_bundle.text.sections[i];
                sec.text.append(suffix.as_str());
                i += 1;
            }
            children.push(Ui::Text { text_data: text_bundle, custom_data: None });
            k += 1;
        }
        let ghost cseq = children@;
        let r = Ui::Container {
            node: NodeBundlePrefab::default(),
            children,
            custom_data: None,
        };
        proof {
            lemma_text_seq_weight(
                cseq,
                |c: RepeatWidget| c.fuel(),
                |c: RepeatWidget| c.can_expand(),
            );
        }
        r
    }
}

/// The character for one decimal digit.
pub open spec fn digit_char(d: nat) -> char {
    if d == 0 {
        '0'
    } else if d == 1 {
        '1'
    } else if d == 2 {
        '2'
    } else if d == 3 {
        '3'
    } else if d == 4 {
        '4'
    } else if d == 5 {
        '5'
    } else if d == 6 {
        '6'
    } else if d == 7 {
        '7'
    } else if d == 8 {
        '8'
    } else {
        '9'
    }
}

/// The decimal digits of `n`, most significant first.
pub open spec fn dec_spec(n: nat) -> Seq<char>
    decreases n,
{
    if n < 10 {
        seq![digit_char(n)]
    } else {
        dec_spec(n / 10) + seq![digit_char(n % 10)]
    }
}

fn digit_str(d: usize) -> (r: &'static str)
    requires
        d < 10,
    ensures
        r@ == seq![digit_char(d as nat)],
{
    proof {
        reveal_strlit("0");
        reveal_strlit("1");
        reveal_strlit("2");
        reveal_strlit("3");
        reveal_strlit("4");
        reveal_strlit("5");
        reveal_strlit("6");
        reveal_strlit("7");
        reveal_strlit("8");
        reveal_strlit("9");
    }
    let r = match d {
        0 => "0",
        1 => "1",
        2 => "2",
        3 => "3",
        4 => "4",
        5 => "5",
        6 => "6",
        7 => "7",
        8 => "8",
        _ => "9",
    };
    proof {
        assert(r@ =~= seq![digit_char(d as nat)]);
    }
    r
}

/// Renders `n` in decimal.
pub fn usize_to_decimal(n: usize) -> (r: String)
    ensures
        r@ == dec_spec(n as nat),
    decreases n,
{
    if n < 10 {
        let mut s = String::new();
        s.append(digit_str(n));
        proof {
            assert(s@ =~= dec_spec(n as nat));
        }
        s
    } else {
        let mut s = usize_to_decimal(n / 10);
        s.append(digit_str(n % 10));
        proof {
            assert(s@ =~= dec_spec(n as nat));
        }
        s
    }
}

/// The suffix appended to a repeated template's text for repetition index
/// `k`: a space and `k` in decimal.
pub open spec fn index_suffix_spec(k: nat) -> Seq<char> {
    seq![' '] + dec_spec(k)
}

/// Renders the suffix for repetition index `k`.
pub fn index_suffix(k: usize) -> (r: String)
    ensures
        r@ == index_suffix_spec(k as nat),
{
    proof {
        reveal_strlit(" ");
    }
    let mut s = String::new();
    s.append(" ");
    let d = usize_to_decimal(k);
    s.append(d.as_str());
    proof {
        assert(s@ =~= index_suffix_spec(k as nat));
    }
    s
}

/// Returns a fresh, empty vector: the default child list of a container
/// that declares none.
pub fn empty_vec<T>() -> (r: Vec<T>)
    ensures
        r@ == Seq::<T>::empty(),
{
    Vec::new()
}

/// The composite payload a flattened UI node carries: at most one of each
/// native part, plus a consumer-defined extra. The payload contract composes
/// over the parts, resolution failures combining by disjunction.
pub struct UiData<CD> {
    pub node: Option<NodeBundlePrefab>,
    pub text: Option<TextBundlePrefab>,
    pub image: Option<ImageBundlePrefab>,
    pub button: Option<ButtonBundlePrefab>,
    pub callback: Option<CallbackPrefab>,
    pub custom: Option<CD>,
}

impl<CD: PrefabData> UiData<CD> {
    /// The resources part way through this payload's resolution: after the
    /// node, text, image, button and callback parts, in that order.
    pub open spec fn res_after_text(self, res: ResourcesModel) -> ResourcesModel {
        self.text.resolve_requests(self.node.resolve_requests(res))
    }

    pub open spec fn res_after_image(self, res: ResourcesModel) -> ResourcesModel {
        self.image.resolve_requests(self.res_after_text(res))
    }

    pub open spec fn res_after_button(self, res: ResourcesModel) -> ResourcesModel {
        self.button.resolve_requests(self.res_after_image(res))
    }

    pub open spec fn res_after_callback(self, res: ResourcesModel) -> ResourcesModel {
        self.callback.resolve_requests(self.res_after_button(res))
    }
}

impl<CD: PrefabData> PrefabData for UiData<CD> {
    open spec fn inserted(self, entity: usize) -> Seq<LiveComponentModel> {
        self.node.inserted(entity) + self.text.inserted(entity) + self.image.inserted(entity)
            + self.button.inserted(entity) + self.callback.inserted(entity) + self.custom.inserted(
            entity,
        )
    }

    open spec fn resolve_rel(pre: Self, post: Self, res: ResourcesModel) -> bool {
        &&& <Option<NodeBundlePrefab> as PrefabData>::resolve_rel(pre.node, post.node, res)
        &&& <Option<TextBundlePrefab> as PrefabData>::resolve_rel(
            pre.text,
            post.text,
            pre.node.resolve_requests(res),
        )
        &&& <Option<ImageBundlePrefab> as PrefabData>::resolve_rel(
            pre.image,
            post.image,
            pre.res_after_text(res),
        )
        &&& <Option<ButtonBundlePrefab> as PrefabData>::resolve_rel(
            pre.button,
            post.button,
            pre.res_after_image(res),
        )
        &&& <Option<CallbackPrefab> as PrefabData>::resolve_rel(
            pre.callback,
            post.callback,
            pre.res_after_button(res),
        )
        &&& <Option<CD> as PrefabData>::resolve_rel(
            pre.custom,
            post.custom,
            pre.res_after_callback(res),
        )
    }

    open spec fn resolve_requests(self, res: ResourcesModel) -> ResourcesModel {
        self.custom.resolve_requests(self.res_after_callback(res))
    }

    open spec fn resolve_fails(self, res: ResourcesModel) -> bool {
        ||| self.node.resolve_fails(res)
        ||| self.text.resolve_fails(self.node.resolve_requests(res))
        ||| self.image.resolve_fails(self.res_after_text(res))
        ||| self.button.resolve_fails(self.res_after_image(res))
        ||| self.callback.resolve_fails(self.res_after_button(res))
        ||| self.custom.resolve_fails(self.res_after_callback(res))
    }

    fn insert_into_entity(self, entidade: &mut LiveEntity) {
        let ghost pre = entidade@;
        let ghost id = entidade@.id;
        let UiData { node, text, image, button, callback, custom } = self;
        node.insert_into_entity(entidade);
        text.insert_into_entity(entidade);
        image.insert_into_entity(entidade);
        button.insert_into_entity(entidade);
        callback.insert_into_entity(entidade);
        custom.insert_into_entity(entidade);
        proof {
            assert(pre.components + node.inserted(id) + text.inserted(id) + image.inserted(id)
                + button.inserted(id) + callback.inserted(id) + custom.inserted(id)
                =~= pre.components + (node.inserted(id) + text.inserted(id) + image.inserted(id)
                + button.inserted(id) + callback.inserted(id) + custom.inserted(id)));
        }
    }

    fn load_sub_assets(&mut self, world: &mut EntityStore) -> (r: bool) {
        let f1 = self.node.load_sub_assets(world);
        let f2 = self.text.load_sub_assets(world);
        let f3 = self.image.load_sub_assets(world);
        let f4 = self.button.load_sub_assets(world);
        let f5 = self.callback.load_sub_assets(world);
        let f6 = self.custom.load_sub_assets(world);
        f1 || f2 || f3 || f4 || f5 || f6
    }
}

/// The payload holds at least one reference that is already resolved: an
/// asset reference holding a live handle, or a callback already bound to
/// its system id.
pub open spec fn has_loaded_ref<CD>(d: UiData<CD>) -> bool {
    ||| (d.text matches Some(tb) && tb.text.load_fails())
    ||| (d.image matches Some(ib) && ib.image.load_fails())
    ||| (d.button matches Some(bb) && bb.image matches Some(img) && img.load_fails())
    ||| (d.callback matches Some(cb) && cb is LoadedSystem)
}

/// The payload holds at least one asset reference at all, resolved or not.
pub open spec fn has_handle_ref<CD>(d: UiData<CD>) -> bool {
    ||| (d.text matches Some(tb) && ((tb.text.default_font is Some) || exists|i: int|
        0 <= i < tb.text.sections@.len() && (#[trigger] tb.text.sections@[i]).style.font
            is Some))
    ||| d.image is Some
    ||| (d.button matches Some(bb) && bb.image is Some)
}

/// Law (protocol misuse detection): a payload holding an already-resolved
/// reference — an asset handle or a bound callback — reports failure when
/// asked to resolve again, whatever the store's resources: the pass runs
/// exactly once, and asking twice is a misuse, not a retry.
pub proof fn lemma_loaded_ref_fails_again<CD: PrefabData>(d: UiData<CD>, res: ResourcesModel)
    requires
        has_loaded_ref(d),
    ensures
        d.resolve_fails(res),
{
    let r1 = d.node.resolve_requests(res);
    assert(r1 == res);
    let r2 = d.res_after_text(res);
    assert(r2.asset_server is Some <==> res.asset_server is Some);
    let r3 = d.res_after_image(res);
    assert(r3.asset_server is Some <==> res.asset_server is Some);
}

/// Law (resolution resolves a callback): one pass over a payload whose
/// callback still names a system turns it into the bound form whenever a
/// registry holding that name is present — after which a second pass
/// reports failure, by [`lemma_loaded_ref_fails_again`].
pub proof fn lemma_resolved_callback_loaded<CD: PrefabData>(
    pre: UiData<CD>,
    post: UiData<CD>,
    res: ResourcesModel,
)
    requires
        <UiData<CD> as PrefabData>::resolve_rel(pre, post, res),
        pre.callback matches Some(cb) && cb matches CallbackPrefab::System(name)
            && res.button_callbacks matches Some(reg) && reg.contains_key(name@),
    ensures
        has_loaded_ref(post),
{
    let cb = pre.callback.unwrap();
    assert(cb.lookup_spec(pre.res_after_button(res)) is Some);
}

/// Law (resolution resolves): one pass with a loading capability present
/// turns every asset reference of a reference-bearing payload into a live
/// handle, so the payload's resolved form holds a loaded reference.
pub proof fn lemma_resolved_form_loaded<CD: PrefabData>(
    pre: UiData<CD>,
    post: UiData<CD>,
    res: ResourcesModel,
)
    requires
        <UiData<CD> as PrefabData>::resolve_rel(pre, post, res),
        res.asset_server is Some,
        has_handle_ref(pre),
    ensures
        has_loaded_ref(post),
{
    let r1 = pre.node.resolve_requests(res);
    assert(r1 == res);
    let r2 = pre.res_after_text(res);
    assert(r2.asset_server is Some);
    let r3 = pre.res_after_image(res);
    assert(r3.asset_server is Some);
    if pre.text matches Some(tb) && ((tb.text.default_font is Some) || exists|i: int|
        0 <= i < tb.text.sections@.len() && (#[trigger] tb.text.sections@[i]).style.font
            is Some) {
        let tb = pre.text.unwrap();
        let pb = post.text.unwrap();
        let srv = res.asset_server.unwrap();
        assert(crate::components::TextPrefab::load_rel(tb.text, pb.text, srv));
        if tb.text.default_font is Some {
            assert(pb.text.default_font.unwrap() is Loaded);
        } else {
            let i = choose|i: int|
                0 <= i < tb.text.sections@.len() && (#[trigger] tb.text.sections@[i]).style.font
                    is Some;
            assert(pb.text.sections@[i].style == tb.text.sections@[i].style.load_after(
                tb.text.load_server_upto(srv, i),
            ));
            assert(pb.text.sections@[i].style.load_fails());
            assert(pb.text.load_fails());
        }
    } else if pre.image is Some {
        let srv = r2.asset_server.unwrap();
        assert(post.image.unwrap().image == pre.image.unwrap().image.load_after(srv));
    } else {
        let srv = r3.asset_server.unwrap();
        assert(post.button.unwrap().image.unwrap() == pre.button.unwrap().image.unwrap()
            .load_after(srv));
    }
}

/// Law (idempotence of the resolution pass): a second pass over a tree whose
/// payloads were already resolved reports failure as soon as any slot holds
/// a previously-resolved reference — resolution is one-shot, not convergent.
pub proof fn lemma_second_resolve_fails<CD: PrefabData>(
    slots: Seq<PrefabEntityBuilder<UiData<CD>>>,
    res: ResourcesModel,
    i: int,
    n: int,
)
    requires
        0 <= i < n,
        i < slots.len(),
        slots[i].data matches Some(d) && has_loaded_ref(d),
    ensures
        crate::prefab::resolve_fails_upto(slots, res, n),
{
    let d = slots[i].data.unwrap();
    lemma_loaded_ref_fails_again(d, crate::prefab::resolve_res_upto(slots, res, i));
    crate::prefab::lemma_resolve_fails_any(slots, res, i, n);
}

/// A recursive, format-native description of a UI tree. The four native
/// kinds carry their payloads directly; a custom widget rewrites itself into
/// a native form just before flattening descends into it.
pub enum Ui<C, CD> {
    /// A box, used for root purposes.
    Container { node: NodeBundlePrefab, children: Vec<Ui<C, CD>>, custom_data: Option<CD> },
    /// A simple label with text.
    Text { text_data: TextBundlePrefab, custom_data: Option<CD> },
    /// A simple image box.
    Image { image_data: ImageBundlePrefab, custom_data: Option<CD> },
    /// A button, optionally labelled, optionally calling back when pressed.
    Button {
        button: ButtonBundlePrefab,
        label: Option<TextBundlePrefab>,
        callback: Option<CallbackPrefab>,
        custom_data: Option<CD>,
    },
    /// A custom widget, expanded to a native form on demand.
    Custom(Box<C>),
}

/// A user-defined widget that can rewrite itself into a native form.
pub trait CustomWidget: Sized {
    /// The consumer-defined extra payload its nodes may carry.
    type CustomData: PrefabData;

    /// Bounds the weight of this widget's expansion; flattening terminates
    /// because each expansion weighs less than the custom node it replaces.
    spec fn fuel(&self) -> nat;

    /// Whether this widget has a native form at all.
    spec fn can_expand(&self) -> bool;

    /// Which native forms this widget may rewrite itself into.
    spec fn expands_to(&self, r: Ui<Self, Self::CustomData>) -> bool;

    /// Returns the widget's native form.
    fn into_native(&self) -> (r: Ui<Self, Self::CustomData>)
        requires
            self.can_expand(),
        ensures
            self.expands_to(r),
            ui_weight(r, |c: Self| c.fuel()) <= self.fuel(),
            ui_customs_ok(r, |c: Self| c.can_expand()),
    ;
}

/// The weight of a description, one per node plus each custom node's worth
/// under the given measure. With a custom widget's fuel as the measure,
/// expansion strictly shrinks the weight, which is what bounds the
/// flattening walk.
pub open spec fn ui_weight<C, CD>(u: Ui<C, CD>, fuel: spec_fn(C) -> nat) -> nat
    decreases u,
{
    match u {
        Ui::Container { children, .. } => 1 + ui_seq_weight(children@, fuel),
        Ui::Custom(c) => 1 + fuel(*c),
        _ => 1,
    }
}

/// The summed weight of a list of descriptions.
pub open spec fn ui_seq_weight<C, CD>(s: Seq<Ui<C, CD>>, fuel: spec_fn(C) -> nat) -> nat
    decreases s,
{
    if s.len() == 0 {
        0
    } else {
        ui_weight(s[0], fuel) + ui_seq_weight(s.subrange(1, s.len() as int), fuel)
    }
}

/// Every custom node in the description satisfies the given predicate.
pub open spec fn ui_customs_ok<C, CD>(u: Ui<C, CD>, ok: spec_fn(C) -> bool) -> bool
    decreases u,
{
    match u {
        Ui::Container { children, .. } => ui_seq_customs_ok(children@, ok),
        Ui::Custom(c) => ok(*c),
        _ => true,
    }
}

/// Every custom node in each of the descriptions satisfies the predicate.
pub open spec fn ui_seq_customs_ok<C, CD>(s: Seq<Ui<C, CD>>, ok: spec_fn(C) -> bool) -> bool
    decreases s,
{
    if s.len() == 0 {
        true
    } else {
        ui_customs_ok(s[0], ok) && ui_seq_customs_ok(s.subrange(1, s.len() as int), ok)
    }
}

/// Each description in a list weighs no more than the whole list.
pub proof fn lemma_ui_seq_weight_elem<C, CD>(s: Seq<Ui<C, CD>>, i: int, fuel: spec_fn(C) -> nat)
    requires
        0 <= i < s.len(),
    ensures
        ui_weight(s[i], fuel) <= ui_seq_weight(s, fuel),
    decreases i,
{
    if i > 0 {
        let rest = s.subrange(1, s.len() as int);
        lemma_ui_seq_weight_elem(rest, i - 1, fuel);
        assert(rest[i - 1] == s[i]);
    }
}

/// Each description in an expandable list is itself expandable.
pub proof fn lemma_ui_seq_customs_elem<C, CD>(s: Seq<Ui<C, CD>>, i: int, ok: spec_fn(C) -> bool)
    requires
        0 <= i < s.len(),
        ui_seq_customs_ok(s, ok),
    ensures
        ui_customs_ok(s[i], ok),
    decreases i,
{
    if i > 0 {
        let rest = s.subrange(1, s.len() as int);
        lemma_ui_seq_customs_elem(rest, i - 1, ok);
        assert(rest[i - 1] == s[i]);
    }
}

/// Marks the intermediate value that one step of an existential fold passes
/// through. Always true: it only gives those quantifiers a stable trigger.
pub open spec fn step_witness<A>(x: A) -> bool {
    true
}

/// How flattening the description `w` into slot `index` rewrites a tree
/// `pre` into `post`. A native kind sets the slot's payload immediately (a
/// button may also synthesize one unnamed child slot for its label); a
/// container sets its payload and then allocates a fresh child slot per
/// declared child in order, flattening each before moving to the next
/// sibling; a custom node stands for any of its valid expansions.
pub open spec fn flattens_to<C: CustomWidget>(
    w: Ui<C, C::CustomData>,
    index: usize,
    pre: Seq<PrefabEntityBuilder<UiData<C::CustomData>>>,
    post: Seq<PrefabEntityBuilder<UiData<C::CustomData>>>,
) -> bool
    decreases ui_weight(w, |c: C| c.fuel()), 0int, 0int,
{
    match w {
        Ui::Text { text_data, custom_data } => post == pre.update(
            index as int,
            PrefabEntityBuilder {
                parent: pre[index as int].parent,
                data: Some(
                    UiData {
                        node: None,
                        text: Some(text_data),
                        image: None,
                        button: None,
                        callback: None,
                        custom: custom_data,
                    },
                ),
            },
        ),
        Ui::Image { image_data, custom_data } => post == pre.update(
            index as int,
            PrefabEntityBuilder {
                parent: pre[index as int].parent,
                data: Some(
                    UiData {
                        node: None,
                        text: None,
                        image: Some(image_data),
                        button: None,
                        callback: None,
                        custom: custom_data,
                    },
                ),
            },
        ),
        Ui::Button { button, label, callback, custom_data } => {
            let base = pre.update(
                index as int,
                PrefabEntityBuilder {
                    parent: pre[index as int].parent,
                    data: Some(
                        UiData {
                            node: None,
                            text: None,
                            image: None,
                            button: Some(button),
                            callback,
                            custom: custom_data,
                        },
                    ),
                },
            );
            match label {
                Some(text) => post == base.push(
                    PrefabEntityBuilder {
                        parent: Some(index),
                        data: Some(
                            UiData {
                                node: None,
                                text: Some(text),
                                image: None,
                                button: None,
                                callback: None,
                                custom: None,
                            },
                        ),
                    },
                ),
                None => post == base,
            }
        },
        Ui::Container { node, children, custom_data } => {
            let base = pre.update(
                index as int,
                PrefabEntityBuilder {
                    parent: pre[index as int].parent,
                    data: Some(
                        UiData {
                            node: Some(node),
                            text: None,
                            image: None,
                            button: None,
                            callback: None,
                            custom: custom_data,
                        },
                    ),
                },
            );
            flatten_children_to(children@, index, base, post)
        },
        Ui::Custom(c) => exists|r: Ui<C, C::CustomData>|
            #[trigger] step_witness(r) && (*c).expands_to(r) && ui_weight(r, |cc: C| cc.fuel())
                <= (*c).fuel() && ui_customs_ok(r, |cc: C| cc.can_expand()) && flattens_to(
                r,
                index,
                pre,
                post,
            ),
    }
}

/// Folds [`flattens_to`] over a declared child list: each child gets a
/// fresh slot parented to `index`, allocated and flattened in order.
pub open spec fn flatten_children_to<C: CustomWidget>(
    cs: Seq<Ui<C, C::CustomData>>,
    index: usize,
    pre: Seq<PrefabEntityBuilder<UiData<C::CustomData>>>,
    post: Seq<PrefabEntityBuilder<UiData<C::CustomData>>>,
) -> bool
    decreases ui_seq_weight(cs, |c: C| c.fuel()), 1int, cs.len(),
{
    if cs.len() == 0 {
        post == pre
    } else {
        exists|mid2: Seq<PrefabEntityBuilder<UiData<C::CustomData>>>|
            #[trigger] step_witness(mid2) && flattens_to(
                cs[0],
                pre.len() as usize,
                pre.push(PrefabEntityBuilder { parent: Some(index), data: None }),
                mid2,
            ) && flatten_children_to(cs.subrange(1, cs.len() as int), index, mid2, post)
    }
}

/// One step of the child fold: a flattened first child followed by a fold
/// over the rest folds the whole list.
pub proof fn lemma_flatten_children_step<C: CustomWidget>(
    cs: Seq<Ui<C, C::CustomData>>,
    index: usize,
    pre: Seq<PrefabEntityBuilder<UiData<C::CustomData>>>,
    mid2: Seq<PrefabEntityBuilder<UiData<C::CustomData>>>,
    post: Seq<PrefabEntityBuilder<UiData<C::CustomData>>>,
)
    requires
        cs.len() > 0,
        flattens_to(
            cs[0],
            pre.len() as usize,
            pre.push(PrefabEntityBuilder { parent: Some(index), data: None }),
            mid2,
        ),
        flatten_children_to(cs.subrange(1, cs.len() as int), index, mid2, post),
    ensures
        flatten_children_to(cs, index, pre, post),
{
    assert(step_witness(mid2));
}

/// Flattens a recursive description into the tree by pre-order depth-first
/// traversal: the current slot's payload is set immediately, then each
/// declared child is allocated a fresh slot as a direct child of the current
/// one and descended into before its next sibling. A custom widget is first
/// rewritten into its native form, recursively. A parent's index is thereby
/// always smaller than every index in its subtree.
#[verifier::loop_isolation(false)]
#[verifier::rlimit(30)]
pub fn ui_tree<C: CustomWidget>(
    widget: Ui<C, C::CustomData>,
    index: usize,
    prefab: &mut Prefab<UiData<C::CustomData>>,
)
    requires
        index < old(prefab).entities@.len(),
        ui_customs_ok(widget, |c: C| c.can_expand()),
    ensures
        flattens_to(widget, index, old(prefab).entities@, final(prefab).entities@),
    decreases ui_weight(widget, |c: C| c.fuel()),
{
    let ghost pre = prefab.entities@;
    match widget {
        Ui::Custom(custom_widget) => {
            let expanded = custom_widget.into_native();
            ui_tree(expanded, index, prefab);
            proof {
                assert(step_witness(expanded));
            }
        },
        Ui::Text { text_data, custom_data } => {
            let slot = prefab.get_entity_mut(index).unwrap();
            slot.set_data(
                UiData {
                    node: None,
                    text: Some(text_data),
                    image: None,
                    button: None,
                    callback: None,
                    custom: custom_data,
                },
            );
        },
        Ui::Image { image_data, custom_data } => {
            let slot = prefab.get_entity_mut(index).unwrap();
            slot.set_data(
                UiData {
                    node: None,
                    text: None,
                    image: Some(image_data),
                    button: None,
                    callback: None,
                    custom: custom_data,
                },
            );
        },
        Ui::Button { button, label, callback, custom_data } => {
            let slot = prefab.get_entity_mut(index).unwrap();
            slot.set_data(
                UiData {
                    node: None,
                    text: None,
                    image: None,
                    button: Some(button),
                    callback,
                    custom: custom_data,
                },
            );
            if let Some(text) = label {
                prefab.add(
                    Some(index),
                    Some(
                        UiData {
                            node: None,
                            text: Some(text),
                            image: None,
                            button: None,
                            callback: None,
                            custom: None,
                        },
                    ),
                );
            }
        },
        Ui::Container { node, children, custom_data } => {
            let slot = prefab.get_entity_mut(index).unwrap();
            slot.set_data(
                UiData {
                    node: Some(node),
                    text: None,
                    image: None,
                    button: None,
                    callback: None,
                    custom: custom_data,
                },
            );
            let ghost base = prefab.entities@;
            let ghost cs0 = children@;
            let mut children = children;
            let mut k: usize = 0;
            proof {
                assert(cs0.skip(0) =~= cs0);
                assert(children.len() == cs0.len());
            }
            while children.len() > 0
                invariant
                    children@ == cs0.skip(k as int),
                    k <= cs0.len(),
                    cs0.len() <= usize::MAX,
                    ui_seq_customs_ok(cs0, |c: C| c.can_expand()),
                    forall|post: Seq<PrefabEntityBuilder<UiData<C::CustomData>>>|
                        #[trigger] flatten_children_to(
                            cs0.skip(k as int),
                            index,
                            prefab.entities@,
                            post,
                        ) ==> flatten_children_to(cs0, index, base, post),
                decreases children@.len(),
            {
                let child = children.remove(0);
                let ghost pre_k = prefab.entities@;
                proof {
                    assert(children@ =~= cs0.skip(k as int).subrange(
                        1,
                        cs0.skip(k as int).len() as int,
                    ));
                    assert(children@ =~= cs0.skip(k as int + 1));
                    assert(child == cs0[k as int]);
                    lemma_ui_seq_customs_elem(cs0, k as int, |c: C| c.can_expand());
                    lemma_ui_seq_weight_elem(cs0, k as int, |c: C| c.fuel());
                }
                let child_index = prefab.add(Some(index), None);
                let ghost mid1 = prefab.entities@;
                ui_tree(child, child_index, prefab);
                proof {
                    let ghost mid2 = prefab.entities@;
                    assert forall|post: Seq<PrefabEntityBuilder<UiData<C::CustomData>>>|
                        #[trigger] flatten_children_to(
                            cs0.skip(k as int + 1),
                            index,
                            mid2,
                            post,
                        ) implies flatten_children_to(cs0, index, base, post) by {
                        lemma_flatten_children_step(cs0.skip(k as int), index, pre_k, mid2, post);
                    }
                }
                k = k + 1;
            }
            proof {
                assert(cs0.skip(k as int) =~= Seq::<Ui<C, C::CustomData>>::empty());
                assert(flatten_children_to(
                    cs0.skip(k as int),
                    index,
                    prefab.entities@,
                    prefab.entities@,
                ));
            }
        },
    }
}

/// Disabled custom widget: descriptions over it never hold a usable custom
/// node.
pub struct NoCustomWidget;

impl CustomWidget for NoCustomWidget {
    type CustomData = ();

    open spec fn fuel(&self) -> nat {
        0
    }

    open spec fn can_expand(&self) -> bool {
        false
    }

    open spec fn expands_to(&self, r: Ui<Self, ()>) -> bool {
        false
    }

    fn into_native(&self) -> (r: Ui<Self, ()>) {
        // Never callable: `can_expand` is false, so no caller can meet the
        // precondition; the value below is arbitrary.
        Ui::Text { text_data: TextBundlePrefab::default(), custom_data: None }
    }
}

} // verus!
