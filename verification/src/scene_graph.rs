//! The scenes and the render views of the engine, kept in slot maps, with the rules that
//! tie them together: the active gameplay scene is always a live scene, and every render
//! view looks at a live scene.
//!
//! A scene's world and a view's camera and render target live beside these records,
//! under the same handles.
use vstd::prelude::*;
use slotmap::{DefaultKey, Key, SlotMap};
use crate::render::RenderViewRole;
use crate::scene::SceneState;
use crate::text::str_equals;

verus! {

#[verifier::external_type_specification]
#[verifier::external_body]
pub struct ExDefaultKey(slotmap::DefaultKey);


/// A slot map of scene records.
#[verifier::external_body]
pub struct SceneMap {
    map: SlotMap<DefaultKey, SceneInfo>,
}

/// A slot map of render view records.
#[verifier::external_body]
pub struct ViewMap {
    map: SlotMap<DefaultKey, ViewInfo>,
}

/// The number that `KeyData::as_ffi` gives for a key. slotmap promises that turning it
/// back gives an equal key, so equal numbers mean equal keys.
pub uninterp spec fn key_id(key: DefaultKey) -> u64;

/// The scenes of a slot map, by key number.
pub uninterp spec fn scene_slots(m: SceneMap) -> Map<u64, SceneInfo>;

/// The render views of a slot map, by key number.
pub uninterp spec fn view_slots(m: ViewMap) -> Map<u64, ViewInfo>;

/// What the engine records of a scene beside its world.
#[derive(Clone, Debug)]
pub struct SceneInfo {
    pub name: String,
    pub state: SceneState,
}

/// What the engine records of a render view beside its camera and render target.
#[derive(Clone, Copy, Debug)]
pub struct ViewInfo {
    /// The scene the view shows.
    pub scene: DefaultKey,
    pub enabled: bool,
    pub role: RenderViewRole,
    /// Whether the view renders to the window rather than to a texture.
    pub is_window: bool,
    /// False for cameras whose whole pose the game sets.
    pub simulate_camera: bool,
}

/// `key.data().as_ffi()`: the key as a number.
#[verifier::external_body]
fn key_number(key: DefaultKey) -> (r: u64)
    ensures
        r == key_id(key),
{
    key.data().as_ffi()
}

/// `SlotMap::new`: an empty scene map.
#[verifier::external_body]
fn scene_map_new() -> (r: SceneMap)
    ensures
        scene_slots(r).dom() == Set::<u64>::empty(),
{
    SceneMap { map: SlotMap::new() }
}

/// `SlotMap::insert`: stores the scene under a key that the map did not hold. It panics
/// only when the map holds `u32::MAX - 1` values.
#[verifier::external_body]
fn scene_map_insert(m: &mut SceneMap, value: SceneInfo) -> (k: DefaultKey)
    requires
        scene_slots(*old(m)).dom().len() + 2 <= u32::MAX,
    ensures
        !scene_slots(*old(m)).contains_key(key_id(k)),
        scene_slots(*final(m)) == scene_slots(*old(m)).insert(key_id(k), value),
{
    m.map.insert(value)
}

/// `SlotMap::remove`: takes the scene out if the key holds one.
#[verifier::external_body]
fn scene_map_remove(m: &mut SceneMap, k: DefaultKey) -> (r: Option<SceneInfo>)
    ensures
        match r {
            Some(v) => scene_slots(*old(m)).contains_key(key_id(k)) && v == scene_slots(*old(m))[key_id(k)]
                && scene_slots(*final(m)) == scene_slots(*old(m)).remove(key_id(k)),
            None => !scene_slots(*old(m)).contains_key(key_id(k)) && scene_slots(*final(m)) == scene_slots(*old(m)),
        },
{
    m.map.remove(k)
}

/// `SlotMap::get`: the scene under the key, if any.
#[verifier::external_body]
fn scene_map_get(m: &SceneMap, k: DefaultKey) -> (r: Option<&SceneInfo>)
    ensures
        match r {
            Some(v) => scene_slots(*m).contains_key(key_id(k)) && *v == scene_slots(*m)[key_id(k)],
            None => !scene_slots(*m).contains_key(key_id(k)),
        },
{
    m.map.get(k)
}

/// `SlotMap::get_mut`, writing a new state into the scene under the key.
#[verifier::external_body]
fn scene_map_set_state(m: &mut SceneMap, k: DefaultKey, state: SceneState) -> (r: bool)
    ensures
        r == scene_slots(*old(m)).contains_key(key_id(k)),
        r ==> scene_slots(*final(m)) == scene_slots(*old(m)).insert(
            key_id(k),
            SceneInfo { name: scene_slots(*old(m))[key_id(k)].name, state },
        ),
        !r ==> scene_slots(*final(m)) == scene_slots(*old(m)),
{
    match m.map.get_mut(k) {
        Some(scene) => {
            scene.state = state;
            true
        },
        None => false,
    }
}

/// `SlotMap::keys`, collected: every key of the map once, in the order of the slots that
/// hold them. The iterator walks the slot vector from the front and yields the key of
/// each occupied slot; a key's slot index is the low 32 bits of its number.
#[verifier::external_body]
fn scene_map_keys(m: &SceneMap) -> (r: Vec<DefaultKey>)
    ensures
        in_slot_order(r@),
        forall|i: int, j: int| 0 <= i < j < r@.len() ==> key_id(r@[i]) != key_id(r@[j]),
        forall|i: int| 0 <= i < r@.len() ==> scene_slots(*m).contains_key(#[trigger] key_id(r@[i])),
        forall|id: u64| scene_slots(*m).contains_key(id) ==> exists|i: int| 0 <= i < r@.len() && key_id(r@[i]) == id,
{
    m.map.keys().collect()
}

/// `SlotMap::len`: the number of scenes.
#[verifier::external_body]
fn scene_map_len(m: &SceneMap) -> (r: usize)
    ensures
        r == scene_slots(*m).dom().len(),
{
    m.map.len()
}

/// `SlotMap::new`: an empty view map.
#[verifier::external_body]
fn view_map_new() -> (r: ViewMap)
    ensures
        view_slots(r).dom() == Set::<u64>::empty(),
{
    ViewMap { map: SlotMap::new() }
}

/// `SlotMap::insert`: stores the view under a key that the map did not hold. It panics
/// only when the map holds `u32::MAX - 1` values.
#[verifier::external_body]
fn view_map_insert(m: &mut ViewMap, value: ViewInfo) -> (k: DefaultKey)
    requires
        view_slots(*old(m)).dom().len() + 2 <= u32::MAX,
    ensures
        !view_slots(*old(m)).contains_key(key_id(k)),
        view_slots(*final(m)) == view_slots(*old(m)).insert(key_id(k), value),
{
    m.map.insert(value)
}

/// `SlotMap::remove`: takes the view out if the key holds one.
#[verifier::external_body]
fn view_map_remove(m: &mut ViewMap, k: DefaultKey) -> (r: Option<ViewInfo>)
    ensures
        match r {
            Some(v) => view_slots(*old(m)).contains_key(key_id(k)) && v == view_slots(*old(m))[key_id(k)]
                && view_slots(*final(m)) == view_slots(*old(m)).remove(key_id(k)),
            None => !view_slots(*old(m)).contains_key(key_id(k)) && view_slots(*final(m)) == view_slots(*old(m)),
        },
{
    m.map.remove(k)
}

/// `SlotMap::get`: a copy of the view under the key, if any.
#[verifier::external_body]
fn view_map_get(m: &ViewMap, k: DefaultKey) -> (r: Option<ViewInfo>)
    ensures
        match r {
            Some(v) => view_slots(*m).contains_key(key_id(k)) && v == view_slots(*m)[key_id(k)],
            None => !view_slots(*m).contains_key(key_id(k)),
        },
{
    m.map.get(k).copied()
}

/// `SlotMap::get_mut`, writing a new record into the view under the key.
#[verifier::external_body]
fn view_map_set(m: &mut ViewMap, k: DefaultKey, value: ViewInfo) -> (r: bool)
    ensures
        r == view_slots(*old(m)).contains_key(key_id(k)),
        r ==> view_slots(*final(m)) == view_slots(*old(m)).insert(key_id(k), value),
        !r ==> view_slots(*final(m)) == view_slots(*old(m)),
{
    match m.map.get_mut(k) {
        Some(view) => {
            *view = value;
            true
        },
        None => false,
    }
}

/// `SlotMap::keys`, collected: every key of the map once, in the order of the slots that
/// hold them. The iterator walks the slot vector from the front and yields the key of
/// each occupied slot; a key's slot index is the low 32 bits of its number.
#[verifier::external_body]
fn view_map_keys(m: &ViewMap) -> (r: Vec<DefaultKey>)
    ensures
        in_slot_order(r@),
        forall|i: int, j: int| 0 <= i < j < r@.len() ==> key_id(r@[i]) != key_id(r@[j]),
        forall|i: int| 0 <= i < r@.len() ==> view_slots(*m).contains_key(#[trigger] key_id(r@[i])),
        forall|id: u64| view_slots(*m).contains_key(id) ==> exists|i: int| 0 <= i < r@.len() && key_id(r@[i]) == id,
{
    m.map.keys().collect()
}

/// `SlotMap::len`: the number of views.
#[verifier::external_body]
fn view_map_len(m: &ViewMap) -> (r: usize)
    ensures
        r == view_slots(*m).dom().len(),
{
    m.map.len()
}

/// The slot index of a key number: its low 32 bits.
pub open spec fn slot_of(id: u64) -> u64 {
    id % 0x1_0000_0000
}

/// The keys are listed by increasing slot index.
pub open spec fn in_slot_order(keys: Seq<DefaultKey>) -> bool {
    forall|i: int, j: int| 0 <= i < j < keys.len() ==> slot_of(key_id(keys[i])) < slot_of(key_id(keys[j]))
}

/// The key numbers of `keys`, in order.
pub open spec fn key_ids(keys: Seq<DefaultKey>) -> Seq<u64> {
    keys.map_values(|k: DefaultKey| key_id(k))
}

/// `keys` holds, each once, exactly the keys whose numbers are in `ids`.
pub open spec fn lists_exactly(keys: Seq<DefaultKey>, ids: Set<u64>) -> bool {
    &&& forall|i: int, j: int| 0 <= i < j < keys.len() ==> key_id(keys[i]) != key_id(keys[j])
    &&& forall|i: int| 0 <= i < keys.len() ==> ids.contains(#[trigger] key_id(keys[i]))
    &&& forall|id: u64| #[trigger] ids.contains(id) ==> exists|i: int| 0 <= i < keys.len() && key_id(keys[i]) == id
}

/// The names registered in a lookup list, with the key numbers they name.
pub open spec fn lookup_view(lookup: Seq<(String, DefaultKey)>) -> Seq<(Seq<char>, u64)> {
    lookup.map_values(|e: (String, DefaultKey)| (e.0@, key_id(e.1)))
}

/// Whether `name` is registered in the lookup list.
pub open spec fn has_name(lookup: Seq<(Seq<char>, u64)>, name: Seq<char>) -> bool {
    exists|i: int| 0 <= i < lookup.len() && lookup[i].0 == name
}

/// Each name once, and each naming a key that `live` holds.
pub open spec fn lookup_wf(lookup: Seq<(Seq<char>, u64)>, live: Set<u64>) -> bool {
    &&& forall|i: int, j: int| 0 <= i < j < lookup.len() ==> lookup[i].0 != lookup[j].0
    &&& forall|i: int| 0 <= i < lookup.len() ==> live.contains(#[trigger] lookup[i].1)
}

/// The key that `name` is registered under, if any.
fn find_name(lookup: &Vec<(String, DefaultKey)>, name: &str) -> (r: Option<DefaultKey>)
    requires
        forall|i: int, j: int| 0 <= i < j < lookup@.len() ==> lookup@[i].0@ != lookup@[j].0@,
    ensures
        match r {
            Some(k) => exists|i: int| 0 <= i < lookup@.len() && lookup@[i].0@ == name@ && key_id(lookup@[i].1) == key_id(k),
            None => !has_name(lookup_view(lookup@), name@),
        },
{
    let mut i: usize = 0;
    while i < lookup.len()
        invariant
            i <= lookup@.len(),
            forall|j: int| 0 <= j < i ==> lookup@[j].0@ != name@,
        decreases lookup@.len() - i,
    {
        if str_equals(lookup[i].0.as_str(), name) {
            return Some(lookup[i].1);
        }
        i = i + 1;
    }
    proof {
        if has_name(lookup_view(lookup@), name@) {
            let j = choose|j: int| 0 <= j < lookup_view(lookup@).len() && lookup_view(lookup@)[j].0 == name@;
            assert(lookup_view(lookup@)[j].0 == lookup@[j].0@);
        }
    }
    None
}

/// The lookup list without the entries that name `k`, the others in their order.
fn forget_key(lookup: &Vec<(String, DefaultKey)>, k: DefaultKey) -> (r: Vec<(String, DefaultKey)>)
    ensures
        forall|a: int| 0 <= a < r@.len() ==> lookup_view(lookup@).contains(#[trigger] lookup_view(r@)[a])
            && lookup_view(r@)[a].1 != key_id(k),
        forall|j: int|
            0 <= j < lookup@.len() && key_id(lookup@[j].1) != key_id(k) ==> lookup_view(r@).contains(
                #[trigger] lookup_view(lookup@)[j],
            ),
        (forall|i: int, j: int| 0 <= i < j < lookup@.len() ==> lookup@[i].0@ != lookup@[j].0@) ==> (forall|
            i: int,
            j: int,
        | 0 <= i < j < r@.len() ==> r@[i].0@ != r@[j].0@),
{
    let id = key_number(k);
    let mut kept: Vec<(String, DefaultKey)> = Vec::new();
    let ghost mut from: Seq<int> = Seq::empty();
    let mut i: usize = 0;
    while i < lookup.len()
        invariant
            i <= lookup@.len(),
            id == key_id(k),
            from.len() == kept@.len(),
            forall|a: int| 0 <= a < kept@.len() ==> 0 <= #[trigger] from[a] < i && kept@[a].0@ == lookup@[from[a]].0@
                && key_id(kept@[a].1) == key_id(lookup@[from[a]].1) && key_id(kept@[a].1) != key_id(k),
            forall|a: int, b: int| 0 <= a < b < from.len() ==> from[a] < from[b],
            forall|j: int|
                0 <= j < i && key_id(lookup@[j].1) != key_id(k) ==> exists|a: int| 0 <= a < from.len() && from[a] == j,
        decreases lookup@.len() - i,
    {
        let ghost old_from = from;
        if key_number(lookup[i].1) != id {
            let name = lookup[i].0.clone();
            kept.push((name, lookup[i].1));
            proof {
                from = from.push(i as int);
            }
        }
        proof {
            assert forall|j: int|
                0 <= j < i + 1 && key_id(lookup@[j].1) != key_id(k) implies exists|a: int| 0 <= a < from.len() && from[a] == j by {
                if j == i {
                    assert(from[from.len() - 1] == j);
                } else {
                    let a = choose|a: int| 0 <= a < old_from.len() && old_from[a] == j;
                    assert(from[a] == j);
                }
            }
        }
        i = i + 1;
    }
    proof {
        assert forall|a: int| 0 <= a < kept@.len() implies lookup_view(lookup@).contains(#[trigger] lookup_view(kept@)[a])
            && lookup_view(kept@)[a].1 != key_id(k) by {
            assert(lookup_view(lookup@)[from[a]] == lookup_view(kept@)[a]);
        }
        assert forall|j: int|
            0 <= j < lookup@.len() && key_id(lookup@[j].1) != key_id(k) implies lookup_view(kept@).contains(
                #[trigger] lookup_view(lookup@)[j],
            ) by {
            let a = choose|a: int| 0 <= a < from.len() && from[a] == j;
            assert(lookup_view(kept@)[a] == lookup_view(lookup@)[j]);
        }
        if forall|i: int, j: int| 0 <= i < j < lookup@.len() ==> lookup@[i].0@ != lookup@[j].0@ {
            assert forall|a: int, b: int| 0 <= a < b < kept@.len() implies kept@[a].0@ != kept@[b].0@ by {
                assert(from[a] < from[b]);
                assert(lookup@[from[a]].0@ != lookup@[from[b]].0@);
            }
        }
    }
    kept
}

/// The scenes, the names they were created under, and the active gameplay scene.
pub struct SceneHandler {
    scenes: SceneMap,
    lookup: Vec<(String, DefaultKey)>,
    active: Option<DefaultKey>,
}

impl SceneHandler {
    /// The scenes, by key number.
    pub closed spec fn scenes_view(&self) -> Map<u64, SceneInfo> {
        scene_slots(self.scenes)
    }

    /// The registered names and the key numbers they name.
    pub closed spec fn names_view(&self) -> Seq<(Seq<char>, u64)> {
        lookup_view(self.lookup@)
    }

    /// The key number of the active gameplay scene, if one is set.
    pub closed spec fn active_view(&self) -> Option<u64> {
        match self.active {
            Some(k) => Some(key_id(k)),
            None => None,
        }
    }

    /// The active scene is a live scene; each name is registered once, for a live scene.
    pub closed spec fn wf(&self) -> bool {
        &&& scene_slots(self.scenes).dom().finite()
        &&& self.active matches Some(k) ==> scene_slots(self.scenes).contains_key(key_id(k))
        &&& lookup_wf(lookup_view(self.lookup@), scene_slots(self.scenes).dom())
        &&& forall|i: int, j: int| 0 <= i < j < self.lookup@.len() ==> self.lookup@[i].0@ != self.lookup@[j].0@
    }

    /// No scenes.
    pub fn new() -> (r: SceneHandler)
        ensures
            r.wf(),
            r.scenes_view().dom() == Set::<u64>::empty(),
            r.names_view() == Seq::<(Seq<char>, u64)>::empty(),
            r.active_view() is None,
    {
        let r = SceneHandler { scenes: scene_map_new(), lookup: Vec::new(), active: None };
        assert(r.names_view() =~= Seq::<(Seq<char>, u64)>::empty());
        r
    }

    /// The scene under `handle`, if it is live.
    pub fn get(&self, handle: DefaultKey) -> (r: Option<&SceneInfo>)
        ensures
            match r {
                Some(v) => self.scenes_view().contains_key(key_id(handle)) && *v == self.scenes_view()[key_id(handle)],
                None => !self.scenes_view().contains_key(key_id(handle)),
            },
    {
        scene_map_get(&self.scenes, handle)
    }

    /// Sets the state of the scene under `handle`; false when it is not live.
    pub fn set_state(&mut self, handle: DefaultKey, state: SceneState) -> (r: bool)
        requires
            old(self).wf(),
        ensures
            final(self).wf(),
            r == old(self).scenes_view().contains_key(key_id(handle)),
            r ==> final(self).scenes_view() == old(self).scenes_view().insert(
                key_id(handle),
                SceneInfo { name: old(self).scenes_view()[key_id(handle)].name, state },
            ),
            !r ==> final(self).scenes_view() == old(self).scenes_view(),
            final(self).names_view() == old(self).names_view(),
            final(self).active_view() == old(self).active_view(),
    {
        let r = scene_map_set_state(&mut self.scenes, handle, state);
        proof {
            assert(scene_slots(self.scenes).dom() =~= scene_slots(old(self).scenes).dom());
        }
        r
    }

    /// Every live scene's handle, each once, in slot order.
    pub fn handles(&self) -> (r: Vec<DefaultKey>)
        ensures
            lists_exactly(r@, self.scenes_view().dom()),
            in_slot_order(r@),
    {
        scene_map_keys(&self.scenes)
    }

    /// The number of live scenes.
    pub fn len(&self) -> (r: usize)
        ensures
            r == self.scenes_view().dom().len(),
    {
        scene_map_len(&self.scenes)
    }

    /// The active gameplay scene, if one is set.
    pub fn active_gameplay_scene(&self) -> (r: Option<DefaultKey>)
        ensures
            match r {
                Some(k) => self.active_view() == Some(key_id(k)),
                None => self.active_view() is None,
            },
    {
        self.active
    }

    /// Makes a live scene the active gameplay scene.
    pub fn set_active_gameplay_scene(&mut self, handle: DefaultKey)
        requires
            old(self).wf(),
            old(self).scenes_view().contains_key(key_id(handle)),
        ensures
            final(self).wf(),
            final(self).active_view() == Some(key_id(handle)),
            final(self).scenes_view() == old(self).scenes_view(),
            final(self).names_view() == old(self).names_view(),
    {
        self.active = Some(handle);
    }

    /// The scene registered under `name`, if any.
    pub fn handle_of(&self, name: &str) -> (r: Option<DefaultKey>)
        requires
            self.wf(),
        ensures
            match r {
                Some(k) => self.names_view().contains((name@, key_id(k))) && self.scenes_view().contains_key(key_id(k)),
                None => !has_name(self.names_view(), name@),
            },
    {
        let r = find_name(&self.lookup, name);
        proof {
            if let Some(k) = r {
                let i = choose|i: int| 0 <= i < self.lookup@.len() && self.lookup@[i].0@ == name@ && key_id(self.lookup@[i].1) == key_id(k);
                assert(self.names_view()[i] == (name@, key_id(k)));
                assert(lookup_view(self.lookup@)[i].1 == key_id(k));
                assert(scene_slots(self.scenes).dom().contains(key_id(k)));
                assert(self.names_view().contains((name@, key_id(k))));
            }
        }
        r
    }

    /// The live scenes that simulate, each once, in slot order.
    pub fn simulating_handles(&self) -> (r: Vec<DefaultKey>)
        ensures
            lists_exactly(
                r@,
                Set::new(|id: u64| self.scenes_view().contains_key(id) && self.scenes_view()[id].state == SceneState::Simulating),
            ),
            in_slot_order(r@),
    {
        let keys = scene_map_keys(&self.scenes);
        let mut out: Vec<DefaultKey> = Vec::new();
        let ghost mut from: Seq<int> = Seq::empty();
        let mut i: usize = 0;
        while i < keys.len()
            invariant
                i <= keys@.len(),
                forall|a: int, b: int| 0 <= a < b < keys@.len() ==> key_id(keys@[a]) != key_id(keys@[b]),
                in_slot_order(keys@),
                forall|a: int| 0 <= a < keys@.len() ==> scene_slots(self.scenes).contains_key(#[trigger] key_id(keys@[a])),
                from.len() == out@.len(),
                forall|a: int| 0 <= a < out@.len() ==> 0 <= #[trigger] from[a] < i && key_id(out@[a]) == key_id(keys@[from[a]]),
                forall|a: int, b: int| 0 <= a < b < from.len() ==> from[a] < from[b],
                forall|a: int| 0 <= a < out@.len() ==> scene_slots(self.scenes)[#[trigger] key_id(out@[a])].state == SceneState::Simulating,
                forall|j: int| 0 <= j < i && scene_slots(self.scenes)[key_id(keys@[j])].state == SceneState::Simulating ==> exists|a: int| 0 <= a < from.len() && from[a] == j,
            decreases keys@.len() - i,
        {
            let ghost old_from = from;
            let scene = scene_map_get(&self.scenes, keys[i]);
            match scene {
                Some(info) => {
                    if matches!(info.state, SceneState::Simulating) {
                        out.push(keys[i]);
                        proof {
                            from = from.push(i as int);
                        }
                    }
                },
                None => {},
            }
            proof {
                assert forall|j: int| 0 <= j < i + 1 && scene_slots(self.scenes)[key_id(keys@[j])].state == SceneState::Simulating
                    implies exists|a: int| 0 <= a < from.len() && from[a] == j by {
                    if j == i {
                        assert(from[from.len() - 1] == j);
                    } else {
                        let a = choose|a: int| 0 <= a < old_from.len() && old_from[a] == j;
                        assert(from[a] == j);
                    }
                }
            }
            i = i + 1;
        }
        proof {
            assert forall|a: int, b: int| 0 <= a < b < out@.len() implies key_id(out@[a]) != key_id(out@[b]) by {
                assert(from[a] < from[b]);
            }
            assert forall|a: int, b: int| 0 <= a < b < out@.len() implies slot_of(key_id(out@[a])) < slot_of(key_id(out@[b])) by {
                assert(from[a] < from[b]);
                assert(key_id(out@[a]) == key_id(keys@[from[a]]));
                assert(key_id(out@[b]) == key_id(keys@[from[b]]));
            }
            assert forall|a: int| 0 <= a < out@.len() implies self.scenes_view().contains_key(#[trigger] key_id(out@[a]))
                && self.scenes_view()[key_id(out@[a])].state == SceneState::Simulating by {
                assert(key_id(out@[a]) == key_id(keys@[from[a]]));
                assert(scene_slots(self.scenes).contains_key(key_id(keys@[from[a]])));
            }
            assert forall|id: u64| self.scenes_view().contains_key(id) && self.scenes_view()[id].state == SceneState::Simulating
                implies exists|a: int| 0 <= a < out@.len() && key_id(out@[a]) == id by {
                let j = choose|j: int| 0 <= j < keys@.len() && key_id(keys@[j]) == id;
                let a = choose|a: int| 0 <= a < from.len() && from[a] == j;
                assert(key_id(out@[a]) == id);
            }
        }
        out
    }
}

impl SceneHandler {
    /// Creates a simulating scene called `name`. The first scene becomes the active
    /// gameplay scene. The name must not be in use.
    pub fn new_scene(&mut self, name: &str) -> (handle: DefaultKey)
        requires
            old(self).wf(),
            !has_name(old(self).names_view(), name@),
            old(self).scenes_view().dom().len() + 2 <= u32::MAX,
        ensures
            final(self).wf(),
            !old(self).scenes_view().contains_key(key_id(handle)),
            final(self).scenes_view() == old(self).scenes_view().insert(key_id(handle), final(self).scenes_view()[key_id(handle)]),
            final(self).scenes_view()[key_id(handle)].name@ == name@,
            final(self).scenes_view()[key_id(handle)].state == SceneState::Simulating,
            final(self).names_view() == old(self).names_view().push((name@, key_id(handle))),
            final(self).active_view() == if old(self).scenes_view().dom().len() == 0 {
                Some(key_id(handle))
            } else {
                old(self).active_view()
            },
    {
        let first = scene_map_len(&self.scenes) == 0;
        let info = SceneInfo { name: name.to_owned(), state: SceneState::Simulating };
        let handle = scene_map_insert(&mut self.scenes, info);
        if first {
            self.active = Some(handle);
        }
        let ghost old_lookup = self.lookup@;
        self.lookup.push((name.to_owned(), handle));
        proof {
            assert(lookup_view(self.lookup@) =~= lookup_view(old_lookup).push((name@, key_id(handle))));
            assert forall|i: int, j: int| 0 <= i < j < self.lookup@.len() implies self.lookup@[i].0@ != self.lookup@[j].0@ by {
                if j == old_lookup.len() {
                    assert(lookup_view(old_lookup)[i].0 == old_lookup[i].0@);
                }
            }
            assert forall|i: int| 0 <= i < lookup_view(self.lookup@).len() implies scene_slots(self.scenes).dom().contains(
                #[trigger] lookup_view(self.lookup@)[i].1,
            ) by {
                if i < old_lookup.len() {
                    assert(lookup_view(self.lookup@)[i] == lookup_view(old_lookup)[i]);
                }
            }
        }
        handle
    }

    /// Removes the scene under `handle`: its name is forgotten, and when it was the
    /// active gameplay scene, the live scene in the first slot becomes active, or none
    /// when no scene is left. Returns the scene's record, or `None` when it was not live.
    pub fn remove(&mut self, handle: DefaultKey) -> (r: Option<SceneInfo>)
        requires
            old(self).wf(),
        ensures
            final(self).wf(),
            match r {
                Some(v) => old(self).scenes_view().contains_key(key_id(handle)) && v == old(self).scenes_view()[key_id(handle)]
                    && final(self).scenes_view() == old(self).scenes_view().remove(key_id(handle))
                    && (forall|e: (Seq<char>, u64)| final(self).names_view().contains(e) <==> (old(self).names_view().contains(e) && e.1 != key_id(handle)))
                    && if old(self).active_view() == Some(key_id(handle)) {
                        match final(self).active_view() {
                            Some(id) => final(self).scenes_view().contains_key(id) && forall|o: u64|
                                #[trigger] final(self).scenes_view().contains_key(o) ==> slot_of(id) <= slot_of(o),
                            None => final(self).scenes_view().dom().len() == 0,
                        }
                    } else {
                        final(self).active_view() == old(self).active_view()
                    },
                None => !old(self).scenes_view().contains_key(key_id(handle)) && final(self).scenes_view() == old(self).scenes_view()
                    && final(self).names_view() == old(self).names_view() && final(self).active_view() == old(self).active_view(),
            },
    {
        let removed = scene_map_remove(&mut self.scenes, handle);
        match removed {
            None => None,
            Some(scene) => {
                let kept = forget_key(&self.lookup, handle);
                self.lookup = kept;
                let was_active = match self.active {
                    Some(active) => key_number(active) == key_number(handle),
                    None => false,
                };
                if was_active {
                    let keys = scene_map_keys(&self.scenes);
                    if keys.len() > 0 {
                        self.active = Some(keys[0]);
                        proof {
                            assert forall|o: u64| #[trigger] scene_slots(self.scenes).contains_key(o) implies slot_of(key_id(keys@[0])) <= slot_of(o) by {
                                let j = choose|j: int| 0 <= j < keys@.len() && key_id(keys@[j]) == o;
                                if j > 0 {
                                    assert(slot_of(key_id(keys@[0])) < slot_of(key_id(keys@[j])));
                                }
                            }
                        }
                    } else {
                        self.active = None;
                        proof {
                            if scene_slots(self.scenes).dom().len() != 0 {
                                let id = scene_slots(self.scenes).dom().choose();
                                assert(scene_slots(self.scenes).contains_key(id));
                            }
                        }
                    }
                }
                proof {
                    let lv = lookup_view(self.lookup@);
                    let old_lv = lookup_view(old(self).lookup@);
                    assert forall|e: (Seq<char>, u64)| lv.contains(e) <==> (old_lv.contains(e) && e.1 != key_id(handle)) by {
                        if lv.contains(e) {
                            let a = choose|a: int| 0 <= a < lv.len() && lv[a] == e;
                            assert(old_lv.contains(lv[a]));
                        }
                        if old_lv.contains(e) && e.1 != key_id(handle) {
                            let j = choose|j: int| 0 <= j < old_lv.len() && old_lv[j] == e;
                            assert(old_lv[j].1 == key_id(old(self).lookup@[j].1));
                            assert(lv.contains(old_lv[j]));
                        }
                    }
                    assert forall|i: int| 0 <= i < lv.len() implies scene_slots(self.scenes).dom().contains(#[trigger] lv[i].1) by {
                        assert(old_lv.contains(lv[i]));
                        let j = choose|j: int| 0 <= j < old_lv.len() && old_lv[j] == lv[i];
                        assert(scene_slots(old(self).scenes).dom().contains(old_lv[j].1));
                    }
                    assert forall|i: int, j: int| 0 <= i < j < lv.len() implies lv[i].0 != lv[j].0 by {
                        assert(lv[i].0 == self.lookup@[i].0@ && lv[j].0 == self.lookup@[j].0@);
                    }
                }
                Some(scene)
            },
        }
    }
}

/// Which views a listing keeps.
pub enum ViewFilter {
    /// The enabled views.
    Enabled,
    /// The enabled views that render to a texture.
    EnabledOffscreen,
    /// The enabled views whose camera the engine moves.
    CameraUpdates,
    /// The views of one scene.
    OfScene(DefaultKey),
}

pub open spec fn view_wanted(filter: ViewFilter, view: ViewInfo) -> bool {
    match filter {
        ViewFilter::Enabled => view.enabled,
        ViewFilter::EnabledOffscreen => view.enabled && !view.is_window,
        ViewFilter::CameraUpdates => view.enabled && view.simulate_camera,
        ViewFilter::OfScene(scene) => key_id(view.scene) == key_id(scene),
    }
}

/// What the filters keep, in terms of one another: the enabled filter keeps exactly the
/// enabled views; the offscreen filter keeps exactly the enabled views that are not on
/// the window; the camera filter keeps exactly the enabled views whose camera is
/// simulated; the scene filter keeps exactly the views of that scene. A disabled view
/// is kept by none of the first three.
pub proof fn view_filters_keep_enabled_views(view: ViewInfo, scene: DefaultKey)
    ensures
        view_wanted(ViewFilter::Enabled, view) <==> view.enabled,
        view_wanted(ViewFilter::EnabledOffscreen, view) <==> (view_wanted(ViewFilter::Enabled, view) && !view.is_window),
        view_wanted(ViewFilter::CameraUpdates, view) <==> (view_wanted(ViewFilter::Enabled, view) && view.simulate_camera),
        view_wanted(ViewFilter::OfScene(scene), view) <==> key_id(view.scene) == key_id(scene),
        !view.enabled ==> !view_wanted(ViewFilter::Enabled, view) && !view_wanted(ViewFilter::EnabledOffscreen, view)
            && !view_wanted(ViewFilter::CameraUpdates, view),
{
}

/// Whether a view is the one that presents to the window: enabled, main, and on the window.
pub open spec fn presents(view: ViewInfo) -> bool {
    view.enabled && view.role == RenderViewRole::Main && view.is_window
}

fn wanted(filter: &ViewFilter, view: &ViewInfo) -> (r: bool)
    ensures
        r == view_wanted(*filter, *view),
{
    match filter {
        ViewFilter::Enabled => view.enabled,
        ViewFilter::EnabledOffscreen => view.enabled && !view.is_window,
        ViewFilter::CameraUpdates => view.enabled && view.simulate_camera,
        ViewFilter::OfScene(scene) => key_number(view.scene) == key_number(*scene),
    }
}

/// The render views and the names they were created under.
pub struct RenderViewHandler {
    views: ViewMap,
    lookup: Vec<(String, DefaultKey)>,
}

impl RenderViewHandler {
    /// The views, by key number.
    pub closed spec fn views_view(&self) -> Map<u64, ViewInfo> {
        view_slots(self.views)
    }

    /// The registered names and the key numbers they name.
    pub closed spec fn names_view(&self) -> Seq<(Seq<char>, u64)> {
        lookup_view(self.lookup@)
    }

    /// Each name is registered once, for a live view.
    pub closed spec fn wf(&self) -> bool {
        &&& view_slots(self.views).dom().finite()
        &&& lookup_wf(lookup_view(self.lookup@), view_slots(self.views).dom())
        &&& forall|i: int, j: int| 0 <= i < j < self.lookup@.len() ==> self.lookup@[i].0@ != self.lookup@[j].0@
    }

    /// No views.
    pub fn new() -> (r: RenderViewHandler)
        ensures
            r.wf(),
            r.views_view().dom() == Set::<u64>::empty(),
            r.names_view() == Seq::<(Seq<char>, u64)>::empty(),
    {
        let r = RenderViewHandler { views: view_map_new(), lookup: Vec::new() };
        assert(r.names_view() =~= Seq::<(Seq<char>, u64)>::empty());
        r
    }

    /// The view under `handle`, if it is live.
    pub fn get(&self, handle: DefaultKey) -> (r: Option<ViewInfo>)
        ensures
            match r {
                Some(v) => self.views_view().contains_key(key_id(handle)) && v == self.views_view()[key_id(handle)],
                None => !self.views_view().contains_key(key_id(handle)),
            },
    {
        view_map_get(&self.views, handle)
    }

    /// The number of live views.
    pub fn len(&self) -> (r: usize)
        ensures
            r == self.views_view().dom().len(),
    {
        view_map_len(&self.views)
    }

    /// The view registered under `name`, if any.
    pub fn handle_of(&self, name: &str) -> (r: Option<DefaultKey>)
        requires
            self.wf(),
        ensures
            match r {
                Some(k) => self.names_view().contains((name@, key_id(k))) && self.views_view().contains_key(key_id(k)),
                None => !has_name(self.names_view(), name@),
            },
    {
        let r = find_name(&self.lookup, name);
        proof {
            if let Some(k) = r {
                let i = choose|i: int| 0 <= i < self.lookup@.len() && self.lookup@[i].0@ == name@ && key_id(self.lookup@[i].1) == key_id(k);
                assert(self.names_view()[i] == (name@, key_id(k)));
                assert(lookup_view(self.lookup@)[i].1 == key_id(k));
                assert(view_slots(self.views).dom().contains(key_id(k)));
                assert(self.names_view().contains((name@, key_id(k))));
            }
        }
        r
    }

    /// Creates an enabled view with a simulated camera, called `name`, of `scene`. The
    /// name must not be in use.
    pub fn new_view(&mut self, scene: DefaultKey, name: &str, role: RenderViewRole, is_window: bool) -> (handle: DefaultKey)
        requires
            old(self).wf(),
            !has_name(old(self).names_view(), name@),
            old(self).views_view().dom().len() + 2 <= u32::MAX,
        ensures
            final(self).wf(),
            !old(self).views_view().contains_key(key_id(handle)),
            final(self).views_view() == old(self).views_view().insert(
                key_id(handle),
                ViewInfo { scene, enabled: true, role, is_window, simulate_camera: true },
            ),
            final(self).names_view() == old(self).names_view().push((name@, key_id(handle))),
    {
        let info = ViewInfo { scene, enabled: true, role, is_window, simulate_camera: true };
        let handle = view_map_insert(&mut self.views, info);
        let ghost old_lookup = self.lookup@;
        self.lookup.push((name.to_owned(), handle));
        proof {
            assert(lookup_view(self.lookup@) =~= lookup_view(old_lookup).push((name@, key_id(handle))));
            assert forall|i: int, j: int| 0 <= i < j < self.lookup@.len() implies self.lookup@[i].0@ != self.lookup@[j].0@ by {
                if j == old_lookup.len() {
                    assert(lookup_view(old_lookup)[i].0 == old_lookup[i].0@);
                }
            }
            assert forall|i: int| 0 <= i < lookup_view(self.lookup@).len() implies view_slots(self.views).dom().contains(
                #[trigger] lookup_view(self.lookup@)[i].1,
            ) by {
                if i < old_lookup.len() {
                    assert(lookup_view(self.lookup@)[i] == lookup_view(old_lookup)[i]);
                }
            }
        }
        handle
    }

    /// Replaces the record of a live view, keeping its key and name.
    fn update(&mut self, handle: DefaultKey, info: ViewInfo)
        requires
            old(self).wf(),
            old(self).views_view().contains_key(key_id(handle)),
        ensures
            final(self).wf(),
            final(self).views_view() == old(self).views_view().insert(key_id(handle), info),
            final(self).names_view() == old(self).names_view(),
    {
        view_map_set(&mut self.views, handle, info);
        proof {
            assert(view_slots(self.views).dom() =~= view_slots(old(self).views).dom());
        }
    }

    /// Turns a live view on or off.
    pub fn set_enabled(&mut self, handle: DefaultKey, enabled: bool)
        requires
            old(self).wf(),
            old(self).views_view().contains_key(key_id(handle)),
        ensures
            final(self).wf(),
            final(self).views_view() == old(self).views_view().insert(
                key_id(handle),
                ViewInfo { enabled, ..old(self).views_view()[key_id(handle)] },
            ),
            final(self).names_view() == old(self).names_view(),
    {
        let mut info = match view_map_get(&self.views, handle) {
            Some(v) => v,
            None => {
                assert(false);
                return;
            },
        };
        info.enabled = enabled;
        self.update(handle, info);
    }

    /// Sets the role of a live view.
    pub fn set_role(&mut self, handle: DefaultKey, role: RenderViewRole)
        requires
            old(self).wf(),
            old(self).views_view().contains_key(key_id(handle)),
        ensures
            final(self).wf(),
            final(self).views_view() == old(self).views_view().insert(
                key_id(handle),
                ViewInfo { role, ..old(self).views_view()[key_id(handle)] },
            ),
            final(self).names_view() == old(self).names_view(),
    {
        let mut info = match view_map_get(&self.views, handle) {
            Some(v) => v,
            None => {
                assert(false);
                return;
            },
        };
        info.role = role;
        self.update(handle, info);
    }

    /// Sets the role of the view registered under `name`.
    pub fn set_role_from_name(&mut self, name: &str, role: RenderViewRole)
        requires
            old(self).wf(),
            has_name(old(self).names_view(), name@),
        ensures
            final(self).wf(),
            exists|id: u64| #[trigger] old(self).names_view().contains((name@, id)) && final(self).views_view() == old(self).views_view().insert(
                id,
                ViewInfo { role, ..old(self).views_view()[id] },
            ),
            final(self).names_view() == old(self).names_view(),
    {
        match self.handle_of(name) {
            Some(handle) => {
                self.set_role(handle, role);
            },
            None => {
                assert(false);
            },
        }
    }

    /// Points a live view at another scene.
    pub fn set_scene(&mut self, handle: DefaultKey, scene: DefaultKey)
        requires
            old(self).wf(),
            old(self).views_view().contains_key(key_id(handle)),
        ensures
            final(self).wf(),
            final(self).views_view() == old(self).views_view().insert(
                key_id(handle),
                ViewInfo { scene, ..old(self).views_view()[key_id(handle)] },
            ),
            final(self).names_view() == old(self).names_view(),
    {
        let mut info = match view_map_get(&self.views, handle) {
            Some(v) => v,
            None => {
                assert(false);
                return;
            },
        };
        info.scene = scene;
        self.update(handle, info);
    }

    /// Says whether the engine moves a live view's camera, or the game sets it whole.
    pub fn set_simulate_camera(&mut self, handle: DefaultKey, simulate: bool)
        requires
            old(self).wf(),
            old(self).views_view().contains_key(key_id(handle)),
        ensures
            final(self).wf(),
            final(self).views_view() == old(self).views_view().insert(
                key_id(handle),
                ViewInfo { simulate_camera: simulate, ..old(self).views_view()[key_id(handle)] },
            ),
            final(self).names_view() == old(self).names_view(),
    {
        let mut info = match view_map_get(&self.views, handle) {
            Some(v) => v,
            None => {
                assert(false);
                return;
            },
        };
        info.simulate_camera = simulate;
        self.update(handle, info);
    }

    /// The live views that `filter` keeps, each once, in slot order.
    pub fn handles(&self, filter: ViewFilter) -> (r: Vec<DefaultKey>)
        ensures
            lists_exactly(r@, Set::new(|id: u64| self.views_view().contains_key(id) && view_wanted(filter, self.views_view()[id]))),
            in_slot_order(r@),
    {
        let keys = view_map_keys(&self.views);
        let mut out: Vec<DefaultKey> = Vec::new();
        let ghost mut from: Seq<int> = Seq::empty();
        let mut i: usize = 0;
        while i < keys.len()
            invariant
                i <= keys@.len(),
                forall|a: int, b: int| 0 <= a < b < keys@.len() ==> key_id(keys@[a]) != key_id(keys@[b]),
                in_slot_order(keys@),
                forall|a: int| 0 <= a < keys@.len() ==> view_slots(self.views).contains_key(#[trigger] key_id(keys@[a])),
                from.len() == out@.len(),
                forall|a: int| 0 <= a < out@.len() ==> 0 <= #[trigger] from[a] < i && key_id(out@[a]) == key_id(keys@[from[a]]),
                forall|a: int, b: int| 0 <= a < b < from.len() ==> from[a] < from[b],
                forall|a: int| 0 <= a < out@.len() ==> view_wanted(filter, view_slots(self.views)[#[trigger] key_id(out@[a])]),
                forall|j: int| 0 <= j < i && view_wanted(filter, view_slots(self.views)[key_id(keys@[j])]) ==> exists|a: int| 0 <= a < from.len() && from[a] == j,
            decreases keys@.len() - i,
        {
            let ghost old_from = from;
            match view_map_get(&self.views, keys[i]) {
                Some(info) => {
                    if wanted(&filter, &info) {
                        out.push(keys[i]);
                        proof {
                            from = from.push(i as int);
                        }
                    }
                },
                None => {},
            }
            proof {
                assert forall|j: int| 0 <= j < i + 1 && view_wanted(filter, view_slots(self.views)[key_id(keys@[j])])
                    implies exists|a: int| 0 <= a < from.len() && from[a] == j by {
                    if j == i {
                        assert(from[from.len() - 1] == j);
                    } else {
                        let a = choose|a: int| 0 <= a < old_from.len() && old_from[a] == j;
                        assert(from[a] == j);
                    }
                }
            }
            i = i + 1;
        }
        proof {
            assert forall|a: int, b: int| 0 <= a < b < out@.len() implies key_id(out@[a]) != key_id(out@[b]) by {
                assert(from[a] < from[b]);
            }
            assert forall|a: int, b: int| 0 <= a < b < out@.len() implies slot_of(key_id(out@[a])) < slot_of(key_id(out@[b])) by {
                assert(from[a] < from[b]);
                assert(key_id(out@[a]) == key_id(keys@[from[a]]));
                assert(key_id(out@[b]) == key_id(keys@[from[b]]));
            }
            assert forall|a: int| 0 <= a < out@.len() implies self.views_view().contains_key(#[trigger] key_id(out@[a]))
                && view_wanted(filter, self.views_view()[key_id(out@[a])]) by {
                assert(key_id(out@[a]) == key_id(keys@[from[a]]));
                assert(view_slots(self.views).contains_key(key_id(keys@[from[a]])));
            }
            assert forall|id: u64| self.views_view().contains_key(id) && view_wanted(filter, self.views_view()[id])
                implies exists|a: int| 0 <= a < out@.len() && key_id(out@[a]) == id by {
                let j = choose|j: int| 0 <= j < keys@.len() && key_id(keys@[j]) == id;
                let a = choose|a: int| 0 <= a < from.len() && from[a] == j;
                assert(key_id(out@[a]) == id);
            }
        }
        out
    }

    /// The view that presents to the window: the live view in the first slot that is
    /// enabled, main, and on the window. `None` when no view is.
    pub fn presenting_handle(&self) -> (r: Option<DefaultKey>)
        ensures
            match r {
                Some(k) => self.views_view().contains_key(key_id(k)) && presents(self.views_view()[key_id(k)])
                    && forall|o: u64| #[trigger] self.views_view().contains_key(o) && presents(self.views_view()[o]) ==> slot_of(key_id(k)) <= slot_of(o),
                None => forall|id: u64| self.views_view().contains_key(id) ==> !presents(#[trigger] self.views_view()[id]),
            },
    {
        let keys = view_map_keys(&self.views);
        let mut i: usize = 0;
        while i < keys.len()
            invariant
                i <= keys@.len(),
                in_slot_order(keys@),
                forall|id: u64| view_slots(self.views).contains_key(id) ==> exists|a: int| 0 <= a < keys@.len() && key_id(keys@[a]) == id,
                forall|a: int| 0 <= a < keys@.len() ==> view_slots(self.views).contains_key(#[trigger] key_id(keys@[a])),
                forall|a: int| 0 <= a < i ==> !presents(view_slots(self.views)[#[trigger] key_id(keys@[a])]),
            decreases keys@.len() - i,
        {
            match view_map_get(&self.views, keys[i]) {
                Some(info) => {
                    if info.enabled && matches!(info.role, RenderViewRole::Main) && info.is_window {
                        proof {
                            assert forall|o: u64| #[trigger] view_slots(self.views).contains_key(o) && presents(view_slots(self.views)[o])
                                implies slot_of(key_id(keys@[i as int])) <= slot_of(o) by {
                                let j = choose|j: int| 0 <= j < keys@.len() && key_id(keys@[j]) == o;
                                if j < i {
                                    assert(!presents(view_slots(self.views)[key_id(keys@[j])]));
                                } else if j > i {
                                    assert(slot_of(key_id(keys@[i as int])) < slot_of(key_id(keys@[j])));
                                }
                            }
                        }
                        return Some(keys[i]);
                    }
                },
                None => {},
            }
            i = i + 1;
        }
        proof {
            assert forall|id: u64| self.views_view().contains_key(id) implies !presents(#[trigger] self.views_view()[id]) by {
                let j = choose|j: int| 0 <= j < keys@.len() && key_id(keys@[j]) == id;
                assert(!presents(view_slots(self.views)[key_id(keys@[j])]));
            }
        }
        None
    }
}

impl RenderViewHandler {
    /// Removes the view under `handle` and forgets its name. Returns its record, or
    /// `None` when it was not live.
    pub fn remove(&mut self, handle: DefaultKey) -> (r: Option<ViewInfo>)
        requires
            old(self).wf(),
        ensures
            final(self).wf(),
            match r {
                Some(v) => old(self).views_view().contains_key(key_id(handle)) && v == old(self).views_view()[key_id(handle)]
                    && final(self).views_view() == old(self).views_view().remove(key_id(handle))
                    && (forall|e: (Seq<char>, u64)| final(self).names_view().contains(e) <==> (old(self).names_view().contains(e) && e.1 != key_id(handle))),
                None => !old(self).views_view().contains_key(key_id(handle)) && final(self).views_view() == old(self).views_view()
                    && final(self).names_view() == old(self).names_view(),
            },
    {
        let removed = view_map_remove(&mut self.views, handle);
        match removed {
            None => None,
            Some(view) => {
                let kept = forget_key(&self.lookup, handle);
                self.lookup = kept;
                proof {
                    let lv = lookup_view(self.lookup@);
                    let old_lv = lookup_view(old(self).lookup@);
                    assert forall|e: (Seq<char>, u64)| lv.contains(e) <==> (old_lv.contains(e) && e.1 != key_id(handle)) by {
                        if lv.contains(e) {
                            let a = choose|a: int| 0 <= a < lv.len() && lv[a] == e;
                            assert(old_lv.contains(lv[a]));
                        }
                        if old_lv.contains(e) && e.1 != key_id(handle) {
                            let j = choose|j: int| 0 <= j < old_lv.len() && old_lv[j] == e;
                            assert(old_lv[j].1 == key_id(old(self).lookup@[j].1));
                            assert(lv.contains(old_lv[j]));
                        }
                    }
                    assert forall|i: int| 0 <= i < lv.len() implies view_slots(self.views).dom().contains(#[trigger] lv[i].1) by {
                        assert(old_lv.contains(lv[i]));
                        let j = choose|j: int| 0 <= j < old_lv.len() && old_lv[j] == lv[i];
                        assert(view_slots(old(self).views).dom().contains(old_lv[j].1));
                    }
                    assert forall|i: int, j: int| 0 <= i < j < lv.len() implies lv[i].0 != lv[j].0 by {
                        assert(lv[i].0 == self.lookup@[i].0@ && lv[j].0 == self.lookup@[j].0@);
                    }
                }
                Some(view)
            },
        }
    }

    /// Removes every view of `scene` and returns their handles, each once, in slot
    /// order. The other views and their names stay.
    pub fn remove_for_scene(&mut self, scene: DefaultKey) -> (r: Vec<DefaultKey>)
        requires
            old(self).wf(),
        ensures
            final(self).wf(),
            in_slot_order(r@),
            lists_exactly(
                r@,
                Set::new(|id: u64| old(self).views_view().contains_key(id) && key_id(old(self).views_view()[id].scene) == key_id(scene)),
            ),
            forall|id: u64| #[trigger] final(self).views_view().contains_key(id) <==> (old(self).views_view().contains_key(id)
                && key_id(old(self).views_view()[id].scene) != key_id(scene)),
            forall|id: u64| #[trigger] final(self).views_view().contains_key(id) ==> final(self).views_view()[id] == old(self).views_view()[id],
            forall|e: (Seq<char>, u64)| #[trigger] final(self).names_view().contains(e) <==> (old(self).names_view().contains(e)
                && !key_ids(r@).contains(e.1)),
    {
        let handles = self.handles(ViewFilter::OfScene(scene));
        let ghost start = *self;
        let mut i: usize = 0;
        while i < handles.len()
            invariant
                i <= handles@.len(),
                self.wf(),
                lists_exactly(
                    handles@,
                    Set::new(|id: u64| start.views_view().contains_key(id) && view_wanted(ViewFilter::OfScene(scene), start.views_view()[id])),
                ),
                forall|id: u64| #[trigger] self.views_view().contains_key(id) <==> (start.views_view().contains_key(id)
                    && !key_ids(handles@.take(i as int)).contains(id)),
                forall|id: u64| #[trigger] self.views_view().contains_key(id) ==> self.views_view()[id] == start.views_view()[id],
                forall|e: (Seq<char>, u64)| #[trigger] self.names_view().contains(e) <==> (start.names_view().contains(e)
                    && !key_ids(handles@.take(i as int)).contains(e.1)),
            decreases handles@.len() - i,
        {
            let ghost before = *self;
            let h = handles[i];
            let removed = self.remove(h);
            proof {
                let done = key_ids(handles@.take(i as int));
                let now = key_ids(handles@.take(i + 1));
                assert(now =~= done.push(key_id(h)));
                assert forall|id: u64| now.contains(id) <==> (done.contains(id) || id == key_id(h)) by {
                    if now.contains(id) {
                        let a = choose|a: int| 0 <= a < now.len() && now[a] == id;
                        if a < done.len() {
                            assert(done[a] == id);
                        }
                    }
                    if done.contains(id) {
                        let a = choose|a: int| 0 <= a < done.len() && done[a] == id;
                        assert(now[a] == id);
                    }
                    if id == key_id(h) {
                        assert(now[i as int] == id);
                    }
                }
                assert(start.views_view().contains_key(key_id(h)));
                if !done.contains(key_id(h)) {
                    assert(removed is Some);
                } else {
                    let a = choose|a: int| 0 <= a < done.len() && done[a] == key_id(h);
                    assert(key_id(handles@[a]) == key_id(handles@[i as int]));
                }
            }
            i = i + 1;
        }
        proof {
            assert(handles@.take(i as int) =~= handles@);
            let wanted_ids = Set::new(|id: u64| start.views_view().contains_key(id) && view_wanted(ViewFilter::OfScene(scene), start.views_view()[id]));
            let scene_ids = Set::new(|id: u64| start.views_view().contains_key(id) && key_id(start.views_view()[id].scene) == key_id(scene));
            assert(wanted_ids =~= scene_ids);
            assert forall|id: u64| #[trigger] self.views_view().contains_key(id) <==> (start.views_view().contains_key(id)
                && key_id(start.views_view()[id].scene) != key_id(scene)) by {
                if start.views_view().contains_key(id) && key_id(start.views_view()[id].scene) == key_id(scene) {
                    assert(wanted_ids.contains(id));
                    let a = choose|a: int| 0 <= a < handles@.len() && key_id(handles@[a]) == id;
                    assert(key_ids(handles@)[a] == id);
                }
                if key_ids(handles@).contains(id) {
                    let a = choose|a: int| 0 <= a < key_ids(handles@).len() && key_ids(handles@)[a] == id;
                    assert(key_id(handles@[a]) == id);
                    assert(wanted_ids.contains(key_id(handles@[a])));
                }
            }
        }
        handles
    }
}

/// The active gameplay scene, when one is set, is a live scene.
pub proof fn active_scene_is_live(scenes: &SceneHandler)
    requires
        scenes.wf(),
    ensures
        scenes.active_view() matches Some(id) ==> scenes.scenes_view().contains_key(id),
{
}

/// The scenes and the render views that look at them.
pub struct SceneGraph {
    scenes: SceneHandler,
    views: RenderViewHandler,
}

impl SceneGraph {
    pub closed spec fn scenes_spec(&self) -> SceneHandler {
        self.scenes
    }

    pub closed spec fn views_spec(&self) -> RenderViewHandler {
        self.views
    }

    /// Both registries are well formed, and every view looks at a live scene.
    pub closed spec fn wf(&self) -> bool {
        &&& self.scenes.wf()
        &&& self.views.wf()
        &&& forall|id: u64| #[trigger] self.views.views_view().contains_key(id) ==> self.scenes.scenes_view().contains_key(
            key_id(self.views.views_view()[id].scene),
        )
    }

    /// No scenes and no views.
    pub fn new() -> (r: SceneGraph)
        ensures
            r.wf(),
            r.scenes_spec().scenes_view().dom() == Set::<u64>::empty(),
            r.views_spec().views_view().dom() == Set::<u64>::empty(),
            r.scenes_spec().active_view() is None,
    {
        SceneGraph { scenes: SceneHandler::new(), views: RenderViewHandler::new() }
    }

    /// The scenes.
    pub fn scenes(&self) -> (r: &SceneHandler)
        ensures
            *r == self.scenes_spec(),
    {
        &self.scenes
    }

    /// The render views.
    pub fn views(&self) -> (r: &RenderViewHandler)
        ensures
            *r == self.views_spec(),
    {
        &self.views
    }

    /// Creates a simulating scene called `name`; the first scene becomes active. The
    /// name must not be in use.
    pub fn new_scene(&mut self, name: &str) -> (handle: DefaultKey)
        requires
            old(self).wf(),
            !has_name(old(self).scenes_spec().names_view(), name@),
            old(self).scenes_spec().scenes_view().dom().len() + 2 <= u32::MAX,
        ensures
            final(self).wf(),
            !old(self).scenes_spec().scenes_view().contains_key(key_id(handle)),
            final(self).scenes_spec().scenes_view() == old(self).scenes_spec().scenes_view().insert(
                key_id(handle),
                final(self).scenes_spec().scenes_view()[key_id(handle)],
            ),
            final(self).scenes_spec().scenes_view()[key_id(handle)].name@ == name@,
            final(self).scenes_spec().scenes_view()[key_id(handle)].state == SceneState::Simulating,
            final(self).scenes_spec().names_view() == old(self).scenes_spec().names_view().push((name@, key_id(handle))),
            final(self).scenes_spec().active_view() == if old(self).scenes_spec().scenes_view().dom().len() == 0 {
                Some(key_id(handle))
            } else {
                old(self).scenes_spec().active_view()
            },
            final(self).views_spec() == old(self).views_spec(),
    {
        self.scenes.new_scene(name)
    }

    /// Sets the state of a scene; false when it is not live.
    pub fn set_scene_state(&mut self, handle: DefaultKey, state: SceneState) -> (r: bool)
        requires
            old(self).wf(),
        ensures
            final(self).wf(),
            r == old(self).scenes_spec().scenes_view().contains_key(key_id(handle)),
            r ==> final(self).scenes_spec().scenes_view() == old(self).scenes_spec().scenes_view().insert(
                key_id(handle),
                SceneInfo { name: old(self).scenes_spec().scenes_view()[key_id(handle)].name, state },
            ),
            !r ==> final(self).scenes_spec().scenes_view() == old(self).scenes_spec().scenes_view(),
            final(self).scenes_spec().active_view() == old(self).scenes_spec().active_view(),
            final(self).views_spec() == old(self).views_spec(),
    {
        self.scenes.set_state(handle, state)
    }

    /// Makes a live scene the active gameplay scene.
    pub fn set_active_gameplay_scene(&mut self, handle: DefaultKey)
        requires
            old(self).wf(),
            old(self).scenes_spec().scenes_view().contains_key(key_id(handle)),
        ensures
            final(self).wf(),
            final(self).scenes_spec().active_view() == Some(key_id(handle)),
            final(self).scenes_spec().scenes_view() == old(self).scenes_spec().scenes_view(),
            final(self).views_spec() == old(self).views_spec(),
    {
        self.scenes.set_active_gameplay_scene(handle)
    }

    /// Creates an enabled view called `name` of a live scene. The name must not be in use.
    pub fn new_render_view(&mut self, name: &str, scene: DefaultKey, role: RenderViewRole, is_window: bool) -> (handle: DefaultKey)
        requires
            old(self).wf(),
            old(self).scenes_spec().scenes_view().contains_key(key_id(scene)),
            !has_name(old(self).views_spec().names_view(), name@),
            old(self).views_spec().views_view().dom().len() + 2 <= u32::MAX,
        ensures
            final(self).wf(),
            !old(self).views_spec().views_view().contains_key(key_id(handle)),
            final(self).views_spec().views_view() == old(self).views_spec().views_view().insert(
                key_id(handle),
                ViewInfo { scene, enabled: true, role, is_window, simulate_camera: true },
            ),
            final(self).views_spec().names_view() == old(self).views_spec().names_view().push((name@, key_id(handle))),
            final(self).scenes_spec() == old(self).scenes_spec(),
    {
        self.views.new_view(scene, name, role, is_window)
    }

    /// Points a live view at another live scene.
    pub fn set_render_view_scene(&mut self, view: DefaultKey, scene: DefaultKey)
        requires
            old(self).wf(),
            old(self).views_spec().views_view().contains_key(key_id(view)),
            old(self).scenes_spec().scenes_view().contains_key(key_id(scene)),
        ensures
            final(self).wf(),
            final(self).views_spec().views_view() == old(self).views_spec().views_view().insert(
                key_id(view),
                ViewInfo { scene, ..old(self).views_spec().views_view()[key_id(view)] },
            ),
            final(self).scenes_spec() == old(self).scenes_spec(),
    {
        self.views.set_scene(view, scene)
    }

    /// Turns a live view on or off.
    pub fn set_view_enabled(&mut self, view: DefaultKey, enabled: bool)
        requires
            old(self).wf(),
            old(self).views_spec().views_view().contains_key(key_id(view)),
        ensures
            final(self).wf(),
            final(self).views_spec().views_view() == old(self).views_spec().views_view().insert(
                key_id(view),
                ViewInfo { enabled, ..old(self).views_spec().views_view()[key_id(view)] },
            ),
            final(self).scenes_spec() == old(self).scenes_spec(),
    {
        self.views.set_enabled(view, enabled)
    }

    /// Sets the role of a live view.
    pub fn set_view_role(&mut self, view: DefaultKey, role: RenderViewRole)
        requires
            old(self).wf(),
            old(self).views_spec().views_view().contains_key(key_id(view)),
        ensures
            final(self).wf(),
            final(self).views_spec().views_view() == old(self).views_spec().views_view().insert(
                key_id(view),
                ViewInfo { role, ..old(self).views_spec().views_view()[key_id(view)] },
            ),
            final(self).scenes_spec() == old(self).scenes_spec(),
    {
        self.views.set_role(view, role)
    }

    /// Removes a render view; false when it was not live.
    pub fn remove_render_view(&mut self, view: DefaultKey) -> (r: bool)
        requires
            old(self).wf(),
        ensures
            final(self).wf(),
            r == old(self).views_spec().views_view().contains_key(key_id(view)),
            final(self).views_spec().views_view() == old(self).views_spec().views_view().remove(key_id(view)),
            final(self).scenes_spec() == old(self).scenes_spec(),
    {
        let removed = self.views.remove(view);
        proof {
            if removed is None {
                assert(self.views.views_view() =~= old(self).views.views_view().remove(key_id(view)));
            }
        }
        removed.is_some()
    }

    /// Removes a scene together with the views that look at it. Returns whether the
    /// scene was live, and the removed views, each once, in slot order. When the scene
    /// was the active gameplay scene, the live scene in the first slot becomes active.
    pub fn remove_scene(&mut self, scene: DefaultKey) -> (r: (bool, Vec<DefaultKey>))
        requires
            old(self).wf(),
        ensures
            final(self).wf(),
            r.0 == old(self).scenes_spec().scenes_view().contains_key(key_id(scene)),
            final(self).scenes_spec().scenes_view() == old(self).scenes_spec().scenes_view().remove(key_id(scene)),
            lists_exactly(
                r.1@,
                Set::new(|id: u64| old(self).views_spec().views_view().contains_key(id)
                    && key_id(old(self).views_spec().views_view()[id].scene) == key_id(scene)),
            ),
            forall|id: u64| #[trigger] final(self).views_spec().views_view().contains_key(id) <==> (
                old(self).views_spec().views_view().contains_key(id)
                && key_id(old(self).views_spec().views_view()[id].scene) != key_id(scene)),
            forall|id: u64| #[trigger] final(self).views_spec().views_view().contains_key(id)
                ==> final(self).views_spec().views_view()[id] == old(self).views_spec().views_view()[id],
            in_slot_order(r.1@),
            if old(self).scenes_spec().active_view() == Some(key_id(scene)) {
                match final(self).scenes_spec().active_view() {
                    Some(id) => final(self).scenes_spec().scenes_view().contains_key(id) && forall|o: u64|
                        #[trigger] final(self).scenes_spec().scenes_view().contains_key(o) ==> slot_of(id) <= slot_of(o),
                    None => final(self).scenes_spec().scenes_view().dom().len() == 0,
                }
            } else {
                final(self).scenes_spec().active_view() == old(self).scenes_spec().active_view()
            },
    {
        let dependent = self.views.remove_for_scene(scene);
        let removed = self.scenes.remove(scene);
        proof {
            if removed is None {
                assert(self.scenes.scenes_view() =~= old(self).scenes.scenes_view().remove(key_id(scene)));
            }
            assert forall|id: u64| #[trigger] self.views.views_view().contains_key(id) implies self.scenes.scenes_view().contains_key(
                key_id(self.views.views_view()[id].scene),
            ) by {
                assert(old(self).views.views_view().contains_key(id));
                assert(old(self).scenes.scenes_view().contains_key(key_id(old(self).views.views_view()[id].scene)));
            }
        }
        (removed.is_some(), dependent)
    }
}

/// Every render view looks at a live scene.
pub proof fn views_show_live_scenes(graph: &SceneGraph)
    requires
        graph.wf(),
    ensures
        forall|id: u64| #[trigger] graph.views_spec().views_view().contains_key(id) ==> graph.scenes_spec().scenes_view().contains_key(
            key_id(graph.views_spec().views_view()[id].scene),
        ),
{
}

} // verus!
