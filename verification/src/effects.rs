//! The post-processing chain: which effects run, in the order they were added. Adding an
//! effect that is already in the chain keeps its place.
use vstd::prelude::*;
use indexmap::IndexMap;
use crate::render::Effect;

verus! {

/// The chain's effects as an insertion-ordered map from effect code to nothing.
#[verifier::external_body]
pub struct EffectSlots {
    map: IndexMap<u8, ()>,
}

/// The keys of the map, in its order.
pub uninterp spec fn effect_codes(m: EffectSlots) -> Seq<u8>;

/// `IndexMap::new`: an empty map.
#[verifier::external_body]
fn slots_new() -> (r: EffectSlots)
    ensures
        effect_codes(r).len() == 0,
{
    EffectSlots { map: IndexMap::new() }
}

/// `IndexMap::insert`: a key already in the map keeps its place (and the call returns the
/// old value); a new key is inserted last. Returns whether the key was there.
#[verifier::external_body]
fn slots_insert(m: &mut EffectSlots, code: u8) -> (r: bool)
    ensures
        r == effect_codes(*old(m)).contains(code),
        r ==> effect_codes(*final(m)) == effect_codes(*old(m)),
        !r ==> effect_codes(*final(m)) == effect_codes(*old(m)).push(code),
{
    match m.map.insert(code, ()) {
        Some(_) => true,
        None => false,
    }
}

/// `IndexMap::len`.
#[verifier::external_body]
fn slots_len(m: &EffectSlots) -> (r: usize)
    ensures
        r == effect_codes(*m).len(),
{
    m.map.len()
}

/// `IndexMap::get_index`, keeping the key: the key at position `i`, if there is one.
#[verifier::external_body]
fn slots_key_at(m: &EffectSlots, i: usize) -> (r: Option<u8>)
    ensures
        r == if i < effect_codes(*m).len() {
            Some(effect_codes(*m)[i as int])
        } else {
            None::<u8>
        },
{
    m.map.get_index(i).map(|(k, _)| *k)
}

/// `IndexMap::get_index_of`: the position of the key, if it is in the map.
#[verifier::external_body]
fn slots_position(m: &EffectSlots, code: u8) -> (r: Option<usize>)
    ensures
        match r {
            Some(i) => i < effect_codes(*m).len() && effect_codes(*m)[i as int] == code,
            None => !effect_codes(*m).contains(code),
        },
{
    m.map.get_index_of(&code)
}

/// The number that stands for an effect in the chain's map.
pub open spec fn effect_code(e: Effect) -> u8 {
    match e {
        Effect::Passthrough => 0,
        Effect::ChromaticAberration => 1,
        Effect::ChromaticTwo => 2,
    }
}

/// The effect a code stands for.
pub open spec fn code_effect(c: u8) -> Effect {
    if c == 0 {
        Effect::Passthrough
    } else if c == 1 {
        Effect::ChromaticAberration
    } else {
        Effect::ChromaticTwo
    }
}

fn code_of(e: Effect) -> (r: u8)
    ensures
        r == effect_code(e),
{
    match e {
        Effect::Passthrough => 0,
        Effect::ChromaticAberration => 1,
        Effect::ChromaticTwo => 2,
    }
}

fn effect_of(c: u8) -> (r: Effect)
    ensures
        r == code_effect(c),
{
    if c == 0 {
        Effect::Passthrough
    } else if c == 1 {
        Effect::ChromaticAberration
    } else {
        Effect::ChromaticTwo
    }
}

/// The post-processing effects that run after the scene, in order.
pub struct EffectChain {
    slots: EffectSlots,
}

impl EffectChain {
    /// The effects, in the order they run.
    pub closed spec fn view(&self) -> Seq<Effect> {
        effect_codes(self.slots).map_values(|c: u8| code_effect(c))
    }

    /// Every code stands for an effect, and each occurs once.
    pub closed spec fn wf(&self) -> bool {
        &&& forall|i: int| 0 <= i < effect_codes(self.slots).len() ==> #[trigger] effect_codes(self.slots)[i] < 3
        &&& effect_codes(self.slots).no_duplicates()
    }

    /// An empty chain: the scene goes straight to the screen.
    pub fn new() -> (r: EffectChain)
        ensures
            r.wf(),
            r@ == Seq::<Effect>::empty(),
    {
        let r = EffectChain { slots: slots_new() };
        assert(r@ =~= Seq::<Effect>::empty());
        r
    }

    /// Adds an effect: one already in the chain keeps its place, a new one runs last.
    /// Returns the effect's position in the chain.
    pub fn add(&mut self, effect: Effect) -> (r: usize)
        requires
            old(self).wf(),
        ensures
            final(self).wf(),
            old(self)@.contains(effect) ==> final(self)@ == old(self)@ && r < old(self)@.len() && old(self)@[r as int] == effect,
            !old(self)@.contains(effect) ==> final(self)@ == old(self)@.push(effect) && r == old(self)@.len(),
    {
        let code = code_of(effect);
        let ghost before = effect_codes(self.slots);
        proof {
            assert forall|c: u8| c < 3 implies (code_effect(c) == effect <==> c == effect_code(effect)) by {}
            if self@.contains(effect) {
                let i = choose|i: int| 0 <= i < self@.len() && self@[i] == effect;
                assert(before[i] < 3);
                assert(before[i] == code);
                assert(before.contains(code));
            }
            if before.contains(code) {
                let i = choose|i: int| 0 <= i < before.len() && before[i] == code;
                assert(self@[i] == effect);
            }
        }
        match slots_position(&self.slots, code) {
            Some(i) => {
                let present = slots_insert(&mut self.slots, code);
                proof {
                    assert(self@[i as int] == code_effect(code));
                }
                i
            },
            None => {
                let n = slots_len(&self.slots);
                let present = slots_insert(&mut self.slots, code);
                proof {
                    assert(self@ =~= old(self)@.push(effect));
                    let after = effect_codes(self.slots);
                    assert forall|i: int, j: int| 0 <= i < after.len() && 0 <= j < after.len() && i != j implies after[i] != after[j] by {
                        if i < before.len() && j < before.len() {
                            assert(after[i] == before[i] && after[j] == before[j]);
                        } else if i == before.len() {
                            assert(before[j] == after[j]);
                            assert(!before.contains(code));
                        } else {
                            assert(before[i] == after[i]);
                            assert(!before.contains(code));
                        }
                    }
                }
                n
            },
        }
    }

    /// The number of effects.
    pub fn len(&self) -> (r: usize)
        ensures
            r == self@.len(),
    {
        slots_len(&self.slots)
    }

    /// The position of an effect in the chain, if it is there.
    pub fn position(&self, effect: Effect) -> (r: Option<usize>)
        requires
            self.wf(),
        ensures
            match r {
                Some(i) => i < self@.len() && self@[i as int] == effect,
                None => !self@.contains(effect),
            },
    {
        let code = code_of(effect);
        let r = slots_position(&self.slots, code);
        proof {
            let codes = effect_codes(self.slots);
            if self@.contains(effect) {
                let i = choose|i: int| 0 <= i < self@.len() && self@[i] == effect;
                assert(codes[i] < 3);
                assert(codes[i] == code);
                assert(codes.contains(code));
            }
        }
        r
    }

    /// The effects, in the order they run.
    pub fn effects(&self) -> (r: Vec<Effect>)
        ensures
            r@ == self@,
    {
        let n = slots_len(&self.slots);
        let mut r: Vec<Effect> = Vec::new();
        let mut i: usize = 0;
        while i < n
            invariant
                i <= n,
                n == effect_codes(self.slots).len(),
                r@ == effect_codes(self.slots).take(i as int).map_values(|c: u8| code_effect(c)),
            decreases n - i,
        {
            match slots_key_at(&self.slots, i) {
                Some(c) => {
                    r.push(effect_of(c));
                },
                None => {},
            }
            assert(effect_codes(self.slots).take(i + 1) =~= effect_codes(self.slots).take(i as int).push(
                effect_codes(self.slots)[i as int],
            ));
            i = i + 1;
        }
        assert(effect_codes(self.slots).take(n as int) =~= effect_codes(self.slots));
        r
    }
}

/// Each effect runs at most once in a chain.
pub proof fn effects_run_once(chain: &EffectChain)
    requires
        chain.wf(),
    ensures
        forall|i: int, j: int| 0 <= i < j < chain@.len() ==> chain@[i] != chain@[j],
{
    let codes = effect_codes(chain.slots);
    assert forall|i: int, j: int| 0 <= i < j < chain@.len() implies chain@[i] != chain@[j] by {
        assert(codes[i] < 3 && codes[j] < 3);
        assert(codes[i] != codes[j]);
    }
}

} // verus!
