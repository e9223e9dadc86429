use sparmos::effects::EffectChain;
use sparmos::render::Effect;

#[test]
fn a_new_chain_is_empty() {
    let chain = EffectChain::new();
    assert_eq!(chain.len(), 0);
    assert!(chain.effects().is_empty());
    assert_eq!(chain.position(Effect::Passthrough), None);
}

#[test]
fn new_effects_run_last() {
    let mut chain = EffectChain::new();
    assert_eq!(chain.add(Effect::ChromaticTwo), 0);
    assert_eq!(chain.add(Effect::Passthrough), 1);
    assert_eq!(chain.add(Effect::ChromaticAberration), 2);
    assert_eq!(
        chain.effects(),
        vec![Effect::ChromaticTwo, Effect::Passthrough, Effect::ChromaticAberration]
    );
    assert_eq!(chain.len(), 3);
}

#[test]
fn an_effect_added_again_keeps_its_place() {
    let mut chain = EffectChain::new();
    chain.add(Effect::ChromaticAberration);
    chain.add(Effect::Passthrough);
    assert_eq!(chain.add(Effect::ChromaticAberration), 0);
    assert_eq!(chain.effects(), vec![Effect::ChromaticAberration, Effect::Passthrough]);
    assert_eq!(chain.len(), 2);
}

#[test]
fn positions_follow_the_order_of_adding() {
    let mut chain = EffectChain::new();
    chain.add(Effect::Passthrough);
    chain.add(Effect::ChromaticTwo);
    assert_eq!(chain.position(Effect::Passthrough), Some(0));
    assert_eq!(chain.position(Effect::ChromaticTwo), Some(1));
    assert_eq!(chain.position(Effect::ChromaticAberration), None);
}
