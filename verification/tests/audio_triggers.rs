use sparmos::synth::{key_command, AudioCommand, AudioEffect, AudioTrigger, AudioTriggers};

#[test]
fn commands_act_on_the_sound_of_their_trigger() {
    let mut table = AudioTriggers::new();
    assert_eq!(table.apply(&AudioCommand::Add(AudioTrigger::keyboard(30), "a")), AudioEffect::Inserted);
    assert_eq!(table.apply(&AudioCommand::Add(AudioTrigger::gamelogic("jump"), "b")), AudioEffect::Inserted);
    assert_eq!(table.apply::<&str>(&AudioCommand::Play(AudioTrigger::keyboard(30))), AudioEffect::Start(0));
    assert_eq!(table.apply::<&str>(&AudioCommand::Stop(AudioTrigger::gamelogic("jump"))), AudioEffect::Release(1));
    assert_eq!(table.apply::<&str>(&AudioCommand::ForcePlay(AudioTrigger::gamelogic("jump"))), AudioEffect::ForceStart(1));
    assert_eq!(table.apply(&AudioCommand::Edit(AudioTrigger::keyboard(30), "c")), AudioEffect::Update(0));
}

#[test]
fn unknown_triggers_are_ignored_and_adding_twice_keeps_the_first() {
    let mut table = AudioTriggers::new();
    assert_eq!(table.apply::<u8>(&AudioCommand::Play(AudioTrigger::keyboard(1))), AudioEffect::Ignored);
    assert_eq!(table.apply(&AudioCommand::Edit(AudioTrigger::gamelogic("x"), 1u8)), AudioEffect::Ignored);
    assert_eq!(table.apply(&AudioCommand::Add(AudioTrigger::gamelogic("x"), 1u8)), AudioEffect::Inserted);
    assert_eq!(table.apply(&AudioCommand::Add(AudioTrigger::gamelogic("x"), 2u8)), AudioEffect::Ignored);
    assert_eq!(table.apply::<u8>(&AudioCommand::Play(AudioTrigger::gamelogic("x"))), AudioEffect::Start(0));
    assert_eq!(table.apply::<u8>(&AudioCommand::Play(AudioTrigger::gamelogic("y"))), AudioEffect::Ignored);
}

#[test]
fn key_presses_play_and_releases_stop() {
    match key_command::<()>(true, 44) {
        AudioCommand::Play(t) => assert_eq!(t, AudioTrigger::Keyboard(44)),
        _ => panic!("a press plays"),
    }
    match key_command::<()>(false, 44) {
        AudioCommand::Stop(t) => assert_eq!(t, AudioTrigger::Keyboard(44)),
        _ => panic!("a release stops"),
    }
}
