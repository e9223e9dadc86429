//! The playback state of a sound's envelope, and how start, release and forced start
//! change it.
use vstd::prelude::*;
use crate::text::str_equals;

verus! {

/// Where a sound's envelope is: attack/decay/sustain, release, or silent.
#[derive(Clone, Copy, Debug, Default, PartialEq, Eq, Structural)]
pub enum AudioState {
    Playing,
    Stopping,
    #[default]
    Stopped,
}

/// The waveforms an oscillator can produce.
#[derive(Clone, Copy, Debug, Default, PartialEq, Eq, Structural)]
pub enum Waveform {
    #[default]
    SineWave,
    SquareWave,
    TriangleWave,
    SawtoothWave,
}

/// A state change of an envelope: the new state, and whether the envelope restarts
/// (its clock goes back to zero and its current gain becomes the gain it starts from).
#[derive(Clone, Copy, Debug, PartialEq, Eq, Structural)]
pub struct Transition {
    pub state: AudioState,
    pub restart: bool,
}

impl AudioState {
    pub open spec fn spec_start(self) -> Transition {
        Transition { state: AudioState::Playing, restart: self != AudioState::Playing }
    }

    pub open spec fn spec_release(self) -> Transition {
        Transition { state: AudioState::Stopping, restart: self != AudioState::Stopping }
    }

    /// Starting a sound: it plays, restarting unless it was already playing.
    pub fn start(self) -> (r: Transition)
        ensures
            r == self.spec_start(),
    {
        Transition { state: AudioState::Playing, restart: !matches!(self, AudioState::Playing) }
    }

    /// Starting a sound even if it plays: it plays from the start.
    pub fn force_start(self) -> (r: Transition)
        ensures
            r == (Transition { state: AudioState::Playing, restart: true }),
    {
        Transition { state: AudioState::Playing, restart: true }
    }

    /// Releasing a sound: it fades out, restarting the fade unless it was already fading.
    pub fn release(self) -> (r: Transition)
        ensures
            r == self.spec_release(),
    {
        Transition { state: AudioState::Stopping, restart: !matches!(self, AudioState::Stopping) }
    }

    /// Whether the mixer reads samples from a sound in this state.
    pub fn is_audible(self) -> (r: bool)
        ensures
            r == (self != AudioState::Stopped),
    {
        !matches!(self, AudioState::Stopped)
    }
}

/// Starting a sound that was just started does not restart it again, and neither does
/// releasing one that was just released.
pub proof fn transitions_are_idempotent(s: AudioState)
    ensures
        !s.spec_start().state.spec_start().restart,
        s.spec_start().state.spec_start() == s.spec_start().state.spec_start().state.spec_start(),
        !s.spec_release().state.spec_release().restart,
        s.spec_release().state.spec_release() == s.spec_release().state.spec_release().state.spec_release(),
{
}

/// Starting a sound always leaves it playing, and restarts its envelope exactly when it
/// was not playing: a silent sound and one that is fading out both begin their attack
/// again. Releasing always leaves it fading out, restarting the fade exactly when it was
/// not already fading. A forced start always restarts.
pub proof fn start_restarts_unless_playing(s: AudioState)
    ensures
        s.spec_start().state == AudioState::Playing,
        s.spec_start().restart <==> s != AudioState::Playing,
        AudioState::Stopping.spec_start().restart,
        AudioState::Stopped.spec_start().restart,
        !AudioState::Playing.spec_start().restart,
        s.spec_release().state == AudioState::Stopping,
        s.spec_release().restart <==> s != AudioState::Stopping,
        s.spec_release().state.spec_start().restart,
        s.spec_start().state.spec_release().restart,
{
}

/// What a sound is played by: a key, by its code, or a name the game logic uses.
#[derive(Clone, Debug, PartialEq, Eq, Hash)]
pub enum AudioTrigger {
    Keyboard(u32),
    GameLogic(String),
}

/// A trigger as a value.
pub enum TriggerKey {
    Keyboard(u32),
    GameLogic(Seq<char>),
}

impl AudioTrigger {
    pub open spec fn key(&self) -> TriggerKey {
        match self {
            AudioTrigger::Keyboard(code) => TriggerKey::Keyboard(*code),
            AudioTrigger::GameLogic(name) => TriggerKey::GameLogic(name@),
        }
    }

    /// The trigger that game logic calls `name`.
    pub fn gamelogic(name: &str) -> (r: AudioTrigger)
        ensures
            r.key() == TriggerKey::GameLogic(name@),
    {
        AudioTrigger::GameLogic(name.to_owned())
    }

    /// A copy of the trigger.
    pub fn copy(&self) -> (r: AudioTrigger)
        ensures
            r.key() == self.key(),
    {
        match self {
            AudioTrigger::Keyboard(code) => AudioTrigger::Keyboard(*code),
            AudioTrigger::GameLogic(name) => AudioTrigger::GameLogic(name.clone()),
        }
    }

    /// The trigger of the key with this code.
    pub fn keyboard(keycode: u32) -> (r: AudioTrigger)
        ensures
            r == AudioTrigger::Keyboard(keycode),
    {
        AudioTrigger::Keyboard(keycode)
    }

    fn same(&self, other: &AudioTrigger) -> (r: bool)
        ensures
            r == (self.key() == other.key()),
    {
        match (self, other) {
            (AudioTrigger::Keyboard(a), AudioTrigger::Keyboard(b)) => *a == *b,
            (AudioTrigger::GameLogic(a), AudioTrigger::GameLogic(b)) => str_equals(a.as_str(), b.as_str()),
            _ => false,
        }
    }
}

/// A command to the audio engine; the sounds it carries are of type `S`.
pub enum AudioCommand<S> {
    ForcePlay(AudioTrigger),
    Play(AudioTrigger),
    Stop(AudioTrigger),
    /// Replaces the settings of a sound.
    Edit(AudioTrigger, S),
    /// Adds a sound, unless the trigger has one.
    Add(AudioTrigger, S),
}

/// The key event of a key with a code: a press plays its sound, a release stops it.
pub fn key_command<S>(pressed: bool, keycode: u32) -> (r: AudioCommand<S>)
    ensures
        pressed ==> (r matches AudioCommand::Play(t) && t == AudioTrigger::Keyboard(keycode)),
        !pressed ==> (r matches AudioCommand::Stop(t) && t == AudioTrigger::Keyboard(keycode)),
{
    if pressed {
        AudioCommand::Play(AudioTrigger::Keyboard(keycode))
    } else {
        AudioCommand::Stop(AudioTrigger::Keyboard(keycode))
    }
}

/// What a command does to the sounds, by their position in the table.
#[derive(Clone, Copy, Debug, PartialEq, Eq, Structural)]
pub enum AudioEffect {
    /// The sound starts.
    Start(usize),
    /// The sound is released.
    Release(usize),
    /// The sound starts from the beginning.
    ForceStart(usize),
    /// The sound takes the command's settings.
    Update(usize),
    /// The command's sound was added at the end.
    Inserted,
    /// The command has no effect.
    Ignored,
}

/// The triggers that have sounds, in the order their sounds were added. The sounds
/// themselves sit at the same positions in the caller's list.
pub struct AudioTriggers {
    triggers: Vec<AudioTrigger>,
}

/// Where `key` sits in `keys`, if it does.
pub open spec fn trigger_position(keys: Seq<TriggerKey>, key: TriggerKey) -> Option<int> {
    if exists|i: int| 0 <= i < keys.len() && keys[i] == key {
        Some(choose|i: int| 0 <= i < keys.len() && keys[i] == key)
    } else {
        None
    }
}

/// The effect on the sound at `position` of a command for a trigger that has one.
pub open spec fn effect_on<S>(cmd: AudioCommand<S>, position: usize) -> AudioEffect {
    match cmd {
        AudioCommand::ForcePlay(_) => AudioEffect::ForceStart(position),
        AudioCommand::Play(_) => AudioEffect::Start(position),
        AudioCommand::Stop(_) => AudioEffect::Release(position),
        AudioCommand::Edit(..) => AudioEffect::Update(position),
        AudioCommand::Add(..) => AudioEffect::Ignored,
    }
}

pub open spec fn command_trigger<S>(cmd: AudioCommand<S>) -> AudioTrigger {
    match cmd {
        AudioCommand::ForcePlay(t) => t,
        AudioCommand::Play(t) => t,
        AudioCommand::Stop(t) => t,
        AudioCommand::Edit(t, _) => t,
        AudioCommand::Add(t, _) => t,
    }
}

impl AudioTriggers {
    pub closed spec fn view(&self) -> Seq<TriggerKey> {
        self.triggers@.map_values(|t: AudioTrigger| t.key())
    }

    /// No trigger has two sounds.
    pub closed spec fn wf(&self) -> bool {
        forall|i: int, j: int| 0 <= i < j < self.triggers@.len() ==> self.triggers@[i].key() != self.triggers@[j].key()
    }

    pub fn new() -> (r: AudioTriggers)
        ensures
            r.wf(),
            r@ == Seq::<TriggerKey>::empty(),
    {
        let r = AudioTriggers { triggers: Vec::new() };
        assert(r@ =~= Seq::<TriggerKey>::empty());
        r
    }

    fn position(&self, trigger: &AudioTrigger) -> (r: Option<usize>)
        requires
            self.wf(),
        ensures
            match r {
                Some(i) => trigger_position(self@, trigger.key()) == Some(i as int) && i < self@.len(),
                None => trigger_position(self@, trigger.key()) is None,
            },
    {
        let mut i: usize = 0;
        while i < self.triggers.len()
            invariant
                i <= self.triggers@.len(),
                self.wf(),
                forall|j: int| 0 <= j < i ==> self.triggers@[j].key() != trigger.key(),
            decreases self.triggers@.len() - i,
        {
            if self.triggers[i].same(trigger) {
                proof {
                    assert(self@[i as int] == trigger.key());
                    let k = choose|k: int| 0 <= k < self@.len() && self@[k] == trigger.key();
                    if k != i {
                        if k < i {
                            assert(self.triggers@[k].key() != self.triggers@[i as int].key());
                        } else {
                            assert(self.triggers@[i as int].key() != self.triggers@[k].key());
                        }
                    }
                }
                return Some(i);
            }
            i = i + 1;
        }
        proof {
            if exists|k: int| 0 <= k < self@.len() && self@[k] == trigger.key() {
                let k = choose|k: int| 0 <= k < self@.len() && self@[k] == trigger.key();
                assert(self.triggers@[k].key() == trigger.key());
            }
        }
        None
    }

    /// Applies a command: a command for a trigger without a sound does nothing; `Add`
    /// adds the trigger only when it has no sound yet; the others act on the trigger's
    /// sound.
    pub fn apply<S>(&mut self, cmd: &AudioCommand<S>) -> (r: AudioEffect)
        requires
            old(self).wf(),
        ensures
            final(self).wf(),
            match trigger_position(old(self)@, command_trigger(*cmd).key()) {
                Some(i) => r == effect_on(*cmd, i as usize) && final(self)@ == old(self)@,
                None => if *cmd is Add {
                    r == AudioEffect::Inserted && final(self)@ == old(self)@.push(command_trigger(*cmd).key())
                } else {
                    r == AudioEffect::Ignored && final(self)@ == old(self)@
                },
            },
    {
        let trigger = match cmd {
            AudioCommand::ForcePlay(t) => t,
            AudioCommand::Play(t) => t,
            AudioCommand::Stop(t) => t,
            AudioCommand::Edit(t, _) => t,
            AudioCommand::Add(t, _) => t,
        };
        match self.position(trigger) {
            Some(i) => match cmd {
                AudioCommand::ForcePlay(_) => AudioEffect::ForceStart(i),
                AudioCommand::Play(_) => AudioEffect::Start(i),
                AudioCommand::Stop(_) => AudioEffect::Release(i),
                AudioCommand::Edit(..) => AudioEffect::Update(i),
                AudioCommand::Add(..) => AudioEffect::Ignored,
            },
            None => match cmd {
                AudioCommand::Add(t, _) => {
                    let ghost before = self.triggers@;
                    self.triggers.push(t.copy());
                    proof {
                        assert forall|a: int, b: int| 0 <= a < b < self.triggers@.len() implies self.triggers@[a].key()
                            != self.triggers@[b].key() by {
                            if b == before.len() {
                                assert(old(self)@[a] == before[a].key());
                            } else {
                                assert(before[a] == self.triggers@[a] && before[b] == self.triggers@[b]);
                            }
                        }
                    }
                    assert(self@ =~= old(self)@.push(command_trigger(*cmd).key()));
                    AudioEffect::Inserted
                },
                _ => AudioEffect::Ignored,
            },
        }
    }
}


/// For a trigger that has a sound, playing starts the sound, stopping releases, forcing restarts, editing updates
/// the sound, and adding it again is ignored. Each acts on the trigger's own sound.
pub proof fn commands_act_on_their_sound<S>(t: AudioTrigger, settings: S, position: usize)
    ensures
        effect_on(AudioCommand::<S>::Play(t), position) == AudioEffect::Start(position),
        effect_on(AudioCommand::<S>::Stop(t), position) == AudioEffect::Release(position),
        effect_on(AudioCommand::<S>::ForcePlay(t), position) == AudioEffect::ForceStart(position),
        effect_on(AudioCommand::Edit(t, settings), position) == AudioEffect::Update(position),
        effect_on(AudioCommand::Add(t, settings), position) == AudioEffect::Ignored,
{
}

/// Once a trigger's sound is added, the commands for that trigger act on it: it sits at
/// the end of the table, and adding it again is ignored.
pub proof fn added_sound_answers_its_trigger(keys: Seq<TriggerKey>, key: TriggerKey)
    requires
        trigger_position(keys, key) is None,
    ensures
        trigger_position(keys.push(key), key) == Some(keys.len() as int),
{
    let pushed = keys.push(key);
    assert(pushed[keys.len() as int] == key);
    let i = choose|i: int| 0 <= i < pushed.len() && pushed[i] == key;
    if i < keys.len() {
        assert(keys[i] == key);
    }
}

} // verus!
