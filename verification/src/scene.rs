//! Scenes and whether they simulate.
use vstd::prelude::*;

verus! {

/// A scene's lifecycle: loaded but idle, simulating each frame, or put to sleep.
#[derive(Clone, Copy, Debug, Default, PartialEq, Eq, Structural)]
pub enum SceneState {
    Loaded,
    #[default]
    Simulating,
    Sleeping,
}

/// A scene: its world (of type `W`), its name and its state.
pub struct Scene<W> {
    pub world: W,
    pub name: String,
    pub state: SceneState,
}

impl<W> Scene<W> {
    /// Only a simulating scene runs its scene systems.
    pub fn should_simulate(&self) -> (r: bool)
        ensures
            r == (self.state == SceneState::Simulating),
    {
        matches!(self.state, SceneState::Simulating)
    }
}

} // verus!
