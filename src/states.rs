use vstd::prelude::*;

verus! {

/// The phases of the game client.
#[derive(Clone, Copy, Debug, PartialEq, Eq, Hash, Structural)]
pub enum GameState {
    LoadingAssets,
    GeneratingAtlases,
    InGame,
}

impl Default for GameState {
    fn default() -> (r: GameState)
        ensures
            r == GameState::LoadingAssets,
    {
        GameState::LoadingAssets
    }
}

} // verus!
