use vstd::prelude::*;

use crate::game::Game;

verus! {

/// A command to the engine worker: a new game to think about, a search to start, or a search to
/// stop.
#[derive(Clone, Debug)]
pub enum EngineCommand {
    SetGame(Game),
    Go(GoConfig),
    Stop,
}

/// How a search should run.
#[derive(Clone, Debug)]
pub struct GoConfig {
    depth: u8,
}

} // verus!
