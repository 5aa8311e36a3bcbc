//! Teams of the flag material.

use vstd::prelude::*;

verus! {

/// The team whose colours a flag shows.
#[derive(Copy, Clone, Debug, PartialEq, Eq, Structural)]
pub enum FlagTeam {
    /// Red team (the default).
    Red,
    /// Blue team.
    Blue,
}

impl Default for FlagTeam {
    /// The red team.
    fn default() -> (team: FlagTeam)
        ensures
            team == FlagTeam::Red,
    {
        FlagTeam::Red
    }
}

} // verus!
