use vstd::prelude::*;

verus! {

/// The dialect of the language that a source text is written in.
#[derive(Debug, Clone, Copy, PartialEq, Eq, Structural)]
pub enum Flavor {
    /// The typed dialect that Respawn's engine runs.
    SquirrelRespawn,
}

} // verus!
