use vstd::prelude::*;

verus! {

/// How the flock reacts to the pointer.
#[derive(Debug, Clone, Copy, PartialEq, Eq, Structural)]
pub enum CursorMode {
    Attract,
    Avoid,
    Ignore,
}

impl CursorMode {
    /// The mode that follows `self` in the cycle Attract, Avoid, Ignore.
    pub open spec fn successor(self) -> CursorMode {
        match self {
            CursorMode::Attract => CursorMode::Avoid,
            CursorMode::Avoid => CursorMode::Ignore,
            CursorMode::Ignore => CursorMode::Attract,
        }
    }

    /// The mode that follows in the cycle.
    pub fn next(&self) -> (r: CursorMode)
        ensures
            r == self.successor(),
    {
        match *self {
            CursorMode::Attract => CursorMode::Avoid,
            CursorMode::Avoid => CursorMode::Ignore,
            CursorMode::Ignore => CursorMode::Attract,
        }
    }
}

/// The modes follow one another as Attract, Avoid, Ignore and Attract again:
/// three steps lead back to the start, and fewer do not.
pub proof fn lemma_cursor_cycle(m: CursorMode)
    ensures
        CursorMode::Attract.successor() == CursorMode::Avoid,
        CursorMode::Avoid.successor() == CursorMode::Ignore,
        CursorMode::Ignore.successor() == CursorMode::Attract,
        m.successor() != m,
        m.successor().successor() != m,
        m.successor().successor().successor() == m,
{
}

} // verus!
