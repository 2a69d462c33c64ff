use vstd::prelude::*;

verus! {

/// A colour as red, green and blue.
#[derive(Clone, Copy, Debug, PartialEq, Eq, Structural)]
pub struct Colour {
    pub r: u8,
    pub g: u8,
    pub b: u8,
}

/// The colour scheme of the scene.
#[derive(Clone, Copy, Debug, PartialEq, Eq, Structural)]
pub enum Theme {
    Normal,
    Grey,
    DeepSea,
}

impl Theme {
    /// The theme that follows `self` in the cycle Normal, Grey, DeepSea.
    pub open spec fn successor(self) -> Theme {
        match self {
            Theme::Normal => Theme::Grey,
            Theme::Grey => Theme::DeepSea,
            Theme::DeepSea => Theme::Normal,
        }
    }

    /// The colour behind the flock: sky blue, grey, or black.
    pub open spec fn spec_background(self) -> Colour {
        match self {
            Theme::Normal => Colour { r: 135, g: 206, b: 235 },
            Theme::Grey => Colour { r: 128, g: 128, b: 128 },
            Theme::DeepSea => Colour { r: 0, g: 0, b: 0 },
        }
    }

    /// The theme that follows in the cycle.
    pub fn next(&self) -> (r: Theme)
        ensures
            r == self.successor(),
    {
        match self {
            Theme::Normal => Theme::Grey,
            Theme::Grey => Theme::DeepSea,
            Theme::DeepSea => Theme::Normal,
        }
    }

    /// The colour behind the flock.
    pub fn background(&self) -> (r: Colour)
        ensures
            r == self.spec_background(),
    {
        match self {
            Theme::Normal => Colour { r: 135, g: 206, b: 235 },
            Theme::Grey => Colour { r: 128, g: 128, b: 128 },
            Theme::DeepSea => Colour { r: 0, g: 0, b: 0 },
        }
    }
}

/// Three steps through the themes lead back to the start, and fewer do not.
pub proof fn lemma_theme_cycle(t: Theme)
    ensures
        t.successor() != t,
        t.successor().successor() != t,
        t.successor().successor().successor() == t,
{
}

} // verus!
