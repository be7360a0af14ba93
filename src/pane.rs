use vstd::prelude::*;

verus! {

/// The panes of the note browser, in focus order.
#[derive(Debug, Clone, Copy, PartialEq, Eq, Structural)]
pub enum Pane {
    Files,
    Preview,
    Backlinks,
}

impl Pane {
    /// Position of the pane in focus order.
    pub open spec fn position(self) -> int {
        match self {
            Pane::Files => 0,
            Pane::Preview => 1,
            Pane::Backlinks => 2,
        }
    }

    /// The pane after this one, wrapping round.
    pub fn next(self) -> (r: Pane)
        ensures
            r.position() == (self.position() + 1) % 3,
    {
        match self {
            Pane::Files => Pane::Preview,
            Pane::Preview => Pane::Backlinks,
            Pane::Backlinks => Pane::Files,
        }
    }

    /// The pane before this one, wrapping round.
    pub fn prev(self) -> (r: Pane)
        ensures
            r.position() == (self.position() + 2) % 3,
    {
        match self {
            Pane::Files => Pane::Backlinks,
            Pane::Preview => Pane::Files,
            Pane::Backlinks => Pane::Preview,
        }
    }
}

} // verus!
