use vstd::prelude::*;

verus! {

/// The process's claim on the terminal: at most one canvas may hold it at a
/// time. The program keeps one of these for the whole process, behind a lock.
pub struct TerminalClaim {
    held: bool,
}

impl TerminalClaim {
    /// A canvas currently holds the terminal.
    pub closed spec fn is_held(&self) -> bool {
        self.held
    }

    /// The claim of a process in which no canvas has been created yet.
    pub fn new() -> (c: TerminalClaim)
        ensures
            !c.is_held(),
    {
        TerminalClaim { held: false }
    }

    /// Whether a canvas currently holds the terminal.
    pub fn held(&self) -> (b: bool)
        ensures
            b == self.is_held(),
    {
        self.held
    }

    /// Takes the terminal if it is free; returns whether it was taken.
    pub fn acquire(&mut self) -> (taken: bool)
        ensures
            taken == !old(self).is_held(),
            final(self).is_held(),
    {
        if self.held {
            false
        } else {
            self.held = true;
            true
        }
    }

    /// Gives the terminal back.
    pub fn release(&mut self)
        ensures
            !final(self).is_held(),
    {
        self.held = false;
    }
}

} // verus!
