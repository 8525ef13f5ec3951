use vstd::prelude::*;

verus! {

/// Which meaning keystrokes have: `Normal` navigates, `Insert` edits the
/// query. The mode never touches the listing itself.
#[derive(Debug, Clone, Copy, PartialEq, Eq, Structural)]
pub enum Mode {
    Normal,
    Insert,
}

impl Mode {
    pub fn is_normal(&self) -> (r: bool)
        ensures
            r == (*self == Mode::Normal),
    {
        matches!(*self, Mode::Normal)
    }

    pub fn is_insert(&self) -> (r: bool)
        ensures
            r == (*self == Mode::Insert),
    {
        matches!(*self, Mode::Insert)
    }
}

} // verus!
