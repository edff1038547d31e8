//! A single truth value, shown as `V` (true) or `F` (false).

use vstd::prelude::*;

verus! {

/// A boolean truth value as it appears in one cell of a truth table.
#[derive(Clone, Copy, Debug, PartialEq, Eq, Structural)]
pub struct TruthValue(pub bool);

impl TruthValue {
    /// Creates a new [`TruthValue`], which starts out true.
    pub fn new() -> (t: Self)
        ensures
            t.0 == true,
    {
        TruthValue(true)
    }

    /// Toggles the value of this [`TruthValue`].
    pub fn toggle(&mut self)
        ensures
            final(self).0 == !old(self).0,
    {
        self.0 = !self.0;
    }

    /// The canonical one-character symbol for this value: `V` if true, `F` if false.
    pub fn symbol(&self) -> (s: &'static str)
        ensures
            self.0 ==> s@ == "V"@,
            !self.0 ==> s@ == "F"@,
    {
        if self.0 {
            "V"
        } else {
            "F"
        }
    }
}

} // verus!
