//! Paths by their components.
use crate::text;
use vstd::prelude::*;
use vstd::string::*;

verus! {

/// A path, by the components that the system tells apart in it. How often they
/// are separated, and by what, makes no difference.
#[derive(Debug)]
pub struct PathParts {
    pub parts: Vec<String>,
}

impl View for PathParts {
    type V = Seq<Seq<char>>;

    open spec fn view(&self) -> Seq<Seq<char>> {
        text::texts(self.parts@)
    }
}

impl PathParts {
    /// Both paths have the same components.
    pub fn same(&self, other: &PathParts) -> (result: bool)
        ensures
            result == (self@ == other@),
    {
        if self.parts.len() != other.parts.len() {
            assert(self@.len() != other@.len());
            return false;
        }
        let mut i: usize = 0;
        while i < self.parts.len()
            invariant
                i <= self.parts@.len() == other.parts@.len(),
                forall|j: int| 0 <= j < i ==> (#[trigger] self@[j]) == other@[j],
            decreases self.parts@.len() - i,
        {
            assert(self@[i as int] == self.parts@[i as int]@);
            assert(other@[i as int] == other.parts@[i as int]@);
            if !text::same(&self.parts[i], &other.parts[i]) {
                return false;
            }
            i = i + 1;
        }
        assert(self@ =~= other@);
        true
    }
}

} // verus!
