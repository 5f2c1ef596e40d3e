use vstd::prelude::*;

verus! {

/// The plain result record a session leaves behind on quit: the depth the
/// user ended at and, where one was picked, the selected value text.
pub struct Session {
    pub depth: usize,
    pub value: Option<String>,
}

impl Session {
    /// The selected value's text as a view, `None` where none was picked.
    pub open spec fn value_view(&self) -> Option<Seq<char>> {
        match self.value {
            Some(ref v) => Some(v@),
            None => None,
        }
    }
}

impl Clone for Session {
    fn clone(&self) -> (r: Self)
        ensures
            r.depth == self.depth,
            r.value_view() == self.value_view(),
    {
        Session {
            depth: self.depth,
            value: match &self.value {
                Some(v) => Some(v.clone()),
                None => None,
            },
        }
    }
}

} // verus!
