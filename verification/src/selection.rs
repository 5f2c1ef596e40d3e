use vstd::prelude::*;

verus! {

/// A cyclic, indexable selection cursor over the current view's items.
///
/// `cursor` is `None` while nothing is selected yet; `last_selected`
/// remembers the last known position so a cleared selection can resume
/// there.
pub struct StatefulList<T> {
    pub items: Vec<T>,
    pub cursor: Option<usize>,
    pub last_selected: Option<usize>,
}

/// The cursor an in-bounds index option must keep: in bounds whenever set.
pub open spec fn cursor_in_bounds(c: Option<usize>, len: nat) -> bool {
    match c {
        Some(i) => i < len,
        None => true,
    }
}

/// Where one `next()` step moves the cursor, on a list of length `len`.
pub open spec fn spec_next_cursor(cur: Option<usize>, last: Option<usize>, len: nat) -> Option<
    usize,
> {
    if len == 0 {
        cur
    } else {
        match cur {
            Some(i) => Some(if i + 1 >= len { 0usize } else { (i + 1) as usize }),
            None => Some(
                match last {
                    Some(j) => j,
                    None => 0usize,
                },
            ),
        }
    }
}

/// Where one `previous()` step moves the cursor, on a list of length `len`.
pub open spec fn spec_previous_cursor(
    cur: Option<usize>,
    last: Option<usize>,
    len: nat,
) -> Option<usize> {
    if len == 0 {
        cur
    } else {
        match cur {
            Some(i) => Some(if i == 0 { (len - 1) as usize } else { (i - 1) as usize }),
            None => Some(
                match last {
                    Some(j) => j,
                    None => 0usize,
                },
            ),
        }
    }
}

impl<T> StatefulList<T> {
    /// Both cursor fields stay in bounds.
    pub open spec fn wf(&self) -> bool {
        cursor_in_bounds(self.cursor, self.items@.len()) && cursor_in_bounds(
            self.last_selected,
            self.items@.len(),
        )
    }

    /// A fresh list over `items`, nothing selected yet.
    pub fn with_items(items: Vec<T>) -> (r: StatefulList<T>)
        ensures
            r.items@ == items@,
            r.cursor is None,
            r.last_selected is None,
            r.wf(),
    {
        StatefulList { items, cursor: None, last_selected: None }
    }

    /// The currently selected index, if any.
    pub fn selected(&self) -> (r: Option<usize>)
        ensures
            r == self.cursor,
    {
        self.cursor
    }

    /// Move the selection one item forward, wrapping at the end; an empty
    /// list is left untouched, and an unset cursor resumes at the last known
    /// position (or 0).
    pub fn next(&mut self)
        requires
            old(self).wf(),
        ensures
            final(self).items@ == old(self).items@,
            final(self).last_selected == old(self).last_selected,
            final(self).cursor == spec_next_cursor(
                old(self).cursor,
                old(self).last_selected,
                old(self).items@.len(),
            ),
            final(self).wf(),
    {
        if self.items.len() == 0 {
            return ;
        }
        let i: usize = match self.cursor {
            Some(i) => {
                if i >= self.items.len() - 1 {
                    0
                } else {
                    i + 1
                }
            },
            None => match self.last_selected {
                Some(j) => j,
                None => 0,
            },
        };
        self.cursor = Some(i);
    }

    /// Move the selection one item backward, wrapping from 0 to the end;
    /// symmetric to [`StatefulList::next`].
    pub fn previous(&mut self)
        requires
            old(self).wf(),
        ensures
            final(self).items@ == old(self).items@,
            final(self).last_selected == old(self).last_selected,
            final(self).cursor == spec_previous_cursor(
                old(self).cursor,
                old(self).last_selected,
                old(self).items@.len(),
            ),
            final(self).wf(),
    {
        if self.items.len() == 0 {
            return ;
        }
        let i: usize = match self.cursor {
            Some(i) => {
                if i == 0 {
                    self.items.len() - 1
                } else {
                    i - 1
                }
            },
            None => match self.last_selected {
                Some(j) => j,
                None => 0,
            },
        };
        self.cursor = Some(i);
    }

    /// Jump the selection to the first item; an empty list is left untouched.
    pub fn start(&mut self)
        requires
            old(self).wf(),
        ensures
            final(self).items@ == old(self).items@,
            final(self).last_selected == old(self).last_selected,
            final(self).cursor == if old(self).items@.len() == 0 {
                old(self).cursor
            } else {
                Some(0usize)
            },
            final(self).wf(),
    {
        if self.items.len() > 0 {
            self.cursor = Some(0);
        }
    }

    /// Jump the selection to the last item; an empty list is left untouched.
    pub fn end(&mut self)
        requires
            old(self).wf(),
        ensures
            final(self).items@ == old(self).items@,
            final(self).last_selected == old(self).last_selected,
            final(self).cursor == if old(self).items@.len() == 0 {
                old(self).cursor
            } else {
                Some((old(self).items@.len() - 1) as usize)
            },
            final(self).wf(),
    {
        if self.items.len() > 0 {
            self.cursor = Some(self.items.len() - 1);
        }
    }
}

/// The cursor after `k` successive `next()` steps.
pub open spec fn spec_next_iterated(
    cur: Option<usize>,
    last: Option<usize>,
    len: nat,
    k: nat,
) -> Option<usize>
    decreases k,
{
    if k == 0 {
        cur
    } else {
        spec_next_cursor(spec_next_iterated(cur, last, len, (k - 1) as nat), last, len)
    }
}

/// After `k <= len` steps from index `i`, the cursor sits at `i + k`,
/// wrapped once past the end.
proof fn lemma_next_iterated_shifts(i: usize, last: Option<usize>, len: nat, k: nat)
    requires
        i < len,
        k <= len,
        len <= usize::MAX,
    ensures
        spec_next_iterated(Some(i), last, len, k) == Some(
            if i + k < len {
                (i + k) as usize
            } else {
                (i + k - len) as usize
            },
        ),
    decreases k,
{
    if k > 0 {
        lemma_next_iterated_shifts(i, last, len, (k - 1) as nat);
    }
}

/// The cyclic law: on a non-empty list, `next()` composed `len` times
/// returns the cursor to its starting index.
pub proof fn lemma_next_cycles(i: usize, last: Option<usize>, len: nat)
    requires
        i < len,
        len <= usize::MAX,
    ensures
        spec_next_iterated(Some(i), last, len, len) == Some(i),
{
    lemma_next_iterated_shifts(i, last, len, len);
}

} // verus!

