//! A list of items with an optional cursor that an operator moves around.

use vstd::prelude::*;

verus! {

/// Items with an optional selected position.
pub struct StatefulList<T> {
    pub selected: Option<usize>,
    pub items: Vec<T>,
}

/// Position selected after moving down from `sel` in a list of `len` items:
/// the first item when nothing was selected or the cursor was on the last item.
pub open spec fn next_position(sel: Option<usize>, len: nat) -> usize {
    match sel {
        Some(i) => if len > 0 && (i as int) < len - 1 { (i + 1) as usize } else { 0 },
        None => 0,
    }
}

/// Position selected after moving up from `sel` in a list of `len` items:
/// the last item when the cursor was on the first one.
pub open spec fn previous_position(sel: Option<usize>, len: nat) -> usize {
    match sel {
        Some(i) => if i == 0 {
            if len > 0 { (len - 1) as usize } else { 0 }
        } else {
            (i - 1) as usize
        },
        None => 0,
    }
}

impl<T> StatefulList<T> {
    pub fn with_items(items: Vec<T>) -> (r: StatefulList<T>)
        ensures
            r.selected is None,
            r.items@ == items@,
    {
        StatefulList { selected: None, items }
    }

    /// Moves the cursor one item down, wrapping to the top.
    pub fn next(&mut self)
        ensures
            final(self).items@ == old(self).items@,
            final(self).selected == Some(next_position(old(self).selected, old(self).items@.len())),
        no_unwind
    {
        let len = self.items.len();
        let i: usize = match self.selected {
            Some(i) => {
                if len == 0 || i >= len - 1 {
                    0
                } else {
                    i + 1
                }
            },
            None => 0,
        };
        self.selected = Some(i);
    }

    /// Moves the cursor one item up, wrapping to the bottom.
    pub fn previous(&mut self)
        ensures
            final(self).items@ == old(self).items@,
            final(self).selected == Some(previous_position(old(self).selected, old(self).items@.len())),
        no_unwind
    {
        let len = self.items.len();
        let i: usize = match self.selected {
            Some(i) => {
                if i == 0 {
                    if len > 0 {
                        len - 1
                    } else {
                        0
                    }
                } else {
                    i - 1
                }
            },
            None => 0,
        };
        self.selected = Some(i);
    }

    /// Clears the cursor.
    pub fn unselect(&mut self)
        ensures
            final(self).items@ == old(self).items@,
            final(self).selected is None,
        no_unwind
    {
        self.selected = None;
    }
}

} // verus!
