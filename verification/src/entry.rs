//! One list entry: description text, a completion flag, and a transient
//! editing flag.

use vstd::prelude::*;

verus! {

/// One item of the list.
#[derive(Debug)]
pub struct Entry {
    pub description: String,
    pub completed: bool,
    pub editing: bool,
}

/// The mathematical value of an [`Entry`]: its description as a sequence of
/// characters plus the two flags.
pub ghost struct EntryView {
    pub description: Seq<char>,
    pub completed: bool,
    pub editing: bool,
}

impl View for Entry {
    type V = EntryView;

    open spec fn view(&self) -> EntryView {
        EntryView {
            description: self.description@,
            completed: self.completed,
            editing: self.editing,
        }
    }
}

/// The entry list as a sequence of mathematical values.
pub open spec fn views(s: Seq<Entry>) -> Seq<EntryView> {
    s.map_values(|e: Entry| e@)
}

impl Entry {
    /// A fresh, not yet completed, not being edited entry.
    pub fn new(description: String) -> (r: Entry)
        ensures
            r@ == (EntryView { description: description@, completed: false, editing: false }),
    {
        Entry { description, completed: false, editing: false }
    }
}

impl Clone for Entry {
    /// A clone keeps the description text and both flags.
    fn clone(&self) -> (r: Self)
        ensures
            r@ == self@,
    {
        Entry {
            description: self.description.clone(),
            completed: self.completed,
            editing: self.editing,
        }
    }
}

} // verus!
