//! The list state and its mutation rules: the ordered entry list, the
//! current view filter, and the in-progress edit buffer.

use vstd::prelude::*;
use vstd::string::*;

use crate::entry::{views, Entry, EntryView};
use crate::filter::Filter;
use crate::text::{trim_spec, trim_str};

verus! {

/// Count of entries not yet completed.
pub open spec fn count_active(s: Seq<EntryView>) -> nat
    decreases s.len(),
{
    if s.len() == 0 {
        0
    } else {
        count_active(s.drop_last()) + if !s.last().completed {
            1nat
        } else {
            0nat
        }
    }
}

/// Non-empty and every entry completed.
pub open spec fn all_completed(s: Seq<EntryView>) -> bool {
    s.len() > 0 && forall|i: int| 0 <= i < s.len() ==> s[i].completed
}

/// No two distinct entries are being edited at once.
pub open spec fn at_most_one_editing(s: Seq<EntryView>) -> bool {
    forall|i: int, j: int|
        0 <= i < s.len() && 0 <= j < s.len() && s[i].editing && s[j].editing ==> i == j
}

/// Editing can only disappear pointwise, so at-most-one-editing carries over.
proof fn lemma_editing_pointwise(a: Seq<EntryView>, b: Seq<EntryView>)
    requires
        at_most_one_editing(a),
        b.len() == a.len(),
        forall|i: int| 0 <= i < b.len() ==> (b[i].editing ==> a[i].editing),
    ensures
        at_most_one_editing(b),
{
    assert forall|i: int, j: int|
        0 <= i < b.len() && 0 <= j < b.len() && b[i].editing && b[j].editing implies i == j by {
        assert(a[i].editing);
        assert(a[j].editing);
    }
}

/// When every entry is completed, no entry is active.
pub proof fn lemma_count_active_all_completed(s: Seq<EntryView>)
    requires
        forall|i: int| 0 <= i < s.len() ==> s[i].completed,
    ensures
        count_active(s) == 0,
    decreases s.len(),
{
    if s.len() > 0 {
        lemma_count_active_all_completed(s.drop_last());
    }
}

/// When no entry is completed, every entry is active.
pub proof fn lemma_count_active_none_completed(s: Seq<EntryView>)
    requires
        forall|i: int| 0 <= i < s.len() ==> !s[i].completed,
    ensures
        count_active(s) == s.len(),
    decreases s.len(),
{
    if s.len() > 0 {
        lemma_count_active_none_completed(s.drop_last());
    }
}

/// A command from the presentation layer, applied through [`State::apply`].
pub enum Msg {
    Add(String),
    Edit((usize, String)),
    Remove(usize),
    SetFilter(Filter),
    ToggleAll,
    ToggleEdit(usize),
    Toggle(usize),
    Focus,
}

/// The whole application state.
pub struct State {
    /// Insertion-ordered entry list; indices are positional.
    pub entries: Vec<Entry>,
    /// Which entries the presentation layer currently shows.
    pub filter: Filter,
    /// Scratch text for the entry being edited; empty when none is.
    pub edit_value: String,
}

impl State {
    /// An empty list, showing everything, with nothing being edited.
    pub fn new() -> (r: State)
        ensures
            r.entries@.len() == 0,
            r.filter == Filter::All,
            r.edit_value@ == Seq::<char>::empty(),
    {
        State { entries: Vec::new(), filter: Filter::All, edit_value: String::new() }
    }

    /// Startup state over a previously stored entry list.
    pub fn from_entries(entries: Vec<Entry>) -> (r: State)
        ensures
            r.entries == entries,
            r.filter == Filter::All,
            r.edit_value@ == Seq::<char>::empty(),
    {
        State { entries, filter: Filter::All, edit_value: String::new() }
    }

    /// Appends a fresh entry holding the trimmed text; whitespace-only text
    /// changes nothing.
    pub fn add(&mut self, text: &str)
        ensures
            final(self).filter == old(self).filter,
            final(self).edit_value == old(self).edit_value,
            trim_spec(text@).len() == 0 ==> final(self).entries == old(self).entries,
            trim_spec(text@).len() > 0 ==> views(final(self).entries@) == views(
                old(self).entries@,
            ).push(
                EntryView { description: trim_spec(text@), completed: false, editing: false },
            ),
            at_most_one_editing(views(old(self).entries@)) ==> at_most_one_editing(
                views(final(self).entries@),
            ),
    {
        let trimmed = trim_str(text);
        if trimmed.unicode_len() > 0 {
            self.entries.push(Entry::new(trimmed.to_owned()));
            proof {
                assert(views(self.entries@) =~= views(old(self).entries@).push(
                    EntryView { description: trim_spec(text@), completed: false, editing: false },
                ));
                if at_most_one_editing(views(old(self).entries@)) {
                    let a = views(old(self).entries@);
                    let b = views(self.entries@);
                    assert forall|i: int, j: int|
                        0 <= i < b.len() && 0 <= j < b.len() && b[i].editing
                            && b[j].editing implies i == j by {
                        assert(!b[a.len() as int].editing);
                        assert(a[i].editing && a[j].editing);
                    }
                }
            }
        }
    }

    /// Deletes the entry at `idx`; later entries shift down by one.
    pub fn remove(&mut self, idx: usize)
        requires
            idx < old(self).entries@.len(),
        ensures
            final(self).filter == old(self).filter,
            final(self).edit_value == old(self).edit_value,
            final(self).entries@.len() == old(self).entries@.len() - 1,
            forall|j: int| 0 <= j < idx ==> final(self).entries@[j] == old(self).entries@[j],
            forall|j: int|
                idx <= j < final(self).entries@.len() ==> final(self).entries@[j] == old(
                    self,
                ).entries@[j + 1],
            at_most_one_editing(views(old(self).entries@)) ==> at_most_one_editing(
                views(final(self).entries@),
            ),
    {
        let _removed = self.entries.remove(idx);
        proof {
            if at_most_one_editing(views(old(self).entries@)) {
                let a = views(old(self).entries@);
                let b = views(self.entries@);
                assert forall|i: int, j: int|
                    0 <= i < b.len() && 0 <= j < b.len() && b[i].editing
                        && b[j].editing implies i == j by {
                    let i0: int = if i < idx { i } else { i + 1 };
                    let j0: int = if j < idx { j } else { j + 1 };
                    assert(b[i] == a[i0]);
                    assert(b[j] == a[j0]);
                    assert(a[i0].editing && a[j0].editing);
                }
            }
        }
    }

    /// Flips the completion flag of the entry at `idx`.
    pub fn toggle(&mut self, idx: usize)
        requires
            idx < old(self).entries@.len(),
        ensures
            final(self).filter == old(self).filter,
            final(self).edit_value == old(self).edit_value,
            final(self).entries@.len() == old(self).entries@.len(),
            forall|j: int|
                0 <= j < old(self).entries@.len() && j != idx ==> final(self).entries@[j] == old(
                    self,
                ).entries@[j],
            final(self).entries@[idx as int]@.description == old(
                self,
            ).entries@[idx as int]@.description,
            final(self).entries@[idx as int]@.completed == !old(
                self,
            ).entries@[idx as int]@.completed,
            final(self).entries@[idx as int]@.editing == old(self).entries@[idx as int]@.editing,
            at_most_one_editing(views(old(self).entries@)) ==> at_most_one_editing(
                views(final(self).entries@),
            ),
    {
        let description = self.entries[idx].description.clone();
        let completed = self.entries[idx].completed;
        let editing = self.entries[idx].editing;
        self.entries[idx] = Entry { description, completed: !completed, editing };
        proof {
            if at_most_one_editing(views(old(self).entries@)) {
                lemma_editing_pointwise(views(old(self).entries@), views(self.entries@));
            }
        }
    }

    /// Sets the completion flag of every entry to `status`.
    pub fn toggle_all(&mut self, status: bool)
        ensures
            final(self).filter == old(self).filter,
            final(self).edit_value == old(self).edit_value,
            final(self).entries@.len() == old(self).entries@.len(),
            forall|j: int|
                0 <= j < old(self).entries@.len() ==> {
                    &&& final(self).entries@[j]@.description == old(
                        self,
                    ).entries@[j]@.description
                    &&& final(self).entries@[j]@.completed == status
                    &&& final(self).entries@[j]@.editing == old(self).entries@[j]@.editing
                },
            at_most_one_editing(views(old(self).entries@)) ==> at_most_one_editing(
                views(final(self).entries@),
            ),
    {
        let n = self.entries.len();
        let mut i: usize = 0;
        while i < n
            invariant
                i <= n,
                n == self.entries@.len(),
                n == old(self).entries@.len(),
                self.filter == old(self).filter,
                self.edit_value == old(self).edit_value,
                forall|j: int|
                    0 <= j < i ==> {
                        &&& self.entries@[j]@.description == old(self).entries@[j]@.description
                        &&& self.entries@[j]@.completed == status
                        &&& self.entries@[j]@.editing == old(self).entries@[j]@.editing
                    },
                forall|j: int| i <= j < n ==> self.entries@[j] == old(self).entries@[j],
            decreases n - i,
        {
            let description = self.entries[i].description.clone();
            let editing = self.entries[i].editing;
            self.entries[i] = Entry { description, completed: status, editing };
            i = i + 1;
        }
        proof {
            if at_most_one_editing(views(old(self).entries@)) {
                lemma_editing_pointwise(views(old(self).entries@), views(self.entries@));
            }
        }
    }

    /// True iff the list is non-empty and every entry is completed.
    pub fn is_all_completed(&self) -> (r: bool)
        ensures
            r == all_completed(views(self.entries@)),
    {
        let n = self.entries.len();
        if n == 0 {
            return false;
        }
        let mut i: usize = 0;
        while i < n
            invariant
                i <= n,
                n == self.entries@.len(),
                forall|j: int| 0 <= j < i ==> views(self.entries@)[j].completed,
            decreases n - i,
        {
            if !self.entries[i].completed {
                proof {
                    assert(!views(self.entries@)[i as int].completed);
                }
                return false;
            }
            i = i + 1;
        }
        true
    }

    /// Count of entries not yet completed, whatever the current filter shows.
    pub fn total(&self) -> (r: usize)
        ensures
            r == count_active(views(self.entries@)),
    {
        let n = self.entries.len();
        let mut count: usize = 0;
        let mut i: usize = 0;
        while i < n
            invariant
                i <= n,
                n == self.entries@.len(),
                count <= i,
                count == count_active(views(self.entries@).subrange(0, i as int)),
            decreases n - i,
        {
            proof {
                assert(views(self.entries@).subrange(0, i as int + 1).drop_last() =~= views(
                    self.entries@,
                ).subrange(0, i as int));
            }
            if !self.entries[i].completed {
                count = count + 1;
            }
            i = i + 1;
        }
        proof {
            assert(views(self.entries@).subrange(0, n as int) =~= views(self.entries@));
        }
        count
    }

    /// Clears the editing flag on every entry.
    pub fn clear_all_edit(&mut self)
        ensures
            final(self).filter == old(self).filter,
            final(self).edit_value == old(self).edit_value,
            final(self).entries@.len() == old(self).entries@.len(),
            forall|j: int|
                0 <= j < old(self).entries@.len() ==> {
                    &&& final(self).entries@[j]@.description == old(
                        self,
                    ).entries@[j]@.description
                    &&& final(self).entries@[j]@.completed == old(self).entries@[j]@.completed
                    &&& final(self).entries@[j]@.editing == false
                },
            at_most_one_editing(views(final(self).entries@)),
    {
        let n = self.entries.len();
        let mut i: usize = 0;
        while i < n
            invariant
                i <= n,
                n == self.entries@.len(),
                n == old(self).entries@.len(),
                self.filter == old(self).filter,
                self.edit_value == old(self).edit_value,
                forall|j: int|
                    0 <= j < i ==> {
                        &&& self.entries@[j]@.description == old(self).entries@[j]@.description
                        &&& self.entries@[j]@.completed == old(self).entries@[j]@.completed
                        &&& self.entries@[j]@.editing == false
                    },
                forall|j: int| i <= j < n ==> self.entries@[j] == old(self).entries@[j],
            decreases n - i,
        {
            let description = self.entries[i].description.clone();
            let completed = self.entries[i].completed;
            self.entries[i] = Entry { description, completed, editing: false };
            i = i + 1;
        }
    }

    /// Marks the entry at `idx` as the one being edited: clears every other
    /// editing flag and loads the entry's description into the edit buffer.
    pub fn toggle_edit(&mut self, idx: usize)
        requires
            idx < old(self).entries@.len(),
        ensures
            final(self).filter == old(self).filter,
            final(self).entries@.len() == old(self).entries@.len(),
            forall|j: int|
                0 <= j < old(self).entries@.len() ==> {
                    &&& final(self).entries@[j]@.description == old(
                        self,
                    ).entries@[j]@.description
                    &&& final(self).entries@[j]@.completed == old(self).entries@[j]@.completed
                },
            forall|j: int|
                0 <= j < old(self).entries@.len() ==> (final(self).entries@[j]@.editing <==> j
                    == idx),
            final(self).edit_value@ == old(self).entries@[idx as int]@.description,
            at_most_one_editing(views(final(self).entries@)),
    {
        self.edit_value = self.entries[idx].description.clone();
        self.clear_all_edit();
        let description = self.entries[idx].description.clone();
        let completed = self.entries[idx].completed;
        self.entries[idx] = Entry { description, completed, editing: true };
    }

    /// Stores the trimmed replacement text in the entry at `idx`, ends the
    /// edit, and empties the edit buffer. Unlike `add`, an empty replacement
    /// is applied as given.
    pub fn complete_edit(&mut self, idx: usize, text: &str)
        requires
            idx < old(self).entries@.len(),
        ensures
            final(self).filter == old(self).filter,
            final(self).edit_value@ == Seq::<char>::empty(),
            final(self).entries@.len() == old(self).entries@.len(),
            forall|j: int|
                0 <= j < old(self).entries@.len() && j != idx ==> final(self).entries@[j] == old(
                    self,
                ).entries@[j],
            final(self).entries@[idx as int]@.description == trim_spec(text@),
            final(self).entries@[idx as int]@.completed == old(
                self,
            ).entries@[idx as int]@.completed,
            final(self).entries@[idx as int]@.editing == false,
            at_most_one_editing(views(old(self).entries@)) ==> at_most_one_editing(
                views(final(self).entries@),
            ),
    {
        let trimmed = trim_str(text);
        let completed = self.entries[idx].completed;
        self.entries[idx] = Entry { description: trimmed.to_owned(), completed, editing: false };
        self.edit_value = String::new();
        proof {
            if at_most_one_editing(views(old(self).entries@)) {
                lemma_editing_pointwise(views(old(self).entries@), views(self.entries@));
            }
        }
    }

    /// Applies one command from the presentation layer. `Focus` is a pure
    /// presentation signal and changes nothing here.
    pub fn apply(&mut self, msg: Msg)
        requires
            match msg {
                Msg::Edit((idx, _)) => idx < old(self).entries@.len(),
                Msg::Remove(idx) => idx < old(self).entries@.len(),
                Msg::ToggleEdit(idx) => idx < old(self).entries@.len(),
                Msg::Toggle(idx) => idx < old(self).entries@.len(),
                _ => true,
            },
        ensures
            (msg matches Msg::Add(text) ==> {
                &&& final(self).filter == old(self).filter
                &&& final(self).edit_value == old(self).edit_value
                &&& trim_spec(text@).len() == 0 ==> final(self).entries == old(self).entries
                &&& trim_spec(text@).len() > 0 ==> views(final(self).entries@) == views(
                    old(self).entries@,
                ).push(
                    EntryView { description: trim_spec(text@), completed: false, editing: false },
                )
            }),
            (msg matches Msg::Edit((idx, text)) ==> {
                &&& final(self).filter == old(self).filter
                &&& final(self).edit_value@ == Seq::<char>::empty()
                &&& final(self).entries@.len() == old(self).entries@.len()
                &&& forall|j: int|
                    0 <= j < old(self).entries@.len() && j != idx ==> final(self).entries@[j]
                        == old(self).entries@[j]
                &&& final(self).entries@[idx as int]@.description == trim_spec(text@)
                &&& final(self).entries@[idx as int]@.completed == old(
                    self,
                ).entries@[idx as int]@.completed
                &&& final(self).entries@[idx as int]@.editing == false
            }),
            (msg matches Msg::Remove(idx) ==> {
                &&& final(self).filter == old(self).filter
                &&& final(self).edit_value == old(self).edit_value
                &&& final(self).entries@.len() == old(self).entries@.len() - 1
                &&& forall|j: int|
                    0 <= j < idx ==> final(self).entries@[j] == old(self).entries@[j]
                &&& forall|j: int|
                    idx <= j < final(self).entries@.len() ==> final(self).entries@[j] == old(
                        self,
                    ).entries@[j + 1]
            }),
            (msg matches Msg::SetFilter(f) ==> {
                &&& final(self).filter == f
                &&& final(self).entries == old(self).entries
                &&& final(self).edit_value == old(self).edit_value
            }),
            (msg matches Msg::ToggleAll ==> {
                &&& final(self).filter == old(self).filter
                &&& final(self).edit_value == old(self).edit_value
                &&& final(self).entries@.len() == old(self).entries@.len()
                &&& forall|j: int|
                    0 <= j < old(self).entries@.len() ==> {
                        &&& final(self).entries@[j]@.description == old(
                            self,
                        ).entries@[j]@.description
                        &&& final(self).entries@[j]@.completed == !all_completed(
                            views(old(self).entries@),
                        )
                        &&& final(self).entries@[j]@.editing == old(self).entries@[j]@.editing
                    }
            }),
            (msg matches Msg::ToggleEdit(idx) ==> {
                &&& final(self).filter == old(self).filter
                &&& final(self).entries@.len() == old(self).entries@.len()
                &&& forall|j: int|
                    0 <= j < old(self).entries@.len() ==> {
                        &&& final(self).entries@[j]@.description == old(
                            self,
                        ).entries@[j]@.description
                        &&& final(self).entries@[j]@.completed == old(
                            self,
                        ).entries@[j]@.completed
                    }
                &&& forall|j: int|
                    0 <= j < old(self).entries@.len() ==> (final(self).entries@[j]@.editing
                        <==> j == idx)
                &&& final(self).edit_value@ == old(self).entries@[idx as int]@.description
                &&& at_most_one_editing(views(final(self).entries@))
            }),
            (msg matches Msg::Toggle(idx) ==> {
                &&& final(self).filter == old(self).filter
                &&& final(self).edit_value == old(self).edit_value
                &&& final(self).entries@.len() == old(self).entries@.len()
                &&& forall|j: int|
                    0 <= j < old(self).entries@.len() && j != idx ==> final(self).entries@[j]
                        == old(self).entries@[j]
                &&& final(self).entries@[idx as int]@.description == old(
                    self,
                ).entries@[idx as int]@.description
                &&& final(self).entries@[idx as int]@.completed == !old(
                    self,
                ).entries@[idx as int]@.completed
                &&& final(self).entries@[idx as int]@.editing == old(
                    self,
                ).entries@[idx as int]@.editing
            }),
            (msg matches Msg::Focus ==> {
                &&& final(self).entries == old(self).entries
                &&& final(self).filter == old(self).filter
                &&& final(self).edit_value == old(self).edit_value
            }),
            at_most_one_editing(views(old(self).entries@)) ==> at_most_one_editing(
                views(final(self).entries@),
            ),
    {
        match msg {
            Msg::Add(text) => {
                self.add(text.as_str());
            },
            Msg::Edit((idx, text)) => {
                self.complete_edit(idx, text.as_str());
            },
            Msg::Remove(idx) => {
                self.remove(idx);
            },
            Msg::SetFilter(f) => {
                self.set_filter(f);
            },
            Msg::ToggleAll => {
                let status = !self.is_all_completed();
                self.toggle_all(status);
            },
            Msg::ToggleEdit(idx) => {
                self.toggle_edit(idx);
            },
            Msg::Toggle(idx) => {
                self.toggle(idx);
            },
            Msg::Focus => {},
        }
    }

    /// Replaces the current filter; entries are untouched.
    pub fn set_filter(&mut self, f: Filter)
        ensures
            final(self).filter == f,
            final(self).entries == old(self).entries,
            final(self).edit_value == old(self).edit_value,
    {
        self.filter = f;
    }
}

} // verus!
