//! The view filter: a closed set of display modes over the entry list.

use vstd::prelude::*;

use crate::entry::EntryView;

verus! {

/// Which entries the presentation layer shows. Membership and order of the
/// underlying list are never affected by the filter.
#[derive(Clone, Copy, Debug, PartialEq, Eq, Structural)]
pub enum Filter {
    All,
    Active,
    Completed,
}

/// The predicate each filter stands for: `All` keeps everything, `Active`
/// keeps the not-yet-completed entries, `Completed` keeps the completed ones.
pub open spec fn filter_matches(f: Filter, e: EntryView) -> bool {
    match f {
        Filter::All => true,
        Filter::Active => !e.completed,
        Filter::Completed => e.completed,
    }
}

impl Filter {
    /// Whether the entry is visible under this filter.
    pub fn matches(&self, e: &crate::entry::Entry) -> (r: bool)
        ensures
            r == filter_matches(*self, e@),
    {
        match self {
            Filter::All => true,
            Filter::Active => !e.completed,
            Filter::Completed => e.completed,
        }
    }

    /// The closed set of filters, in the fixed order a selection UI lists them.
    pub fn all() -> (r: Vec<Filter>)
        ensures
            r@ == seq![Filter::All, Filter::Active, Filter::Completed],
    {
        let mut v: Vec<Filter> = Vec::new();
        v.push(Filter::All);
        v.push(Filter::Active);
        v.push(Filter::Completed);
        proof {
            assert(v@ =~= seq![Filter::All, Filter::Active, Filter::Completed]);
        }
        v
    }
}

} // verus!
