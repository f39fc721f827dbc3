use todo_core::entry::Entry;
use todo_core::filter::Filter;
use todo_core::state::{Msg, State};
use todo_core::text::trim_str;

fn state_with(descriptions: &[&str]) -> State {
    let mut s = State::new();
    for d in descriptions {
        s.add(d);
    }
    s
}

#[test]
fn add_ignores_empty_and_whitespace() {
    let mut s = State::new();
    s.add("");
    assert_eq!(s.entries.len(), 0);
    s.add("   ");
    assert_eq!(s.entries.len(), 0);
    s.add("  buy milk  ");
    assert_eq!(s.entries.len(), 1);
    assert_eq!(s.entries[0].description, "buy milk");
    assert!(!s.entries[0].completed);
    assert!(!s.entries[0].editing);
}

#[test]
fn trim_removes_edge_whitespace_only() {
    assert_eq!(trim_str("  a b  "), "a b");
    assert_eq!(trim_str("\t\r\n x \n"), "x");
    assert_eq!(trim_str("no-trim"), "no-trim");
    assert_eq!(trim_str(" \t "), "");
    assert_eq!(trim_str(""), "");
}

#[test]
fn total_counts_incomplete_entries() {
    let mut s = state_with(&["a", "b", "c"]);
    assert_eq!(s.total(), 3);
    s.toggle(1);
    assert_eq!(s.total(), 2);
    s.toggle_all(true);
    assert_eq!(s.total(), 0);
    s.toggle_all(false);
    assert_eq!(s.total(), s.entries.len());
}

#[test]
fn empty_list_is_not_all_completed() {
    let s = State::new();
    assert!(!s.is_all_completed());
}

#[test]
fn toggle_all_from_empty_is_a_no_op() {
    let mut s = State::new();
    s.apply(Msg::ToggleAll);
    assert_eq!(s.entries.len(), 0);
    assert!(!s.is_all_completed());
}

#[test]
fn remove_shifts_later_entries_down() {
    let mut s = state_with(&["a", "b", "c"]);
    s.remove(1);
    assert_eq!(s.entries.len(), 2);
    assert_eq!(s.entries[0].description, "a");
    assert_eq!(s.entries[1].description, "c");
}

#[test]
fn toggle_edit_keeps_a_single_editing_entry() {
    let mut s = state_with(&["a", "b", "c"]);
    s.toggle_edit(0);
    assert!(s.entries[0].editing);
    assert_eq!(s.edit_value, "a");
    s.toggle_edit(2);
    assert!(!s.entries[0].editing);
    assert!(!s.entries[1].editing);
    assert!(s.entries[2].editing);
    assert_eq!(s.edit_value, "c");
    let editing = s.entries.iter().filter(|e| e.editing).count();
    assert_eq!(editing, 1);
}

#[test]
fn complete_edit_stores_text_and_ends_edit() {
    let mut s = state_with(&["a"]);
    s.toggle_edit(0);
    s.complete_edit(0, "new text");
    assert_eq!(s.entries[0].description, "new text");
    assert!(!s.entries[0].editing);
    assert_eq!(s.edit_value, "");
}

#[test]
fn complete_edit_applies_even_empty_text() {
    let mut s = state_with(&["a"]);
    s.complete_edit(0, "   ");
    assert_eq!(s.entries[0].description, "");
    assert_eq!(s.entries.len(), 1);
}

#[test]
fn clear_all_edit_clears_every_flag() {
    let mut s = state_with(&["a", "b"]);
    s.toggle_edit(1);
    s.clear_all_edit();
    assert!(!s.entries[0].editing);
    assert!(!s.entries[1].editing);
}

#[test]
fn set_filter_only_changes_the_filter() {
    let mut s = state_with(&["a"]);
    s.set_filter(Filter::Completed);
    assert_eq!(s.filter, Filter::Completed);
    assert_eq!(s.entries.len(), 1);
    assert_eq!(s.entries[0].description, "a");
}

#[test]
fn filter_predicates() {
    let active = Entry::new(String::from("a"));
    let mut done = Entry::new(String::from("b"));
    done.completed = true;
    assert!(Filter::All.matches(&active));
    assert!(Filter::All.matches(&done));
    assert!(Filter::Active.matches(&active));
    assert!(!Filter::Active.matches(&done));
    assert!(!Filter::Completed.matches(&active));
    assert!(Filter::Completed.matches(&done));
}

#[test]
fn filter_set_is_fixed_and_ordered() {
    let all = Filter::all();
    assert_eq!(all.len(), 3);
    assert_eq!(all[0], Filter::All);
    assert_eq!(all[1], Filter::Active);
    assert_eq!(all[2], Filter::Completed);
}

#[test]
fn from_entries_defaults_filter_and_buffer() {
    let entries = vec![Entry::new(String::from("kept"))];
    let s = State::from_entries(entries);
    assert_eq!(s.entries.len(), 1);
    assert_eq!(s.entries[0].description, "kept");
    assert_eq!(s.filter, Filter::All);
    assert_eq!(s.edit_value, "");
}

#[test]
fn scenario_add_toggle_to_all_completed() {
    let mut s = State::new();
    s.add("a");
    s.add("b");
    assert_eq!(s.entries.len(), 2);
    assert_eq!(s.entries[0].description, "a");
    assert_eq!(s.entries[1].description, "b");
    assert_eq!(s.total(), 2);
    s.toggle(0);
    assert_eq!(s.total(), 1);
    assert!(!s.is_all_completed());
    s.toggle(1);
    assert_eq!(s.total(), 0);
    assert!(s.is_all_completed());
}

#[test]
fn apply_drives_the_same_operations() {
    let mut s = State::new();
    s.apply(Msg::Add(String::from("  one  ")));
    s.apply(Msg::Add(String::from("two")));
    assert_eq!(s.entries[0].description, "one");
    s.apply(Msg::Toggle(0));
    assert_eq!(s.total(), 1);
    s.apply(Msg::ToggleEdit(1));
    assert!(s.entries[1].editing);
    assert_eq!(s.edit_value, "two");
    s.apply(Msg::Edit((1, String::from("二 "))));
    assert_eq!(s.entries[1].description, "二");
    assert!(!s.entries[1].editing);
    assert_eq!(s.edit_value, "");
    s.apply(Msg::SetFilter(Filter::Active));
    assert_eq!(s.filter, Filter::Active);
    s.apply(Msg::Focus);
    assert_eq!(s.entries.len(), 2);
    s.apply(Msg::ToggleAll);
    assert!(s.is_all_completed());
    s.apply(Msg::ToggleAll);
    assert_eq!(s.total(), 2);
    s.apply(Msg::Remove(0));
    assert_eq!(s.entries.len(), 1);
    assert_eq!(s.entries[0].description, "二");
}
