use todo_core::codec::{decode, encode};
use todo_core::entry::Entry;

fn entry(description: &str, completed: bool, editing: bool) -> Entry {
    Entry { description: String::from(description), completed, editing }
}

fn assert_round_trip(entries: &Vec<Entry>) {
    let stored = encode(entries);
    let loaded = decode(stored.as_str()).expect("an encoded list must decode");
    assert_eq!(loaded.len(), entries.len());
    for (a, b) in loaded.iter().zip(entries.iter()) {
        assert_eq!(a.description, b.description);
        assert_eq!(a.completed, b.completed);
        assert_eq!(a.editing, b.editing);
    }
}

#[test]
fn encode_has_exact_form() {
    assert_eq!(encode(&vec![entry("a", false, false)]), "00a;");
    assert_eq!(encode(&vec![entry("buy milk", true, false)]), "10buy milk;");
    assert_eq!(
        encode(&vec![entry("a;b\\c", false, true)]),
        "01a\\;b\\\\c;"
    );
    assert_eq!(encode(&Vec::new()), "");
}

#[test]
fn round_trip_plain_entries() {
    assert_round_trip(&vec![
        entry("buy milk", false, false),
        entry("walk dog", true, false),
        entry("", true, true),
    ]);
}

#[test]
fn round_trip_entries_needing_escapes() {
    assert_round_trip(&vec![
        entry(";", false, false),
        entry("\\", true, false),
        entry("a;b\\c;;", false, true),
        entry("\\;\\;", true, true),
    ]);
}

#[test]
fn round_trip_non_ascii_text() {
    assert_round_trip(&vec![entry("héllo wörld 日本語", false, false)]);
}

#[test]
fn round_trip_empty_list() {
    assert_round_trip(&Vec::new());
}

#[test]
fn decode_rejects_malformed_text() {
    assert!(decode("x").is_none());
    assert!(decode("0").is_none());
    assert!(decode("00").is_none());
    assert!(decode("00abc").is_none());
    assert!(decode("20abc;").is_none());
    assert!(decode("00a;1").is_none());
    assert!(decode("00a\\").is_none());
}

#[test]
fn decode_of_empty_text_is_the_empty_list() {
    let loaded = decode("").expect("empty text is the empty list");
    assert!(loaded.is_empty());
}
