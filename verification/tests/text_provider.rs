use yarn_slinger::string_map::StringMap;
use yarn_slinger::text_provider::{LineId, StringTableTextProvider, TextProvider};

fn table() -> StringMap<String> {
    let mut table = StringMap::new();
    table.insert("line:1".to_string(), "Hello".to_string());
    table.insert("line:2".to_string(), "Bye".to_string());
    table
}

#[test]
fn new_provider_has_no_text() {
    let provider = StringTableTextProvider::new();
    assert_eq!(provider.get_text(&LineId("line:1".to_string())), None);
}

#[test]
fn provider_looks_text_up_in_its_table() {
    let provider = StringTableTextProvider::with_string_table(table());
    assert_eq!(provider.get_text(&LineId("line:1".to_string())), Some("Hello".to_string()));
    assert_eq!(provider.get_text(&LineId("line:2".to_string())), Some("Bye".to_string()));
    assert_eq!(provider.get_text(&LineId("line:3".to_string())), None);
}

#[test]
fn set_string_table_replaces_the_table() {
    let mut provider = StringTableTextProvider::with_string_table(table());
    let mut other = StringMap::new();
    other.insert("line:3".to_string(), "Again".to_string());
    provider.set_string_table(other);
    assert_eq!(provider.get_text(&LineId("line:1".to_string())), None);
    assert_eq!(provider.get_text(&LineId("line:3".to_string())), Some("Again".to_string()));
}

#[test]
fn language_code_leaves_the_texts_alone() {
    let mut provider = StringTableTextProvider::with_string_table(table());
    provider.set_language_code("de".to_string());
    assert_eq!(provider.get_text(&LineId("line:1".to_string())), Some("Hello".to_string()));
}

#[test]
fn shallow_clone_has_the_same_texts() {
    let provider = StringTableTextProvider::with_string_table(table());
    let copy = provider.clone_shallow();
    assert_eq!(copy.get_text(&LineId("line:2".to_string())), Some("Bye".to_string()));
    let copy = provider.clone();
    assert_eq!(copy.get_text(&LineId("line:1".to_string())), Some("Hello".to_string()));
    assert_eq!(StringTableTextProvider::default().get_text(&LineId("line:1".to_string())), None);
}

#[test]
fn string_map_keeps_keys_apart_and_in_order() {
    let mut map: StringMap<u32> = StringMap::new();
    assert_eq!(map.len(), 0);
    assert_eq!(map.insert("b".to_string(), 1), None);
    assert_eq!(map.insert("a".to_string(), 2), None);
    assert_eq!(map.insert("b".to_string(), 3), Some(1));
    assert_eq!(map.len(), 2);
    assert!(map.contains_key(&"a".to_string()));
    assert!(!map.contains_key(&"c".to_string()));
    assert_eq!(map.get(&"b".to_string()), Some(&3));
    assert_eq!(map.get(&"".to_string()), None);
    assert_eq!(map.entries(), &vec![("b".to_string(), 3), ("a".to_string(), 2)]);
}
