use game_save_sync::utils::string_map::StringMap;
use game_save_sync::utils::text::{chars_eq, extend_chars, from_chars, str_eq, to_chars};

#[test]
fn a_new_map_is_empty() {
    let m: StringMap<u64> = StringMap::new();
    assert_eq!(m.len(), 0);
    assert!(!m.contains_key("a"));
    assert_eq!(m.get("a"), None);
    assert_eq!(m.position("a"), None);
}

#[test]
fn inserted_keys_keep_their_order() {
    let mut m: StringMap<u64> = StringMap::new();
    m.insert("b".to_string(), 2);
    m.insert("a".to_string(), 1);
    m.insert("c".to_string(), 3);
    assert_eq!(m.len(), 3);
    assert_eq!(m.key(0), "b");
    assert_eq!(m.key(1), "a");
    assert_eq!(m.key(2), "c");
    assert_eq!(*m.value(0), 2);
    assert_eq!(*m.value(1), 1);
    assert_eq!(*m.value(2), 3);
    assert_eq!(m.position("a"), Some(1));
    assert_eq!(m.get("c"), Some(&3));
    assert!(m.contains_key("b"));
    assert!(!m.contains_key("d"));
}

#[test]
fn inserting_a_held_key_replaces_its_value_in_place() {
    let mut m: StringMap<u64> = StringMap::new();
    m.insert("a".to_string(), 1);
    m.insert("b".to_string(), 2);
    m.insert("a".to_string(), 10);
    assert_eq!(m.len(), 2);
    assert_eq!(m.key(0), "a");
    assert_eq!(m.get("a"), Some(&10));
    assert_eq!(m.get("b"), Some(&2));
}

#[test]
fn set_value_hands_back_the_previous_value() {
    let mut m: StringMap<u64> = StringMap::new();
    m.insert("a".to_string(), 1);
    m.insert("b".to_string(), 2);
    m.insert("c".to_string(), 3);
    assert_eq!(m.set_value(1, 20), 2);
    assert_eq!(m.len(), 3);
    assert_eq!(m.key(1), "b");
    assert_eq!(m.get("b"), Some(&20));
    assert_eq!(m.get("a"), Some(&1));
    assert_eq!(m.get("c"), Some(&3));
    assert_eq!(m.set_value(2, 30), 3);
    assert_eq!(m.get("c"), Some(&30));
}

#[test]
fn a_duplicate_holds_the_same() {
    let mut m: StringMap<u64> = StringMap::new();
    m.insert("x".to_string(), 7);
    m.insert("y".to_string(), 8);
    let d = m.duplicate();
    m.insert("x".to_string(), 0);
    assert_eq!(d.len(), 2);
    assert_eq!(d.key(0), "x");
    assert_eq!(d.get("x"), Some(&7));
    assert_eq!(d.get("y"), Some(&8));
}

#[test]
fn keys_are_compared_as_text() {
    let mut m: StringMap<u64> = StringMap::new();
    m.insert("/a/b".to_string(), 1);
    assert!(!m.contains_key("/a//b"));
    assert!(!m.contains_key("/a/B"));
    assert!(!m.contains_key("/a/b/"));
    assert!(m.contains_key("/a/b"));
}

#[test]
fn text_goes_to_characters_and_back() {
    let text = "caf\u{e9} \u{4e16}\u{754c}/~";
    let chars = to_chars(text);
    assert_eq!(chars, text.chars().collect::<Vec<char>>());
    assert_eq!(from_chars(&chars), text);
    assert_eq!(to_chars(""), Vec::<char>::new());
    assert_eq!(from_chars(&Vec::new()), "");
}

#[test]
fn text_is_compared_by_characters() {
    assert!(str_eq("abc", "abc"));
    assert!(str_eq("", ""));
    assert!(!str_eq("abc", "abd"));
    assert!(!str_eq("abc", "ab"));
    assert!(!str_eq("ab", "abc"));
    assert!(chars_eq(&vec!['a'], &vec!['a']));
    assert!(!chars_eq(&vec!['a'], &vec!['b']));
    assert!(!chars_eq(&vec!['a'], &vec![]));
}

#[test]
fn characters_are_appended_in_order() {
    let mut out = vec!['a'];
    extend_chars(&mut out, &vec!['b', 'c']);
    assert_eq!(out, vec!['a', 'b', 'c']);
    extend_chars(&mut out, &vec![]);
    assert_eq!(out, vec!['a', 'b', 'c']);
}
