use bibparse::{BibItem, TagMap};

#[test]
fn new_map_is_empty() {
    let m = TagMap::new();
    assert!(m.is_empty());
    assert_eq!(m.len(), 0);
    assert_eq!(m.get("a"), None);
    assert!(!m.contains_key("a"));
    assert_eq!(m.get_index(0), None);
}

#[test]
fn insert_adds_a_new_key_behind_the_others() {
    let mut m = TagMap::new();
    m.insert(String::from("b"), String::from("1"));
    m.insert(String::from("a"), String::from("2"));
    assert_eq!(m.len(), 2);
    assert!(!m.is_empty());
    assert_eq!(m.get("a").map(|s| s.as_str()), Some("2"));
    assert_eq!(m.get("b").map(|s| s.as_str()), Some("1"));
    assert!(m.contains_key("a"));
    assert!(!m.contains_key("c"));
    let first = m.get_index(0).unwrap();
    assert_eq!((first.0.as_str(), first.1.as_str()), ("b", "1"));
    let second = m.get_index(1).unwrap();
    assert_eq!((second.0.as_str(), second.1.as_str()), ("a", "2"));
    assert_eq!(m.get_index(2), None);
}

#[test]
fn insert_replaces_the_value_of_a_known_key() {
    let mut m = TagMap::new();
    m.insert(String::from("a"), String::from("1"));
    m.insert(String::from("b"), String::from("2"));
    m.insert(String::from("a"), String::from("3"));
    assert_eq!(m.len(), 2);
    assert_eq!(m.get("a").map(|s| s.as_str()), Some("3"));
    let first = m.get_index(0).unwrap();
    assert_eq!((first.0.as_str(), first.1.as_str()), ("a", "3"));
}

#[test]
fn maps_are_equal_whatever_the_order() {
    let mut m1 = TagMap::new();
    m1.insert(String::from("a"), String::from("1"));
    m1.insert(String::from("b"), String::from("2"));
    let mut m2 = TagMap::new();
    m2.insert(String::from("b"), String::from("2"));
    m2.insert(String::from("a"), String::from("1"));
    assert_eq!(m1, m2);
    assert!(m1.within(&m2));
    m2.insert(String::from("c"), String::from("3"));
    assert_ne!(m1, m2);
    assert!(m1.within(&m2));
    assert!(!m2.within(&m1));
    m1.insert(String::from("c"), String::from("4"));
    assert_ne!(m1, m2);
    assert!(!m1.within(&m2));
}

#[test]
fn items_are_equal_by_form_and_content() {
    let mut m = TagMap::new();
    m.insert(String::from("a"), String::from("1"));
    let mut n = TagMap::new();
    n.insert(String::from("a"), String::from("1"));
    let e1 = BibItem::Entry { entry_type: String::from("A"), label: String::from("x"), tags: m };
    let e2 = BibItem::Entry { entry_type: String::from("A"), label: String::from("x"), tags: n };
    assert_eq!(e1, e2);
    let e3 = BibItem::Entry {
        entry_type: String::from("A"),
        label: String::from("y"),
        tags: TagMap::new(),
    };
    assert_ne!(e1, e3);
    assert_ne!(BibItem::Preamble, BibItem::Comment);
    assert_eq!(BibItem::Preamble, BibItem::Preamble);
    assert_eq!(BibItem::Comment, BibItem::Comment);
    assert_eq!(BibItem::String(TagMap::new()), BibItem::String(TagMap::new()));
    assert_ne!(BibItem::String(TagMap::new()), BibItem::Preamble);
    assert_ne!(e3, BibItem::String(TagMap::new()));
}
