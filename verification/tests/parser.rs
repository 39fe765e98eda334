use bibparse::{BibItem, Source, TagMap};

fn get_expected() -> BibItem {
    let mut expected_props = TagMap::new();
    expected_props.insert(String::from("author"), String::from("Some Body"));
    expected_props.insert(String::from("title"), String::from("Some Thing"));
    expected_props.insert(String::from("date"), String::from("2000"));
    BibItem::Entry {
        entry_type: String::from("ARTICLE"),
        label: String::from("label"),
        tags: expected_props,
    }
}

#[test]
fn test_quoted_string() {
    let line = "\"This is a string\"\0";
    let (o, _i) = Source::scan(line).quoted_string(0).unwrap();

    assert_eq!(o, "This is a string");
}

#[test]
fn test_braced_string() {
    let line = "{test string}\0";
    let (o, _) = Source::scan(line).braced_string(0).unwrap();

    assert_eq!(o, "test string");
}

#[test]
fn test_kv_pair() {
    let line = "key=\"value\"\0";
    let r = Source::scan(line).tag_pair(0);

    if let Err(ref inc) = r {
        println!("{:?}", inc);
    } else {
        let ((k, v), _) = r.unwrap().unwrap();

        println!("{:?} = {:?}", k, v);
        assert_eq!(k, "key");
        assert_eq!(v, "value");
    }
}

#[test]
fn test_kv_list() {
    let line = "keyone=\"value1\",\nkeytwo={value2}\0";
    let mut expected = TagMap::new();
    expected.insert(String::from("keyone"), String::from("value1"));
    expected.insert(String::from("keytwo"), String::from("value2"));
    let (o, _) = Source::scan(line).tag_list(0).unwrap();
    assert_eq!(o, expected);
}

#[test]
fn test_full_bib_item() {
    let line = "\
@article{label,
    author = \"Some Body\",
    title = \"Some Thing\",
    date = \"2000\"
}\0";
    let expected = get_expected();
    let (o, _) = Source::scan(line).bib_entry(0).unwrap().unwrap();
    assert_eq!(o, expected);
}

#[test]
fn test_full_bib_item_no_delim() {
    let line = "\
@article{label,
    author = \"Some Body\",
    title = \"Some Thing\",
    date = 2000
}\0";
    let expected = get_expected();
    let (o, _) = Source::scan(line).bib_entry(0).unwrap().unwrap();
    assert_eq!(o, expected);
}

#[test]
fn test_full_bib_item_with_whitespce() {
    let line = "\
@article { label,
    author = \"Some Body\",
    title = \"Some Thing\",
    date = \"2000\"
}\0";
    let expected = get_expected();
    let (o, _) = Source::scan(line).bib_entry(0).unwrap().unwrap();
    assert_eq!(o, expected);
}

#[test]
fn test_full_bib_item_trailing_comma() {
    let line = "\
@article{label,
    author = \"Some Body\",
    title = \"Some Thing\",
    date = \"2000\",
}\0";
    let expected = get_expected();
    let (o, _) = Source::scan(line).bib_entry(0).unwrap().unwrap();
    assert_eq!(o, expected);
}

fn get_expected_strings() -> BibItem {
    let mut hm = TagMap::new();
    hm.insert(String::from("key"), String::from("value"));
    hm.insert(String::from("another"), String::from("value"));

    BibItem::String(hm)
}

#[test]
fn test_replacement_strings() {
    let line = "@STRING { key = \"value\", another = \"value\" }\0";
    let expected = get_expected_strings();
    let (o, _) = Source::scan(line).bib_entry(0).unwrap().unwrap();

    assert_eq!(o, expected);
}

#[test]
fn test_bib_file() {
    let line = "\
@article {label,
    title = \"article\",
    author = {somebody},
    date = 2000,
}

@book {labeltwo,
    title = \"book\",
    author = {somebody else},
    date = 2000,
}\0";

    let r = bibparse::bibfile(line).unwrap();
    println!("{:?}", r);
    assert_eq!(r.len(), 2);
}
