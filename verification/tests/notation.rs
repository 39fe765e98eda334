use bibparse::{bibfile, BibError, BibItem, Glyph, Kind, RawItem, Source, TagMap};

fn tags(pairs: &[(&str, &str)]) -> TagMap {
    let mut m = TagMap::new();
    for (k, v) in pairs {
        m.insert(String::from(*k), String::from(*v));
    }
    m
}

fn entry(entry_type: &str, label: &str, pairs: &[(&str, &str)]) -> BibItem {
    BibItem::Entry {
        entry_type: String::from(entry_type),
        label: String::from(label),
        tags: tags(pairs),
    }
}

fn one(text: &str) -> BibItem {
    Source::scan(text).bib_entry(0).unwrap().unwrap().0
}

#[test]
fn quoted_value_gives_its_end() {
    let r = Source::scan("\"abc\" rest").quoted_string(0);
    assert_eq!(r, Some((String::from("abc"), 5)));
}

#[test]
fn braced_value_keeps_nested_groups() {
    let r = Source::scan("{a {b {c}} \"d\" e}").braced_string(0);
    assert_eq!(r, Some((String::from("a {b {c}} \"d\" e"), 17)));
}

#[test]
fn quoted_value_keeps_inner_braces() {
    let src = Source::scan("title = \"A {Quoted} Term\"");
    let ((k, v), end) = src.tag_pair(0).unwrap().unwrap();
    assert_eq!(k, "title");
    assert_eq!(v, "A {Quoted} Term");
    assert_eq!(end, 25);
}

#[test]
fn quoted_string_does_not_match_a_brace() {
    assert_eq!(Source::scan("{abc}").quoted_string(0), None);
    assert_eq!(Source::scan("\"abc\"").braced_string(0), None);
    assert_eq!(
        Source::scan("\"abc\"").delimited_string(0),
        Some((String::from("abc"), 5))
    );
    assert_eq!(
        Source::scan("{abc}").delimited_string(0),
        Some((String::from("abc"), 5))
    );
}

#[test]
fn empty_groups_are_no_values() {
    assert_eq!(Source::scan("{}").braced_string(0), None);
    assert_eq!(Source::scan("\"\"").quoted_string(0), None);
    assert_eq!(Source::scan("a = {}").tag_pair(0), Err(BibError));
    assert_eq!(Source::scan("a = \"\"").tag_pair(0), Err(BibError));
}

#[test]
fn unbalanced_groups_are_no_values() {
    assert_eq!(Source::scan("{abc").braced_string(0), None);
    assert_eq!(Source::scan("{a{bc}").braced_string(0), None);
    assert_eq!(Source::scan("\"abc").quoted_string(0), None);
    assert_eq!(Source::scan("{a \" b}").braced_string(0), None);
    assert_eq!(Source::scan("{a } b}").braced_string(0), Some((String::from("a "), 4)));
}

#[test]
fn a_quote_closes_only_where_no_group_opens() {
    // The second quote opens the group `" b"`, so the first group goes on
    // behind it and finds no quote to close it.
    assert_eq!(Source::scan("\"a \" b\"").quoted_string(0), None);
    // With a fourth quote the second quote opens no group any more: the
    // third and the fourth form one, behind which no quote follows.
    assert_eq!(
        Source::scan("\"a \" b\" c\"").quoted_string(0),
        Some((String::from("a "), 4))
    );
    // Within braces the closing brace ends every body, so the quotes pair
    // up from the left.
    assert_eq!(
        Source::scan("{\"a \" b\" c\"}").braced_string(0),
        Some((String::from("\"a \" b\" c\""), 12))
    );
}

#[test]
fn any_string_stops_at_a_delimiter() {
    let src = Source::scan("abc, = @{x");
    assert_eq!(src.any_string(0), Some((String::from("abc, = @"), 8)));
    assert_eq!(src.any_string(8), None);
    assert_eq!(src.any_string(9), Some((String::from("x"), 10)));
    assert_eq!(src.any_string(10), None);
    assert_eq!(src.any_string(11), None);
}

#[test]
fn string_takes_plain_text_and_groups() {
    let src = Source::scan("ab{c}\"d\"e}f");
    assert_eq!(src.string(0), Some((String::from("ab{c}\"d\"e"), 9)));
    assert_eq!(src.string(9), None);
    assert_eq!(src.string(10), Some((String::from("f"), 11)));
    assert_eq!(src.string(11), None);
    assert_eq!(src.string(200), None);
}

#[test]
fn bare_value_equals_quoted_value() {
    let bare = Source::scan("date = 2000").tag_pair(0).unwrap().unwrap();
    let quoted = Source::scan("date = \"2000\"").tag_pair(0).unwrap().unwrap();
    assert_eq!(bare.0, (String::from("date"), String::from("2000")));
    assert_eq!(bare.0, quoted.0);
    assert_eq!(bare.1, 11);
    assert_eq!(quoted.1, 13);
}

#[test]
fn bare_value_is_the_longest_run() {
    let ((k, v), end) = Source::scan(" year=20a0b-1").tag_pair(0).unwrap().unwrap();
    assert_eq!(k, "year");
    assert_eq!(v, "20a0b");
    assert_eq!(end, 11);
}

#[test]
fn value_is_a_run_or_a_group() {
    let src = Source::scan("x1 {y} \"z\" -");
    assert_eq!(src.value(0), Some((String::from("x1"), 2)));
    assert_eq!(src.value(3), Some((String::from("y"), 6)));
    assert_eq!(src.value(7), Some((String::from("z"), 10)));
    assert_eq!(src.value(11), None);
    assert_eq!(src.value(12), None);
}

#[test]
fn pair_takes_blanks_between_tokens() {
    let r = Source::scan(" \t\r\nkey \t=\n {v} \n,").tag_pair(0);
    assert_eq!(r, Ok(Some(((String::from("key"), String::from("v")), 17))));
}

#[test]
fn pair_without_key_is_absent() {
    assert_eq!(Source::scan("  = 1").tag_pair(0), Ok(None));
    assert_eq!(Source::scan("1 = 1").tag_pair(0), Ok(None));
    assert_eq!(Source::scan("").tag_pair(0), Ok(None));
    assert_eq!(Source::scan("abc").tag_pair(7), Ok(None));
}

#[test]
fn pair_without_equals_or_value_is_an_error() {
    assert_eq!(Source::scan("key 1").tag_pair(0), Err(BibError));
    assert_eq!(Source::scan("key").tag_pair(0), Err(BibError));
    assert_eq!(Source::scan("key =").tag_pair(0), Err(BibError));
    assert_eq!(Source::scan("key = {unclosed").tag_pair(0), Err(BibError));
    assert_eq!(Source::scan("key = -").tag_pair(0), Err(BibError));
}

#[test]
fn pair_keeps_the_key_as_written() {
    let ((k, _), _) = Source::scan("KeY = 1").tag_pair(0).unwrap().unwrap();
    assert_eq!(k, "KeY");
}

#[test]
fn list_puts_keys_into_lower_case() {
    let (m, _) = Source::scan("KeY = 1, ÉTÉ = 2").tag_list(0).unwrap();
    assert_eq!(m, tags(&[("key", "1"), ("été", "2")]));
    assert_eq!(m.get("key").map(|s| s.as_str()), Some("1"));
    assert_eq!(m.get("KeY"), None);
}

#[test]
fn duplicate_keys_keep_the_later_value() {
    let (m, end) = Source::scan("a=1,a=2").tag_list(0).unwrap();
    assert_eq!(m, tags(&[("a", "2")]));
    assert_eq!(m.len(), 1);
    assert_eq!(end, 7);
}

#[test]
fn duplicate_keys_are_compared_in_lower_case() {
    let (m, _) = Source::scan("Aa=1,b=x,aA=2").tag_list(0).unwrap();
    assert_eq!(m, tags(&[("aa", "2"), ("b", "x")]));
    let (raw, _) = Source::scan("Aa=1,b=x,aA=2").tag_pairs(0).unwrap();
    assert_eq!(
        raw,
        vec![
            (String::from("Aa"), String::from("1")),
            (String::from("b"), String::from("x")),
            (String::from("aA"), String::from("2")),
        ]
    );
}

#[test]
fn empty_list_is_valid() {
    let (m, end) = Source::scan("  }").tag_list(0).unwrap();
    assert!(m.is_empty());
    assert_eq!(end, 0);
    let (m, end) = Source::scan("").tag_list(0).unwrap();
    assert!(m.is_empty());
    assert_eq!(end, 0);
}

#[test]
fn list_stops_before_a_comma_without_pair() {
    let (m, end) = Source::scan("a = 1 , b = 2 , }").tag_list(0).unwrap();
    assert_eq!(m, tags(&[("a", "1"), ("b", "2")]));
    assert_eq!(end, 14);
}

#[test]
fn list_with_a_broken_pair_is_an_error() {
    assert_eq!(Source::scan("a = 1, b 2").tag_list(0).err(), Some(BibError));
    assert_eq!(Source::scan("a = 1, b = {x").tag_list(0).err(), Some(BibError));
    assert_eq!(Source::scan("a 1").tag_pairs(0).err(), Some(BibError));
}

#[test]
fn entry_type_is_put_into_upper_case() {
    assert_eq!(one("@bOOk{k1, a = 1}"), entry("BOOK", "k1", &[("a", "1")]));
    assert_eq!(one("@straße{k1,}"), entry("STRASSE", "k1", &[]));
}

#[test]
fn raw_item_keeps_the_words_as_written() {
    let (raw, end) = Source::scan("@bOOk{k1, A = 1, a = 2}").raw_item(0).unwrap().unwrap();
    assert_eq!(end, 23);
    match raw {
        RawItem::Entry { entry_type, label, tags } => {
            assert_eq!(entry_type, "bOOk");
            assert_eq!(label, "k1");
            assert_eq!(
                tags,
                vec![
                    (String::from("A"), String::from("1")),
                    (String::from("a"), String::from("2")),
                ]
            );
        }
        other => panic!("not an entry: {:?}", other),
    }
    let kept = BibItem::from_raw(
        Source::scan("@bOOk{k1, A = 1, a = 2}").raw_item(0).unwrap().unwrap().0,
    );
    assert_eq!(kept, entry("BOOK", "k1", &[("a", "2")]));
}

#[test]
fn entry_without_tags() {
    assert_eq!(one("@misc{x,}"), entry("MISC", "x", &[]));
    assert_eq!(one("@misc{x,,}"), entry("MISC", "x", &[]));
    assert_eq!(one("@misc { x , \n }"), entry("MISC", "x", &[]));
}

#[test]
fn entry_takes_blanks_after_the_at_sign() {
    assert_eq!(one(" \n@ article \t{ l1 , a = {b} , }  "), entry("ARTICLE", "l1", &[("a", "b")]));
}

#[test]
fn entry_gives_the_position_behind_its_blanks() {
    let src = Source::scan("  @a{b, c = 1}  \n @x");
    let (item, end) = src.bib_entry(0).unwrap().unwrap();
    assert_eq!(item, entry("A", "b", &[("c", "1")]));
    assert_eq!(end, 18);
}

#[test]
fn trailing_comma_changes_nothing() {
    let without = Source::scan("@a{b, c = 1, d = {e}}").bib_entry(0).unwrap().unwrap();
    let with = Source::scan("@a{b, c = 1, d = {e},}").bib_entry(0).unwrap().unwrap();
    assert_eq!(without.0, with.0);
    assert_eq!(without.0, entry("A", "b", &[("c", "1"), ("d", "e")]));
    assert_eq!(without.1 + 1, with.1);
}

#[test]
fn trailing_comma_changes_nothing_of_a_string_macro() {
    let without = Source::scan("@STRING{a = 1, b = {c} }").bib_entry(0).unwrap().unwrap();
    let with = Source::scan("@STRING{a = 1, b = {c} ,}").bib_entry(0).unwrap().unwrap();
    assert_eq!(without.0, with.0);
    assert_eq!(without.0, BibItem::String(tags(&[("a", "1"), ("b", "c")])));
    assert_eq!(without.1 + 1, with.1);
    assert_eq!(one("@STRING{,}"), BibItem::String(tags(&[])));
}

#[test]
fn two_trailing_commas_are_an_error() {
    assert_eq!(Source::scan("@a{b, c = 1,,}").bib_entry(0), Err(BibError));
}

#[test]
fn what_is_no_entry_is_absent() {
    assert_eq!(Source::scan("").bib_entry(0), Ok(None));
    assert_eq!(Source::scan("   ").bib_entry(0), Ok(None));
    assert_eq!(Source::scan("hello").bib_entry(0), Ok(None));
    assert_eq!(Source::scan("@").bib_entry(0), Ok(None));
    assert_eq!(Source::scan("@123{a,}").bib_entry(0), Ok(None));
    assert_eq!(Source::scan("@foo bar").bib_entry(0), Ok(None));
    assert_eq!(Source::scan("@foo").bib_entry(0), Ok(None));
    assert_eq!(Source::scan("@a{b,}").bib_entry(6), Ok(None));
    assert_eq!(Source::scan("@a{b,}").bib_entry(60), Ok(None));
}

#[test]
fn entry_that_began_must_go_on() {
    assert_eq!(Source::scan("@a{").bib_entry(0), Err(BibError));
    assert_eq!(Source::scan("@a{b}").bib_entry(0), Err(BibError));
    assert_eq!(Source::scan("@a{,}").bib_entry(0), Err(BibError));
    assert_eq!(Source::scan("@a{b c,}").bib_entry(0), Err(BibError));
    assert_eq!(Source::scan("@a{b, c = 1").bib_entry(0), Err(BibError));
    assert_eq!(Source::scan("@a{b, c = 1 d = 2}").bib_entry(0), Err(BibError));
    assert_eq!(Source::scan("@a{b, c = {1}").bib_entry(0), Err(BibError));
}

#[test]
fn string_macro_holds_its_tags() {
    assert_eq!(one("@STRING{jan = \"January\"}"), BibItem::String(tags(&[("jan", "January")])));
    assert_eq!(one("@STRING {}"), BibItem::String(tags(&[])));
    assert_eq!(one("@STRING{JAN = 1, jan = 2}"), BibItem::String(tags(&[("jan", "2")])));
}

#[test]
fn string_keyword_must_be_followed_by_its_body() {
    assert_eq!(Source::scan("@STRING").bib_entry(0), Err(BibError));
    assert_eq!(Source::scan("@STRINGS{a, b = 1}").bib_entry(0), Err(BibError));
    assert_eq!(Source::scan("@STRING{a = 1").bib_entry(0), Err(BibError));
    assert_eq!(Source::scan("@STRING{a = 1,,}").bib_entry(0), Err(BibError));
    assert_eq!(Source::scan("@STRING{a 1}").bib_entry(0), Err(BibError));
}

#[test]
fn keywords_are_matched_as_written() {
    assert_eq!(one("@string{a, b = 1}"), entry("STRING", "a", &[("b", "1")]));
    assert_eq!(one("@Preamble{a, b = 1}"), entry("PREAMBLE", "a", &[("b", "1")]));
    assert_eq!(Source::scan("@ STRING{a = 1}").bib_entry(0), Err(BibError));
}

#[test]
fn preamble_and_comment_are_markers() {
    let src = Source::scan(" @PREAMBLE  {x}");
    assert_eq!(src.bib_entry(0), Ok(Some((BibItem::Preamble, 12))));
    let src = Source::scan("@COMMENT whatever");
    assert_eq!(src.bib_entry(0), Ok(Some((BibItem::Comment, 9))));
    assert_eq!(bibfile("@COMMENT @PREAMBLE @COMMENT"), Ok(vec![
        BibItem::Comment,
        BibItem::Preamble,
        BibItem::Comment,
    ]));
}

#[test]
fn body_of_a_preamble_ends_the_document() {
    let r = bibfile("@PREAMBLE{x} @a{b, c = 1}").unwrap();
    assert_eq!(r, vec![BibItem::Preamble]);
}

#[test]
fn empty_document_has_no_items() {
    assert_eq!(bibfile(""), Ok(vec![]));
    assert_eq!(bibfile(" \n\t "), Ok(vec![]));
    assert_eq!(bibfile("no items here"), Ok(vec![]));
}

#[test]
fn two_entries_come_in_the_order_of_the_text() {
    let r = bibfile("@a{x, k = 1}\n\n  @b{y, k = 2}").unwrap();
    assert_eq!(r, vec![entry("A", "x", &[("k", "1")]), entry("B", "y", &[("k", "2")])]);
}

#[test]
fn entries_need_no_blank_between_them() {
    let r = bibfile("@a{x,}@b{y,}@STRING{s = 1}").unwrap();
    assert_eq!(r.len(), 3);
    assert_eq!(r[2], BibItem::String(tags(&[("s", "1")])));
}

#[test]
fn document_without_a_final_line_end_is_read() {
    let r = bibfile("@a{x, k = 1}").unwrap();
    assert_eq!(r, vec![entry("A", "x", &[("k", "1")])]);
    let r = bibfile("@a{x, k = 1}\n").unwrap();
    assert_eq!(r, vec![entry("A", "x", &[("k", "1")])]);
}

#[test]
fn trailing_garbage_is_dropped() {
    let r = bibfile("@a{x, k = 1}\n this is not an item @b{y,}").unwrap();
    assert_eq!(r, vec![entry("A", "x", &[("k", "1")])]);
}

#[test]
fn unmatched_brace_fails_the_document() {
    assert_eq!(bibfile("@a{x, k = {un{closed}\n}"), Err(BibError));
    assert_eq!(bibfile("@a{x, k = 1}\n@b{y, t = {A {B}"), Err(BibError));
    assert_eq!(bibfile("@a{x, k = 1}\n@b{y, t = \"A {B\" }"), Err(BibError));
}

#[test]
fn error_says_what_it_is() {
    assert_eq!(BibError.to_string(), "An error occurred whilst parsing the file.");
    assert_eq!(BibError.description(), "An error occurred whilst parsing the file.");
}

#[test]
fn entry_is_written_line_by_line() {
    let e = entry("ARTICLE", "label", &[("author", "Some Body"), ("date", "2000")]);
    assert_eq!(
        e.to_string(),
        "@ARTICLE{label,\n    author = {Some Body},\n    date = {2000},\n}\n\n"
    );
    assert_eq!(entry("MISC", "x", &[]).to_string(), "@MISC{x,\n}\n\n");
}

#[test]
fn other_items_are_written_by_name() {
    assert_eq!(BibItem::Preamble.to_string(), "Preamble");
    assert_eq!(BibItem::Comment.to_string(), "Comment");
    assert_eq!(BibItem::String(tags(&[("a", "b")])).to_string(), "String");
}

#[test]
fn written_entry_is_read_again() {
    let e = entry(
        "INPROCEEDINGS",
        "Knuth1984",
        &[
            ("author", "Donald E. Knuth"),
            ("title", "The {TeX}book, \"quoted\" and {nested {deeply}}"),
            ("year", "1984"),
            ("note", "ünï cödé"),
        ],
    );
    let text = e.to_string();
    let src = Source::scan(&text);
    let (again, end) = src.bib_entry(0).unwrap().unwrap();
    assert_eq!(again, e);
    assert_eq!(end, src.len());
    assert_eq!(bibfile(&text), Ok(vec![e]));
}

#[test]
fn entry_of_type_string_is_not_read_again() {
    let e = one("@string{a, b = 1}");
    assert_eq!(Source::scan(&e.to_string()).bib_entry(0), Err(BibError));
}

#[test]
fn letters_of_other_alphabets_are_letters() {
    let src = Source::scan("été1 京都 x_y");
    assert_eq!(src.token(0, Kind::Letter), Some((String::from("été"), 3)));
    assert_eq!(src.token(0, Kind::Alnum), Some((String::from("été1"), 4)));
    assert_eq!(src.token(3, Kind::Letter), None);
    assert_eq!(src.token(4, Kind::Space), Some((String::from(" "), 5)));
    assert_eq!(src.token(5, Kind::Letter), Some((String::from("京都"), 7)));
    assert_eq!(src.token(8, Kind::Letter), Some((String::from("x"), 9)));
    assert_eq!(src.token(9, Kind::Letter), None);
    assert_eq!(src.token(9, Kind::Plain), Some((String::from("_y"), 11)));
    assert_eq!(one("@été{京都, año = 1}"), entry("ÉTÉ", "京都", &[("año", "1")]));
}

#[test]
fn positions_count_characters() {
    let src = Source::scan("é = {ü}");
    assert_eq!(src.len(), 7);
    assert_eq!(src.tag_pair(0), Ok(Some(((String::from("é"), String::from("ü")), 7))));
}

#[test]
fn source_tells_what_stands_where() {
    let src = Source::scan("a1 {");
    assert!(src.sees(3, '{'));
    assert!(!src.sees(2, '{'));
    assert!(!src.sees(4, '{'));
    assert!(src.has(0, Kind::Letter));
    assert!(!src.has(1, Kind::Letter));
    assert!(src.has(1, Kind::Alnum));
    assert!(src.has(2, Kind::Space));
    assert!(src.has(2, Kind::Plain));
    assert!(!src.has(3, Kind::Plain));
    assert!(!src.has(4, Kind::Plain));
    assert_eq!(src.run(0, Kind::Alnum), 2);
    assert_eq!(src.run(2, Kind::Alnum), 2);
    assert_eq!(src.skip(2), 3);
    assert_eq!(src.skip(9), 9);
    assert_eq!(src.body(0), 3);
    assert_eq!(src.group(3), None);
}

#[test]
fn classes_given_by_hand_decide_what_a_letter_is() {
    let text = "@ab{c1, d = 2}";
    let all: Vec<Glyph> = text.chars().map(|c| Glyph::new(c, true)).collect();
    let src = Source::from_glyphs(all);
    // Digits and marks stay what they are, whatever their class says.
    assert_eq!(src.bib_entry(0), Ok(Some((entry("AB", "c1", &[("d", "2")]), 14))));
    assert_eq!(src.token(1, Kind::Letter), Some((String::from("ab"), 3)));
    assert_eq!(src.token(4, Kind::Letter), Some((String::from("c"), 5)));
    let none: Vec<Glyph> = text.chars().map(|c| Glyph::new(c, false)).collect();
    let src = Source::from_glyphs(none);
    assert_eq!(src.bib_entry(0), Ok(None));
    assert_eq!(src.token(1, Kind::Letter), None);
    assert_eq!(src.token(5, Kind::Alnum), Some((String::from("1"), 6)));
    let some: Vec<Glyph> = text.chars().map(|c| Glyph::new(c, c != 'b')).collect();
    let src = Source::from_glyphs(some);
    assert_eq!(src.token(1, Kind::Letter), Some((String::from("a"), 2)));
    assert_eq!(src.bib_entry(0), Ok(None));
}

#[test]
fn deep_nesting_is_read_without_descending() {
    let depth = 200_000;
    let mut text = String::from("@a{b, c = ");
    for _ in 0..depth {
        text.push('{');
    }
    text.push('x');
    for _ in 0..depth {
        text.push('}');
    }
    text.push('}');
    let r = bibfile(&text).unwrap();
    assert_eq!(r.len(), 1);
    match &r[0] {
        BibItem::Entry { tags, .. } => {
            assert_eq!(tags.get("c").unwrap().chars().count(), 2 * depth - 1);
        }
        other => panic!("not an entry: {:?}", other),
    }
}

#[test]
fn many_quoted_values_are_read_in_one_pass() {
    let mut text = String::from("@a{b");
    for i in 0..20_000 {
        text.push_str(&format!(",\n  k = \"value {}\"", i));
    }
    text.push_str("\n}\n");
    let r = bibfile(&text).unwrap();
    assert_eq!(r, vec![entry("A", "b", &[("k", "value 19999")])]);
}
