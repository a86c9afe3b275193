use rustscraper::page::{collect_fields, extract, Lookup};

fn selectors(list: &[(&str, &str)]) -> Vec<(String, String)> {
    list.iter().map(|(a, b)| (a.to_string(), b.to_string())).collect()
}

fn owned(list: &[&str]) -> Vec<String> {
    list.iter().map(|s| s.to_string()).collect()
}

#[test]
fn the_first_match_gives_the_field() {
    let page = scraper::Html::parse_document(
        "<html><body><h1> Hello </h1><p>one</p><p>two <b>bold</b> three</p></body></html>",
    );
    let found = extract(&page, &selectors(&[("p + p", "second"), ("h1", "title"), ("p", "p")]));
    assert_eq!(
        found.fields,
        selectors(&[("second", "two  bold  three"), ("title", "Hello"), ("p", "one")])
    );
    assert_eq!(found.warnings, owned(&[]));
}

#[test]
fn empty_and_missing_elements_give_no_field() {
    let page = scraper::Html::parse_document("<p> \n </p><div><i></i></div>");
    let found = extract(&page, &selectors(&[("p", "a"), ("i", "b"), ("h1", "c")]));
    assert_eq!(found.fields, selectors(&[]));
    assert_eq!(found.warnings, owned(&[]));
}

#[test]
fn invalid_selectors_only_warn() {
    let page = scraper::Html::parse_document("<p>text</p>");
    let fault = scraper::Selector::parse("p[").unwrap_err().to_string();
    let found = extract(&page, &selectors(&[("p[", "bad"), ("p", "good")]));
    assert_eq!(found.fields, selectors(&[("good", "text")]));
    assert_eq!(
        found.warnings,
        vec![format!("Warning: invalid CSS selector 'p[': {fault}")]
    );
    assert!(!fault.is_empty());
}

#[test]
fn a_field_may_be_asked_for_twice() {
    let page = scraper::Html::parse_document("<p>text</p>");
    let found = extract(&page, &selectors(&[("p", "x"), ("p", "x")]));
    assert_eq!(found.fields, selectors(&[("x", "text"), ("x", "text")]));
}

#[test]
fn lookups_become_fields_and_warnings() {
    let found = collect_fields(
        &selectors(&[("a", "one"), ("b", "two"), ("c[", "three"), ("d", "four"), ("e", "five")]),
        &vec![
            Lookup::Found(owned(&[" x", "y "])),
            Lookup::Missing,
            Lookup::Invalid("oops".to_string()),
            Lookup::Found(owned(&["\n", "\t"])),
            Lookup::Found(owned(&["z"])),
        ],
    );
    assert_eq!(found.fields, selectors(&[("one", "x y"), ("five", "z")]));
    assert_eq!(found.warnings, owned(&["Warning: invalid CSS selector 'c[': oops"]));
}

#[test]
fn selectors_do_not_disturb_each_other() {
    let page = scraper::Html::parse_document("<h1>A</h1><h2>B</h2>");
    let first = extract(&page, &selectors(&[("h1", "a"), ("h1[", "b")]));
    let second = extract(&page, &selectors(&[("h2", "c")]));
    let both = extract(&page, &selectors(&[("h1", "a"), ("h1[", "b"), ("h2", "c")]));
    let mut fields = first.fields;
    fields.extend(second.fields);
    assert_eq!(both.fields, fields);
    assert_eq!(both.warnings, first.warnings);
}
