use rustscraper::selectors::parse_selectors;

fn args(list: &[&str]) -> Vec<String> {
    list.iter().map(|s| s.to_string()).collect()
}

fn pair(css: &str, field: &str) -> (String, String) {
    (css.to_string(), field.to_string())
}

#[test]
fn splits_on_the_last_colon() {
    let pairs = parse_selectors(&args(&["h1:title", "a:first-child:link"])).unwrap();
    assert_eq!(pairs, vec![pair("h1", "title"), pair("a:first-child", "link")]);
}

#[test]
fn no_arguments_ask_for_nothing() {
    assert_eq!(parse_selectors(&args(&[])).unwrap(), vec![]);
}

#[test]
fn argument_without_colon_is_refused() {
    assert_eq!(parse_selectors(&args(&["h1"])), Err("h1".to_string()));
}

#[test]
fn argument_without_selector_is_refused() {
    assert_eq!(parse_selectors(&args(&[":title"])), Err(":title".to_string()));
}

#[test]
fn argument_without_field_is_refused() {
    assert_eq!(parse_selectors(&args(&["h1:"])), Err("h1:".to_string()));
    assert_eq!(parse_selectors(&args(&[""])), Err("".to_string()));
}

#[test]
fn first_refused_argument_is_the_error() {
    assert_eq!(
        parse_selectors(&args(&["h1:title", "bad", "p:", "p:text"])),
        Err("bad".to_string())
    );
}

#[test]
fn doubled_colon_stays_with_the_selector() {
    assert_eq!(parse_selectors(&args(&["p::x"])).unwrap(), vec![pair("p:", "x")]);
}

#[test]
fn parsing_undoes_joining_with_a_colon() {
    let pairs = vec![pair("a:hover", "link"), pair("::", "x"), pair("p", "é")];
    let joined: Vec<String> = pairs.iter().map(|(css, field)| format!("{css}:{field}")).collect();
    assert_eq!(parse_selectors(&joined).unwrap(), pairs);
}

#[test]
fn two_lists_in_a_row_are_parsed_in_a_row() {
    let first = args(&["h1:title", "p:text"]);
    let second = args(&["a:link"]);
    let mut both = first.clone();
    both.extend(second.clone());
    let mut pairs = parse_selectors(&first).unwrap();
    pairs.extend(parse_selectors(&second).unwrap());
    assert_eq!(parse_selectors(&both).unwrap(), pairs);
    both.push("bad".to_string());
    both.push("worse".to_string());
    assert_eq!(parse_selectors(&both), Err("bad".to_string()));
}
