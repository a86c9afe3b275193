use rustscraper::browser::{fetch_js_steps, BrowserStep};

fn owned(list: &[&str]) -> Vec<String> {
    list.iter().map(|s| s.to_string()).collect()
}

fn shown(steps: &[BrowserStep]) -> Vec<String> {
    steps
        .iter()
        .map(|step| match step {
            BrowserStep::Launch(arguments) => format!("launch {}", arguments.join(" ")),
            BrowserStep::Open(url) => format!("open {url}"),
            BrowserStep::SetCookies(cookies) => {
                let list: Vec<String> = cookies
                    .iter()
                    .map(|c| format!("{}={}@{}", c.name, c.value, c.url))
                    .collect();
                format!("cookies {}", list.join("|"))
            }
            BrowserStep::Navigate(url) => format!("navigate {url}"),
            BrowserStep::RunScript(script) => format!("run {script}"),
            BrowserStep::Wait(time) => format!("wait {time}"),
            BrowserStep::Capture => "capture".to_string(),
        })
        .collect()
}

const LAUNCH: &str = "launch --disable-blink-features=AutomationControlled --headless=new";

#[test]
fn without_sign_in_the_page_is_opened_at_once() {
    let steps = fetch_js_steps("https://botc.app/play", 3000, None, &[]);
    assert_eq!(
        shown(&steps),
        owned(&[LAUNCH, "open https://botc.app/play", "wait 3000", "capture"])
    );
}

#[test]
fn cookies_are_set_before_the_page_is_loaded() {
    let steps =
        fetch_js_steps("https://botc.app/play", 5, Some(" session = abc ; cf=x=y;junk; "), &[]);
    assert_eq!(
        shown(&steps),
        owned(&[
            LAUNCH,
            "open about:blank",
            "cookies session=abc@https://botc.app|cf=x=y@https://botc.app",
            "navigate https://botc.app",
            "navigate https://botc.app/play",
            "wait 5",
            "capture",
        ])
    );
}

#[test]
fn entries_are_written_at_the_origin() {
    let entries = owned(&["authToken=ey=J", "no equals sign", "k\"=\u{1}\n\\é"]);
    let steps = fetch_js_steps("https://botc.app/play/x?y", 0, None, &entries);
    assert_eq!(
        shown(&steps),
        owned(&[
            LAUNCH,
            "open about:blank",
            "navigate https://botc.app",
            "run window.localStorage.setItem(\"authToken\", \"ey=J\")",
            "run window.localStorage.setItem(\"k\\\"\", \"\\u0001\\n\\\\é\")",
            "navigate https://botc.app/play/x?y",
            "wait 0",
            "capture",
        ])
    );
}

#[test]
fn cookies_come_before_entries() {
    let steps = fetch_js_steps("http://h/p", 1, Some("a=b"), &owned(&["k=v"]));
    assert_eq!(
        shown(&steps),
        owned(&[
            LAUNCH,
            "open about:blank",
            "cookies a=b@http://h",
            "navigate http://h",
            "run window.localStorage.setItem(\"k\", \"v\")",
            "navigate http://h/p",
            "wait 1",
            "capture",
        ])
    );
}

#[test]
fn cookies_without_a_value_are_passed_over() {
    let steps = fetch_js_steps("http://h", 1, Some(""), &[]);
    assert_eq!(
        shown(&steps),
        owned(&[
            LAUNCH,
            "open about:blank",
            "cookies ",
            "navigate http://h",
            "navigate http://h",
            "wait 1",
            "capture",
        ])
    );
}

#[test]
fn entries_without_a_value_still_visit_the_origin() {
    let steps = fetch_js_steps("short", 1, None, &owned(&["none"]));
    assert_eq!(
        shown(&steps),
        owned(&[
            LAUNCH,
            "open about:blank",
            "navigate short",
            "navigate short",
            "wait 1",
            "capture",
        ])
    );
}

#[test]
fn every_control_character_is_escaped_as_in_json() {
    for code in 0..0x80_u32 {
        let c = char::from_u32(code).unwrap();
        let entry = format!("k={c}");
        let steps = fetch_js_steps("http://h", 1, None, &vec![entry]);
        let expected = format!(
            "run window.localStorage.setItem(\"k\", {})",
            serde_json::to_string(&c.to_string()).unwrap()
        );
        assert_eq!(shown(&steps)[3], expected);
    }
}

#[test]
fn escapes_have_exact_forms() {
    let steps =
        fetch_js_steps("http://h", 1, None, &owned(&["k=\u{8}\t\u{c}\r\u{1f}\u{7f}/"]));
    assert_eq!(
        shown(&steps)[3],
        "run window.localStorage.setItem(\"k\", \"\\b\\t\\f\\r\\u001f\u{7f}/\")"
    );
}

#[test]
fn a_cookie_alone_still_visits_the_origin() {
    let steps = fetch_js_steps("https://botc.app/play", 3000, Some("session=abc"), &[]);
    assert_eq!(
        shown(&steps),
        owned(&[
            LAUNCH,
            "open about:blank",
            "cookies session=abc@https://botc.app",
            "navigate https://botc.app",
            "navigate https://botc.app/play",
            "wait 3000",
            "capture",
        ])
    );
}
