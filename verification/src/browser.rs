//! How a page that needs JavaScript is fetched: the steps that a headless browser is taken
//! through.

use crate::text::{
    cut_at_first, join, joined, pieces, pieces_hold_no_separator, pieces_of_rest, split,
    split_at_first, trim, trimmed,
};
use vstd::prelude::*;

verus! {

/// The character for the hexadecimal digit of value `value`.
pub open spec fn hex_digit(value: int) -> char {
    if value < 10 {
        ('0' as int + value) as char
    } else {
        ('a' as int + value - 10) as char
    }
}

/// A character as it stands in a JSON string.
pub open spec fn json_escaped(c: char) -> Seq<char> {
    if c == '"' || c == '\\' {
        seq!['\\', c]
    } else if c == '\u{8}' {
        seq!['\\', 'b']
    } else if c == '\t' {
        seq!['\\', 't']
    } else if c == '\n' {
        seq!['\\', 'n']
    } else if c == '\u{c}' {
        seq!['\\', 'f']
    } else if c == '\r' {
        seq!['\\', 'r']
    } else if ' ' > c {
        seq!['\\', 'u', '0', '0', hex_digit(c as int / 16), hex_digit(c as int % 16)]
    } else {
        seq![c]
    }
}

/// A text as a JSON string.
pub open spec fn json_quoted(text: Seq<char>) -> Seq<char> {
    seq!['"'] + text.map_values(|c: char| json_escaped(c)).flatten() + seq!['"']
}

/// The error of `serde_json`.
#[verifier::external_type_specification]
#[verifier::external_body]
pub struct ExJsonError(serde_json::Error);

/// A text as a JSON string: `serde_json::to_string` on a string slice.
///
/// What is claimed is that it succeeds, since it writes into memory, and what it writes: the
/// characters between quotation marks, where quotation marks, backslashes and the control
/// characters below the space are escaped.
#[verifier::external_body]
fn json_text(text: &str) -> (quoted: Result<String, serde_json::Error>)
    ensures
        quoted matches Ok(quoted) && quoted@ == json_quoted(text@),
{
    serde_json::to_string(text)
}

/// A cookie to be set, and the URL that it is bound to.
#[derive(Debug)]
pub struct Cookie {
    pub name: String,
    pub value: String,
    pub url: String,
}

/// What a [`Cookie`] holds.
#[verifier::ext_equal]
pub struct CookieView {
    pub name: Seq<char>,
    pub value: Seq<char>,
    pub url: Seq<char>,
}

impl DeepView for Cookie {
    type V = CookieView;

    open spec fn deep_view(&self) -> CookieView {
        CookieView {
            name: self.name.deep_view(),
            value: self.value.deep_view(),
            url: self.url.deep_view(),
        }
    }
}

/// One thing that the browser is asked to do.
#[derive(Debug)]
pub enum BrowserStep {
    /// Start with these arguments.
    Launch(Vec<String>),
    /// Open a page at a URL.
    Open(String),
    /// Set these cookies.
    SetCookies(Vec<Cookie>),
    /// Take the page to a URL.
    Navigate(String),
    /// Run a script in the page.
    RunScript(String),
    /// Wait for so many milliseconds.
    Wait(u64),
    /// Hand back the HTML that the page has come to.
    Capture,
}

/// What a [`BrowserStep`] holds.
#[verifier::ext_equal]
pub enum BrowserStepView {
    Launch(Seq<Seq<char>>),
    Open(Seq<char>),
    SetCookies(Seq<CookieView>),
    Navigate(Seq<char>),
    RunScript(Seq<char>),
    Wait(u64),
    Capture,
}

impl DeepView for BrowserStep {
    type V = BrowserStepView;

    open spec fn deep_view(&self) -> BrowserStepView {
        match self {
            BrowserStep::Launch(arguments) => BrowserStepView::Launch(arguments.deep_view()),
            BrowserStep::Open(url) => BrowserStepView::Open(url.deep_view()),
            BrowserStep::SetCookies(cookies) => BrowserStepView::SetCookies(cookies.deep_view()),
            BrowserStep::Navigate(url) => BrowserStepView::Navigate(url.deep_view()),
            BrowserStep::RunScript(script) => BrowserStepView::RunScript(script.deep_view()),
            BrowserStep::Wait(time) => BrowserStepView::Wait(*time),
            BrowserStep::Capture => BrowserStepView::Capture,
        }
    }
}

/// The first three pieces, or all where there are fewer.
pub open spec fn first_three(parts: Seq<Seq<char>>) -> Seq<Seq<char>> {
    if parts.len() > 3 {
        parts.take(3)
    } else {
        parts
    }
}

/// The origin of a URL, its scheme and host: what stands before the third slash.
pub open spec fn origin_of(url: Seq<char>) -> Seq<char> {
    joined(first_three(pieces(url, '/')), "/"@)
}

/// The name and the value of a cookie in the `name=value` form, without white space around
/// either.
pub open spec fn cookie_parts(part: Seq<char>) -> Option<(Seq<char>, Seq<char>)> {
    match cut_at_first(trimmed(part), '=') {
        Some((name, value)) => Some((trimmed(name), trimmed(value))),
        None => None,
    }
}

/// The cookies of a `Cookie` header, each bound to `origin`. Parts without an equals sign are
/// passed over.
pub open spec fn cookies_of(parts: Seq<Seq<char>>, origin: Seq<char>) -> Seq<CookieView>
    decreases parts.len(),
{
    if parts.len() == 0 {
        Seq::empty()
    } else {
        let before = cookies_of(parts.drop_last(), origin);
        match cookie_parts(parts.last()) {
            Some((name, value)) => before.push(CookieView { name, value, url: origin }),
            None => before,
        }
    }
}

/// The script that writes an entry of the local storage.
pub open spec fn storage_script(key: Seq<char>, value: Seq<char>) -> Seq<char> {
    "window.localStorage.setItem("@ + json_quoted(key) + ", "@ + json_quoted(value) + ")"@
}

/// The steps that write the `key=value` entries to the local storage, in order. Entries without
/// an equals sign are passed over.
pub open spec fn storage_steps(entries: Seq<Seq<char>>) -> Seq<BrowserStepView>
    decreases entries.len(),
{
    if entries.len() == 0 {
        Seq::empty()
    } else {
        let before = storage_steps(entries.drop_last());
        match cut_at_first(entries.last(), '=') {
            Some((key, value)) => before.push(
                BrowserStepView::RunScript(storage_script(key, value)),
            ),
            None => before,
        }
    }
}

/// The step that starts the browser.
pub open spec fn launch_step() -> BrowserStepView {
    BrowserStepView::Launch(
        seq!["--disable-blink-features=AutomationControlled"@, "--headless=new"@],
    )
}

/// The steps that hand over what the page needs to find its visitor signed in: the cookies are
/// set, the browser is taken to the origin of the page, and the entries are written there.
pub open spec fn sign_in_steps(
    url: Seq<char>,
    cookie: Option<Seq<char>>,
    local_storage: Seq<Seq<char>>,
) -> Seq<BrowserStepView> {
    let cookies = match cookie {
        Some(header) => seq![
            BrowserStepView::SetCookies(cookies_of(pieces(header, ';'), origin_of(url))),
        ],
        None => Seq::empty(),
    };
    cookies + seq![BrowserStepView::Navigate(origin_of(url))] + storage_steps(local_storage)
}

/// The steps that load the page at `url`. Where there is nothing to hand over, the page is
/// opened there at once.
pub open spec fn loading_steps(
    url: Seq<char>,
    cookie: Option<Seq<char>>,
    local_storage: Seq<Seq<char>>,
) -> Seq<BrowserStepView> {
    if cookie is Some || local_storage.len() > 0 {
        seq![BrowserStepView::Open("about:blank"@)] + sign_in_steps(url, cookie, local_storage)
            + seq![BrowserStepView::Navigate(url)]
    } else {
        seq![BrowserStepView::Open(url)]
    }
}

/// All steps that fetch the page at `url`.
pub open spec fn fetching_steps(
    url: Seq<char>,
    wait_ms: u64,
    cookie: Option<Seq<char>>,
    local_storage: Seq<Seq<char>>,
) -> Seq<BrowserStepView> {
    seq![launch_step()] + loading_steps(url, cookie, local_storage) + seq![
        BrowserStepView::Wait(wait_ms),
        BrowserStepView::Capture,
    ]
}

/// The origin of a URL.
fn origin(url: &str) -> (origin: String)
    ensures
        origin@ == origin_of(url@),
{
    let mut parts = split(url, '/');
    let ghost all = parts.deep_view();
    if parts.len() > 3 {
        parts.truncate(3);
        assert(parts.deep_view() =~= all.take(3));
    }
    join(&parts, "/")
}

/// The cookies of a `Cookie` header, bound to an origin.
fn cookies(header: &str, origin: &str) -> (cookies: Vec<Cookie>)
    ensures
        cookies.deep_view() == cookies_of(pieces(header@, ';'), origin@),
{
    let parts = split(header, ';');
    let ghost all = parts.deep_view();
    let mut cookies: Vec<Cookie> = Vec::new();
    let mut i: usize = 0;
    assert(cookies.deep_view() =~= cookies_of(all.take(0), origin@));
    while i < parts.len()
        invariant
            i <= parts.len(),
            all == parts.deep_view(),
            cookies.deep_view() == cookies_of(all.take(i as int), origin@),
        decreases parts.len() - i,
    {
        let ghost before = cookies.deep_view();
        assert(all.take(i + 1).drop_last() =~= all.take(i as int));
        let part = trim(parts[i].as_str());
        if let Some((name, value)) = split_at_first(part.as_str(), '=') {
            let cookie = Cookie {
                name: trim(name.as_str()),
                value: trim(value.as_str()),
                url: origin.to_owned(),
            };
            let ghost cookie_view = cookie.deep_view();
            cookies.push(cookie);
            assert(cookies.deep_view() =~= before.push(cookie_view));
        }
        i = i + 1;
    }
    assert(all.take(i as int) =~= all);
    cookies
}

/// The script that writes an entry of the local storage.
fn script(key: &str, value: &str) -> (script: String)
    ensures
        script@ == storage_script(key@, value@),
{
    let mut script = "window.localStorage.setItem(".to_owned();
    script.append(json_text(key).unwrap().as_str());
    script.append(", ");
    script.append(json_text(value).unwrap().as_str());
    script.append(")");
    script
}

/// Adds the steps that write the entries to the local storage.
fn add_storage_steps(local_storage: &[String], steps: &mut Vec<BrowserStep>)
    ensures
        final(steps).deep_view() == old(steps).deep_view() + storage_steps(
            local_storage.deep_view(),
        ),
{
    let ghost entries = local_storage.deep_view();
    let ghost start = steps.deep_view();
    let mut i: usize = 0;
    assert(start + storage_steps(entries.take(0)) =~= start);
    while i < local_storage.len()
        invariant
            i <= local_storage.len(),
            entries == local_storage.deep_view(),
            steps.deep_view() == start + storage_steps(entries.take(i as int)),
        decreases local_storage.len() - i,
    {
        let ghost before = steps.deep_view();
        assert(entries.take(i + 1).drop_last() =~= entries.take(i as int));
        if let Some((key, value)) = split_at_first(local_storage[i].as_str(), '=') {
            let step = BrowserStep::RunScript(script(key.as_str(), value.as_str()));
            let ghost step_view = step.deep_view();
            steps.push(step);
            assert(steps.deep_view() =~= before.push(step_view));
            assert(steps.deep_view() =~= start + storage_steps(entries.take(i + 1)));
        }
        i = i + 1;
    }
    assert(entries.take(i as int) =~= entries);
}

/// Adds one step.
fn add_step(steps: &mut Vec<BrowserStep>, step: BrowserStep)
    ensures
        final(steps).deep_view() == old(steps).deep_view() + seq![step.deep_view()],
{
    let ghost before = steps.deep_view();
    let ghost step_view = step.deep_view();
    steps.push(step);
    assert(steps.deep_view() =~= before + seq![step_view]);
}

/// The steps that fetch the page at `url` with a headless browser: it is loaded, given
/// `wait_ms` milliseconds to render, and captured.
///
/// `cookie` is a whole `Cookie` header, and `local_storage` holds `key=value` entries. Where
/// either is given, a blank page is opened, the cookies are set, bound to the origin of the
/// page, the browser is taken to that origin, and the entries are written there. Only then is
/// the page itself loaded.
pub fn fetch_js_steps(
    url: &str,
    wait_ms: u64,
    cookie: Option<&str>,
    local_storage: &[String],
) -> (steps: Vec<BrowserStep>)
    ensures
        steps.deep_view() == fetching_steps(
            url@,
            wait_ms,
            cookie.deep_view(),
            local_storage.deep_view(),
        ),
{
    let mut steps: Vec<BrowserStep> = Vec::new();
    let mut arguments: Vec<String> = Vec::new();
    arguments.push("--disable-blink-features=AutomationControlled".to_owned());
    arguments.push("--headless=new".to_owned());
    let launch = BrowserStep::Launch(arguments);
    assert(launch.deep_view() =~= launch_step());
    add_step(&mut steps, launch);
    if cookie.is_some() || local_storage.len() > 0 {
        add_step(&mut steps, BrowserStep::Open("about:blank".to_owned()));
        let origin = origin(url);
        if let Some(header) = cookie {
            add_step(&mut steps, BrowserStep::SetCookies(cookies(header, origin.as_str())));
        }
        add_step(&mut steps, BrowserStep::Navigate(origin));
        add_storage_steps(local_storage, &mut steps);
        add_step(&mut steps, BrowserStep::Navigate(url.to_owned()));
    } else {
        add_step(&mut steps, BrowserStep::Open(url.to_owned()));
    }
    add_step(&mut steps, BrowserStep::Wait(wait_ms));
    add_step(&mut steps, BrowserStep::Capture);
    assert(steps.deep_view() =~= fetching_steps(
        url@,
        wait_ms,
        cookie.deep_view(),
        local_storage.deep_view(),
    ));
    steps
}

/// The steps that write entries only run scripts.
proof fn storage_steps_run_scripts(entries: Seq<Seq<char>>)
    ensures
        forall|i: int|
            0 <= i < storage_steps(entries).len() ==> (#[trigger] storage_steps(
                entries,
            )[i]) is RunScript,
    decreases entries.len(),
{
    if entries.len() > 0 {
        storage_steps_run_scripts(entries.drop_last());
    }
}

/// Whether a step hands over what the page needs to find its visitor signed in.
pub open spec fn signs_in(step: BrowserStepView) -> bool {
    step is SetCookies || step is RunScript
}

/// The browser is started first, and the last steps load the page at `url`, wait and capture
/// it. All cookies and entries of the local storage are handed over before the page is loaded.
pub proof fn page_is_loaded_signed_in(
    url: Seq<char>,
    wait_ms: u64,
    cookie: Option<Seq<char>>,
    local_storage: Seq<Seq<char>>,
)
    ensures
        ({
            let steps = fetching_steps(url, wait_ms, cookie, local_storage);
            let count = steps.len();
            &&& count >= 4
            &&& steps[0] == launch_step()
            &&& steps[count - 3] == BrowserStepView::Navigate(url) || steps[count - 3]
                == BrowserStepView::Open(url)
            &&& steps[count - 2] == BrowserStepView::Wait(wait_ms)
            &&& steps[count - 1] == BrowserStepView::Capture
            &&& forall|i: int|
                0 <= i < count && signs_in(#[trigger] steps[i]) ==> i < count - 3
        }),
{
}

/// A script is run on a page of the origin of `url`: the browser was taken there, and nowhere
/// else since.
pub proof fn scripts_run_at_the_origin(
    url: Seq<char>,
    wait_ms: u64,
    cookie: Option<Seq<char>>,
    local_storage: Seq<Seq<char>>,
    i: int,
)
    requires
        0 <= i < fetching_steps(url, wait_ms, cookie, local_storage).len(),
        fetching_steps(url, wait_ms, cookie, local_storage)[i] is RunScript,
    ensures
        exists|j: int|
            0 <= j < i && (#[trigger] fetching_steps(url, wait_ms, cookie, local_storage)[j])
                == BrowserStepView::Navigate(origin_of(url)) && forall|k: int|
                j < k < i ==> (#[trigger] fetching_steps(
                    url,
                    wait_ms,
                    cookie,
                    local_storage,
                )[k]) is RunScript,
{
    let steps = fetching_steps(url, wait_ms, cookie, local_storage);
    let j: int = if cookie is Some {
        3
    } else {
        2
    };
    storage_steps_run_scripts(local_storage);
    let scripts = storage_steps(local_storage);
    assert forall|k: int| j < k < j + 1 + scripts.len() implies (#[trigger] steps[k])
        == scripts[k - j - 1] by {
    }
    assert(steps[j] == BrowserStepView::Navigate(origin_of(url)));
    assert(i > j);
    assert(i < j + 1 + scripts.len());
}

/// Where cookies or entries are given, they are handed over in this order: a blank page is
/// opened, the cookies are set, the origin is visited, the entries are written, and the page is
/// loaded.
pub proof fn handing_over_in_order(
    url: Seq<char>,
    wait_ms: u64,
    cookie: Option<Seq<char>>,
    local_storage: Seq<Seq<char>>,
)
    requires
        cookie is Some || local_storage.len() > 0,
    ensures
        ({
            let steps = fetching_steps(url, wait_ms, cookie, local_storage);
            let scripts = storage_steps(local_storage);
            let at: int = if cookie is Some {
                3
            } else {
                2
            };
            &&& steps[1] == BrowserStepView::Open("about:blank"@)
            &&& cookie matches Some(header) ==> steps[2] == BrowserStepView::SetCookies(
                cookies_of(pieces(header, ';'), origin_of(url)),
            )
            &&& steps[at] == BrowserStepView::Navigate(origin_of(url))
            &&& steps.subrange(at + 1, at + 1 + scripts.len()) == scripts
            &&& steps[at + 1 + scripts.len()] == BrowserStepView::Navigate(url)
            &&& steps.len() == at + scripts.len() + 4
        }),
{
    let steps = fetching_steps(url, wait_ms, cookie, local_storage);
    let scripts = storage_steps(local_storage);
    let at: int = if cookie is Some {
        3
    } else {
        2
    };
    assert(steps.subrange(at + 1, at + 1 + scripts.len()) =~= scripts);
}

/// Without cookies and entries the page is opened at once.
pub proof fn nothing_to_hand_over(url: Seq<char>, wait_ms: u64)
    ensures
        fetching_steps(url, wait_ms, None, Seq::empty()) == seq![
            launch_step(),
            BrowserStepView::Open(url),
            BrowserStepView::Wait(wait_ms),
            BrowserStepView::Capture,
        ],
{
    assert(fetching_steps(url, wait_ms, None, Seq::empty()) =~= seq![
        launch_step(),
        BrowserStepView::Open(url),
        BrowserStepView::Wait(wait_ms),
        BrowserStepView::Capture,
    ]);
}

/// Every cookie that is set is bound to the origin.
pub proof fn cookies_are_bound_to_the_origin(parts: Seq<Seq<char>>, origin: Seq<char>)
    ensures
        forall|i: int|
            0 <= i < cookies_of(parts, origin).len() ==> (#[trigger] cookies_of(
                parts,
                origin,
            )[i]).url == origin,
    decreases parts.len(),
{
    if parts.len() > 0 {
        cookies_are_bound_to_the_origin(parts.drop_last(), origin);
        let before = cookies_of(parts.drop_last(), origin);
        let all = cookies_of(parts, origin);
        assert forall|i: int| 0 <= i < all.len() implies (#[trigger] all[i]).url == origin by {
            if i < before.len() {
                assert(all[i] == before[i]);
            }
        }
    }
}

/// Every entry that has an equals sign is written by a script of its own.
pub proof fn entries_are_all_written(entries: Seq<Seq<char>>)
    requires
        forall|i: int| 0 <= i < entries.len() ==> (#[trigger] entries[i]).contains('='),
    ensures
        storage_steps(entries).len() == entries.len(),
        forall|i: int|
            0 <= i < entries.len() ==> {
                let at = entries[i].index_of_first('=')->0;
                (#[trigger] storage_steps(entries)[i]) == BrowserStepView::RunScript(
                    storage_script(entries[i].take(at), entries[i].skip(at + 1)),
                )
            },
    decreases entries.len(),
{
    if entries.len() > 0 {
        let front = entries.drop_last();
        assert forall|i: int| 0 <= i < front.len() implies (#[trigger] front[i]).contains('=') by {
            assert(entries[i].contains('='));
        }
        entries_are_all_written(front);
        assert(entries[entries.len() - 1].contains('='));
        entries.last().index_of_first_ensures('=');
        assert forall|i: int| 0 <= i < entries.len() implies {
            let at = entries[i].index_of_first('=')->0;
            (#[trigger] storage_steps(entries)[i]) == BrowserStepView::RunScript(
                storage_script(entries[i].take(at), entries[i].skip(at + 1)),
            )
        } by {
            if i < front.len() {
                assert(storage_steps(entries)[i] == storage_steps(front)[i]);
                assert(front[i] == entries[i]);
            }
        }
    }
}

/// The origin of a URL is its scheme and host, whether or not a path follows.
pub proof fn origin_is_scheme_and_host(scheme: Seq<char>, host: Seq<char>, path: Seq<char>)
    requires
        !scheme.contains('/'),
        !host.contains('/'),
    ensures
        origin_of(scheme + "//"@ + host) == scheme + "//"@ + host,
        origin_of(scheme + "//"@ + host + "/"@ + path) == scheme + "//"@ + host,
{
    reveal_strlit("//");
    reveal_strlit("/");
    let none = Seq::<char>::empty();
    let short = scheme + "//"@ + host;
    let long = short + "/"@ + path;
    pieces_of_rest(scheme, '/', none.push('/') + host);
    pieces_of_rest(none, '/', host);
    pieces_of_rest(host, '/', path);
    assert(short =~= scheme.push('/') + (none.push('/') + host));
    assert(pieces(short, '/') =~= seq![scheme, none, host]);
    pieces_of_rest(scheme, '/', none.push('/') + (host.push('/') + path));
    pieces_of_rest(none, '/', host.push('/') + path);
    assert(long =~= scheme.push('/') + (none.push('/') + (host.push('/') + path)));
    assert(pieces(long, '/') =~= seq![scheme, none, host] + pieces(path, '/'));
    pieces_hold_no_separator(path, '/');
    assert(pieces(long, '/').take(3) =~= seq![scheme, none, host]);
    let three = seq![scheme, none, host];
    let two = seq![scheme, none];
    assert(three.drop_last() =~= two);
    assert(two.drop_last() =~= seq![scheme]);
    assert(joined(seq![scheme], "/"@) == scheme);
    assert(joined(two, "/"@) =~= scheme + "/"@);
    assert(joined(three, "/"@) =~= short);
}

} // verus!
