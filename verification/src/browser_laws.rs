//! What each argument of a browser run comes to.

use crate::browser::{
    cookies_of, handing_over_in_order, json_quoted, nothing_to_hand_over, origin_of, storage_steps,
    BrowserStepView, CookieView,
};
use crate::scraping::{fetch_planned, FetchPlanView};
use crate::text::{joined, pieces, pieces_hold_no_separator, pieces_join_back, trimmed};
use crate::text_laws::{cutting_at_the_first, joining_in_two_parts};
use vstd::prelude::*;

verus! {

/// A part of a `Cookie` header that has an equals sign gives one cookie: its name stands before
/// the first equals sign, its value behind it, and it is bound to the origin. Another part gives
/// none.
pub proof fn a_part_gives_its_cookie(
    part: Seq<char>,
    name: Seq<char>,
    value: Seq<char>,
    origin: Seq<char>,
)
    ensures
        trimmed(part) == name.push('=') + value && !name.contains('=') ==> cookies_of(
            seq![part],
            origin,
        ) == seq![CookieView { name: trimmed(name), value: trimmed(value), url: origin }],
        !trimmed(part).contains('=') ==> cookies_of(seq![part], origin) == Seq::<
            CookieView,
        >::empty(),
{
    let one = seq![part];
    assert(one.drop_last() =~= Seq::empty());
    assert(cookies_of(one.drop_last(), origin) =~= Seq::empty());
    cutting_at_the_first(trimmed(part), '=');
    if trimmed(part) == name.push('=') + value && !name.contains('=') {
        assert(trimmed(part)[name.len() as int] == '=');
        assert(trimmed(part).contains('='));
        let at = trimmed(part).index_of_first('=')->0;
        trimmed(part).index_of_first_ensures('=');
        if at < name.len() {
            assert(name[at] == '=');
        }
        assert(at == name.len());
        assert(trimmed(part).take(at) =~= name);
        assert(trimmed(part).skip(at + 1) =~= value);
        assert(cookies_of(one, origin) =~= seq![
            CookieView { name: trimmed(name), value: trimmed(value), url: origin },
        ]);
    }
}

/// Some parts of a header and then others give the cookies of the one and then of the other.
pub proof fn cookies_in_two_parts(
    first: Seq<Seq<char>>,
    second: Seq<Seq<char>>,
    origin: Seq<char>,
)
    ensures
        cookies_of(first + second, origin) == cookies_of(first, origin) + cookies_of(
            second,
            origin,
        ),
    decreases second.len(),
{
    if second.len() == 0 {
        assert(first + second =~= first);
        assert(cookies_of(first, origin) + Seq::<CookieView>::empty() =~= cookies_of(
            first,
            origin,
        ));
    } else {
        cookies_in_two_parts(first, second.drop_last(), origin);
        assert((first + second).drop_last() =~= first + second.drop_last());
        assert(cookies_of(first + second, origin) =~= cookies_of(first, origin) + cookies_of(
            second,
            origin,
        ));
    }
}

/// Every part of a header that has an equals sign gives a cookie, bound to the origin.
pub proof fn every_part_gives_its_cookie(
    parts: Seq<Seq<char>>,
    i: int,
    name: Seq<char>,
    value: Seq<char>,
    origin: Seq<char>,
)
    requires
        0 <= i < parts.len(),
        trimmed(parts[i]) == name.push('=') + value,
        !name.contains('='),
    ensures
        cookies_of(parts, origin).contains(
            CookieView { name: trimmed(name), value: trimmed(value), url: origin },
        ),
{
    let before = parts.take(i);
    let one = seq![parts[i]];
    let after = parts.skip(i + 1);
    assert(parts =~= before + (one + after));
    cookies_in_two_parts(before, one + after, origin);
    cookies_in_two_parts(one, after, origin);
    a_part_gives_its_cookie(parts[i], name, value, origin);
    assert(cookies_of(parts, origin)[cookies_of(before, origin).len() as int] == CookieView {
        name: trimmed(name),
        value: trimmed(value),
        url: origin,
    });
}

/// An entry that has an equals sign is written by one script, which sets what stands before the
/// first equals sign to what stands behind it, both as JSON strings. Another entry is passed
/// over.
pub proof fn an_entry_is_written(entry: Seq<char>, key: Seq<char>, value: Seq<char>)
    ensures
        entry == key.push('=') + value && !key.contains('=') ==> storage_steps(seq![entry]) == seq![
            BrowserStepView::RunScript(
                "window.localStorage.setItem("@ + json_quoted(key) + ", "@ + json_quoted(value)
                    + ")"@,
            ),
        ],
        !entry.contains('=') ==> storage_steps(seq![entry]) == Seq::<BrowserStepView>::empty(),
{
    let one = seq![entry];
    assert(one.drop_last() =~= Seq::empty());
    assert(storage_steps(one.drop_last()) =~= Seq::empty());
    cutting_at_the_first(entry, '=');
    if entry == key.push('=') + value && !key.contains('=') {
        assert(entry[key.len() as int] == '=');
        assert(entry.contains('='));
        let at = entry.index_of_first('=')->0;
        entry.index_of_first_ensures('=');
        if at < key.len() {
            assert(key[at] == '=');
        }
        assert(entry.take(at) =~= key);
        assert(entry.skip(at + 1) =~= value);
        assert(storage_steps(one) =~= seq![
            BrowserStepView::RunScript(
                "window.localStorage.setItem("@ + json_quoted(key) + ", "@ + json_quoted(value)
                    + ")"@,
            ),
        ]);
    }
}

/// Some entries and then others are written by the scripts of the one and then of the other.
pub proof fn entries_in_two_parts(first: Seq<Seq<char>>, second: Seq<Seq<char>>)
    ensures
        storage_steps(first + second) == storage_steps(first) + storage_steps(second),
    decreases second.len(),
{
    if second.len() == 0 {
        assert(first + second =~= first);
        assert(storage_steps(first) + Seq::<BrowserStepView>::empty() =~= storage_steps(first));
    } else {
        entries_in_two_parts(first, second.drop_last());
        assert((first + second).drop_last() =~= first + second.drop_last());
        assert(storage_steps(first + second) =~= storage_steps(first) + storage_steps(second));
    }
}

/// How many slashes a text has.
pub open spec fn slashes(text: Seq<char>) -> nat
    decreases text.len(),
{
    if text.len() == 0 {
        0
    } else {
        slashes(text.drop_last()) + if text.last() == '/' {
            1nat
        } else {
            0
        }
    }
}

proof fn slashes_in_parts(first: Seq<char>, second: Seq<char>)
    ensures
        slashes(first + second) == slashes(first) + slashes(second),
    decreases second.len(),
{
    if second.len() == 0 {
        assert(first + second =~= first);
    } else {
        slashes_in_parts(first, second.drop_last());
        assert((first + second).drop_last() =~= first + second.drop_last());
    }
}

proof fn no_slashes(text: Seq<char>)
    requires
        !text.contains('/'),
    ensures
        slashes(text) == 0,
    decreases text.len(),
{
    if text.len() > 0 {
        assert(text.contains(text[text.len() - 1]));
        assert forall|i: int| 0 <= i < text.len() - 1 implies text.drop_last()[i] != '/' by {
            assert(text.contains(text[i]));
        }
        no_slashes(text.drop_last());
    }
}

proof fn slashes_of_joined(parts: Seq<Seq<char>>)
    requires
        parts.len() > 0,
        forall|i: int| 0 <= i < parts.len() ==> !(#[trigger] parts[i]).contains('/'),
    ensures
        slashes(joined(parts, seq!['/'])) == parts.len() - 1,
    decreases parts.len(),
{
    assert(!parts[parts.len() - 1].contains('/'));
    no_slashes(parts.last());
    if parts.len() > 1 {
        let front = parts.drop_last();
        assert forall|i: int| 0 <= i < front.len() implies !(#[trigger] front[i]).contains('/') by {
            assert(front[i] == parts[i]);
        }
        slashes_of_joined(front);
        let head = joined(front, seq!['/']);
        slashes_in_parts(head, seq!['/']);
        slashes_in_parts(head + seq!['/'], parts.last());
        assert(seq!['/'].drop_last() =~= Seq::<char>::empty());
        assert(slashes(seq!['/'].drop_last()) == 0);
        assert(slashes(seq!['/']) == 1);
    } else {
        assert(parts[0] == parts.last());
    }
}

/// The origin of a URL is all of it where it has fewer than three slashes, and otherwise what
/// stands before the third.
pub proof fn origin_ends_before_the_third_slash(url: Seq<char>)
    ensures
        slashes(url) <= 2 ==> origin_of(url) == url,
        slashes(url) > 2 ==> {
            &&& origin_of(url).len() < url.len()
            &&& origin_of(url).is_prefix_of(url)
            &&& url[origin_of(url).len() as int] == '/'
            &&& slashes(origin_of(url)) == 2
        },
{
    reveal_strlit("/");
    assert("/"@ =~= seq!['/']);
    let parts = pieces(url, '/');
    pieces_hold_no_separator(url, '/');
    pieces_join_back(url, '/');
    slashes_of_joined(parts);
    if parts.len() > 3 {
        let first = parts.take(3);
        let rest = parts.skip(3);
        assert(parts =~= first + rest);
        joining_in_two_parts(first, rest, seq!['/']);
        assert forall|i: int| 0 <= i < first.len() implies !(#[trigger] first[i]).contains('/') by {
            assert(first[i] == parts[i]);
        }
        slashes_of_joined(first);
        let origin = joined(first, seq!['/']);
        assert(url == origin + seq!['/'] + joined(rest, seq!['/']));
        assert(url[origin.len() as int] == '/');
        assert(origin =~= url.take(origin.len() as int));
    }
}

/// With JavaScript a page is fetched by a browser run that is made from all the arguments. The
/// browser is started, and in the end it loads the page, waits as long as asked and captures it.
/// Where there are cookies or entries, a blank page is opened, the cookies of the header are set,
/// bound to the origin, the origin is visited, and the entries are written, in this order and
/// all before the page is loaded. Otherwise the page is opened at once.
pub proof fn a_browser_run_uses_all_arguments(
    url: Seq<char>,
    wait_ms: u64,
    cookie: Option<Seq<char>>,
    local_storage: Seq<Seq<char>>,
)
    ensures
        fetch_planned(url, true, wait_ms, cookie, local_storage) matches FetchPlanView::Browser(
            steps,
        ) && {
            let count = steps.len();
            let scripts = storage_steps(local_storage);
            &&& count >= 4
            &&& steps[0] == BrowserStepView::Launch(
                seq!["--disable-blink-features=AutomationControlled"@, "--headless=new"@],
            )
            &&& steps[count - 2] == BrowserStepView::Wait(wait_ms)
            &&& steps[count - 1] == BrowserStepView::Capture
            &&& cookie is None && local_storage.len() == 0 ==> count == 4 && steps[1]
                == BrowserStepView::Open(url)
            &&& cookie is Some || local_storage.len() > 0 ==> steps[1] == BrowserStepView::Open(
                "about:blank"@,
            ) && steps[count - 3] == BrowserStepView::Navigate(url)
            &&& cookie matches Some(header) ==> {
                &&& steps[2] == BrowserStepView::SetCookies(
                    cookies_of(pieces(header, ';'), origin_of(url)),
                )
                &&& steps[3] == BrowserStepView::Navigate(origin_of(url))
                &&& steps.subrange(4, count - 3) == scripts
            }
            &&& cookie is None && local_storage.len() > 0 ==> {
                &&& steps[2] == BrowserStepView::Navigate(origin_of(url))
                &&& steps.subrange(3, count - 3) == scripts
            }
        },
{
    if cookie is Some || local_storage.len() > 0 {
        handing_over_in_order(url, wait_ms, cookie, local_storage);
    } else {
        assert(local_storage =~= Seq::empty());
        nothing_to_hand_over(url, wait_ms);
    }
}

/// With JavaScript, every `name=value` part of the `Cookie` header is set as a cookie, bound to
/// the origin of the URL, before the browser is taken to the URL.
pub proof fn every_cookie_is_set_before_loading(
    url: Seq<char>,
    wait_ms: u64,
    header: Seq<char>,
    local_storage: Seq<Seq<char>>,
    i: int,
    name: Seq<char>,
    value: Seq<char>,
)
    requires
        0 <= i < pieces(header, ';').len(),
        trimmed(pieces(header, ';')[i]) == name.push('=') + value,
        !name.contains('='),
    ensures
        fetch_planned(url, true, wait_ms, Some(header), local_storage)
            matches FetchPlanView::Browser(steps) && {
            &&& steps[2] matches BrowserStepView::SetCookies(cookies) && cookies.contains(
                CookieView { name: trimmed(name), value: trimmed(value), url: origin_of(url) },
            )
            &&& steps.len() - 3 > 2
            &&& steps[steps.len() - 3] == BrowserStepView::Navigate(url)
        },
{
    a_browser_run_uses_all_arguments(url, wait_ms, Some(header), local_storage);
    handing_over_in_order(url, wait_ms, Some(header), local_storage);
    every_part_gives_its_cookie(pieces(header, ';'), i, name, value, origin_of(url));
}

/// Without JavaScript a page is fetched by a plain request for its URL.
pub proof fn a_plain_request_names_the_url(
    url: Seq<char>,
    wait_ms: u64,
    cookie: Option<Seq<char>>,
    local_storage: Seq<Seq<char>>,
)
    ensures
        fetch_planned(url, false, wait_ms, cookie, local_storage) == FetchPlanView::Get(url),
{
}

} // verus!
