//! What the commands do and say.

use crate::botc::{data_stored, game_started, request_headers};
use crate::catalog::{editions_read, editions_upserted, roles_read, roles_upserted};
use crate::games::game_created;
use crate::models::{BotcDataView, FieldView, ScrapeRecordView};
use crate::page_laws::{page_fields, page_warnings};
use crate::report::{error_message, fetching_line, storage_message, CommandErrorView};
use crate::row_laws::{storing_editions_succeeds, storing_roles_succeeds};
use crate::scrapes::scrape_inserted;
use crate::scraping::{delivers, export_line, making_field, page_scraped};
use crate::selectors::selectors_parsed;
use crate::storage_laws::{stored_edition_is_read, stored_role_is_read};
use crate::tables::{DatabaseView, StorageError, TableName};
use crate::text::{decimal, digits};
use vstd::prelude::*;

verus! {

/// Storing a response stores all its editions and all its roles, as storing each of them by
/// itself does, and changes no other table. Where both can be stored, the line that is printed
/// says how many there are of each. Where one cannot, its failure is passed on; the editions stay
/// stored where only the roles fail.
pub proof fn a_response_is_stored(db: DatabaseView, data: BotcDataView)
    requires
        data.editions.len() <= usize::MAX,
        data.roles.len() <= usize::MAX,
    ensures
        ({
            let (report, after) = data_stored(db, data);
            let editions_fail = data.editions.len() > 0 && db.editions is None;
            let roles_fail = data.roles.len() > 0 && db.roles is None;
            &&& after.editions == editions_upserted(db, data.editions).1.editions
            &&& after.roles == if editions_fail {
                db.roles
            } else {
                roles_upserted(db, data.roles).1.roles
            }
            &&& after == (DatabaseView { editions: after.editions, roles: after.roles, ..db })
            &&& !editions_fail && !roles_fail ==> report == Ok::<Seq<Seq<char>>, CommandErrorView>(
                seq![
                    "Stored "@ + digits(data.editions.len()) + " editions and "@ + digits(
                        data.roles.len(),
                    ) + " roles."@,
                ],
            )
            &&& editions_fail ==> report == Err::<Seq<Seq<char>>, CommandErrorView>(
                CommandErrorView::Storage(StorageError::NoSuchTable(TableName::Editions)),
            )
            &&& !editions_fail && roles_fail ==> report == Err::<Seq<Seq<char>>, CommandErrorView>(
                CommandErrorView::Storage(StorageError::NoSuchTable(TableName::Roles)),
            )
        }),
{
    storing_editions_succeeds(db, data.editions);
    let between = editions_upserted(db, data.editions).1;
    storing_roles_succeeds(between, data.roles);
}

/// After a response was stored, the last role and the last edition that it has with an ID are
/// read back under that ID.
pub proof fn a_stored_response_is_read(db: DatabaseView, data: BotcDataView, i: int, j: int)
    requires
        data.editions.len() <= usize::MAX,
        data.roles.len() <= usize::MAX,
        editions_read(db) is Ok,
        roles_read(db, None, None) is Ok,
    ensures
        0 <= i < data.editions.len() && (forall|k: int|
            i < k < data.editions.len() ==> (#[trigger] data.editions[k]).id
                != data.editions[i].id) ==> editions_read(data_stored(db, data).1) is Ok
            && editions_read(data_stored(db, data).1)->Ok_0.contains(data.editions[i]),
        0 <= j < data.roles.len() && (forall|k: int|
            j < k < data.roles.len() ==> (#[trigger] data.roles[k]).id != data.roles[j].id)
            ==> roles_read(data_stored(db, data).1, None, None) is Ok && roles_read(
            data_stored(db, data).1,
            None,
            None,
        )->Ok_0.contains(data.roles[j]),
{
    a_response_is_stored(db, data);
    if 0 <= i < data.editions.len() && (forall|k: int|
        i < k < data.editions.len() ==> (#[trigger] data.editions[k]).id != data.editions[i].id) {
        stored_edition_is_read(db, data.editions, i);
    }
    if 0 <= j < data.roles.len() && (forall|k: int|
        j < k < data.roles.len() ==> (#[trigger] data.roles[k]).id != data.roles[j].id) {
        stored_role_is_read(db, data.roles, j);
    }
}

/// A game with 3 to 20 roles is created as any game is, and is announced by its ID and by its
/// roles, numbered from one on. A failure to store it is passed on. A game with fewer or more
/// roles is refused.
pub proof fn a_game_is_announced(
    db: DatabaseView,
    role_ids: Seq<Seq<char>>,
    created_at: Seq<char>,
)
    ensures
        ({
            let (report, after) = game_started(db, role_ids, created_at);
            let (created, stored) = game_created(db, role_ids, created_at);
            if role_ids.len() < 3 || role_ids.len() > 20 {
                &&& report == Err::<Seq<Seq<char>>, CommandErrorView>(
                    CommandErrorView::WrongRoleCount(role_ids.len()),
                )
                &&& after == db
            } else {
                &&& after == stored
                &&& created matches Err(error) ==> report == Err::<
                    Seq<Seq<char>>,
                    CommandErrorView,
                >(CommandErrorView::Storage(error))
                &&& created matches Ok(id) ==> {
                    &&& report is Ok
                    &&& report->Ok_0.len() == role_ids.len() + 1
                    &&& report->Ok_0[0] == "Game #"@ + decimal(id as int) + " created with "@
                        + digits(role_ids.len()) + " roles:"@
                    &&& forall|i: int|
                        0 <= i < role_ids.len() ==> report->Ok_0[i + 1] == seq![' ', ' '] + digits(
                            (i + 1) as nat,
                        ) + seq!['.', ' '] + #[trigger] role_ids[i]
                }
            }
        }),
{
    reveal_strlit("  ");
    reveal_strlit(". ");
    assert("  "@ =~= seq![' ', ' ']);
    assert(". "@ =~= seq!['.', ' ']);
}

/// The record of a scrape, before it is stored: the page's URL and time, and a field for each
/// pair of a name and a value.
pub open spec fn record_to_store(
    url: Seq<char>,
    scraped_at: Seq<char>,
    fields: Seq<(Seq<char>, Seq<char>)>,
) -> ScrapeRecordView {
    ScrapeRecordView {
        id: 0,
        url,
        scraped_at,
        fields: Seq::new(fields.len(), |i: int| FieldView { name: fields[i].0, value: fields[i].1 }),
    }
}

/// Scraping dumps the page where that is asked for, and refuses arguments that do not say what to
/// extract: then nothing is stored and nothing warned of. Otherwise it stores one record with all
/// the fields that the page gives, and prints its ID and a line for each field; a failure to
/// store it is passed on. Either way it warns of the selectors that are not valid.
pub proof fn a_page_is_scraped(
    db: DatabaseView,
    url: Seq<char>,
    html: Seq<char>,
    elements: Map<Seq<char>, Seq<Seq<Seq<char>>>>,
    select: Seq<Seq<char>>,
    dump_html: bool,
    scraped_at: Seq<char>,
)
    ensures
        ({
            let (answer, after) = page_scraped(
                db,
                url,
                html,
                elements,
                select,
                dump_html,
                scraped_at,
            );
            if dump_html || select.len() == 0 || selectors_parsed(select) is Err {
                &&& after == db
                &&& answer.warnings.len() == 0
                &&& dump_html ==> answer.report == Ok::<Seq<Seq<char>>, CommandErrorView>(
                    seq![html],
                )
                &&& !dump_html && select.len() == 0 ==> answer.report == Err::<
                    Seq<Seq<char>>,
                    CommandErrorView,
                >(CommandErrorView::NothingSelected)
                &&& !dump_html && select.len() > 0 ==> answer.report == Err::<
                    Seq<Seq<char>>,
                    CommandErrorView,
                >(CommandErrorView::InvalidSelector(selectors_parsed(select)->Err_0))
            } else {
                let selectors = selectors_parsed(select)->Ok_0;
                let fields = page_fields(elements, selectors);
                let (inserted, stored) = scrape_inserted(
                    db,
                    record_to_store(url, scraped_at, fields),
                );
                &&& after == stored
                &&& answer.warnings == page_warnings(elements, selectors)
                &&& inserted matches Err(error) ==> answer.report == Err::<
                    Seq<Seq<char>>,
                    CommandErrorView,
                >(CommandErrorView::Storage(error))
                &&& inserted matches Ok(id) ==> {
                    &&& answer.report is Ok
                    &&& answer.report->Ok_0.len() == fields.len() + 1
                    &&& answer.report->Ok_0[0] == "Stored record #"@ + decimal(id as int)
                        + " with "@ + digits(fields.len()) + " field(s):"@
                    &&& forall|i: int|
                        0 <= i < fields.len() ==> answer.report->Ok_0[i + 1] == seq![' ', ' '] + (
                        #[trigger] fields[i]).0 + seq![':', ' '] + fields[i].1
                }
            }
        }),
{
    reveal_strlit("  ");
    reveal_strlit(": ");
    assert("  "@ =~= seq![' ', ' ']);
    assert(": "@ =~= seq![':', ' ']);
    if !(dump_html || select.len() == 0 || selectors_parsed(select) is Err) {
        let fields = page_fields(elements, selectors_parsed(select)->Ok_0);
        assert(fields.map_values(making_field()) =~= record_to_store(
            url,
            scraped_at,
            fields,
        ).fields);
    }
}

/// The request for editions and roles has the three headers of a browser, and behind them, where
/// they are given, the token as a bearer token and the cookie, each as it is.
pub proof fn the_request_is_signed(token: Option<Seq<char>>, cookie: Option<Seq<char>>)
    ensures
        ({
            let headers = request_headers(token, cookie);
            let signed: int = if token is Some {
                1
            } else {
                0
            };
            &&& headers.len() == 3 + signed + if cookie is Some {
                1int
            } else {
                0
            }
            &&& headers[0] == (
                "user-agent"@,
                "Mozilla/5.0 (Windows NT 10.0; Win64; x64) AppleWebKit/537.36 (KHTML, like Gecko) Chrome/148.0.0.0 Safari/537.36"@,
            )
            &&& headers[1] == ("accept"@, "*/*"@)
            &&& headers[2] == ("referer"@, "https://botc.app/play"@)
            &&& token matches Some(token) ==> headers[3] == (
                "authorization"@,
                "Bearer "@ + token,
            )
            &&& cookie matches Some(cookie) ==> headers[3 + signed] == ("cookie"@, cookie)
        }),
{
}

/// Every failure is said in words of its own.
pub proof fn failures_are_said(
    table: TableName,
    column: u64,
    value: i64,
    argument: Seq<char>,
    count: nat,
    error: StorageError,
)
    ensures
        storage_message(StorageError::NoSuchTable(table)) == "no such table: "@ + match table {
            TableName::Scrapes => "scrapes"@,
            TableName::Fields => "fields"@,
            TableName::Editions => "editions"@,
            TableName::Roles => "roles"@,
            TableName::Games => "games"@,
            TableName::GameRoles => "game_roles"@,
        },
        storage_message(StorageError::IdsExhausted(table)) == "database or disk is full"@,
        storage_message(StorageError::IntegerOutOfRange { column, value }) == "Integer "@ + decimal(
            value as int,
        ) + " out of range at index "@ + digits(column as nat),
        error_message(CommandErrorView::Storage(error)) == storage_message(error),
        error_message(CommandErrorView::NothingSelected)
            == "Provide at least one --select SELECTOR:FIELD argument"@,
        error_message(CommandErrorView::InvalidSelector(argument)) == "Invalid --select value '"@
            + argument + "'. Expected format: SELECTOR:FIELD"@,
        error_message(CommandErrorView::WrongRoleCount(count))
            == "A game requires 3–20 roles, got "@ + digits(count) + "."@,
{
}

/// What is said of a fetch names its URL, and what is said of an export how many records it has,
/// and its file where there is one.
pub proof fn fetches_and_exports_are_said(url: Seq<char>, count: nat, path: Seq<char>)
    ensures
        fetching_line(url) == "Fetching "@ + url + " ..."@,
        export_line(count, None) == "Exported "@ + digits(count) + " record(s)."@,
        export_line(count, Some(path)) == "Exported "@ + digits(count) + " record(s) to "@ + path
            + "."@,
{
}

/// A page was delivered where the first of the three digits of the status code is a two, and
/// only there.
pub proof fn delivery_has_a_status_of_its_own(status: u16)
    ensures
        delivers(status) <==> status / 100 == 2,
{
}

} // verus!
