//! The commands on roles, editions and games.

use crate::catalog::{
    editions_read, editions_upserted, get_editions, get_roles, roles_read, roles_upserted,
    upsert_editions, upsert_roles,
};
use crate::clock::{a_time_exists, is_rfc3339_utc, now_rfc3339};
use crate::games::{create_game_at, game_created, game_read, get_game, role_details};
use crate::models::{
    BotcData, BotcDataView, Edition, EditionView, GameInstance, GameInstanceView, GameRole,
    GameRoleView, Role, RoleView,
};
use crate::order::kept_is_there;
use crate::reading_laws::{created_game_is_read, looking_up_id, unknown_role_shows_no_details};
use crate::report::{
    add_line, one_line, or_stand_in, report_view, row_of_four, text_or, write_row_of_four,
    CommandError, CommandErrorView,
};
use crate::storage_laws::{storing_editions_is_idempotent, storing_roles_is_idempotent};
use crate::tables::{
    find_key, has_key, keeps_invariants, rows_with_key, Database, DatabaseView, RoleRow, RoleRowView,
    StorageError, TableName,
};
use crate::text::{
    can_be_shortened, decimal, digits, fits_column, hyphens, pad, padded, repeated, shorten,
    shortened, write_integer, write_natural,
};
use vstd::prelude::*;

verus! {

/// The headers of the request for editions and roles: those of a browser, the token as a
/// bearer token, and the cookie.
pub open spec fn request_headers(token: Option<Seq<char>>, cookie: Option<Seq<char>>) -> Seq<
    (Seq<char>, Seq<char>),
> {
    let fixed = seq![
        (
            "user-agent"@,
            "Mozilla/5.0 (Windows NT 10.0; Win64; x64) AppleWebKit/537.36 (KHTML, like Gecko) Chrome/148.0.0.0 Safari/537.36"@,
        ),
        ("accept"@, "*/*"@),
        ("referer"@, "https://botc.app/play"@),
    ];
    let with_token = match token {
        Some(token) => fixed.push(("authorization"@, "Bearer "@ + token)),
        None => fixed,
    };
    match cookie {
        Some(cookie) => with_token.push(("cookie"@, cookie)),
        None => with_token,
    }
}

/// Adds a header.
fn add_header(headers: &mut Vec<(String, String)>, name: &str, value: &str)
    ensures
        final(headers).deep_view() == old(headers).deep_view().push((name@, value@)),
{
    let ghost before = headers.deep_view();
    headers.push((name.to_owned(), value.to_owned()));
    assert(headers.deep_view() =~= before.push((name@, value@)));
}

/// The headers of the request for editions and roles.
pub fn api_headers(token: Option<&str>, cookie: Option<&str>) -> (headers: Vec<(String, String)>)
    ensures
        headers.deep_view() == request_headers(token.deep_view(), cookie.deep_view()),
{
    let mut headers: Vec<(String, String)> = Vec::new();
    add_header(
        &mut headers,
        "user-agent",
        "Mozilla/5.0 (Windows NT 10.0; Win64; x64) AppleWebKit/537.36 (KHTML, like Gecko) Chrome/148.0.0.0 Safari/537.36",
    );
    add_header(&mut headers, "accept", "*/*");
    add_header(&mut headers, "referer", "https://botc.app/play");
    assert(headers.deep_view() =~= request_headers(None, None));
    if let Some(token) = token {
        let mut value = "Bearer ".to_owned();
        value.append(token);
        add_header(&mut headers, "authorization", value.as_str());
    }
    if let Some(cookie) = cookie {
        add_header(&mut headers, "cookie", cookie);
    }
    headers
}

/// What is printed after editions and roles were stored.
pub open spec fn stored_line(editions: nat, roles: nat) -> Seq<char> {
    "Stored "@ + digits(editions) + " editions and "@ + digits(roles) + " roles."@
}

/// What storing the editions and roles of a response gives, and the database after it. Where
/// the roles cannot be stored, the editions stay stored.
pub open spec fn data_stored(db: DatabaseView, data: BotcDataView) -> (
    Result<Seq<Seq<char>>, CommandErrorView>,
    DatabaseView,
) {
    let (editions, between) = editions_upserted(db, data.editions);
    match editions {
        Err(error) => (Err(CommandErrorView::Storage(error)), between),
        Ok(edition_count) => {
            let (roles, after) = roles_upserted(between, data.roles);
            match roles {
                Err(error) => (Err(CommandErrorView::Storage(error)), after),
                Ok(role_count) => (
                    Ok(seq![stored_line(edition_count as nat, role_count as nat)]),
                    after,
                ),
            }
        },
    }
}

/// Stores all editions and roles of a response of the data API.
pub fn run_api(db: &mut Database, data: &BotcData) -> (report: Result<Vec<String>, CommandError>)
    ensures
        (report_view(report), final(db).deep_view()) == data_stored(
            old(db).deep_view(),
            data.deep_view(),
        ),
        keeps_invariants(old(db).deep_view(), final(db).deep_view()),
{
    let edition_count = match upsert_editions(db, data.editions.as_slice()) {
        Err(error) => {
            return Err(CommandError::Storage(error));
        },
        Ok(count) => count,
    };
    let role_count = match upsert_roles(db, data.roles.as_slice()) {
        Err(error) => {
            return Err(CommandError::Storage(error));
        },
        Ok(count) => count,
    };
    let mut line = "Stored ".to_owned();
    line.append(write_natural(edition_count as u64).as_str());
    line.append(" editions and ");
    line.append(write_natural(role_count as u64).as_str());
    line.append(" roles.");
    Ok(one_line(line.as_str()))
}

/// Storing the same response once more gives the same and changes nothing.
pub proof fn storing_data_is_idempotent(db: DatabaseView, data: BotcDataView)
    ensures
        data_stored(data_stored(db, data).1, data) == data_stored(db, data),
{
    let between = editions_upserted(db, data.editions).1;
    storing_editions_is_idempotent(db, data.editions);
    storing_roles_is_idempotent(between, data.roles);
}

/// How the ability of a role is shown in the list of roles: a long one is cut.
pub open spec fn ability_cell(role: RoleView) -> Seq<char> {
    shortened(text_or(role.ability, ""@), 55, 52)
}

/// Whether the ability of a role can be shown in the list of roles: where it has to be cut, the
/// cut does not fall inside a character.
pub open spec fn ability_fits(role: RoleView) -> bool {
    can_be_shortened(text_or(role.ability, ""@), 55, 52)
}

/// Whether the abilities of all roles can be shown in the list of roles.
pub open spec fn abilities_fit(roles: Seq<RoleView>) -> bool {
    forall|i: int| 0 <= i < roles.len() ==> ability_fits(#[trigger] roles[i])
}

/// The row of a role.
pub open spec fn role_line(role: RoleView) -> Seq<char> {
    row_of_four(
        (text_or(role.name, "?"@), 20),
        (text_or(role.team, "?"@), 12),
        (text_or(role.edition, "?"@), 10),
        ability_cell(role),
    )
}

/// The table of roles: a head, a rule, and a row for each role.
pub open spec fn roles_table(roles: Seq<RoleView>) -> Seq<Seq<char>> {
    seq![
        row_of_four(("NAME"@, 20), ("TEAM"@, 12), ("EDITION"@, 10), "ABILITY"@),
        repeated('-', 100),
    ] + roles.map_values(|role: RoleView| role_line(role))
}

/// The list of roles: their table, and how many there are.
pub open spec fn roles_listed(roles: Seq<RoleView>) -> Seq<Seq<char>> {
    if roles.len() == 0 {
        seq!["No roles found."@]
    } else {
        roles_table(roles).push("\n"@ + digits(roles.len()) + " role(s) total."@)
    }
}

/// Whether the ability of a role can be shown in the list of roles.
fn ability_is_showable(role: &Role) -> (answer: bool)
    ensures
        answer == ability_fits(role.deep_view()),
{
    fits_column(or_stand_in(&role.ability, ""), 55, 52)
}

/// How many roles can be shown before the first whose ability cannot.
pub fn fitting_roles(roles: &Vec<Role>) -> (count: usize)
    ensures
        count <= roles@.len(),
        abilities_fit(roles.deep_view().take(count as int)),
        count < roles@.len() ==> !ability_fits(roles.deep_view()[count as int]),
{
    let ghost all = roles.deep_view();
    let mut i: usize = 0;
    while i < roles.len()
        invariant
            i <= roles.len(),
            all == roles.deep_view(),
            forall|j: int| 0 <= j < i ==> ability_fits(#[trigger] all[j]),
        decreases roles.len() - i,
    {
        assert(roles[i as int].deep_view() == all[i as int]);
        if !ability_is_showable(&roles[i]) {
            return i;
        }
        i = i + 1;
    }
    i
}

/// Whether the abilities of all roles can be shown in the list of roles.
pub fn can_list_roles(roles: &Vec<Role>) -> (answer: bool)
    ensures
        answer == abilities_fit(roles.deep_view()),
{
    let count = fitting_roles(roles);
    assert(roles.deep_view().take(roles@.len() as int) =~= roles.deep_view());
    count == roles.len()
}

/// Writes the row of a role.
fn write_role(role: &Role) -> (line: String)
    requires
        ability_fits(role.deep_view()),
    ensures
        line@ == role_line(role.deep_view()),
{
    let ability = shorten(or_stand_in(&role.ability, ""), 55, 52);
    write_row_of_four(
        (or_stand_in(&role.name, "?"), 20),
        (or_stand_in(&role.team, "?"), 12),
        (or_stand_in(&role.edition, "?"), 10),
        ability.as_str(),
    )
}

/// Writes the table of the first `count` roles.
pub fn write_roles_table(roles: &Vec<Role>, count: usize) -> (lines: Vec<String>)
    requires
        count <= roles@.len(),
        abilities_fit(roles.deep_view().take(count as int)),
    ensures
        lines.deep_view() == roles_table(roles.deep_view().take(count as int)),
{
    let ghost all = roles.deep_view().take(count as int);
    let mut lines: Vec<String> = Vec::new();
    add_line(
        &mut lines,
        write_row_of_four(("NAME", 20), ("TEAM", 12), ("EDITION", 10), "ABILITY"),
    );
    add_line(&mut lines, hyphens(100));
    let ghost head = lines.deep_view();
    let ghost rows = all.map_values(|role: RoleView| role_line(role));
    let mut i: usize = 0;
    assert(head + rows.take(0) =~= head);
    while i < count
        invariant
            i <= count <= roles.len(),
            all == roles.deep_view().take(count as int),
            abilities_fit(all),
            rows == all.map_values(|role: RoleView| role_line(role)),
            lines.deep_view() == head + rows.take(i as int),
        decreases count - i,
    {
        assert(roles[i as int].deep_view() == all[i as int]);
        assert(ability_fits(all[i as int]));
        add_line(&mut lines, write_role(&roles[i]));
        assert(head + rows.take(i + 1) =~= (head + rows.take(i as int)).push(rows[i as int]));
        i = i + 1;
    }
    assert(lines.deep_view() =~= roles_table(all));
    lines
}

/// Lists roles.
pub fn list_roles(roles: &Vec<Role>) -> (lines: Vec<String>)
    requires
        abilities_fit(roles.deep_view()),
    ensures
        lines.deep_view() == roles_listed(roles.deep_view()),
{
    if roles.len() == 0 {
        return one_line("No roles found.");
    }
    assert(roles.deep_view().take(roles@.len() as int) =~= roles.deep_view());
    let mut lines = write_roles_table(roles, roles.len());
    let mut total = "\n".to_owned();
    total.append(write_natural(roles.len() as u64).as_str());
    total.append(" role(s) total.");
    add_line(&mut lines, total);
    lines
}

/// What listing the stored roles of a team and of an edition gives.
pub open spec fn roles_shown(
    db: DatabaseView,
    team: Option<Seq<char>>,
    edition: Option<Seq<char>>,
) -> Result<Seq<Seq<char>>, CommandErrorView> {
    match roles_read(db, team, edition) {
        Ok(roles) => Ok(roles_listed(roles)),
        Err(error) => Err(CommandErrorView::Storage(error)),
    }
}

/// Whether the stored roles of a team and of an edition can be listed.
pub open spec fn roles_showable(
    db: DatabaseView,
    team: Option<Seq<char>>,
    edition: Option<Seq<char>>,
) -> bool {
    roles_read(db, team, edition) matches Ok(roles) ==> abilities_fit(roles)
}

/// Whether the stored roles of a team and of an edition can be listed.
pub fn can_run_roles(db: &Database, team: Option<&str>, edition: Option<&str>) -> (answer: bool)
    ensures
        answer == roles_showable(db.deep_view(), team.deep_view(), edition.deep_view()),
{
    match get_roles(db, team, edition) {
        Ok(roles) => can_list_roles(&roles),
        Err(_) => true,
    }
}

/// Lists the stored roles, optionally only those of one team, of one edition, or of both.
pub fn run_roles(db: &Database, team: Option<&str>, edition: Option<&str>) -> (report: Result<
    Vec<String>,
    CommandError,
>)
    requires
        roles_showable(db.deep_view(), team.deep_view(), edition.deep_view()),
    ensures
        report_view(report) == roles_shown(db.deep_view(), team.deep_view(), edition.deep_view()),
{
    match get_roles(db, team, edition) {
        Ok(roles) => Ok(list_roles(&roles)),
        Err(error) => Err(CommandError::Storage(error)),
    }
}

/// Whether an edition is official, as it is shown.
pub open spec fn official_cell(edition: EditionView) -> Seq<char> {
    if edition.is_official == Some(true) {
        "yes"@
    } else {
        "no"@
    }
}

/// The row of an edition.
pub open spec fn edition_line(edition: EditionView) -> Seq<char> {
    row_of_four(
        (edition.id, 10),
        (text_or(edition.name, "?"@), 25),
        (text_or(edition.level, "?"@), 12),
        official_cell(edition),
    )
}

/// The list of editions: a head, a rule, and a row for each edition.
pub open spec fn editions_listed(editions: Seq<EditionView>) -> Seq<Seq<char>> {
    if editions.len() == 0 {
        seq!["No editions found. Run `api` first."@]
    } else {
        seq![
            row_of_four(("ID"@, 10), ("NAME"@, 25), ("LEVEL"@, 12), "OFFICIAL"@),
            repeated('-', 60),
        ] + editions.map_values(|edition: EditionView| edition_line(edition))
    }
}

/// Writes the row of an edition.
fn write_edition(edition: &Edition) -> (line: String)
    ensures
        line@ == edition_line(edition.deep_view()),
{
    let official = match edition.is_official {
        Some(true) => "yes",
        _ => "no",
    };
    write_row_of_four(
        (edition.id.as_str(), 10),
        (or_stand_in(&edition.name, "?"), 25),
        (or_stand_in(&edition.level, "?"), 12),
        official,
    )
}

/// Lists editions.
pub fn list_editions(editions: &Vec<Edition>) -> (lines: Vec<String>)
    ensures
        lines.deep_view() == editions_listed(editions.deep_view()),
{
    if editions.len() == 0 {
        return one_line("No editions found. Run `api` first.");
    }
    let ghost all = editions.deep_view();
    let mut lines: Vec<String> = Vec::new();
    add_line(&mut lines, write_row_of_four(("ID", 10), ("NAME", 25), ("LEVEL", 12), "OFFICIAL"));
    add_line(&mut lines, hyphens(60));
    let ghost head = lines.deep_view();
    let ghost rows = all.map_values(|edition: EditionView| edition_line(edition));
    let mut i: usize = 0;
    assert(head + rows.take(0) =~= head);
    while i < editions.len()
        invariant
            i <= editions.len(),
            all == editions.deep_view(),
            rows == all.map_values(|edition: EditionView| edition_line(edition)),
            lines.deep_view() == head + rows.take(i as int),
        decreases editions.len() - i,
    {
        assert(editions[i as int].deep_view() == all[i as int]);
        add_line(&mut lines, write_edition(&editions[i]));
        assert(head + rows.take(i + 1) =~= (head + rows.take(i as int)).push(rows[i as int]));
        i = i + 1;
    }
    assert(lines.deep_view() =~= editions_listed(all));
    lines
}

/// What listing the stored editions gives.
pub open spec fn editions_shown(db: DatabaseView) -> Result<Seq<Seq<char>>, CommandErrorView> {
    match editions_read(db) {
        Ok(editions) => Ok(editions_listed(editions)),
        Err(error) => Err(CommandErrorView::Storage(error)),
    }
}

/// Lists the stored editions.
pub fn run_editions(db: &Database) -> (report: Result<Vec<String>, CommandError>)
    ensures
        report_view(report) == editions_shown(db.deep_view()),
{
    match get_editions(db) {
        Ok(editions) => Ok(list_editions(&editions)),
        Err(error) => Err(CommandError::Storage(error)),
    }
}

/// The line of a role of a new game: its number, from one on, and its ID.
pub open spec fn numbered_line(number: nat, role_id: Seq<char>) -> Seq<char> {
    "  "@ + digits(number) + ". "@ + role_id
}

/// What is printed after a game was created.
pub open spec fn game_announced(id: i64, role_ids: Seq<Seq<char>>) -> Seq<Seq<char>> {
    seq![
        "Game #"@ + decimal(id as int) + " created with "@ + digits(role_ids.len()) + " roles:"@,
    ] + role_ids.map(|i: int, role_id: Seq<char>| numbered_line((i + 1) as nat, role_id))
}

/// Whether a game may have so many roles: 3 to 20.
pub open spec fn is_role_count(count: nat) -> bool {
    3 <= count <= 20
}

/// Whether a game may have these roles: 3 to 20 of them.
pub fn has_role_count(roles: &[String]) -> (answer: bool)
    ensures
        answer == is_role_count(roles@.len()),
{
    3 <= roles.len() && roles.len() <= 20
}

/// What creating a game with the given roles gives, and the database after it. A game has 3 to
/// 20 roles.
pub open spec fn game_started(
    db: DatabaseView,
    role_ids: Seq<Seq<char>>,
    created_at: Seq<char>,
) -> (Result<Seq<Seq<char>>, CommandErrorView>, DatabaseView) {
    if !is_role_count(role_ids.len()) {
        (Err(CommandErrorView::WrongRoleCount(role_ids.len())), db)
    } else {
        let (created, after) = game_created(db, role_ids, created_at);
        match created {
            Ok(id) => (Ok(game_announced(id, role_ids)), after),
            Err(error) => (Err(CommandErrorView::Storage(error)), after),
        }
    }
}

/// Says that a game was created.
pub fn announce_game(id: i64, role_ids: &[String]) -> (lines: Vec<String>)
    ensures
        lines.deep_view() == game_announced(id, role_ids.deep_view()),
{
    let ghost all = role_ids.deep_view();
    let mut lines: Vec<String> = Vec::new();
    let mut line = "Game #".to_owned();
    line.append(write_integer(id).as_str());
    line.append(" created with ");
    line.append(write_natural(role_ids.len() as u64).as_str());
    line.append(" roles:");
    add_line(&mut lines, line);
    let ghost head = lines.deep_view();
    let ghost rows = all.map(|i: int, role_id: Seq<char>| numbered_line((i + 1) as nat, role_id));
    let mut i: usize = 0;
    assert(head + rows.take(0) =~= head);
    while i < role_ids.len()
        invariant
            i <= role_ids.len(),
            all == role_ids.deep_view(),
            rows == all.map(
                |i: int, role_id: Seq<char>| numbered_line((i + 1) as nat, role_id),
            ),
            lines.deep_view() == head + rows.take(i as int),
        decreases role_ids.len() - i,
    {
        assert(role_ids[i as int].deep_view() == all[i as int]);
        let mut line = "  ".to_owned();
        line.append(write_natural(i as u64 + 1).as_str());
        line.append(". ");
        line.append(role_ids[i].as_str());
        add_line(&mut lines, line);
        assert(head + rows.take(i + 1) =~= (head + rows.take(i as int)).push(rows[i as int]));
        i = i + 1;
    }
    assert(lines.deep_view() =~= game_announced(id, all));
    lines
}

/// Creates a game session that was set up at the time `created_at`.
pub fn run_new_game_at(db: &mut Database, roles: &[String], created_at: String) -> (report: Result<
    Vec<String>,
    CommandError,
>)
    requires
        old(db).deep_view().well_formed(),
    ensures
        (report_view(report), final(db).deep_view()) == game_started(
            old(db).deep_view(),
            roles.deep_view(),
            created_at@,
        ),
        keeps_invariants(old(db).deep_view(), final(db).deep_view()),
{
    if !has_role_count(roles) {
        return Err(CommandError::WrongRoleCount(roles.len()));
    }
    match create_game_at(db, roles, created_at) {
        Ok(id) => Ok(announce_game(id, roles)),
        Err(error) => Err(CommandError::Storage(error)),
    }
}

/// Creates a game session with 3 to 20 roles, in order. The IDs of the roles are stored as they
/// are: the roles need not be stored themselves.
pub fn run_new_game(db: &mut Database, roles: &[String]) -> (report: Result<
    Vec<String>,
    CommandError,
>)
    requires
        old(db).deep_view().well_formed(),
    ensures
        exists|created_at: Seq<char>|
            is_rfc3339_utc(created_at) && (report_view(report), final(db).deep_view())
                == #[trigger] game_started(old(db).deep_view(), roles.deep_view(), created_at),
        keeps_invariants(old(db).deep_view(), final(db).deep_view()),
{
    if !has_role_count(roles) {
        proof {
            let created_at = a_time_exists();
            assert(game_started(db.deep_view(), roles.deep_view(), created_at).1
                == db.deep_view());
        }
        return Err(CommandError::WrongRoleCount(roles.len()));
    }
    let created_at = now_rfc3339();
    run_new_game_at(db, roles, created_at)
}

/// Whether a role is among the stored ones.
pub open spec fn is_stored(role_id: Seq<char>, roles: Seq<RoleRowView>) -> bool {
    exists|i: int| 0 <= i < roles.len() && (#[trigger] roles[i]).id == role_id
}

/// What is shown in place of an ability: a question mark where the role is not among the stored
/// ones, and nothing where it is.
pub open spec fn no_ability(role_id: Seq<char>, stored: Seq<RoleRowView>) -> Seq<char> {
    if is_stored(role_id, stored) {
        ""@
    } else {
        "?"@
    }
}

/// The row of a role of a game. A role that is not among the `stored` ones is shown by its ID.
pub open spec fn game_role_line(
    number: nat,
    role: GameRoleView,
    stored: Seq<RoleRowView>,
) -> Seq<char> {
    padded(digits(number), 4) + " "@ + row_of_four(
        (text_or(role.name, role.role_id), 20),
        (text_or(role.team, "?"@), 12),
        (text_or(role.edition, "?"@), 10),
        text_or(role.ability, no_ability(role.role_id, stored)),
    )
}

/// A game as it is shown: its head, and a table with a row for each role.
pub open spec fn game_listed(game: GameInstanceView, stored: Seq<RoleRowView>) -> Seq<Seq<char>> {
    seq![
        "Game #"@ + decimal(game.id as int) + " — created "@ + game.created_at,
        repeated('-', 70),
        padded("#"@, 4) + " "@ + row_of_four(
            ("NAME"@, 20),
            ("TEAM"@, 12),
            ("EDITION"@, 10),
            "ABILITY"@,
        ),
        repeated('-', 70),
    ] + game.roles.map(|i: int, role: GameRoleView| game_role_line((i + 1) as nat, role, stored))
}

/// What showing the game with the ID `id` gives.
pub open spec fn game_shown(db: DatabaseView, id: i64) -> Result<Seq<Seq<char>>, CommandErrorView> {
    match game_read(db, id) {
        Err(error) => Err(CommandErrorView::Storage(error)),
        Ok(None) => Ok(seq!["No game found with ID "@ + decimal(id as int) + "."@]),
        Ok(Some(game)) => Ok(game_listed(game, db.roles->0)),
    }
}

/// Whether a role is among the stored ones.
fn find_stored(role_id: &str, stored: &Vec<RoleRow>) -> (answer: bool)
    ensures
        answer == is_stored(role_id@, stored.deep_view()),
{
    let ghost rows = stored.deep_view();
    let ghost found = rows_with_key::<RoleRow>(rows, role_id@);
    proof {
        if found.len() > 0 {
            kept_is_there(rows, has_key::<RoleRow>(role_id@), 0);
            let i = choose|i: int| 0 <= i < rows.len() && rows[i] == found[0];
            assert(rows[i].id == role_id@);
        }
        if is_stored(role_id@, rows) {
            let i = choose|i: int| 0 <= i < rows.len() && (#[trigger] rows[i]).id == role_id@;
            rows.lemma_filter_contains(has_key::<RoleRow>(role_id@), i);
        }
    }
    find_key(stored, role_id).is_some()
}

/// Writes the row of a role of a game.
fn write_game_role(number: u64, role: &GameRole, stored: &Vec<RoleRow>) -> (line: String)
    ensures
        line@ == game_role_line(number as nat, role.deep_view(), stored.deep_view()),
{
    let mut line = pad(write_natural(number).as_str(), 4);
    line.append(" ");
    let stand_in = if find_stored(role.role_id.as_str(), stored) {
        ""
    } else {
        "?"
    };
    let row = write_row_of_four(
        (or_stand_in(&role.name, role.role_id.as_str()), 20),
        (or_stand_in(&role.team, "?"), 12),
        (or_stand_in(&role.edition, "?"), 10),
        or_stand_in(&role.ability, stand_in),
    );
    line.append(row.as_str());
    line
}

/// Shows a game, given the stored roles.
pub fn list_game(game: &GameInstance, stored: &Vec<RoleRow>) -> (lines: Vec<String>)
    ensures
        lines.deep_view() == game_listed(game.deep_view(), stored.deep_view()),
{
    let roles = &game.roles;
    let ghost all = roles.deep_view();
    let mut lines: Vec<String> = Vec::new();
    let mut line = "Game #".to_owned();
    line.append(write_integer(game.id).as_str());
    line.append(" — created ");
    line.append(game.created_at.as_str());
    add_line(&mut lines, line);
    add_line(&mut lines, hyphens(70));
    let mut head_line = pad("#", 4);
    head_line.append(" ");
    let columns = write_row_of_four(("NAME", 20), ("TEAM", 12), ("EDITION", 10), "ABILITY");
    head_line.append(columns.as_str());
    add_line(&mut lines, head_line);
    add_line(&mut lines, hyphens(70));
    let ghost head = lines.deep_view();
    let ghost rows = all.map(
        |i: int, role: GameRoleView|
            game_role_line((i + 1) as nat, role, stored.deep_view()),
    );
    let mut i: usize = 0;
    assert(head + rows.take(0) =~= head);
    while i < roles.len()
        invariant
            i <= roles.len(),
            all == roles.deep_view(),
            rows == all.map(
                |i: int, role: GameRoleView|
                    game_role_line((i + 1) as nat, role, stored.deep_view()),
            ),
            lines.deep_view() == head + rows.take(i as int),
        decreases roles.len() - i,
    {
        assert(roles[i as int].deep_view() == all[i as int]);
        add_line(&mut lines, write_game_role(i as u64 + 1, &roles[i], stored));
        assert(head + rows.take(i + 1) =~= (head + rows.take(i as int)).push(rows[i as int]));
        i = i + 1;
    }
    assert(lines.deep_view() =~= game_listed(game.deep_view(), stored.deep_view()));
    lines
}

/// Shows the game with the ID `id`, with the details of its roles.
pub fn run_get_game(db: &Database, id: i64) -> (report: Result<Vec<String>, CommandError>)
    ensures
        report_view(report) == game_shown(db.deep_view(), id),
{
    match get_game(db, id) {
        Err(error) => Err(CommandError::Storage(error)),
        Ok(None) => {
            let mut line = "No game found with ID ".to_owned();
            line.append(write_integer(id).as_str());
            line.append(".");
            Ok(one_line(line.as_str()))
        },
        Ok(Some(game)) => match &db.roles {
            Some(stored) => Ok(list_game(&game, stored)),
            None => Err(CommandError::Storage(StorageError::NoSuchTable(TableName::Roles))),
        },
    }
}

/// A game with fewer than 3 or more than 20 roles is refused, and nothing is stored of it.
pub proof fn wrong_role_count_is_refused(
    db: DatabaseView,
    role_ids: Seq<Seq<char>>,
    created_at: Seq<char>,
)
    ensures
        role_ids.len() < 3 || role_ids.len() > 20 <==> game_started(db, role_ids, created_at).0
            == Err::<Seq<Seq<char>>, CommandErrorView>(
            CommandErrorView::WrongRoleCount(role_ids.len()),
        ),
        role_ids.len() < 3 || role_ids.len() > 20 ==> game_started(db, role_ids, created_at).1
            == db,
{
}

/// A game that was created is shown under its ID, with its time and with its roles in the order
/// in which they were given, each with what the stored roles say of it.
pub proof fn started_game_is_shown(
    db: DatabaseView,
    role_ids: Seq<Seq<char>>,
    created_at: Seq<char>,
)
    requires
        db.well_formed(),
        db.references_hold(),
        db.roles is Some,
        db.game_roles is Some,
        game_started(db, role_ids, created_at).0 is Ok,
    ensures
        ({
            let (report, after) = game_started(db, role_ids, created_at);
            let id = game_created(db, role_ids, created_at).0->Ok_0;
            &&& report == Ok::<Seq<Seq<char>>, CommandErrorView>(game_announced(id, role_ids))
            &&& game_shown(after, id) == Ok::<Seq<Seq<char>>, CommandErrorView>(
                game_listed(
                    GameInstanceView {
                        id,
                        created_at,
                        roles: role_ids.map_values(looking_up_id(db.roles->0)),
                    },
                    db.roles->0,
                ),
            )
        }),
{
    created_game_is_read(db, role_ids, created_at);
}

/// A role of a game that is not stored is shown by its ID, with question marks for its team,
/// edition and ability.
pub proof fn unknown_role_is_shown_by_its_id(
    number: nat,
    role_id: Seq<char>,
    roles: Seq<RoleRowView>,
)
    requires
        !is_stored(role_id, roles),
    ensures
        game_role_line(number, role_details(role_id, roles), roles) == padded(digits(number), 4)
            + " "@ + row_of_four((role_id, 20), ("?"@, 12), ("?"@, 10), "?"@),
{
    unknown_role_shows_no_details(role_id, roles);
}

/// A role of a game that is stored without an ability is shown without one.
pub proof fn stored_role_without_ability_shows_none(
    number: nat,
    role: GameRoleView,
    roles: Seq<RoleRowView>,
)
    requires
        is_stored(role.role_id, roles),
        role.ability is None,
    ensures
        game_role_line(number, role, roles) == padded(digits(number), 4) + " "@ + row_of_four(
            (text_or(role.name, role.role_id), 20),
            (text_or(role.team, "?"@), 12),
            (text_or(role.edition, "?"@), 10),
            ""@,
        ),
{
}

} // verus!
