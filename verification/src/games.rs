//! Game sessions, stored and read back.

use crate::clock::{is_rfc3339_utc, now_rfc3339};
use crate::models::{GameInstance, GameInstanceView, GameRole, GameRoleView};
use crate::order::{filter_push, ordered, place, Ordered};
use crate::storage_laws::creating_a_game_keeps_invariants;
use crate::tables::{
    find_id, find_key, keeps_invariants, numbers_left, result_view, rows_with_id, rows_with_key,
    Database, DatabaseView, GameRoleRow, GameRoleRowView, GameRow, GameRowView, Numbered,
    NumberedView, RoleRow, RoleRowView, StorageError, TableName,
};
use vstd::prelude::*;

verus! {

/// The rows that hold the first `count` roles of a game, numbered from behind `last_id` on.
pub open spec fn game_role_rows(
    last_id: i64,
    game_id: i64,
    role_ids: Seq<Seq<char>>,
    count: nat,
) -> Seq<GameRoleRowView> {
    Seq::new(
        count,
        |i: int|
            GameRoleRowView {
                id: (last_id + 1 + i) as i64,
                game_id,
                role_id: role_ids[i],
                position: i as i64,
            },
    )
}

/// What storing the roles of a game gives: the failure, if any, and the table after it. The
/// roles before the one at which it fails stay stored.
pub open spec fn game_roles_stored(
    table: Option<NumberedView<GameRoleRowView>>,
    game_id: i64,
    role_ids: Seq<Seq<char>>,
) -> (Option<StorageError>, Option<NumberedView<GameRoleRowView>>) {
    if role_ids.len() == 0 {
        (None, table)
    } else {
        match table {
            None => (Some(StorageError::NoSuchTable(TableName::GameRoles)), None),
            Some(table) => {
                let count = numbers_left(table.last_id, role_ids.len());
                (
                    if count < role_ids.len() {
                        Some(StorageError::IdsExhausted(TableName::GameRoles))
                    } else {
                        None
                    },
                    Some(
                        NumberedView {
                            last_id: (table.last_id + count) as i64,
                            rows: table.rows + game_role_rows(
                                table.last_id,
                                game_id,
                                role_ids,
                                count,
                            ),
                        },
                    ),
                )
            },
        }
    }
}

/// What creating a game at the time `created_at` returns, and the database after it: a new
/// game, and behind it its roles, with their positions in the order given.
pub open spec fn game_created(
    db: DatabaseView,
    role_ids: Seq<Seq<char>>,
    created_at: Seq<char>,
) -> (Result<i64, StorageError>, DatabaseView) {
    match db.games {
        None => (Err(StorageError::NoSuchTable(TableName::Games)), db),
        Some(table) => if table.last_id == i64::MAX {
            (Err(StorageError::IdsExhausted(TableName::Games)), db)
        } else {
            let id = (table.last_id + 1) as i64;
            let (failure, game_roles) = game_roles_stored(db.game_roles, id, role_ids);
            (
                match failure {
                    Some(error) => Err(error),
                    None => Ok(id),
                },
                DatabaseView {
                    games: Some(
                        NumberedView {
                            last_id: id,
                            rows: table.rows.push(GameRowView { id, created_at }),
                        },
                    ),
                    game_roles,
                    ..db
                },
            )
        },
    }
}

/// Stores the roles of a game, in order, until the table has no number left.
fn store_game_roles(
    table: &mut Numbered<GameRoleRow>,
    game_id: i64,
    role_ids: &[String],
) -> (failure: Option<StorageError>)
    requires
        0 <= old(table).last_id,
        role_ids@.len() > 0,
    ensures
        (failure, Some(final(table).deep_view())) == game_roles_stored(
            Some(old(table).deep_view()),
            game_id,
            role_ids.deep_view(),
        ),
{
    let ghost ids = role_ids.deep_view();
    let ghost start = table.deep_view();
    let mut i: usize = 0;
    assert(table.rows.deep_view() =~= start.rows + game_role_rows(start.last_id, game_id, ids, 0));
    while i < role_ids.len()
        invariant
            i <= role_ids.len(),
            ids == role_ids.deep_view(),
            start == old(table).deep_view(),
            ids.len() > 0,
            0 <= start.last_id,
            table.last_id == start.last_id + i,
            table.rows.deep_view() == start.rows + game_role_rows(
                start.last_id,
                game_id,
                ids,
                i as nat,
            ),
        decreases role_ids.len() - i,
    {
        if table.last_id == i64::MAX {
            assert(numbers_left(start.last_id, ids.len()) == i);
            return Some(StorageError::IdsExhausted(TableName::GameRoles));
        }
        let ghost rows = table.rows.deep_view();
        let id = table.last_id + 1;
        let row = GameRoleRow { id, game_id, role_id: role_ids[i].clone(), position: i as i64 };
        let ghost row_view = row.deep_view();
        table.rows.push(row);
        table.last_id = id;
        assert(table.rows.deep_view() =~= rows.push(row_view));
        assert(rows.push(row_view) =~= start.rows + game_role_rows(
            start.last_id,
            game_id,
            ids,
            (i + 1) as nat,
        ));
        i = i + 1;
    }
    assert(numbers_left(start.last_id, ids.len()) == ids.len());
    None
}

/// Creates a game session that was set up at the time `created_at`. Returns its ID.
pub fn create_game_at(db: &mut Database, role_ids: &[String], created_at: String) -> (created:
    Result<i64, StorageError>)
    requires
        old(db).deep_view().well_formed(),
    ensures
        (created, final(db).deep_view()) == game_created(
            old(db).deep_view(),
            role_ids.deep_view(),
            created_at@,
        ),
        keeps_invariants(old(db).deep_view(), final(db).deep_view()),
{
    proof {
        creating_a_game_keeps_invariants(db.deep_view(), role_ids.deep_view(), created_at@);
    }
    let ghost created_text = created_at@;
    let id: i64;
    match &mut db.games {
        None => {
            return Err(StorageError::NoSuchTable(TableName::Games));
        },
        Some(table) => {
            if table.last_id == i64::MAX {
                return Err(StorageError::IdsExhausted(TableName::Games));
            }
            let ghost rows = table.rows.deep_view();
            id = table.last_id + 1;
            table.rows.push(GameRow { id, created_at });
            table.last_id = id;
            assert(table.rows.deep_view() =~= rows.push(GameRowView { id, created_at: created_text }));
        },
    }
    if role_ids.len() == 0 {
        return Ok(id);
    }
    match &mut db.game_roles {
        None => Err(StorageError::NoSuchTable(TableName::GameRoles)),
        Some(table) => match store_game_roles(table, id, role_ids) {
            Some(error) => Err(error),
            None => Ok(id),
        },
    }
}

/// Creates a new game session with the given roles, in order. Returns its ID.
///
/// The game is stamped with the present time.
pub fn create_game(db: &mut Database, role_ids: &[String]) -> (created: Result<i64, StorageError>)
    requires
        old(db).deep_view().well_formed(),
    ensures
        exists|created_at: Seq<char>|
            is_rfc3339_utc(created_at) && (created, final(db).deep_view())
                == #[trigger] game_created(old(db).deep_view(), role_ids.deep_view(), created_at),
        keeps_invariants(old(db).deep_view(), final(db).deep_view()),
{
    let created_at = now_rfc3339();
    create_game_at(db, role_ids, created_at)
}

/// A role of a game, with what the stored roles say of it.
pub open spec fn role_details(role_id: Seq<char>, roles: Seq<RoleRowView>) -> GameRoleView {
    let found = rows_with_key::<RoleRow>(roles, role_id);
    if found.len() > 0 {
        GameRoleView {
            role_id,
            name: found[0].name,
            team: found[0].team,
            edition: found[0].edition,
            ability: found[0].ability,
        }
    } else {
        GameRoleView {
            role_id,
            name: None,
            team: None,
            edition: None,
            ability: None,
        }
    }
}

/// Being a role of the game `game_id`.
pub open spec fn is_of_game(game_id: i64) -> spec_fn(GameRoleRowView) -> bool {
    |row: GameRoleRowView| row.game_id == game_id
}

/// Looking up a role of a game among the stored roles.
pub open spec fn looking_up(roles: Seq<RoleRowView>) -> spec_fn(GameRoleRowView) -> GameRoleView {
    |row: GameRoleRowView| role_details(row.role_id, roles)
}

/// The rows of a game's roles, by position.
pub open spec fn rows_of_game(rows: Seq<GameRoleRowView>, game_id: i64) -> Seq<GameRoleRowView> {
    ordered::<GameRoleRow>(rows.filter(is_of_game(game_id)))
}

/// The stored game with the ID `game_id`.
pub open spec fn game_read(db: DatabaseView, game_id: i64) -> Result<
    Option<GameInstanceView>,
    StorageError,
> {
    match db.games {
        None => Err(StorageError::NoSuchTable(TableName::Games)),
        Some(games) => {
            let found = rows_with_id::<GameRow>(games.rows, game_id);
            if found.len() == 0 {
                Ok(None)
            } else {
                match (db.game_roles, db.roles) {
                    (None, _) => Err(StorageError::NoSuchTable(TableName::GameRoles)),
                    (Some(_), None) => Err(StorageError::NoSuchTable(TableName::Roles)),
                    (Some(game_roles), Some(roles)) => Ok(
                        Some(
                            GameInstanceView {
                                id: game_id,
                                created_at: found[0].created_at,
                                roles: rows_of_game(game_roles.rows, game_id).map_values(looking_up(roles)),
                            },
                        ),
                    ),
                }
            }
        },
    }
}

/// Looks up a role of a game among the stored roles.
fn look_up(row: &GameRoleRow, roles: &Vec<RoleRow>) -> (role: GameRole)
    ensures
        role.deep_view() == role_details(row.role_id@, roles.deep_view()),
{
    match find_key(roles, row.role_id.as_str()) {
        Some(i) => {
            let role = &roles[i];
            GameRole {
                role_id: row.role_id.clone(),
                name: role.name.clone(),
                team: role.team.clone(),
                edition: role.edition.clone(),
                ability: role.ability.clone(),
            }
        },
        None => GameRole {
            role_id: row.role_id.clone(),
            name: None,
            team: None,
            edition: None,
            ability: None,
        },
    }
}

/// Retrieves a game by its ID, with the details of its roles. `None` if there is no game with
/// that ID. The name, team, edition and ability of a role that is not stored are `None`.
pub fn get_game(db: &Database, game_id: i64) -> (game: Result<Option<GameInstance>, StorageError>)
    ensures
        result_view(game) == game_read(db.deep_view(), game_id),
{
    let games = match &db.games {
        None => {
            return Err(StorageError::NoSuchTable(TableName::Games));
        },
        Some(games) => games,
    };
    let created_at = match find_id(&games.rows, game_id) {
        None => {
            return Ok(None);
        },
        Some(i) => games.rows[i].created_at.clone(),
    };
    let game_roles = match &db.game_roles {
        None => {
            return Err(StorageError::NoSuchTable(TableName::GameRoles));
        },
        Some(game_roles) => game_roles,
    };
    let known = match &db.roles {
        None => {
            return Err(StorageError::NoSuchTable(TableName::Roles));
        },
        Some(known) => known,
    };
    let rows = &game_roles.rows;
    let ghost all = rows.deep_view();
    let ghost keep = is_of_game(game_id);
    let mut sorted: Vec<GameRoleRow> = Vec::new();
    let mut i: usize = 0;
    assert(all.take(0).filter(keep) =~= Seq::empty()) by {
        reveal(Seq::filter);
    }
    assert(sorted.deep_view() =~= ordered::<GameRoleRow>(all.take(0).filter(keep)));
    while i < rows.len()
        invariant
            i <= rows.len(),
            all == rows.deep_view(),
            keep == is_of_game(game_id),
            sorted.deep_view() == ordered::<GameRoleRow>(all.take(i as int).filter(keep)),
        decreases rows.len() - i,
    {
        let row = &rows[i];
        assert(row.deep_view() == all[i as int]);
        assert(all.take(i + 1) =~= all.take(i as int).push(all[i as int]));
        proof {
            filter_push(all.take(i as int), all[i as int], keep);
        }
        if row.game_id == game_id {
            place(&mut sorted, row.clone());
            let ghost kept = all.take(i as int).filter(keep);
            assert(kept.push(all[i as int]).drop_last() =~= kept);
        }
        i = i + 1;
    }
    assert(all.take(i as int) =~= all);
    let ghost order = rows_of_game(all, game_id);
    let ghost known_rows = known.deep_view();
    let mut roles: Vec<GameRole> = Vec::new();
    let mut j: usize = 0;
    while j < sorted.len()
        invariant
            j <= sorted.len(),
            order == sorted.deep_view(),
            known_rows == known.deep_view(),
            roles.deep_view() == order.take(j as int).map_values(looking_up(known_rows)),
        decreases sorted.len() - j,
    {
        let ghost before = roles.deep_view();
        let role = look_up(&sorted[j], known);
        roles.push(role);
        assert(roles.deep_view() =~= before.push(looking_up(known_rows)(order[j as int])));
        assert(order.take(j + 1) =~= order.take(j as int).push(order[j as int]));
        assert(roles.deep_view() =~= order.take(j + 1).map_values(looking_up(known_rows)));
        j = j + 1;
    }
    assert(order.take(j as int) =~= order);
    Ok(Some(GameInstance { id: game_id, created_at, roles }))
}

impl Ordered for GameRoleRow {
    /// The roles of a game are listed by position.
    open spec fn le(a: GameRoleRowView, b: GameRoleRowView) -> bool {
        a.position <= b.position
    }

    proof fn le_total(a: GameRoleRowView, b: GameRoleRowView) {
    }

    proof fn le_transitive(a: GameRoleRowView, b: GameRoleRowView, c: GameRoleRowView) {
    }

    fn not_after(&self, other: &Self) -> (answer: bool) {
        self.position <= other.position
    }
}

} // verus!
