//! What is read back of what was stored.

use crate::catalog::{
    editions_read, flag_fits, reading_role, role_asked_for, role_rows, role_rows_asked_for,
    roles_read, roles_upserted,
};
use crate::games::{
    game_created, game_read, game_role_rows, is_of_game, looking_up, role_details, rows_of_game,
};
use crate::models::{GameInstanceView, GameRoleView, RoleView, ScrapeRecordView};
use crate::order::{
    all_kept, filter_push, in_order, kept_is_there, none_kept, ordered, ordered_has_same_rows,
    ordered_is_in_order, ordered_keeps_order, ordered_then_filtered, placed,
    placed_adds_one_row, Ordered,
};
use crate::scrapes::{
    belongs_to, field_rows, scrape_inserted, scrapes_read, stored_field, stored_record,
    url_asked_for,
};
use crate::storage_laws::{last_upsert_wins, last_with_its_key, upserting_leaves_others};
use crate::tables::{
    game_exists, has_id, has_key, keys_differ, numbers_left, rows_with_id, DatabaseView, EditionRow,
    FieldRowView, GameRoleRow, GameRoleRowView, GameRow, KeyedRow, NumberedRow, RoleRow,
    RoleRowView, ScrapeRow, ScrapeRowView, StorageError,
};
use crate::text::{optional_text_le, optional_text_le_total, text_le};
use vstd::prelude::*;

verus! {

/// Looking up a role by its ID.
pub open spec fn looking_up_id(roles: Seq<RoleRowView>) -> spec_fn(Seq<char>) -> GameRoleView {
    |role_id: Seq<char>| role_details(role_id, roles)
}

/// The rows of a new game are those of its ID, in order, with its role IDs.
proof fn new_game_roles(
    last_id: i64,
    game_id: i64,
    role_ids: Seq<Seq<char>>,
    roles: Seq<RoleRowView>,
)
    requires
        role_ids.len() <= i64::MAX,
    ensures
        ({
            let rows = game_role_rows(last_id, game_id, role_ids, role_ids.len());
            &&& ordered::<GameRoleRow>(rows) == rows
            &&& rows.filter(is_of_game(game_id)) == rows
            &&& rows.map_values(looking_up(roles)) == role_ids.map_values(looking_up_id(roles))
        }),
{
    let rows = game_role_rows(last_id, game_id, role_ids, role_ids.len());
    assert(in_order::<GameRoleRow>(rows)) by {
        assert forall|i: int, j: int| 0 <= i <= j < rows.len() implies GameRoleRow::le(
            #[trigger] rows[i],
            #[trigger] rows[j],
        ) by {
            assert(rows[i].position == i);
            assert(rows[j].position == j);
        }
    }
    ordered_keeps_order::<GameRoleRow>(rows);
    all_kept(rows, is_of_game(game_id));
    assert(rows.map_values(looking_up(roles)) =~= role_ids.map_values(looking_up_id(roles)));
}

/// A game that was created is read back with its time and with its roles in the order in which
/// they were given, each with what the stored roles say of it.
pub proof fn created_game_is_read(
    db: DatabaseView,
    role_ids: Seq<Seq<char>>,
    created_at: Seq<char>,
)
    requires
        db.well_formed(),
        db.references_hold(),
        db.roles is Some,
        db.game_roles is Some,
        game_created(db, role_ids, created_at).0 is Ok,
    ensures
        game_read(
            game_created(db, role_ids, created_at).1,
            game_created(db, role_ids, created_at).0->Ok_0,
        ) == Ok::<Option<GameInstanceView>, StorageError>(
            Some(
                GameInstanceView {
                    id: game_created(db, role_ids, created_at).0->Ok_0,
                    created_at,
                    roles: role_ids.map_values(looking_up_id(db.roles->0)),
                },
            ),
        ),
{
    let after = game_created(db, role_ids, created_at).1;
    let id = game_created(db, role_ids, created_at).0->Ok_0;
    let games = db.games->0;
    let old_rows = db.game_roles->0.rows;
    let last_id = db.game_roles->0.last_id;
    let new_rows = game_role_rows(last_id, id, role_ids, role_ids.len());
    let row = after.games->0.rows.last();
    none_kept(games.rows, has_id::<GameRow>(id));
    filter_push(games.rows, row, has_id::<GameRow>(id));
    if role_ids.len() == 0 {
        assert(old_rows + new_rows =~= old_rows);
    }
    assert(after.game_roles->0.rows == old_rows + new_rows);
    Seq::filter_distributes_over_add(old_rows, new_rows, is_of_game(id));
    assert forall|i: int| 0 <= i < old_rows.len() implies !is_of_game(id)(
        #[trigger] old_rows[i],
    ) by {
        let j = choose|j: int|
            0 <= j < games.rows.len() && (#[trigger] games.rows[j]).id == old_rows[i].game_id;
        assert(GameRow::id_of(games.rows[j]) <= games.last_id);
    }
    none_kept(old_rows, is_of_game(id));
    assert(role_ids.len() <= i64::MAX);
    new_game_roles(last_id, id, role_ids, db.roles->0);
    assert(Seq::<GameRoleRowView>::empty() + new_rows =~= new_rows);
    assert(rows_of_game(after.game_roles->0.rows, id) == new_rows);
}

/// Creating a game changes no other game.
pub proof fn other_games_stay(
    db: DatabaseView,
    role_ids: Seq<Seq<char>>,
    created_at: Seq<char>,
    other: i64,
)
    requires
        db.games matches Some(games) ==> other != games.last_id + 1,
    ensures
        game_read(game_created(db, role_ids, created_at).1, other) == game_read(db, other),
{
    let after = game_created(db, role_ids, created_at).1;
    if db.games is Some && db.games->0.last_id != i64::MAX {
        let games = db.games->0;
        let id = (games.last_id + 1) as i64;
        filter_push(games.rows, after.games->0.rows.last(), has_id::<GameRow>(other));
        if db.game_roles is Some && role_ids.len() > 0 {
            let old_rows = db.game_roles->0.rows;
            let count = numbers_left(db.game_roles->0.last_id, role_ids.len());
            let new_rows = game_role_rows(db.game_roles->0.last_id, id, role_ids, count);
            Seq::filter_distributes_over_add(old_rows, new_rows, is_of_game(other));
            none_kept(new_rows, is_of_game(other));
            assert(old_rows.filter(is_of_game(other)) + Seq::<GameRoleRowView>::empty()
                =~= old_rows.filter(is_of_game(other)));
        }
    }
}

/// The ID of a new game is larger than that of every game before it, so no game is found under
/// it until then.
pub proof fn game_ids_are_fresh(db: DatabaseView, role_ids: Seq<Seq<char>>, created_at: Seq<char>)
    requires
        db.well_formed(),
        game_created(db, role_ids, created_at).0 is Ok,
    ensures
        forall|i: int|
            0 <= i < db.games->0.rows.len() ==> (#[trigger] db.games->0.rows[i]).id < game_created(
                db,
                role_ids,
                created_at,
            ).0->Ok_0,
        game_read(db, game_created(db, role_ids, created_at).0->Ok_0) == Ok::<
            Option<GameInstanceView>,
            StorageError,
        >(None),
{
    let id = game_created(db, role_ids, created_at).0->Ok_0;
    let rows = db.games->0.rows;
    assert forall|i: int| 0 <= i < rows.len() implies (#[trigger] rows[i]).id < id by {
        assert(GameRow::id_of(rows[i]) <= db.games->0.last_id);
    }
    none_kept(rows, has_id::<GameRow>(id));
}

/// Of two games, the one that is created later has the larger ID.
pub proof fn game_ids_increase(
    db: DatabaseView,
    first: Seq<Seq<char>>,
    first_at: Seq<char>,
    second: Seq<Seq<char>>,
    second_at: Seq<char>,
)
    ensures
        ({
            let (earlier, between) = game_created(db, first, first_at);
            let (later, _) = game_created(between, second, second_at);
            earlier is Ok && later is Ok ==> earlier->Ok_0 < later->Ok_0
        }),
{
}

/// A role that is stored shows its details in the games that have it: those of the last role
/// stored under its ID.
pub proof fn stored_role_shows_in_games(db: DatabaseView, roles: Seq<RoleView>, i: int)
    requires
        db.roles is Some,
        0 <= i < roles.len(),
        forall|j: int| i < j < roles.len() ==> (#[trigger] roles[j]).id != roles[i].id,
    ensures
        role_details(roles[i].id, roles_upserted(db, roles).1.roles->0) == (GameRoleView {
            role_id: roles[i].id,
            name: roles[i].name,
            team: roles[i].team,
            edition: roles[i].edition,
            ability: roles[i].ability,
        }),
{
    let rows = db.roles->0;
    let new = role_rows(roles);
    assert forall|j: int| i < j < new.len() implies RoleRow::key_of(#[trigger] new[j])
        != RoleRow::key_of(new[i]) by {
        assert(roles[j].id != roles[i].id);
    }
    assert(last_with_its_key::<RoleRow>(new, i));
    last_upsert_wins::<RoleRow>(rows, new, i);
}

/// Storing roles changes nothing of a game but the details of those roles: its time, and which
/// roles it has in which order, stay, and so does every entry whose role is not among those
/// stored.
pub proof fn other_entries_of_a_game_stay(
    db: DatabaseView,
    roles: Seq<RoleView>,
    game_id: i64,
)
    requires
        db.roles is Some,
        game_read(db, game_id) matches Ok(Some(_)),
    ensures
        game_read(roles_upserted(db, roles).1, game_id) matches Ok(Some(after)) && {
            let before = game_read(db, game_id)->Ok_0->0;
            &&& after.id == before.id
            &&& after.created_at == before.created_at
            &&& after.roles.len() == before.roles.len()
            &&& forall|i: int|
                0 <= i < before.roles.len() ==> (#[trigger] after.roles[i]).role_id
                    == before.roles[i].role_id
            &&& forall|i: int|
                0 <= i < before.roles.len() && (forall|j: int|
                    0 <= j < roles.len() ==> (#[trigger] roles[j]).id != before.roles[i].role_id)
                    ==> (#[trigger] after.roles[i]) == before.roles[i]
        },
{
    let rows = db.roles->0;
    let new = role_rows(roles);
    let before = game_read(db, game_id)->Ok_0->0;
    let after = game_read(roles_upserted(db, roles).1, game_id)->Ok_0->0;
    let of_game = rows_of_game(db.game_roles->0.rows, game_id);
    assert forall|i: int|
        0 <= i < before.roles.len() && (forall|j: int|
            0 <= j < roles.len() ==> (#[trigger] roles[j]).id
                != before.roles[i].role_id) implies (#[trigger] after.roles[i])
        == before.roles[i] by {
        let role_id = of_game[i].role_id;
        assert(before.roles[i].role_id == role_id);
        assert forall|j: int| 0 <= j < new.len() implies RoleRow::key_of(#[trigger] new[j])
            != role_id by {
            assert(roles[j].id != role_id);
        }
        upserting_leaves_others::<RoleRow>(rows, new, role_id);
    }
}

/// A role that is not stored shows no details.
pub proof fn unknown_role_shows_no_details(role_id: Seq<char>, roles: Seq<RoleRowView>)
    requires
        forall|i: int| 0 <= i < roles.len() ==> (#[trigger] roles[i]).id != role_id,
    ensures
        role_details(role_id, roles) == (GameRoleView {
            role_id,
            name: None,
            team: None,
            edition: None,
            ability: None,
        }),
{
    none_kept(roles, has_key::<RoleRow>(role_id));
}

/// A game is found exactly under the IDs of the stored games.
pub proof fn game_is_found_under_its_id(db: DatabaseView, game_id: i64)
    requires
        db.games is Some,
        db.game_roles is Some,
        db.roles is Some,
    ensures
        game_read(db, game_id) is Ok,
        game_read(db, game_id)->Ok_0 is Some <==> game_exists(db.games, game_id),
{
    let rows = db.games->0.rows;
    let found = rows_with_id::<GameRow>(rows, game_id);
    if game_exists(db.games, game_id) {
        let i = choose|i: int| 0 <= i < rows.len() && (#[trigger] rows[i]).id == game_id;
        rows.lemma_filter_contains(has_id::<GameRow>(game_id), i);
    } else {
        none_kept(rows, has_id::<GameRow>(game_id));
    }
}

/// Applying a function to what is kept, where the function agrees with another on it.
proof fn map_agrees(
    rows: Seq<ScrapeRowView>,
    keep: spec_fn(ScrapeRowView) -> bool,
    old_fields: Seq<FieldRowView>,
    new_fields: Seq<FieldRowView>,
)
    requires
        forall|i: int|
            0 <= i < rows.len() ==> stored_record(old_fields)(#[trigger] rows[i]) == stored_record(
                new_fields,
            )(rows[i]),
    ensures
        rows.filter(keep).map_values(stored_record(old_fields)) == rows.filter(keep).map_values(
            stored_record(new_fields),
        ),
{
    let kept = rows.filter(keep);
    assert forall|i: int| 0 <= i < kept.len() implies stored_record(old_fields)(#[trigger] kept[i])
        == stored_record(new_fields)(kept[i]) by {
        kept_is_there(rows, keep, i);
        let k = choose|k: int| 0 <= k < rows.len() && rows[k] == kept[i];
        assert(stored_record(old_fields)(rows[k]) == stored_record(new_fields)(rows[k]));
    }
    assert(kept.map_values(stored_record(old_fields)) =~= kept.map_values(
        stored_record(new_fields),
    ));
}

/// A record that was stored is read back behind those stored before, with the ID that it was
/// given and its fields in order. Asking for another URL shows nothing of it.
pub proof fn stored_scrape_is_read(
    db: DatabaseView,
    record: ScrapeRecordView,
    url: Option<Seq<char>>,
)
    requires
        db.well_formed(),
        db.references_hold(),
        db.fields is Some,
        scrape_inserted(db, record).0 is Ok,
    ensures
        scrapes_read(db, url) is Ok,
        scrapes_read(scrape_inserted(db, record).1, url) == Ok::<
            Seq<ScrapeRecordView>,
            StorageError,
        >(
            if url is None || url == Some(record.url) {
                scrapes_read(db, url)->Ok_0.push(
                    ScrapeRecordView { id: scrape_inserted(db, record).0->Ok_0, ..record },
                )
            } else {
                scrapes_read(db, url)->Ok_0
            },
        ),
{
    let after = scrape_inserted(db, record).1;
    let id = scrape_inserted(db, record).0->Ok_0;
    let scrapes = db.scrapes->0;
    let old_fields = db.fields->0.rows;
    let new_rows = field_rows(db.fields->0.last_id, id, record.fields, record.fields.len());
    let fields = after.fields->0.rows;
    let row = after.scrapes->0.rows.last();
    let keep = url_asked_for(url);
    if record.fields.len() == 0 {
        assert(old_fields + new_rows =~= old_fields);
    }
    assert(fields == old_fields + new_rows);
    filter_push(scrapes.rows, row, keep);
    assert forall|i: int| 0 <= i < scrapes.rows.len() implies stored_record(old_fields)(
        #[trigger] scrapes.rows[i],
    ) == stored_record(fields)(scrapes.rows[i]) by {
        let other = scrapes.rows[i].id;
        assert(ScrapeRow::id_of(scrapes.rows[i]) <= scrapes.last_id);
        Seq::filter_distributes_over_add(old_fields, new_rows, belongs_to(other));
        none_kept(new_rows, belongs_to(other));
        assert(old_fields.filter(belongs_to(other)) + Seq::<FieldRowView>::empty()
            =~= old_fields.filter(belongs_to(other)));
    }
    map_agrees(scrapes.rows, keep, old_fields, fields);
    assert forall|i: int| 0 <= i < old_fields.len() implies !belongs_to(id)(
        #[trigger] old_fields[i],
    ) by {
        let j = choose|j: int|
            0 <= j < scrapes.rows.len() && (#[trigger] scrapes.rows[j]).id
                == old_fields[i].scrape_id;
        assert(ScrapeRow::id_of(scrapes.rows[j]) <= scrapes.last_id);
    }
    Seq::filter_distributes_over_add(old_fields, new_rows, belongs_to(id));
    none_kept(old_fields, belongs_to(id));
    all_kept(new_rows, belongs_to(id));
    assert(Seq::<FieldRowView>::empty() + new_rows =~= new_rows);
    assert(new_rows.map_values(stored_field()) =~= record.fields);
    let kept = scrapes.rows.filter(keep);
    assert(kept.push(row).map_values(stored_record(fields)) =~= kept.map_values(
        stored_record(fields),
    ).push(stored_record(fields)(row)));
}

/// The ID of a new record is larger than that of every record before it.
pub proof fn scrape_ids_are_fresh(db: DatabaseView, record: ScrapeRecordView)
    requires
        db.well_formed(),
        scrape_inserted(db, record).0 is Ok,
    ensures
        forall|i: int|
            0 <= i < db.scrapes->0.rows.len() ==> (#[trigger] db.scrapes->0.rows[i]).id
                < scrape_inserted(db, record).0->Ok_0,
{
    let rows = db.scrapes->0.rows;
    assert forall|i: int| 0 <= i < rows.len() implies (#[trigger] rows[i]).id < scrape_inserted(
        db,
        record,
    ).0->Ok_0 by {
        assert(ScrapeRow::id_of(rows[i]) <= db.scrapes->0.last_id);
    }
}

/// Having the URL `url`.
pub open spec fn has_url(url: Seq<char>) -> spec_fn(ScrapeRecordView) -> bool {
    |record: ScrapeRecordView| record.url == url
}

/// Filtering scrapes and then reading them is reading them and then filtering.
proof fn filter_then_read(rows: Seq<ScrapeRowView>, fields: Seq<FieldRowView>, url: Seq<char>)
    ensures
        rows.filter(url_asked_for(Some(url))).map_values(stored_record(fields)) == rows.map_values(
            stored_record(fields),
        ).filter(has_url(url)),
    decreases rows.len(),
{
    let read = stored_record(fields);
    if rows.len() == 0 {
        none_kept(rows, url_asked_for(Some(url)));
        none_kept(rows.map_values(read), has_url(url));
        assert(Seq::<ScrapeRowView>::empty().map_values(read) =~= Seq::empty());
    } else {
        let front = rows.drop_last();
        let last = rows.last();
        filter_then_read(front, fields, url);
        assert(rows =~= front.push(last));
        filter_push(front, last, url_asked_for(Some(url)));
        assert(rows.map_values(read) =~= front.map_values(read).push(read(last)));
        filter_push(front.map_values(read), read(last), has_url(url));
        let kept = front.filter(url_asked_for(Some(url)));
        assert(kept.push(last).map_values(read) =~= kept.map_values(read).push(read(last)));
    }
}

/// Asking for a URL gives, of all records, those with that URL, in the same order.
pub proof fn scrapes_by_url_are_among_all(db: DatabaseView, url: Seq<char>)
    requires
        scrapes_read(db, None) is Ok,
    ensures
        scrapes_read(db, Some(url)) == Ok::<Seq<ScrapeRecordView>, StorageError>(
            scrapes_read(db, None)->Ok_0.filter(has_url(url)),
        ),
{
    let rows = db.scrapes->0.rows;
    all_kept(rows, url_asked_for(None));
    filter_then_read(rows, db.fields->0.rows, url);
}

/// All records are read in the order of their IDs.
pub proof fn scrapes_are_in_order(db: DatabaseView)
    requires
        db.well_formed(),
        scrapes_read(db, None) is Ok,
    ensures
        forall|i: int, j: int|
            0 <= i < j < scrapes_read(db, None)->Ok_0.len() ==> (#[trigger] scrapes_read(
                db,
                None,
            )->Ok_0[i]).id < (#[trigger] scrapes_read(db, None)->Ok_0[j]).id,
{
    let rows = db.scrapes->0.rows;
    all_kept(rows, url_asked_for(None));
    assert forall|i: int, j: int| 0 <= i < j < rows.len() implies (#[trigger] rows[i]).id < (
    #[trigger] rows[j]).id by {
        assert(ScrapeRow::id_of(rows[i]) < ScrapeRow::id_of(rows[j]));
    }
}

/// Being a role that is asked for: `None` for the team or the edition asks for any.
pub open spec fn role_wanted(
    team: Option<Seq<char>>,
    edition: Option<Seq<char>>,
) -> spec_fn(RoleView) -> bool {
    |role: RoleView|
        (team is Some ==> role.team == team) && (edition is Some ==> role.edition == edition)
}

proof fn filter_then_read_roles(
    rows: Seq<RoleRowView>,
    team: Option<Seq<char>>,
    edition: Option<Seq<char>>,
)
    ensures
        rows.filter(role_asked_for(team, edition)).map_values(reading_role()) == rows.map_values(
            reading_role(),
        ).filter(role_wanted(team, edition)),
    decreases rows.len(),
{
    let read = reading_role();
    if rows.len() == 0 {
        none_kept(rows, role_asked_for(team, edition));
        none_kept(rows.map_values(read), role_wanted(team, edition));
        assert(Seq::<RoleRowView>::empty().map_values(read) =~= Seq::empty());
    } else {
        let front = rows.drop_last();
        let last = rows.last();
        filter_then_read_roles(front, team, edition);
        assert(rows =~= front.push(last));
        filter_push(front, last, role_asked_for(team, edition));
        assert(rows.map_values(read) =~= front.map_values(read).push(read(last)));
        filter_push(front.map_values(read), read(last), role_wanted(team, edition));
        let kept = front.filter(role_asked_for(team, edition));
        assert(kept.push(last).map_values(read) =~= kept.map_values(read).push(read(last)));
    }
}

/// Asking for a team or an edition gives, of all roles, those of that team and that edition, in
/// the same order. `None` is a wildcard.
pub proof fn roles_asked_for_are_among_all(
    db: DatabaseView,
    team: Option<Seq<char>>,
    edition: Option<Seq<char>>,
)
    requires
        roles_read(db, None, None) is Ok,
    ensures
        roles_read(db, team, edition) == Ok::<Seq<RoleView>, StorageError>(
            roles_read(db, None, None)->Ok_0.filter(role_wanted(team, edition)),
        ),
{
    let rows = db.roles->0;
    let all = role_rows_asked_for(rows, None, None);
    let asked_for = role_rows_asked_for(rows, team, edition);
    all_kept(rows, role_asked_for(None, None));
    ordered_then_filtered::<RoleRow>(rows, role_asked_for(team, edition));
    assert forall|i: int| 0 <= i < asked_for.len() implies flag_fits(
        (#[trigger] asked_for[i]).setup,
    ) by {
        kept_is_there(all, role_asked_for(team, edition), i);
        let k = choose|k: int| 0 <= k < all.len() && all[k] == asked_for[i];
        assert(flag_fits(all[k].setup));
    }
    filter_then_read_roles(all, team, edition);
}

/// Roles are read in the order of their teams, and those of one team in the order of their
/// names.
pub proof fn roles_are_in_order(
    db: DatabaseView,
    team: Option<Seq<char>>,
    edition: Option<Seq<char>>,
    i: int,
    j: int,
)
    requires
        roles_read(db, team, edition) is Ok,
        0 <= i < j < roles_read(db, team, edition)->Ok_0.len(),
    ensures
        ({
            let a = roles_read(db, team, edition)->Ok_0[i];
            let b = roles_read(db, team, edition)->Ok_0[j];
            &&& optional_text_le(a.team, b.team)
            &&& a.team == b.team ==> optional_text_le(a.name, b.name)
        }),
{
    let rows = db.roles->0.filter(role_asked_for(team, edition));
    let order = ordered::<RoleRow>(rows);
    ordered_is_in_order::<RoleRow>(rows);
    assert(RoleRow::le(order[i], order[j]));
    optional_text_le_total(order[i].team, order[j].team);
}

/// Putting a row among rows with other keys, wherever it goes, keeps the keys apart.
proof fn placed_keeps_keys_apart<R: KeyedRow + Ordered>(rows: Seq<R::V>, row: R::V)
    requires
        keys_differ::<R>(rows),
        forall|i: int| 0 <= i < rows.len() ==> R::key_of(#[trigger] rows[i]) != R::key_of(row),
    ensures
        keys_differ::<R>(placed::<R>(rows, row)),
    decreases rows.len(),
{
    if rows.len() == 0 || R::le(rows.last(), row) {
        let result = rows.push(row);
        assert forall|i: int, j: int| 0 <= i < j < result.len() implies R::key_of(
            #[trigger] result[i],
        ) != R::key_of(#[trigger] result[j]) by {
            assert(result[i] == rows[i]);
            assert(R::key_of(rows[i]) != R::key_of(row));
            if j < rows.len() {
                assert(result[j] == rows[j]);
            }
        }
    } else {
        let front = rows.drop_last();
        let last = rows.last();
        assert forall|i: int, j: int| 0 <= i < j < front.len() implies R::key_of(
            #[trigger] front[i],
        ) != R::key_of(#[trigger] front[j]) by {
            assert(R::key_of(rows[i]) != R::key_of(rows[j]));
        }
        assert forall|i: int| 0 <= i < front.len() implies R::key_of(#[trigger] front[i])
            != R::key_of(row) by {
            assert(R::key_of(rows[i]) != R::key_of(row));
        }
        placed_keeps_keys_apart::<R>(front, row);
        placed_adds_one_row::<R>(front, row);
        let inner = placed::<R>(front, row);
        let result = inner.push(last);
        assert(rows[rows.len() - 1] == last);
        assert forall|i: int| 0 <= i < inner.len() implies R::key_of(#[trigger] inner[i])
            != R::key_of(last) by {
            if inner[i] != row {
                let k = choose|k: int| 0 <= k < front.len() && front[k] == inner[i];
                assert(rows[k] == inner[i]);
                assert(R::key_of(rows[k]) != R::key_of(rows[rows.len() - 1]));
            } else {
                assert(R::key_of(rows[rows.len() - 1]) != R::key_of(row));
            }
        }
        assert forall|i: int, j: int| 0 <= i < j < result.len() implies R::key_of(
            #[trigger] result[i],
        ) != R::key_of(#[trigger] result[j]) by {
            assert(result[i] == inner[i]);
            if j < inner.len() {
                assert(result[j] == inner[j]);
            }
        }
    }
}

proof fn ordered_keeps_keys_apart<R: KeyedRow + Ordered>(rows: Seq<R::V>)
    requires
        keys_differ::<R>(rows),
    ensures
        keys_differ::<R>(ordered::<R>(rows)),
    decreases rows.len(),
{
    if rows.len() > 0 {
        let front = rows.drop_last();
        let last = rows.last();
        assert forall|i: int, j: int| 0 <= i < j < front.len() implies R::key_of(
            #[trigger] front[i],
        ) != R::key_of(#[trigger] front[j]) by {
            assert(R::key_of(rows[i]) != R::key_of(rows[j]));
        }
        ordered_keeps_keys_apart::<R>(front);
        ordered_has_same_rows::<R>(front);
        let order = ordered::<R>(front);
        assert forall|i: int| 0 <= i < order.len() implies R::key_of(#[trigger] order[i])
            != R::key_of(last) by {
            assert(order.contains(order[i]));
            let k = choose|k: int| 0 <= k < front.len() && front[k] == order[i];
            assert(R::key_of(rows[k]) != R::key_of(rows[rows.len() - 1]));
        }
        placed_keeps_keys_apart::<R>(order, last);
    }
}

/// Editions are read in the order of their IDs, and no ID is read twice.
pub proof fn editions_are_in_order(db: DatabaseView, i: int, j: int)
    requires
        db.well_formed(),
        editions_read(db) is Ok,
        0 <= i < j < editions_read(db)->Ok_0.len(),
    ensures
        text_le(editions_read(db)->Ok_0[i].id, editions_read(db)->Ok_0[j].id),
        editions_read(db)->Ok_0[i].id != editions_read(db)->Ok_0[j].id,
{
    let rows = db.editions->0;
    let order = ordered::<EditionRow>(rows);
    ordered_is_in_order::<EditionRow>(rows);
    assert(EditionRow::le(order[i], order[j]));
    ordered_keeps_keys_apart::<EditionRow>(rows);
    assert(EditionRow::key_of(order[i]) != EditionRow::key_of(order[j]));
}

/// Asking for a team or an edition gives all roles of that team and that edition, and no other.
/// `None` asks for any.
pub proof fn roles_of_a_team_and_an_edition(
    db: DatabaseView,
    team: Option<Seq<char>>,
    edition: Option<Seq<char>>,
)
    requires
        roles_read(db, None, None) is Ok,
    ensures
        roles_read(db, team, edition) matches Ok(read) && {
            let all = roles_read(db, None, None)->Ok_0;
            &&& forall|k: int|
                0 <= k < read.len() ==> all.contains(#[trigger] read[k]) && (team is Some
                    ==> read[k].team == team) && (edition is Some ==> read[k].edition == edition)
            &&& forall|i: int|
                0 <= i < all.len() && (team is Some ==> all[i].team == team) && (edition is Some
                    ==> all[i].edition == edition) ==> read.contains(#[trigger] all[i])
        },
{
    roles_asked_for_are_among_all(db, team, edition);
    let all = roles_read(db, None, None)->Ok_0;
    let read = roles_read(db, team, edition)->Ok_0;
    let wanted = role_wanted(team, edition);
    assert forall|k: int| 0 <= k < read.len() implies all.contains(#[trigger] read[k]) && (team
        is Some ==> read[k].team == team) && (edition is Some ==> read[k].edition == edition) by {
        kept_is_there(all, wanted, k);
    }
    assert forall|i: int|
        0 <= i < all.len() && (team is Some ==> all[i].team == team) && (edition is Some
            ==> all[i].edition == edition) implies read.contains(#[trigger] all[i]) by {
        all.lemma_filter_contains(wanted, i);
    }
}

/// Asking for a URL gives all records with that URL, and no other.
pub proof fn scrapes_of_a_url(db: DatabaseView, url: Seq<char>)
    requires
        scrapes_read(db, None) is Ok,
    ensures
        scrapes_read(db, Some(url)) matches Ok(read) && {
            let all = scrapes_read(db, None)->Ok_0;
            &&& forall|k: int|
                0 <= k < read.len() ==> all.contains(#[trigger] read[k]) && read[k].url == url
            &&& forall|i: int|
                0 <= i < all.len() && all[i].url == url ==> read.contains(#[trigger] all[i])
        },
{
    scrapes_by_url_are_among_all(db, url);
    let all = scrapes_read(db, None)->Ok_0;
    let read = scrapes_read(db, Some(url))->Ok_0;
    assert forall|k: int| 0 <= k < read.len() implies all.contains(#[trigger] read[k])
        && read[k].url == url by {
        kept_is_there(all, has_url(url), k);
    }
    assert forall|i: int| 0 <= i < all.len() && all[i].url == url implies read.contains(
        #[trigger] all[i],
    ) by {
        all.lemma_filter_contains(has_url(url), i);
    }
}

/// Where the records cannot be read, those with a URL cannot be read either, for the same reason.
pub proof fn reading_by_url_fails_alike(db: DatabaseView, url: Seq<char>)
    ensures
        scrapes_read(db, None) is Err ==> scrapes_read(db, Some(url)) == scrapes_read(db, None),
{
}

} // verus!
