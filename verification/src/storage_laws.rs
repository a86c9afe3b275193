//! What holds of the storage operations together.

use crate::catalog::{
    edition_of, edition_row, edition_rows, editions_read, editions_upserted, flag_column, flag_fits,
    flag_of, reading_edition, reading_role, replaced, role_asked_for, role_of, role_row, role_rows,
    role_rows_asked_for, roles_read, roles_upserted, upserted, without_key,
};
use crate::games::game_created;
use crate::models::{EditionView, RoleView, ScrapeRecordView};
use crate::order::{
    all_kept, filter_push, filter_twice, kept_is_there, none_kept, ordered, ordered_has_same_rows,
};
use crate::schema::initialised;
use crate::scrapes::scrape_inserted;
use crate::tables::{
    game_exists, has_key, keys_differ, lacks_key, numbered_in_order, rows_with_key, scrape_exists,
    DatabaseView, EditionRow, GameRow, KeyedRow, NumberedView, RoleRow, ScrapeRow,
};
use vstd::prelude::*;

verus! {

/// Creating the tables leaves every table that exists as it is, and makes every table exist.
pub proof fn schema_keeps_what_is_stored(db: DatabaseView)
    ensures
        db.scrapes is Some ==> initialised(db).scrapes == db.scrapes,
        db.fields is Some ==> initialised(db).fields == db.fields,
        db.editions is Some ==> initialised(db).editions == db.editions,
        db.roles is Some ==> initialised(db).roles == db.roles,
        db.games is Some ==> initialised(db).games == db.games,
        db.game_roles is Some ==> initialised(db).game_roles == db.game_roles,
        initialised(db).scrapes is Some,
        initialised(db).fields is Some,
        initialised(db).editions is Some,
        initialised(db).roles is Some,
        initialised(db).games is Some,
        initialised(db).game_roles is Some,
{
}

/// Creating the tables once more changes nothing.
pub proof fn schema_is_idempotent(db: DatabaseView)
    ensures
        initialised(initialised(db)) == initialised(db),
{
}

/// Creating the tables keeps the database well-formed and its references intact.
pub proof fn schema_keeps_invariants(db: DatabaseView)
    requires
        db.well_formed(),
    ensures
        initialised(db).well_formed(),
        db.references_hold() ==> initialised(db).references_hold(),
{
}

proof fn filter_keeps_keys_apart<R: KeyedRow>(rows: Seq<R::V>, keep: spec_fn(R::V) -> bool)
    requires
        keys_differ::<R>(rows),
    ensures
        keys_differ::<R>(rows.filter(keep)),
    decreases rows.len(),
{
    if rows.len() > 0 {
        let front = rows.drop_last();
        let last = rows.last();
        assert(keys_differ::<R>(front)) by {
            assert forall|i: int, j: int| 0 <= i < j < front.len() implies R::key_of(
                #[trigger] front[i],
            ) != R::key_of(#[trigger] front[j]) by {
                assert(R::key_of(rows[i]) != R::key_of(rows[j]));
            }
        }
        filter_keeps_keys_apart::<R>(front, keep);
        assert(rows =~= front.push(last));
        filter_push(front, last, keep);
        let kept = front.filter(keep);
        assert forall|i: int| 0 <= i < kept.len() implies R::key_of(#[trigger] kept[i])
            != R::key_of(last) by {
            kept_is_there(front, keep, i);
            let k = choose|k: int| 0 <= k < front.len() && front[k] == kept[i];
            assert(R::key_of(rows[k]) != R::key_of(rows[rows.len() - 1]));
        }
    } else {
        reveal(Seq::filter);
    }
}

proof fn upserted_keeps_keys_apart<R: KeyedRow>(rows: Seq<R::V>, new: Seq<R::V>)
    requires
        keys_differ::<R>(rows),
    ensures
        keys_differ::<R>(upserted::<R>(rows, new)),
    decreases new.len(),
{
    if new.len() > 0 {
        let before = upserted::<R>(rows, new.drop_last());
        upserted_keeps_keys_apart::<R>(rows, new.drop_last());
        let key = R::key_of(new.last());
        filter_keeps_keys_apart::<R>(before, lacks_key::<R>(key));
        let kept = without_key::<R>(before, key);
        assert forall|i: int| 0 <= i < kept.len() implies R::key_of(#[trigger] kept[i]) != key by {
            kept_is_there(before, lacks_key::<R>(key), i);
        }
    }
}

/// Storing editions keeps the database well-formed and its references intact.
pub proof fn storing_editions_keeps_invariants(db: DatabaseView, editions: Seq<EditionView>)
    requires
        db.well_formed(),
    ensures
        editions_upserted(db, editions).1.well_formed(),
        db.references_hold() ==> editions_upserted(db, editions).1.references_hold(),
{
    if let Some(rows) = db.editions {
        upserted_keeps_keys_apart::<EditionRow>(rows, edition_rows(editions));
    }
}

/// Storing roles keeps the database well-formed and its references intact.
pub proof fn storing_roles_keeps_invariants(db: DatabaseView, roles: Seq<RoleView>)
    requires
        db.well_formed(),
    ensures
        roles_upserted(db, roles).1.well_formed(),
        db.references_hold() ==> roles_upserted(db, roles).1.references_hold(),
{
    if let Some(rows) = db.roles {
        upserted_keeps_keys_apart::<RoleRow>(rows, role_rows(roles));
    }
}

/// Creating a game keeps the database well-formed and its references intact, whether or not it
/// succeeds.
pub proof fn creating_a_game_keeps_invariants(
    db: DatabaseView,
    role_ids: Seq<Seq<char>>,
    created_at: Seq<char>,
)
    requires
        db.well_formed(),
    ensures
        game_created(db, role_ids, created_at).1.well_formed(),
        db.references_hold() ==> game_created(db, role_ids, created_at).1.references_hold(),
{
    let after = game_created(db, role_ids, created_at).1;
    if let Some(games) = db.games {
        if games.last_id != i64::MAX {
            let id = (games.last_id + 1) as i64;
            let new_games = after.games->0;
            assert(numbered_in_order::<GameRow>(new_games));
            if db.references_hold() {
                if let Some(roles) = after.game_roles {
                    assert forall|i: int| 0 <= i < roles.rows.len() implies game_exists(
                        after.games,
                        (#[trigger] roles.rows[i]).game_id,
                    ) by {
                        let before = db.game_roles->0;
                        if i < before.rows.len() {
                            assert(roles.rows[i] == before.rows[i]);
                            let j = choose|j: int|
                                0 <= j < games.rows.len() && (#[trigger] games.rows[j]).id
                                    == before.rows[i].game_id;
                            assert(new_games.rows[j] == games.rows[j]);
                        } else {
                            assert(new_games.rows[games.rows.len() as int].id == id);
                        }
                    }
                }
            }
        }
    }
}

/// Storing a scrape keeps the database well-formed and its references intact, whether or not
/// it succeeds.
pub proof fn storing_a_scrape_keeps_invariants(db: DatabaseView, record: ScrapeRecordView)
    requires
        db.well_formed(),
    ensures
        scrape_inserted(db, record).1.well_formed(),
        db.references_hold() ==> scrape_inserted(db, record).1.references_hold(),
{
    let after = scrape_inserted(db, record).1;
    if let Some(scrapes) = db.scrapes {
        if scrapes.last_id != i64::MAX {
            let id = (scrapes.last_id + 1) as i64;
            let new_scrapes = after.scrapes->0;
            assert(numbered_in_order::<ScrapeRow>(new_scrapes));
            if db.references_hold() {
                if let Some(fields) = after.fields {
                    assert forall|i: int| 0 <= i < fields.rows.len() implies scrape_exists(
                        after.scrapes,
                        (#[trigger] fields.rows[i]).scrape_id,
                    ) by {
                        let before = db.fields->0;
                        if i < before.rows.len() {
                            assert(fields.rows[i] == before.rows[i]);
                            let j = choose|j: int|
                                0 <= j < scrapes.rows.len() && (#[trigger] scrapes.rows[j]).id
                                    == before.rows[i].scrape_id;
                            assert(new_scrapes.rows[j] == scrapes.rows[j]);
                        } else {
                            assert(new_scrapes.rows[scrapes.rows.len() as int].id == id);
                        }
                    }
                }
            }
        }
    }
}

/// Storing editions touches no table but that of the editions, and storing roles none but that
/// of the roles.
pub proof fn the_catalog_is_apart(
    db: DatabaseView,
    editions: Seq<EditionView>,
    roles: Seq<RoleView>,
)
    ensures
        editions_upserted(db, editions).1 == (DatabaseView {
            editions: editions_upserted(db, editions).1.editions,
            ..db
        }),
        roles_upserted(db, roles).1 == (DatabaseView {
            roles: roles_upserted(db, roles).1.roles,
            ..db
        }),
{
}

/// Creating a game touches no table but those of the games and of their roles, and only adds
/// rows behind those that are there, whether or not it succeeds.
pub proof fn creating_a_game_only_adds(
    db: DatabaseView,
    role_ids: Seq<Seq<char>>,
    created_at: Seq<char>,
)
    ensures
        ({
            let after = game_created(db, role_ids, created_at).1;
            &&& after == (DatabaseView { games: after.games, game_roles: after.game_roles, ..db })
            &&& after.games is Some <==> db.games is Some
            &&& after.game_roles is Some <==> db.game_roles is Some
            &&& db.games matches Some(table) ==> table.rows.is_prefix_of(after.games->0.rows)
            &&& db.game_roles matches Some(table) ==> table.rows.is_prefix_of(
                after.game_roles->0.rows,
            )
        }),
{
}

/// Storing a scrape touches no table but those of the scrapes and of their fields, and only adds
/// rows behind those that are there, whether or not it succeeds.
pub proof fn storing_a_scrape_only_adds(db: DatabaseView, record: ScrapeRecordView)
    ensures
        ({
            let after = scrape_inserted(db, record).1;
            &&& after == (DatabaseView { scrapes: after.scrapes, fields: after.fields, ..db })
            &&& after.scrapes is Some <==> db.scrapes is Some
            &&& after.fields is Some <==> db.fields is Some
            &&& db.scrapes matches Some(table) ==> table.rows.is_prefix_of(after.scrapes->0.rows)
            &&& db.fields matches Some(table) ==> table.rows.is_prefix_of(after.fields->0.rows)
        }),
{
}

/// A table without its rows; it goes on numbering where it stopped.
pub open spec fn emptied<V>(table: Option<NumberedView<V>>) -> Option<NumberedView<V>> {
    match table {
        Some(table) => Some(NumberedView { last_id: table.last_id, rows: Seq::empty() }),
        None => None,
    }
}

/// A table of rows and those of another behind them.
pub open spec fn followed_by<V>(
    table: Option<NumberedView<V>>,
    more: Option<NumberedView<V>>,
) -> Option<NumberedView<V>> {
    match (table, more) {
        (Some(table), Some(more)) => Some(
            NumberedView { last_id: more.last_id, rows: table.rows + more.rows },
        ),
        _ => None,
    }
}

/// Storing a scrape looks at no row: it gives the same where the tables are emptied first, and
/// what it stores there comes behind the rows that are there.
pub proof fn storing_a_scrape_looks_at_no_row(db: DatabaseView, record: ScrapeRecordView)
    ensures
        ({
            let bare = DatabaseView {
                scrapes: emptied(db.scrapes),
                fields: emptied(db.fields),
                ..db
            };
            let (inserted, after) = scrape_inserted(db, record);
            let (inserted_bare, added) = scrape_inserted(bare, record);
            &&& inserted == inserted_bare
            &&& after.scrapes == followed_by(db.scrapes, added.scrapes)
            &&& after.fields == followed_by(db.fields, added.fields)
        }),
{
    let bare = DatabaseView { scrapes: emptied(db.scrapes), fields: emptied(db.fields), ..db };
    let after = scrape_inserted(db, record).1;
    let added = scrape_inserted(bare, record).1;
    if let Some(table) = db.scrapes {
        assert(after.scrapes->0.rows =~= table.rows + added.scrapes->0.rows);
    }
    if let Some(table) = db.fields {
        assert(after.fields->0.rows =~= table.rows + added.fields->0.rows);
    }
}

/// Creating a game looks at no row: it gives the same where the tables are emptied first, and
/// what it stores there comes behind the rows that are there.
pub proof fn creating_a_game_looks_at_no_row(
    db: DatabaseView,
    role_ids: Seq<Seq<char>>,
    created_at: Seq<char>,
)
    ensures
        ({
            let bare = DatabaseView {
                games: emptied(db.games),
                game_roles: emptied(db.game_roles),
                ..db
            };
            let (created, after) = game_created(db, role_ids, created_at);
            let (created_bare, added) = game_created(bare, role_ids, created_at);
            &&& created == created_bare
            &&& after.games == followed_by(db.games, added.games)
            &&& after.game_roles == followed_by(db.game_roles, added.game_roles)
        }),
{
    let bare = DatabaseView { games: emptied(db.games), game_roles: emptied(db.game_roles), ..db };
    let after = game_created(db, role_ids, created_at).1;
    let added = game_created(bare, role_ids, created_at).1;
    if let Some(table) = db.games {
        assert(after.games->0.rows =~= table.rows + added.games->0.rows);
    }
    if let Some(table) = db.game_roles {
        assert(after.game_roles->0.rows =~= table.rows + added.game_roles->0.rows);
    }
}

/// Not being replaced by any of the `new` rows.
pub open spec fn untouched_by<R: KeyedRow>(new: Seq<R::V>) -> spec_fn(R::V) -> bool {
    |row: R::V|
        forall|i: int| 0 <= i < new.len() ==> R::key_of(#[trigger] new[i]) != R::key_of(row)
}

/// Rows that are put in come behind the rows that they leave untouched, as they would stand in a
/// table of their own.
pub proof fn upserted_in_two_parts<R: KeyedRow>(rows: Seq<R::V>, new: Seq<R::V>)
    ensures
        upserted::<R>(rows, new) == rows.filter(untouched_by::<R>(new)) + upserted::<R>(
            Seq::empty(),
            new,
        ),
    decreases new.len(),
{
    if new.len() == 0 {
        all_kept(rows, untouched_by::<R>(new));
        assert(rows + Seq::<R::V>::empty() =~= rows);
    } else {
        let front = new.drop_last();
        let last = new.last();
        let key = R::key_of(last);
        upserted_in_two_parts::<R>(rows, front);
        let kept = rows.filter(untouched_by::<R>(front));
        let put = upserted::<R>(Seq::empty(), front);
        Seq::filter_distributes_over_add(kept, put, lacks_key::<R>(key));
        assert forall|row: R::V| #[trigger]
            untouched_by::<R>(new)(row) <==> untouched_by::<R>(front)(row) && lacks_key::<R>(key)(
                row,
            ) by {
            if untouched_by::<R>(new)(row) {
                assert(R::key_of(new[new.len() - 1]) != R::key_of(row));
                assert forall|i: int| 0 <= i < front.len() implies R::key_of(#[trigger] front[i])
                    != R::key_of(row) by {
                    assert(R::key_of(new[i]) != R::key_of(row));
                }
            }
            if untouched_by::<R>(front)(row) && lacks_key::<R>(key)(row) {
                assert forall|i: int| 0 <= i < new.len() implies R::key_of(#[trigger] new[i])
                    != R::key_of(row) by {
                    if i < front.len() {
                        assert(R::key_of(front[i]) != R::key_of(row));
                    }
                }
            }
        }
        filter_twice(
            rows,
            untouched_by::<R>(front),
            lacks_key::<R>(key),
            untouched_by::<R>(new),
        );
        assert(upserted::<R>(rows, new) =~= rows.filter(untouched_by::<R>(new)) + upserted::<R>(
            Seq::empty(),
            new,
        ));
    }
}

/// What is put into an empty table has the key of a row that was put in.
proof fn upserted_has_new_keys<R: KeyedRow>(new: Seq<R::V>, i: int)
    requires
        0 <= i < upserted::<R>(Seq::empty(), new).len(),
    ensures
        !untouched_by::<R>(new)(upserted::<R>(Seq::empty(), new)[i]),
    decreases new.len(),
{
    let front = new.drop_last();
    let last = new.last();
    let key = R::key_of(last);
    let before = upserted::<R>(Seq::empty(), front);
    let kept = without_key::<R>(before, key);
    let row = upserted::<R>(Seq::empty(), new)[i];
    if i < kept.len() {
        kept_is_there(before, lacks_key::<R>(key), i);
        let k = choose|k: int| 0 <= k < before.len() && before[k] == kept[i];
        upserted_has_new_keys::<R>(front, k);
        let m = choose|m: int|
            0 <= m < front.len() && R::key_of(#[trigger] front[m]) == R::key_of(row);
        assert(R::key_of(new[m]) == R::key_of(row));
    } else {
        assert(row == last);
        assert(R::key_of(new[new.len() - 1]) == R::key_of(row));
    }
}

/// Putting the same rows in once more changes nothing.
pub proof fn upserting_is_idempotent<R: KeyedRow>(rows: Seq<R::V>, new: Seq<R::V>)
    ensures
        upserted::<R>(upserted::<R>(rows, new), new) == upserted::<R>(rows, new),
{
    let untouched = untouched_by::<R>(new);
    let put = upserted::<R>(Seq::empty(), new);
    let once = upserted::<R>(rows, new);
    upserted_in_two_parts::<R>(rows, new);
    upserted_in_two_parts::<R>(once, new);
    Seq::filter_distributes_over_add(rows.filter(untouched), put, untouched);
    filter_twice(rows, untouched, untouched, untouched);
    assert forall|i: int| 0 <= i < put.len() implies !untouched(#[trigger] put[i]) by {
        upserted_has_new_keys::<R>(new, i);
    }
    none_kept(put, untouched);
    assert(rows.filter(untouched) + Seq::<R::V>::empty() =~= rows.filter(untouched));
}

/// Storing the same editions once more changes nothing, and returns the same.
pub proof fn storing_editions_is_idempotent(db: DatabaseView, editions: Seq<EditionView>)
    ensures
        editions_upserted(editions_upserted(db, editions).1, editions) == editions_upserted(
            db,
            editions,
        ),
{
    if let Some(rows) = db.editions {
        upserting_is_idempotent::<EditionRow>(rows, edition_rows(editions));
    }
}

/// Storing the same roles once more changes nothing, and returns the same.
pub proof fn storing_roles_is_idempotent(db: DatabaseView, roles: Seq<RoleView>)
    ensures
        roles_upserted(roles_upserted(db, roles).1, roles) == roles_upserted(db, roles),
{
    if let Some(rows) = db.roles {
        upserting_is_idempotent::<RoleRow>(rows, role_rows(roles));
    }
}

/// Whether `new[i]` is the last of the new rows with its key.
pub open spec fn last_with_its_key<R: KeyedRow>(new: Seq<R::V>, i: int) -> bool {
    &&& 0 <= i < new.len()
    &&& forall|j: int| i < j < new.len() ==> R::key_of(#[trigger] new[j]) != R::key_of(new[i])
}

/// Of the rows that are put in with one key, the last one is the one that is stored under it.
pub proof fn last_upsert_wins<R: KeyedRow>(rows: Seq<R::V>, new: Seq<R::V>, i: int)
    requires
        last_with_its_key::<R>(new, i),
    ensures
        rows_with_key::<R>(upserted::<R>(rows, new), R::key_of(new[i])) == seq![new[i]],
    decreases new.len(),
{
    let key = R::key_of(new[i]);
    let front = new.drop_last();
    let last = new.last();
    let before = upserted::<R>(rows, front);
    let kept = without_key::<R>(before, R::key_of(last));
    filter_push(kept, last, has_key::<R>(key));
    if i == new.len() - 1 {
        assert forall|k: int| 0 <= k < kept.len() implies !has_key::<R>(key)(#[trigger] kept[k]) by {
            kept_is_there(before, lacks_key::<R>(key), k);
        }
        none_kept(kept, has_key::<R>(key));
        assert(Seq::<R::V>::empty().push(last) =~= seq![new[i]]);
    } else {
        assert(R::key_of(new[new.len() - 1]) != R::key_of(new[i]));
        assert forall|j: int| i < j < front.len() implies R::key_of(#[trigger] front[j])
            != R::key_of(front[i]) by {
            assert(R::key_of(new[j]) != R::key_of(new[i]));
        }
        last_upsert_wins::<R>(rows, front, i);
        filter_twice(before, lacks_key::<R>(R::key_of(last)), has_key::<R>(key), has_key::<R>(key));
    }
}

/// Rows whose key is not among those put in stay as they are.
pub proof fn upserting_leaves_others<R: KeyedRow>(rows: Seq<R::V>, new: Seq<R::V>, key: Seq<char>)
    requires
        forall|i: int| 0 <= i < new.len() ==> R::key_of(#[trigger] new[i]) != key,
    ensures
        rows_with_key::<R>(upserted::<R>(rows, new), key) == rows_with_key::<R>(rows, key),
    decreases new.len(),
{
    if new.len() > 0 {
        let front = new.drop_last();
        let last = new.last();
        let before = upserted::<R>(rows, front);
        assert forall|i: int| 0 <= i < front.len() implies R::key_of(#[trigger] front[i])
            != key by {
            assert(R::key_of(new[i]) != key);
        }
        assert(R::key_of(new[new.len() - 1]) != key);
        upserting_leaves_others::<R>(rows, front, key);
        filter_push(without_key::<R>(before, R::key_of(last)), last, has_key::<R>(key));
        filter_twice(before, lacks_key::<R>(R::key_of(last)), has_key::<R>(key), has_key::<R>(key));
    }
}

/// What is stored after rows are put in was stored before or is one of them.
pub proof fn upserted_from<R: KeyedRow>(rows: Seq<R::V>, new: Seq<R::V>, i: int)
    requires
        0 <= i < upserted::<R>(rows, new).len(),
    ensures
        rows.contains(upserted::<R>(rows, new)[i]) || new.contains(upserted::<R>(rows, new)[i]),
    decreases new.len(),
{
    if new.len() > 0 {
        let front = new.drop_last();
        let last = new.last();
        let before = upserted::<R>(rows, front);
        let kept = without_key::<R>(before, R::key_of(last));
        let row = upserted::<R>(rows, new)[i];
        if i < kept.len() {
            kept_is_there(before, lacks_key::<R>(R::key_of(last)), i);
            let k = choose|k: int| 0 <= k < before.len() && before[k] == row;
            upserted_from::<R>(rows, front, k);
            if front.contains(row) {
                let m = choose|m: int| 0 <= m < front.len() && front[m] == row;
                assert(new[m] == row);
            }
        } else {
            assert(new[new.len() - 1] == row);
        }
    }
}

/// A flag is read back as it was written.
pub proof fn flag_round_trip(flag: Option<bool>)
    ensures
        flag_fits(flag_column(flag)),
        flag_of(flag_column(flag)) == flag,
{
}

/// An edition is read back as it was stored.
pub proof fn edition_round_trip(edition: EditionView)
    ensures
        edition_of(edition_row(edition)) == edition,
{
    flag_round_trip(edition.is_official);
}

/// A role is read back as it was stored.
pub proof fn role_round_trip(role: RoleView)
    ensures
        role_of(role_row(role)) == role,
{
    flag_round_trip(role.setup);
}

/// Where the editions can be read, they can be read after more are stored.
pub proof fn editions_stay_readable(db: DatabaseView, editions: Seq<EditionView>)
    requires
        editions_read(db) is Ok,
    ensures
        editions_read(editions_upserted(db, editions).1) is Ok,
{
    let rows = db.editions->0;
    let new = edition_rows(editions);
    let after = upserted::<EditionRow>(rows, new);
    assert forall|i: int| 0 <= i < after.len() implies flag_fits(
        (#[trigger] after[i]).is_official,
    ) by {
        upserted_from::<EditionRow>(rows, new, i);
        if rows.contains(after[i]) {
            let k = choose|k: int| 0 <= k < rows.len() && rows[k] == after[i];
            assert(flag_fits(rows[k].is_official));
        } else {
            let k = choose|k: int| 0 <= k < new.len() && new[k] == after[i];
            flag_round_trip(editions[k].is_official);
        }
    }
}

/// Where all roles can be read, they can be read after more are stored, by any filter.
pub proof fn roles_stay_readable(
    db: DatabaseView,
    roles: Seq<RoleView>,
    team: Option<Seq<char>>,
    edition: Option<Seq<char>>,
)
    requires
        roles_read(db, None, None) is Ok,
    ensures
        roles_read(roles_upserted(db, roles).1, team, edition) is Ok,
{
    let rows = db.roles->0;
    let new = role_rows(roles);
    let after = roles_upserted(db, roles).1.roles->0;
    let all = role_rows_asked_for(rows, None, None);
    let asked_for = role_rows_asked_for(after, team, edition);
    ordered_has_same_rows::<RoleRow>(rows.filter(role_asked_for(None, None)));
    ordered_has_same_rows::<RoleRow>(after.filter(role_asked_for(team, edition)));
    assert(after == upserted::<RoleRow>(rows, new));
    assert forall|i: int| 0 <= i < asked_for.len() implies flag_fits(
        (#[trigger] asked_for[i]).setup,
    ) by {
        let row = asked_for[i];
        assert(asked_for.contains(row));
        let p = choose|p: int|
            0 <= p < after.filter(role_asked_for(team, edition)).len() && after.filter(
                role_asked_for(team, edition),
            )[p] == row;
        kept_is_there(after, role_asked_for(team, edition), p);
        let m = choose|m: int| 0 <= m < after.len() && after[m] == row;
        upserted_from::<RoleRow>(rows, new, m);
        if rows.contains(row) {
            let k = choose|k: int| 0 <= k < rows.len() && rows[k] == row;
            rows.lemma_filter_contains(role_asked_for(None, None), k);
            let q = choose|q: int| 0 <= q < all.len() && all[q] == row;
            assert(flag_fits(all[q].setup));
        } else {
            let k = choose|k: int| 0 <= k < new.len() && new[k] == row;
            flag_round_trip(roles[k].setup);
        }
    }
}

/// The last of the editions stored with one ID is among the editions that are read afterwards,
/// and no other edition with its ID is.
pub proof fn stored_edition_is_read(db: DatabaseView, editions: Seq<EditionView>, i: int)
    requires
        editions_read(db) is Ok,
        0 <= i < editions.len(),
        forall|j: int| i < j < editions.len() ==> (#[trigger] editions[j]).id != editions[i].id,
    ensures
        editions_read(editions_upserted(db, editions).1) matches Ok(read) && {
            &&& read.contains(editions[i])
            &&& forall|k: int|
                0 <= k < read.len() && (#[trigger] read[k]).id == editions[i].id ==> read[k]
                    == editions[i]
        },
{
    let rows = db.editions->0;
    let new = edition_rows(editions);
    let after = upserted::<EditionRow>(rows, new);
    let order = ordered::<EditionRow>(after);
    let key = editions[i].id;
    assert forall|j: int| i < j < new.len() implies EditionRow::key_of(#[trigger] new[j])
        != EditionRow::key_of(new[i]) by {
        assert(editions[j].id != editions[i].id);
    }
    editions_stay_readable(db, editions);
    last_upsert_wins::<EditionRow>(rows, new, i);
    ordered_has_same_rows::<EditionRow>(after);
    edition_round_trip(editions[i]);
    let hits = rows_with_key::<EditionRow>(after, key);
    assert(hits[0] == new[i]);
    kept_is_there(after, has_key::<EditionRow>(key), 0);
    let at = choose|at: int| 0 <= at < order.len() && order[at] == new[i];
    if let Ok(read) = editions_read(editions_upserted(db, editions).1) {
        assert(read == order.map_values(reading_edition()));
        assert(read[at] == editions[i]);
        assert forall|k: int|
            0 <= k < read.len() && (#[trigger] read[k]).id == editions[i].id implies read[k]
            == editions[i] by {
            assert(order.contains(order[k]));
            let m = choose|m: int| 0 <= m < after.len() && after[m] == order[k];
            after.lemma_filter_contains(has_key::<EditionRow>(key), m);
            let n = choose|n: int| 0 <= n < hits.len() && hits[n] == after[m];
            assert(hits[n] == new[i]);
        }
    }
}

/// The last of the roles stored with one ID is among the roles that are read afterwards without
/// a filter, and no other role with its ID is.
pub proof fn stored_role_is_read(db: DatabaseView, roles: Seq<RoleView>, i: int)
    requires
        roles_read(db, None, None) is Ok,
        0 <= i < roles.len(),
        forall|j: int| i < j < roles.len() ==> (#[trigger] roles[j]).id != roles[i].id,
    ensures
        roles_read(roles_upserted(db, roles).1, None, None) matches Ok(read) && {
            &&& read.contains(roles[i])
            &&& forall|k: int|
                0 <= k < read.len() && (#[trigger] read[k]).id == roles[i].id ==> read[k]
                    == roles[i]
        },
{
    let rows = db.roles->0;
    let new = role_rows(roles);
    let after = upserted::<RoleRow>(rows, new);
    let kept = after.filter(role_asked_for(None, None));
    let order = ordered::<RoleRow>(kept);
    let key = roles[i].id;
    assert forall|j: int| i < j < new.len() implies RoleRow::key_of(#[trigger] new[j])
        != RoleRow::key_of(new[i]) by {
        assert(roles[j].id != roles[i].id);
    }
    roles_stay_readable(db, roles, None, None);
    last_upsert_wins::<RoleRow>(rows, new, i);
    ordered_has_same_rows::<RoleRow>(kept);
    role_round_trip(roles[i]);
    let hits = rows_with_key::<RoleRow>(after, key);
    assert(hits[0] == new[i]);
    kept_is_there(after, has_key::<RoleRow>(key), 0);
    let home = choose|home: int| 0 <= home < after.len() && after[home] == new[i];
    after.lemma_filter_contains(role_asked_for(None, None), home);
    let at = choose|at: int| 0 <= at < order.len() && order[at] == new[i];
    if let Ok(read) = roles_read(roles_upserted(db, roles).1, None, None) {
        assert(read == order.map_values(reading_role()));
        assert(read[at] == roles[i]);
        assert forall|k: int|
            0 <= k < read.len() && (#[trigger] read[k]).id == roles[i].id implies read[k]
            == roles[i] by {
            assert(order.contains(order[k]));
            let p = choose|p: int| 0 <= p < kept.len() && kept[p] == order[k];
            kept_is_there(after, role_asked_for(None, None), p);
            let m = choose|m: int| 0 <= m < after.len() && after[m] == order[k];
            after.lemma_filter_contains(has_key::<RoleRow>(key), m);
            let n = choose|n: int| 0 <= n < hits.len() && hits[n] == after[m];
            assert(hits[n] == new[i]);
        }
    }
}

} // verus!
