//! What the storage operations come to, row by row.

use crate::catalog::{
    edition_misfits, edition_of, edition_rows, editions_read, editions_upserted, flag_column, flag_fits,
    flag_of, role_asked_for, role_misfits, role_of, role_rows, role_rows_asked_for, roles_read,
    roles_upserted, upserted,
};
use crate::games::{game_created, game_read, is_of_game, role_details, rows_of_game};
use crate::models::{
    EditionView, FieldView, GameInstanceView, GameRoleView, RoleView, ScrapeRecordView,
};
use crate::order::{
    all_kept, filter_push, kept_is_there, none_kept, ordered, ordered_has_same_rows,
    ordered_is_in_order, ordered_then_filtered, Ordered,
};
use crate::schema::initialised;
use crate::scrapes::{belongs_to, scrape_inserted, scrapes_read, stored_field, url_asked_for};
use crate::storage_laws::{
    edition_round_trip, editions_stay_readable, role_round_trip, roles_stay_readable, upserted_from,
    upserting_leaves_others,
};
use crate::tables::{
    game_exists, has_id, has_key, rows_with_id, rows_with_key, scrape_exists, DatabaseView,
    EditionRow, EditionRowView, FieldRowView, GameRoleRow, GameRoleRowView, GameRow, GameRowView,
    KeyedRow, NumberedRow, RoleRow, RoleRowView, ScrapeRowView, StorageError, TableName,
};
use crate::text::text_le;
use vstd::prelude::*;

verus! {

/// A table that did not exist is created without rows, and gives its first row the number one.
pub proof fn new_tables_are_empty(db: DatabaseView)
    ensures
        db.scrapes is None ==> initialised(db).scrapes->0.rows.len() == 0 && initialised(
            db,
        ).scrapes->0.last_id == 0,
        db.fields is None ==> initialised(db).fields->0.rows.len() == 0 && initialised(
            db,
        ).fields->0.last_id == 0,
        db.games is None ==> initialised(db).games->0.rows.len() == 0 && initialised(
            db,
        ).games->0.last_id == 0,
        db.game_roles is None ==> initialised(db).game_roles->0.rows.len() == 0 && initialised(
            db,
        ).game_roles->0.last_id == 0,
        db.editions is None ==> initialised(db).editions->0.len() == 0,
        db.roles is None ==> initialised(db).roles->0.len() == 0,
{
}

/// How many more rows a table can number, after the number `last_id`.
pub open spec fn room_after(last_id: i64) -> int {
    i64::MAX - last_id
}

/// Storing a scrape adds one row for it and one for each of its fields, in order, for as many
/// fields as there are numbers left. It succeeds, with the next number as the ID, exactly where
/// the tables exist and have numbers left for all of them.
pub proof fn a_scrape_is_stored_row_by_row(db: DatabaseView, record: ScrapeRecordView)
    ensures
        ({
            let (inserted, after) = scrape_inserted(db, record);
            match db.scrapes {
                None => inserted == Err::<i64, StorageError>(
                    StorageError::NoSuchTable(TableName::Scrapes),
                ) && after == db,
                Some(table) => if room_after(table.last_id) <= 0 {
                    inserted == Err::<i64, StorageError>(
                        StorageError::IdsExhausted(TableName::Scrapes),
                    ) && after == db
                } else {
                    let id = (table.last_id + 1) as i64;
                    let count = record.fields.len();
                    &&& after.scrapes matches Some(scrapes) && scrapes.last_id == id && scrapes.rows
                        == table.rows.push(
                        ScrapeRowView { id, url: record.url, scraped_at: record.scraped_at },
                    )
                    &&& count == 0 ==> inserted == Ok::<i64, StorageError>(id) && after.fields
                        == db.fields
                    &&& count > 0 && db.fields is None ==> inserted == Err::<i64, StorageError>(
                        StorageError::NoSuchTable(TableName::Fields),
                    ) && after.fields is None
                    &&& count > 0 && db.fields is Some ==> {
                        let old = db.fields->0;
                        let added = if count <= room_after(old.last_id) {
                            count as int
                        } else {
                            room_after(old.last_id)
                        };
                        &&& inserted == if added == count {
                            Ok::<i64, StorageError>(id)
                        } else {
                            Err(StorageError::IdsExhausted(TableName::Fields))
                        }
                        &&& after.fields matches Some(fields) && {
                            &&& fields.last_id == old.last_id + added
                            &&& fields.rows.len() == old.rows.len() + added
                            &&& fields.rows.take(old.rows.len() as int) == old.rows
                            &&& forall|j: int|
                                0 <= j < added ==> {
                                    let row = #[trigger] fields.rows[old.rows.len() + j];
                                    &&& row.id == old.last_id + 1 + j
                                    &&& row.scrape_id == id
                                    &&& row.name == record.fields[j].name
                                    &&& row.value == record.fields[j].value
                                }
                        }
                    }
                },
            }
        }),
{
    let after = scrape_inserted(db, record).1;
    if let (Some(old), Some(fields)) = (db.fields, after.fields) {
        assert(fields.rows.take(old.rows.len() as int) =~= old.rows);
    }
}

/// Creating a game adds one row for it and one for each of its roles, in order, with positions
/// from zero on, for as many roles as there are numbers left. It succeeds, with the next number
/// as the ID, exactly where the tables exist and have numbers left for all of them.
pub proof fn a_game_is_stored_row_by_row(
    db: DatabaseView,
    role_ids: Seq<Seq<char>>,
    created_at: Seq<char>,
)
    requires
        role_ids.len() <= i64::MAX,
    ensures
        ({
            let (created, after) = game_created(db, role_ids, created_at);
            match db.games {
                None => created == Err::<i64, StorageError>(
                    StorageError::NoSuchTable(TableName::Games),
                ) && after == db,
                Some(table) => if room_after(table.last_id) <= 0 {
                    created == Err::<i64, StorageError>(
                        StorageError::IdsExhausted(TableName::Games),
                    ) && after == db
                } else {
                    let id = (table.last_id + 1) as i64;
                    let count = role_ids.len();
                    &&& after.games matches Some(games) && games.last_id == id && games.rows
                        == table.rows.push(GameRowView { id, created_at })
                    &&& count == 0 ==> created == Ok::<i64, StorageError>(id) && after.game_roles
                        == db.game_roles
                    &&& count > 0 && db.game_roles is None ==> created == Err::<i64, StorageError>(
                        StorageError::NoSuchTable(TableName::GameRoles),
                    ) && after.game_roles is None
                    &&& count > 0 && db.game_roles is Some ==> {
                        let old = db.game_roles->0;
                        let added = if count <= room_after(old.last_id) {
                            count as int
                        } else {
                            room_after(old.last_id)
                        };
                        &&& created == if added == count {
                            Ok::<i64, StorageError>(id)
                        } else {
                            Err(StorageError::IdsExhausted(TableName::GameRoles))
                        }
                        &&& after.game_roles matches Some(roles) && {
                            &&& roles.last_id == old.last_id + added
                            &&& roles.rows.len() == old.rows.len() + added
                            &&& roles.rows.take(old.rows.len() as int) == old.rows
                            &&& forall|j: int|
                                0 <= j < added ==> {
                                    let row = #[trigger] roles.rows[old.rows.len() + j];
                                    &&& row.id == old.last_id + 1 + j
                                    &&& row.game_id == id
                                    &&& row.role_id == role_ids[j]
                                    &&& row.position == j
                                }
                        }
                    }
                },
            }
        }),
{
    let after = game_created(db, role_ids, created_at).1;
    if let (Some(old), Some(roles)) = (db.game_roles, after.game_roles) {
        assert(roles.rows.take(old.rows.len() as int) =~= old.rows);
    }
}

/// Storing editions succeeds, with how many there are, exactly where there are none or the table
/// exists. Otherwise nothing changes.
pub proof fn storing_editions_succeeds(db: DatabaseView, editions: Seq<EditionView>)
    requires
        editions.len() <= usize::MAX,
    ensures
        editions.len() == 0 || db.editions is Some ==> editions_upserted(db, editions).0 == Ok::<
            usize,
            StorageError,
        >(editions.len() as usize),
        editions.len() > 0 && db.editions is None ==> editions_upserted(db, editions).0 == Err::<
            usize,
            StorageError,
        >(StorageError::NoSuchTable(TableName::Editions)),
        editions.len() == 0 || db.editions is None ==> editions_upserted(db, editions).1 == db,
{
}

/// Storing roles succeeds, with how many there are, exactly where there are none or the table
/// exists. Otherwise nothing changes.
pub proof fn storing_roles_succeeds(db: DatabaseView, roles: Seq<RoleView>)
    requires
        roles.len() <= usize::MAX,
    ensures
        roles.len() == 0 || db.roles is Some ==> roles_upserted(db, roles).0 == Ok::<
            usize,
            StorageError,
        >(roles.len() as usize),
        roles.len() > 0 && db.roles is None ==> roles_upserted(db, roles).0 == Err::<
            usize,
            StorageError,
        >(StorageError::NoSuchTable(TableName::Roles)),
        roles.len() == 0 || db.roles is None ==> roles_upserted(db, roles).1 == db,
{
}

/// A flag column holds one for true, zero for false and nothing for an absent flag. It reads as
/// false where it is zero, as true where it is another number, and as nothing where it is empty.
/// It has to fit 32 bits.
pub proof fn flags_are_read(value: i64)
    ensures
        flag_column(Some(true)) == Some(1i64),
        flag_column(Some(false)) == Some(0i64),
        flag_column(None) is None,
        flag_of(None) is None,
        flag_of(Some(value)) == Some(value != 0),
        flag_fits(None),
        flag_fits(Some(value)) <==> -0x8000_0000 <= value <= 0x7fff_ffff,
{
}

/// Whether an edition is what a row holds.
pub open spec fn edition_reads(row: EditionRowView, edition: EditionView) -> bool {
    &&& edition.id == row.id
    &&& edition.name == row.name
    &&& edition.color == row.color
    &&& edition.level == row.level
    &&& row.is_official is None ==> edition.is_official is None
    &&& row.is_official matches Some(value) ==> edition.is_official == Some(value != 0)
}

/// Whether a role is what a row holds.
pub open spec fn role_reads(row: RoleRowView, role: RoleView) -> bool {
    &&& role.id == row.id
    &&& role.name == row.name
    &&& role.team == row.team
    &&& role.edition == row.edition
    &&& role.ability == row.ability
    &&& role.flavor == row.flavor
    &&& row.setup is None ==> role.setup is None
    &&& row.setup matches Some(value) ==> role.setup == Some(value != 0)
    &&& role.first_night_reminder == row.first_night_reminder
    &&& role.other_night_reminder == row.other_night_reminder
}

/// Whether a number fits 32 bits, where there is one.
pub open spec fn fits_in_32_bits(value: Option<i64>) -> bool {
    value matches Some(value) ==> -0x8000_0000 <= value <= 0x7fff_ffff
}

/// Every stored edition is read, with all its columns, and nothing else is. Reading fails exactly
/// where the table does not exist or a flag does not fit, and then names such a flag.
pub proof fn every_edition_is_read(db: DatabaseView)
    ensures
        match db.editions {
            None => editions_read(db) == Err::<Seq<EditionView>, StorageError>(
                StorageError::NoSuchTable(TableName::Editions),
            ),
            Some(rows) => match editions_read(db) {
                Ok(read) => {
                    &&& read.len() == rows.len()
                    &&& forall|i: int|
                        0 <= i < rows.len() ==> fits_in_32_bits((#[trigger] rows[i]).is_official)
                            && exists|k: int|
                            0 <= k < read.len() && edition_reads(rows[i], #[trigger] read[k])
                    &&& forall|k: int|
                        0 <= k < read.len() ==> exists|i: int|
                            0 <= i < rows.len() && edition_reads(
                                #[trigger] rows[i],
                                #[trigger] read[k],
                            )
                },
                Err(error) => exists|i: int|
                    0 <= i < rows.len() && !fits_in_32_bits((#[trigger] rows[i]).is_official)
                        && error == (StorageError::IntegerOutOfRange {
                        column: 4,
                        value: rows[i].is_official->0,
                    }),
            },
        },
{
    if let Some(rows) = db.editions {
        let order = ordered::<EditionRow>(rows);
        ordered_has_same_rows::<EditionRow>(rows);
        ordered_is_in_order::<EditionRow>(rows);
        match editions_read(db) {
            Ok(read) => {
                assert forall|i: int| 0 <= i < rows.len() implies fits_in_32_bits(
                    (#[trigger] rows[i]).is_official,
                ) && exists|k: int|
                    0 <= k < read.len() && edition_reads(rows[i], #[trigger] read[k]) by {
                    assert(flag_fits(rows[i].is_official));
                    assert(rows.contains(rows[i]));
                    let k = choose|k: int| 0 <= k < order.len() && order[k] == rows[i];
                    assert(read[k] == edition_of(order[k]));
                    assert(edition_reads(rows[i], read[k]));
                }
                assert forall|k: int| 0 <= k < read.len() implies exists|i: int|
                    0 <= i < rows.len() && edition_reads(#[trigger] rows[i], #[trigger] read[k]) by {
                    assert(order.contains(order[k]));
                    let i = choose|i: int| 0 <= i < rows.len() && rows[i] == order[k];
                    assert(read[k] == edition_of(order[k]));
                    assert(edition_reads(rows[i], read[k]));
                }
            },
            Err(error) => {
                let bad = choose|i: int|
                    0 <= i < rows.len() && !flag_fits((#[trigger] rows[i]).is_official);
                assert(rows.contains(rows[bad]));
                let at = choose|k: int| 0 <= k < order.len() && order[k] == rows[bad];
                let misfits = order.filter(edition_misfits());
                order.lemma_filter_contains(edition_misfits(), at);
                kept_is_there(order, edition_misfits(), 0);
                assert(order.contains(misfits[0]));
                let i = choose|i: int| 0 <= i < rows.len() && rows[i] == misfits[0];
                assert(!fits_in_32_bits(rows[i].is_official));
            },
        }
    }
}

/// Without a filter, every stored role is read, with all its columns, and nothing else is.
/// Reading fails exactly where the table does not exist or a flag does not fit, and then names
/// such a flag.
pub proof fn every_role_is_read(db: DatabaseView)
    ensures
        match db.roles {
            None => roles_read(db, None, None) == Err::<Seq<RoleView>, StorageError>(
                StorageError::NoSuchTable(TableName::Roles),
            ),
            Some(rows) => match roles_read(db, None, None) {
                Ok(read) => {
                    &&& read.len() == rows.len()
                    &&& forall|i: int|
                        0 <= i < rows.len() ==> fits_in_32_bits((#[trigger] rows[i]).setup)
                            && exists|k: int|
                            0 <= k < read.len() && role_reads(rows[i], #[trigger] read[k])
                    &&& forall|k: int|
                        0 <= k < read.len() ==> exists|i: int|
                            0 <= i < rows.len() && role_reads(
                                #[trigger] rows[i],
                                #[trigger] read[k],
                            )
                },
                Err(error) => exists|i: int|
                    0 <= i < rows.len() && !fits_in_32_bits((#[trigger] rows[i]).setup) && error
                        == (StorageError::IntegerOutOfRange {
                        column: 6,
                        value: rows[i].setup->0,
                    }),
            },
        },
{
    if let Some(rows) = db.roles {
        all_kept(rows, role_asked_for(None, None));
        let order = role_rows_asked_for(rows, None, None);
        assert(order == ordered::<RoleRow>(rows));
        ordered_has_same_rows::<RoleRow>(rows);
        ordered_is_in_order::<RoleRow>(rows);
        match roles_read(db, None, None) {
            Ok(read) => {
                assert forall|i: int| 0 <= i < rows.len() implies fits_in_32_bits(
                    (#[trigger] rows[i]).setup,
                ) && exists|k: int|
                    0 <= k < read.len() && role_reads(rows[i], #[trigger] read[k]) by {
                    assert(rows.contains(rows[i]));
                    let k = choose|k: int| 0 <= k < order.len() && order[k] == rows[i];
                    assert(flag_fits(order[k].setup));
                    assert(read[k] == role_of(order[k]));
                    assert(role_reads(rows[i], read[k]));
                }
                assert forall|k: int| 0 <= k < read.len() implies exists|i: int|
                    0 <= i < rows.len() && role_reads(#[trigger] rows[i], #[trigger] read[k]) by {
                    assert(order.contains(order[k]));
                    let i = choose|i: int| 0 <= i < rows.len() && rows[i] == order[k];
                    assert(read[k] == role_of(order[k]));
                    assert(role_reads(rows[i], read[k]));
                }
            },
            Err(error) => {
                let at = choose|k: int|
                    0 <= k < order.len() && !flag_fits((#[trigger] order[k]).setup);
                let misfits = order.filter(role_misfits());
                order.lemma_filter_contains(role_misfits(), at);
                kept_is_there(order, role_misfits(), 0);
                assert(order.contains(misfits[0]));
                let i = choose|i: int| 0 <= i < rows.len() && rows[i] == misfits[0];
                assert(!fits_in_32_bits(rows[i].setup));
            },
        }
    }
}

/// Storing editions leaves every other edition as it is, and no edition appears that was neither
/// stored before nor is among them.
pub proof fn other_editions_stay(db: DatabaseView, editions: Seq<EditionView>)
    requires
        editions_read(db) is Ok,
    ensures
        editions_read(editions_upserted(db, editions).1) matches Ok(after) && {
            let before = editions_read(db)->Ok_0;
            &&& forall|i: int|
                0 <= i < before.len() && (forall|j: int|
                    0 <= j < editions.len() ==> (#[trigger] editions[j]).id != before[i].id)
                    ==> after.contains(#[trigger] before[i])
            &&& forall|k: int|
                0 <= k < after.len() ==> before.contains(#[trigger] after[k])
                    || editions.contains(after[k])
        },
{
    editions_stay_readable(db, editions);
    if editions.len() > 0 {
        let rows = db.editions->0;
        let new = edition_rows(editions);
        let all = upserted::<EditionRow>(rows, new);
        let before = editions_read(db)->Ok_0;
        let after = editions_read(editions_upserted(db, editions).1)->Ok_0;
        let old_order = ordered::<EditionRow>(rows);
        let order = ordered::<EditionRow>(all);
        ordered_has_same_rows::<EditionRow>(rows);
        ordered_has_same_rows::<EditionRow>(all);
        assert forall|i: int|
            0 <= i < before.len() && (forall|j: int|
                0 <= j < editions.len() ==> (#[trigger] editions[j]).id
                    != before[i].id) implies after.contains(#[trigger] before[i]) by {
            let row = old_order[i];
            assert(before[i] == edition_of(row));
            assert forall|j: int| 0 <= j < new.len() implies EditionRow::key_of(#[trigger] new[j])
                != row.id by {
                assert(editions[j].id != before[i].id);
            }
            upserting_leaves_others::<EditionRow>(rows, new, row.id);
            assert(old_order.contains(row));
            let m = choose|m: int| 0 <= m < rows.len() && rows[m] == row;
            rows.lemma_filter_contains(has_key::<EditionRow>(row.id), m);
            let hits = rows_with_key::<EditionRow>(all, row.id);
            let h = choose|h: int| 0 <= h < hits.len() && hits[h] == row;
            kept_is_there(all, has_key::<EditionRow>(row.id), h);
            assert(all.contains(row));
            let k = choose|k: int| 0 <= k < order.len() && order[k] == row;
            assert(after[k] == edition_of(row));
        }
        assert forall|k: int| 0 <= k < after.len() implies before.contains(#[trigger] after[k])
            || editions.contains(after[k]) by {
            let row = order[k];
            assert(after[k] == edition_of(row));
            assert(order.contains(row));
            let m = choose|m: int| 0 <= m < all.len() && all[m] == row;
            upserted_from::<EditionRow>(rows, new, m);
            if rows.contains(row) {
                let i = choose|i: int| 0 <= i < old_order.len() && old_order[i] == row;
                assert(before[i] == edition_of(row));
            } else {
                let j = choose|j: int| 0 <= j < new.len() && new[j] == row;
                edition_round_trip(editions[j]);
                assert(editions[j] == after[k]);
            }
        }
    } else {
        let before = editions_read(db)->Ok_0;
        assert forall|i: int| 0 <= i < before.len() implies before.contains(
            #[trigger] before[i],
        ) by {
        }
    }
}

/// Storing roles leaves every other role as it is, and no role appears that was neither
/// stored before nor is among them.
pub proof fn other_roles_stay(db: DatabaseView, roles: Seq<RoleView>)
    requires
        roles_read(db, None, None) is Ok,
    ensures
        roles_read(roles_upserted(db, roles).1, None, None) matches Ok(after) && {
            let before = roles_read(db, None, None)->Ok_0;
            &&& forall|i: int|
                0 <= i < before.len() && (forall|j: int|
                    0 <= j < roles.len() ==> (#[trigger] roles[j]).id != before[i].id)
                    ==> after.contains(#[trigger] before[i])
            &&& forall|k: int|
                0 <= k < after.len() ==> before.contains(#[trigger] after[k])
                    || roles.contains(after[k])
        },
{
    roles_stay_readable(db, roles, None, None);
    if roles.len() > 0 {
        let rows = db.roles->0;
        let new = role_rows(roles);
        let all = upserted::<RoleRow>(rows, new);
        let before = roles_read(db, None, None)->Ok_0;
        let after = roles_read(roles_upserted(db, roles).1, None, None)->Ok_0;
        all_kept(rows, role_asked_for(None, None));
        all_kept(all, role_asked_for(None, None));
        let old_order = ordered::<RoleRow>(rows);
        let order = ordered::<RoleRow>(all);
        ordered_has_same_rows::<RoleRow>(rows);
        ordered_has_same_rows::<RoleRow>(all);
        assert forall|i: int|
            0 <= i < before.len() && (forall|j: int|
                0 <= j < roles.len() ==> (#[trigger] roles[j]).id
                    != before[i].id) implies after.contains(#[trigger] before[i]) by {
            let row = old_order[i];
            assert(before[i] == role_of(row));
            assert forall|j: int| 0 <= j < new.len() implies RoleRow::key_of(#[trigger] new[j])
                != row.id by {
                assert(roles[j].id != before[i].id);
            }
            upserting_leaves_others::<RoleRow>(rows, new, row.id);
            assert(old_order.contains(row));
            let m = choose|m: int| 0 <= m < rows.len() && rows[m] == row;
            rows.lemma_filter_contains(has_key::<RoleRow>(row.id), m);
            let hits = rows_with_key::<RoleRow>(all, row.id);
            let h = choose|h: int| 0 <= h < hits.len() && hits[h] == row;
            kept_is_there(all, has_key::<RoleRow>(row.id), h);
            assert(all.contains(row));
            let k = choose|k: int| 0 <= k < order.len() && order[k] == row;
            assert(after[k] == role_of(row));
        }
        assert forall|k: int| 0 <= k < after.len() implies before.contains(#[trigger] after[k])
            || roles.contains(after[k]) by {
            let row = order[k];
            assert(after[k] == role_of(row));
            assert(order.contains(row));
            let m = choose|m: int| 0 <= m < all.len() && all[m] == row;
            upserted_from::<RoleRow>(rows, new, m);
            if rows.contains(row) {
                let i = choose|i: int| 0 <= i < old_order.len() && old_order[i] == row;
                assert(before[i] == role_of(row));
            } else {
                let j = choose|j: int| 0 <= j < new.len() && new[j] == row;
                role_round_trip(roles[j]);
                assert(roles[j] == after[k]);
            }
        }
    } else {
        let before = roles_read(db, None, None)->Ok_0;
        assert forall|i: int| 0 <= i < before.len() implies before.contains(
            #[trigger] before[i],
        ) by {
        }
    }
}

/// The fields of the scrape `scrape_id` among field rows, in order.
pub open spec fn own_fields(rows: Seq<FieldRowView>, scrape_id: i64) -> Seq<FieldView>
    decreases rows.len(),
{
    if rows.len() == 0 {
        Seq::empty()
    } else if rows.last().scrape_id == scrape_id {
        own_fields(rows.drop_last(), scrape_id).push(
            FieldView { name: rows.last().name, value: rows.last().value },
        )
    } else {
        own_fields(rows.drop_last(), scrape_id)
    }
}

proof fn own_fields_are_kept(rows: Seq<FieldRowView>, scrape_id: i64)
    ensures
        rows.filter(belongs_to(scrape_id)).map_values(stored_field()) == own_fields(
            rows,
            scrape_id,
        ),
    decreases rows.len(),
{
    let own = belongs_to(scrape_id);
    if rows.len() == 0 {
        none_kept(rows, own);
        assert(rows.filter(own).map_values(stored_field()) =~= own_fields(rows, scrape_id));
    } else {
        let front = rows.drop_last();
        own_fields_are_kept(front, scrape_id);
        assert(rows =~= front.push(rows.last()));
        filter_push(front, rows.last(), own);
        assert(rows.filter(own).map_values(stored_field()) =~= own_fields(rows, scrape_id));
    }
}

/// Every stored scrape is read as one record, in the order of their rows, with its URL, its time
/// and all its fields in the order of their rows. Reading fails exactly where a table does not
/// exist.
pub proof fn every_scrape_is_read(db: DatabaseView)
    ensures
        match (db.scrapes, db.fields) {
            (None, _) => scrapes_read(db, None) == Err::<Seq<ScrapeRecordView>, StorageError>(
                StorageError::NoSuchTable(TableName::Scrapes),
            ),
            (Some(_), None) => scrapes_read(db, None) == Err::<Seq<ScrapeRecordView>, StorageError>(
                StorageError::NoSuchTable(TableName::Fields),
            ),
            (Some(scrapes), Some(fields)) => scrapes_read(db, None) matches Ok(read) && {
                &&& read.len() == scrapes.rows.len()
                &&& forall|i: int|
                    0 <= i < read.len() ==> {
                        &&& (#[trigger] read[i]).id == scrapes.rows[i].id
                        &&& read[i].url == scrapes.rows[i].url
                        &&& read[i].scraped_at == scrapes.rows[i].scraped_at
                        &&& read[i].fields == own_fields(fields.rows, scrapes.rows[i].id)
                    }
            },
        },
{
    if let (Some(scrapes), Some(fields)) = (db.scrapes, db.fields) {
        all_kept(scrapes.rows, url_asked_for(None));
        let read = scrapes_read(db, None)->Ok_0;
        assert forall|i: int| 0 <= i < read.len() implies (#[trigger] read[i]).fields
            == own_fields(fields.rows, scrapes.rows[i].id) by {
            own_fields_are_kept(fields.rows, scrapes.rows[i].id);
        }
    }
}

/// The roles of the game `game_id` among rows, in order.
pub open spec fn own_rows(rows: Seq<GameRoleRowView>, game_id: i64) -> Seq<GameRoleRowView>
    decreases rows.len(),
{
    if rows.len() == 0 {
        Seq::empty()
    } else if rows.last().game_id == game_id {
        own_rows(rows.drop_last(), game_id).push(rows.last())
    } else {
        own_rows(rows.drop_last(), game_id)
    }
}

proof fn own_rows_are_kept(rows: Seq<GameRoleRowView>, game_id: i64)
    ensures
        rows.filter(is_of_game(game_id)) == own_rows(rows, game_id),
    decreases rows.len(),
{
    if rows.len() == 0 {
        none_kept(rows, is_of_game(game_id));
    } else {
        own_rows_are_kept(rows.drop_last(), game_id);
        assert(rows =~= rows.drop_last().push(rows.last()));
        filter_push(rows.drop_last(), rows.last(), is_of_game(game_id));
    }
}

/// Whether a role of a game shows what the stored roles say of it: the columns of the stored role
/// with its ID, or nothing where there is none.
pub open spec fn shows_details(
    role: GameRoleView,
    role_id: Seq<char>,
    stored: Seq<RoleRowView>,
) -> bool {
    &&& role.role_id == role_id
    &&& (forall|i: int| 0 <= i < stored.len() ==> (#[trigger] stored[i]).id != role_id) ==> role.name
        is None && role.team is None && role.edition is None && role.ability is None
    &&& forall|i: int|
        0 <= i < stored.len() && (#[trigger] stored[i]).id == role_id ==> role.name
            == stored[i].name && role.team == stored[i].team && role.edition == stored[i].edition
            && role.ability == stored[i].ability
}

proof fn details_are_those_stored(role_id: Seq<char>, stored: Seq<RoleRowView>)
    requires
        forall|i: int, j: int|
            0 <= i < j < stored.len() ==> (#[trigger] stored[i]).id != (#[trigger] stored[j]).id,
    ensures
        shows_details(role_details(role_id, stored), role_id, stored),
{
    let wanted = has_key::<RoleRow>(role_id);
    let found = rows_with_key::<RoleRow>(stored, role_id);
    let role = role_details(role_id, stored);
    if forall|i: int| 0 <= i < stored.len() ==> (#[trigger] stored[i]).id != role_id {
        none_kept(stored, wanted);
    }
    assert forall|i: int|
        0 <= i < stored.len() && (#[trigger] stored[i]).id == role_id implies role.name
        == stored[i].name && role.team == stored[i].team && role.edition == stored[i].edition
        && role.ability == stored[i].ability by {
        stored.lemma_filter_contains(wanted, i);
        kept_is_there(stored, wanted, 0);
        let k = choose|k: int| 0 <= k < stored.len() && stored[k] == found[0];
        assert(stored[k].id == role_id);
        assert(k == i);
    }
}

/// Whether a game is what its row says, with its roles by position, each with what the stored
/// roles say of it.
pub open spec fn is_game_of_rows(
    db: DatabaseView,
    row: GameRowView,
    game: GameInstanceView,
) -> bool {
    &&& game.id == row.id
    &&& game.created_at == row.created_at
    &&& exists|order: Seq<GameRoleRowView>|
        {
            &&& (#[trigger] order.to_multiset()) == own_rows(
                db.game_roles->0.rows,
                row.id,
            ).to_multiset()
            &&& order.len() == game.roles.len()
            &&& forall|i: int, j: int|
                0 <= i <= j < order.len() ==> (#[trigger] order[i]).position <= (
                #[trigger] order[j]).position
            &&& forall|i: int|
                0 <= i < order.len() ==> shows_details(
                    #[trigger] game.roles[i],
                    order[i].role_id,
                    db.roles->0,
                )
        }
}

/// A stored game is read with its time and with its roles, each with what the stored roles say
/// of it, by position. None is found under another ID. Reading fails exactly where a table that
/// is needed does not exist.
pub proof fn a_game_is_read_row_by_row(db: DatabaseView, game_id: i64)
    requires
        db.well_formed(),
    ensures
        match db.games {
            None => game_read(db, game_id) is Err && game_read(db, game_id)->Err_0
                == StorageError::NoSuchTable(TableName::Games),
            Some(games) => {
                &&& (forall|k: int| 0 <= k < games.rows.len() ==> (#[trigger] games.rows[k]).id
                    != game_id) ==> game_read(db, game_id) is Ok && game_read(db, game_id)->Ok_0
                    is None
                &&& forall|k: int|
                    0 <= k < games.rows.len() && (#[trigger] games.rows[k]).id == game_id ==> {
                        &&& db.game_roles is None ==> game_read(db, game_id) is Err && game_read(
                            db,
                            game_id,
                        )->Err_0 == StorageError::NoSuchTable(TableName::GameRoles)
                        &&& db.game_roles is Some && db.roles is None ==> game_read(db, game_id)
                            is Err && game_read(db, game_id)->Err_0 == StorageError::NoSuchTable(
                            TableName::Roles,
                        )
                        &&& db.game_roles is Some && db.roles is Some ==> {
                            &&& game_read(db, game_id) is Ok
                            &&& game_read(db, game_id)->Ok_0 is Some
                            &&& is_game_of_rows(
                                db,
                                games.rows[k],
                                game_read(db, game_id)->Ok_0->0,
                            )
                        }
                    }
            },
        },
{
    if let Some(games) = db.games {
        let wanted = has_id::<GameRow>(game_id);
        let found = rows_with_id::<GameRow>(games.rows, game_id);
        if forall|k: int| 0 <= k < games.rows.len() ==> (#[trigger] games.rows[k]).id != game_id {
            none_kept(games.rows, wanted);
        }
        assert forall|k: int|
            0 <= k < games.rows.len() && (#[trigger] games.rows[k]).id == game_id implies {
            &&& found.len() > 0
            &&& found[0].created_at == games.rows[k].created_at
        } by {
            games.rows.lemma_filter_contains(wanted, k);
            kept_is_there(games.rows, wanted, 0);
            let m = choose|m: int| 0 <= m < games.rows.len() && games.rows[m] == found[0];
            if m < k {
                assert(GameRow::id_of(games.rows[m]) < GameRow::id_of(games.rows[k]));
            }
            if k < m {
                assert(GameRow::id_of(games.rows[k]) < GameRow::id_of(games.rows[m]));
            }
        }
        if found.len() > 0 && db.game_roles is Some && db.roles is Some {
            let game = game_read(db, game_id)->Ok_0->0;
            let stored = db.roles->0;
            let own = own_rows(db.game_roles->0.rows, game_id);
            let order = rows_of_game(db.game_roles->0.rows, game_id);
            own_rows_are_kept(db.game_roles->0.rows, game_id);
            ordered_is_in_order::<GameRoleRow>(own);
            assert(order.to_multiset() == own.to_multiset());
            assert forall|i: int, j: int| 0 <= i <= j < order.len() implies (
            #[trigger] order[i]).position <= (#[trigger] order[j]).position by {
                assert(GameRoleRow::le(order[i], order[j]));
            }
            assert forall|i: int, j: int| 0 <= i < j < stored.len() implies (
            #[trigger] stored[i]).id != (#[trigger] stored[j]).id by {
                assert(RoleRow::key_of(stored[i]) != RoleRow::key_of(stored[j]));
            }
            assert forall|i: int| 0 <= i < order.len() implies shows_details(
                #[trigger] game.roles[i],
                order[i].role_id,
                stored,
            ) by {
                details_are_those_stored(order[i].role_id, stored);
            }
        }
    }
}

/// A database is well-formed exactly where each numbered table stands in the order of its row
/// numbers, none of which is larger than the last one given, and no two editions and no two roles
/// have the same ID.
pub proof fn what_is_well_formed(db: DatabaseView)
    ensures
        db.well_formed() <==> {
            &&& db.scrapes is Some ==> 0 <= db.scrapes->0.last_id && (forall|i: int|
                0 <= i < db.scrapes->0.rows.len() ==> (#[trigger] db.scrapes->0.rows[i]).id
                    <= db.scrapes->0.last_id) && forall|i: int, j: int|
                0 <= i < j < db.scrapes->0.rows.len() ==> (#[trigger] db.scrapes->0.rows[i]).id < (
                #[trigger] db.scrapes->0.rows[j]).id
            &&& db.fields is Some ==> 0 <= db.fields->0.last_id && (forall|i: int|
                0 <= i < db.fields->0.rows.len() ==> (#[trigger] db.fields->0.rows[i]).id
                    <= db.fields->0.last_id) && forall|i: int, j: int|
                0 <= i < j < db.fields->0.rows.len() ==> (#[trigger] db.fields->0.rows[i]).id < (
                #[trigger] db.fields->0.rows[j]).id
            &&& db.games is Some ==> 0 <= db.games->0.last_id && (forall|i: int|
                0 <= i < db.games->0.rows.len() ==> (#[trigger] db.games->0.rows[i]).id
                    <= db.games->0.last_id) && forall|i: int, j: int|
                0 <= i < j < db.games->0.rows.len() ==> (#[trigger] db.games->0.rows[i]).id < (
                #[trigger] db.games->0.rows[j]).id
            &&& db.game_roles is Some ==> 0 <= db.game_roles->0.last_id && (forall|i: int|
                0 <= i < db.game_roles->0.rows.len() ==> (#[trigger] db.game_roles->0.rows[i]).id
                    <= db.game_roles->0.last_id) && forall|i: int, j: int|
                0 <= i < j < db.game_roles->0.rows.len() ==> (
                #[trigger] db.game_roles->0.rows[i]).id < (#[trigger] db.game_roles->0.rows[j]).id
            &&& db.editions is Some ==> forall|i: int, j: int|
                0 <= i < j < db.editions->0.len() ==> (#[trigger] db.editions->0[i]).id != (
                #[trigger] db.editions->0[j]).id
            &&& db.roles is Some ==> forall|i: int, j: int|
                0 <= i < j < db.roles->0.len() ==> (#[trigger] db.roles->0[i]).id != (
                #[trigger] db.roles->0[j]).id
        },
{
}

/// Whether there is a scrape with a number.
pub open spec fn some_scrape_has(db: DatabaseView, id: i64) -> bool {
    db.scrapes is Some && exists|j: int|
        0 <= j < db.scrapes->0.rows.len() && id == (#[trigger] db.scrapes->0.rows[j]).id
}

/// Whether there is a game with a number.
pub open spec fn some_game_has(db: DatabaseView, id: i64) -> bool {
    db.games is Some && exists|j: int|
        0 <= j < db.games->0.rows.len() && id == (#[trigger] db.games->0.rows[j]).id
}

/// References hold exactly where every field names the number of a stored scrape, and every role
/// of a game the number of a stored game.
pub proof fn what_references_are(db: DatabaseView)
    ensures
        db.references_hold() <==> {
            &&& match db.fields {
                Some(fields) => forall|i: int|
                    0 <= i < fields.rows.len() ==> some_scrape_has(
                        db,
                        (#[trigger] fields.rows[i]).scrape_id,
                    ),
                None => true,
            }
            &&& match db.game_roles {
                Some(roles) => forall|i: int|
                    0 <= i < roles.rows.len() ==> some_game_has(
                        db,
                        (#[trigger] roles.rows[i]).game_id,
                    ),
                None => true,
            }
        },
{
    assert forall|id: i64| #[trigger] some_scrape_has(db, id) == scrape_exists(db.scrapes, id) by {
        if let Some(scrapes) = db.scrapes {
            if some_scrape_has(db, id) {
                let j = choose|j: int|
                    0 <= j < db.scrapes->0.rows.len() && id == (
                    #[trigger] db.scrapes->0.rows[j]).id;
                assert(scrapes.rows[j].id == id);
            }
            if scrape_exists(db.scrapes, id) {
                let j = choose|j: int|
                    0 <= j < scrapes.rows.len() && (#[trigger] scrapes.rows[j]).id == id;
                assert(id == db.scrapes->0.rows[j].id);
            }
        }
    }
    assert forall|id: i64| #[trigger] some_game_has(db, id) == game_exists(db.games, id) by {
        if let Some(games) = db.games {
            if some_game_has(db, id) {
                let j = choose|j: int|
                    0 <= j < db.games->0.rows.len() && id == (#[trigger] db.games->0.rows[j]).id;
                assert(games.rows[j].id == id);
            }
            if game_exists(db.games, id) {
                let j = choose|j: int|
                    0 <= j < games.rows.len() && (#[trigger] games.rows[j]).id == id;
                assert(id == db.games->0.rows[j].id);
            }
        }
    }
    if let Some(fields) = db.fields {
        assert forall|i: int| 0 <= i < fields.rows.len() implies some_scrape_has(
            db,
            (#[trigger] fields.rows[i]).scrape_id,
        ) == scrape_exists(db.scrapes, fields.rows[i].scrape_id) by {
        }
    }
    if let Some(roles) = db.game_roles {
        assert forall|i: int| 0 <= i < roles.rows.len() implies some_game_has(
            db,
            (#[trigger] roles.rows[i]).game_id,
        ) == game_exists(db.games, roles.rows[i].game_id) by {
        }
    }
}

/// Of the editions whose flag does not fit, the one that comes first by its ID is named.
pub proof fn the_first_misfit_edition_is_named(db: DatabaseView)
    requires
        db.editions is Some,
        editions_read(db) is Err,
    ensures
        exists|i: int|
            0 <= i < db.editions->0.len() && editions_read(db)->Err_0 == (
            StorageError::IntegerOutOfRange {
                column: 4,
                value: (#[trigger] db.editions->0[i]).is_official->0,
            }) && !fits_in_32_bits(db.editions->0[i].is_official) && forall|j: int|
                0 <= j < db.editions->0.len() && !fits_in_32_bits(
                    (#[trigger] db.editions->0[j]).is_official,
                ) ==> text_le(db.editions->0[i].id, db.editions->0[j].id),
{
    let rows = db.editions->0;
    let misfit = edition_misfits();
    let misfits = ordered::<EditionRow>(rows).filter(misfit);
    ordered_then_filtered::<EditionRow>(rows, misfit);
    ordered_is_in_order::<EditionRow>(rows.filter(misfit));
    ordered_has_same_rows::<EditionRow>(rows.filter(misfit));
    let bad = choose|i: int| 0 <= i < rows.len() && !flag_fits((#[trigger] rows[i]).is_official);
    rows.lemma_filter_contains(misfit, bad);
    let at = choose|p: int| 0 <= p < misfits.len() && misfits[p] == rows[bad];
    assert(misfits.contains(misfits[0]));
    let p = choose|p: int| 0 <= p < rows.filter(misfit).len() && rows.filter(misfit)[p]
        == misfits[0];
    kept_is_there(rows, misfit, p);
    let i = choose|i: int| 0 <= i < rows.len() && rows[i] == misfits[0];
    assert forall|j: int|
        0 <= j < rows.len() && !fits_in_32_bits((#[trigger] rows[j]).is_official) implies text_le(
        rows[i].id,
        rows[j].id,
    ) by {
        rows.lemma_filter_contains(misfit, j);
        assert(rows.filter(misfit).contains(rows[j]));
        let q = choose|q: int| 0 <= q < misfits.len() && misfits[q] == rows[j];
        assert(EditionRow::le(misfits[0], misfits[q]));
    }
    assert(!fits_in_32_bits(rows[i].is_official));
}

/// Whether a stored role is of the team and of the edition that are asked for. `None` asks for
/// any.
pub open spec fn row_is_of(
    row: RoleRowView,
    team: Option<Seq<char>>,
    edition: Option<Seq<char>>,
) -> bool {
    &&& team matches Some(text) ==> row.team == Some(text)
    &&& edition matches Some(text) ==> row.edition == Some(text)
}

/// Whether a stored role is among those read.
pub open spec fn row_is_read(row: RoleRowView, read: Seq<RoleView>) -> bool {
    exists|k: int| 0 <= k < read.len() && role_reads(row, #[trigger] read[k])
}

/// Whether a role that was read is one of the stored ones that are asked for.
pub open spec fn role_is_of(
    role: RoleView,
    rows: Seq<RoleRowView>,
    team: Option<Seq<char>>,
    edition: Option<Seq<char>>,
) -> bool {
    exists|i: int|
        0 <= i < rows.len() && row_is_of(rows[i], team, edition) && role_reads(
            #[trigger] rows[i],
            role,
        )
}

/// Whether one of the stored roles that are asked for has this flag, and it does not fit.
pub open spec fn some_flag_misfits(
    rows: Seq<RoleRowView>,
    team: Option<Seq<char>>,
    edition: Option<Seq<char>>,
    value: i64,
) -> bool {
    exists|i: int|
        0 <= i < rows.len() && row_is_of(rows[i], team, edition) && (#[trigger] rows[i]).setup
            == Some(value) && !fits_in_32_bits(Some(value))
}

/// Every stored role of the team and of the edition that are asked for is read, with all its
/// columns, and nothing else is. Reading fails exactly where the table does not exist or the flag
/// of such a role does not fit; other roles are not looked at.
pub proof fn every_role_asked_for_is_read(
    db: DatabaseView,
    team: Option<Seq<char>>,
    edition: Option<Seq<char>>,
)
    ensures
        match db.roles {
            None => roles_read(db, team, edition) == Err::<Seq<RoleView>, StorageError>(
                StorageError::NoSuchTable(TableName::Roles),
            ),
            Some(rows) => match roles_read(db, team, edition) {
                Ok(read) => {
                    &&& forall|i: int|
                        0 <= i < rows.len() && row_is_of(#[trigger] rows[i], team, edition)
                            ==> fits_in_32_bits(rows[i].setup) && row_is_read(rows[i], read)
                    &&& forall|k: int|
                        0 <= k < read.len() ==> role_is_of(
                            #[trigger] read[k],
                            rows,
                            team,
                            edition,
                        )
                },
                Err(error) => error is IntegerOutOfRange && error->column == 6
                    && some_flag_misfits(rows, team, edition, error->value),
            },
        },
{
    if let Some(rows) = db.roles {
        let keep = role_asked_for(team, edition);
        let kept = rows.filter(keep);
        let order = role_rows_asked_for(rows, team, edition);
        ordered_has_same_rows::<RoleRow>(kept);
        match roles_read(db, team, edition) {
            Ok(read) => {
                assert forall|i: int|
                    0 <= i < rows.len() && row_is_of(
                        #[trigger] rows[i],
                        team,
                        edition,
                    ) implies fits_in_32_bits(rows[i].setup) && row_is_read(rows[i], read) by {
                    rows.lemma_filter_contains(keep, i);
                    assert(kept.contains(rows[i]));
                    let k = choose|k: int| 0 <= k < order.len() && order[k] == rows[i];
                    assert(flag_fits(order[k].setup));
                    assert(read[k] == role_of(order[k]));
                    assert(role_reads(rows[i], read[k]));
                }
                assert forall|k: int| 0 <= k < read.len() implies role_is_of(
                    #[trigger] read[k],
                    rows,
                    team,
                    edition,
                ) by {
                    assert(order.contains(order[k]));
                    let p = choose|p: int| 0 <= p < kept.len() && kept[p] == order[k];
                    kept_is_there(rows, keep, p);
                    let i = choose|i: int| 0 <= i < rows.len() && rows[i] == order[k];
                    assert(row_is_of(rows[i], team, edition));
                    assert(read[k] == role_of(order[k]));
                    assert(role_reads(rows[i], read[k]));
                }
            },
            Err(error) => {
                let at = choose|k: int|
                    0 <= k < order.len() && !flag_fits((#[trigger] order[k]).setup);
                let misfits = order.filter(role_misfits());
                order.lemma_filter_contains(role_misfits(), at);
                kept_is_there(order, role_misfits(), 0);
                assert(order.contains(misfits[0]));
                let p = choose|p: int| 0 <= p < kept.len() && kept[p] == misfits[0];
                kept_is_there(rows, keep, p);
                let i = choose|i: int| 0 <= i < rows.len() && rows[i] == misfits[0];
                assert(keep(rows[i]));
                assert(row_is_of(rows[i], team, edition));
                assert(!fits_in_32_bits(rows[i].setup));
                assert(error == (StorageError::IntegerOutOfRange {
                    column: 6,
                    value: rows[i].setup->0,
                }));
            },
        }
    }
}

} // verus!
