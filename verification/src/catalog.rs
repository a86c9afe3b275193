//! The catalog: the editions and roles of the game, stored and read back.

use crate::models::{Edition, EditionView, Role, RoleView};
use crate::order::{filter_push, first_kept, ordered, ordered_has_same_rows, place, Ordered};
use crate::storage_laws::{storing_editions_keeps_invariants, storing_roles_keeps_invariants};
use crate::tables::{
    keeps_invariants, lacks_key, result_view, Database, DatabaseView, EditionRow, EditionRowView,
    KeyedRow, RoleRow, RoleRowView, StorageError, TableName,
};
use crate::text::{
    optional_text_le, optional_text_le_antisymmetric, optional_text_le_total,
    optional_text_le_transitive, optional_text_not_after, same_optional_text, same_text, text_le,
    text_le_total, text_le_transitive, text_not_after,
};
use vstd::prelude::*;

verus! {

/// A flag as it is stored: one for true, zero for false.
pub open spec fn flag_column(flag: Option<bool>) -> Option<i64> {
    match flag {
        Some(true) => Some(1),
        Some(false) => Some(0),
        None => None,
    }
}

/// A stored flag: zero is false, anything else is true.
pub open spec fn flag_of(column: Option<i64>) -> Option<bool> {
    match column {
        Some(value) => Some(value != 0),
        None => None,
    }
}

/// Whether a stored flag fits the 32 bits that it is read into.
pub open spec fn flag_fits(column: Option<i64>) -> bool {
    column matches Some(value) ==> i32::MIN <= value <= i32::MAX
}

/// Turns a flag into what is stored.
pub fn write_flag(flag: Option<bool>) -> (column: Option<i64>)
    ensures
        column == flag_column(flag),
{
    match flag {
        Some(true) => Some(1),
        Some(false) => Some(0),
        None => None,
    }
}

/// Reads a stored flag, which stands in the column number `column`.
pub fn read_flag(stored: Option<i64>, column: u64) -> (flag: Result<Option<bool>, StorageError>)
    ensures
        flag == (if flag_fits(stored) {
            Ok(flag_of(stored))
        } else {
            Err(StorageError::IntegerOutOfRange { column, value: stored->0 })
        }),
{
    match stored {
        Some(value) => {
            if value < i32::MIN as i64 || value > i32::MAX as i64 {
                Err(StorageError::IntegerOutOfRange { column, value })
            } else {
                Ok(Some(value != 0))
            }
        },
        None => Ok(None),
    }
}

/// The rows whose key is not `key`.
pub open spec fn without_key<R: KeyedRow>(rows: Seq<R::V>, key: Seq<char>) -> Seq<R::V> {
    rows.filter(lacks_key::<R>(key))
}

/// `rows` with one more row at the end, which takes the place of the one with its key.
pub open spec fn replaced<R: KeyedRow>(rows: Seq<R::V>, row: R::V) -> Seq<R::V> {
    without_key::<R>(rows, R::key_of(row)).push(row)
}

/// `rows` after each of the `new` rows has been put in, one after the other.
pub open spec fn upserted<R: KeyedRow>(rows: Seq<R::V>, new: Seq<R::V>) -> Seq<R::V>
    decreases new.len(),
{
    if new.len() == 0 {
        rows
    } else {
        replaced::<R>(upserted::<R>(rows, new.drop_last()), new.last())
    }
}

/// Removes the rows with the key `key`.
fn remove_key<R: KeyedRow>(rows: &mut Vec<R>, key: &str)
    ensures
        final(rows).deep_view() == without_key::<R>(old(rows).deep_view(), key@),
{
    let ghost all = rows.deep_view();
    let ghost keep = lacks_key::<R>(key@);
    let ghost mut done: int = 0;
    let mut i: usize = 0;
    assert(all.take(0).filter(keep) =~= Seq::empty()) by {
        reveal(Seq::filter);
    }
    assert(all.take(0).filter(keep) + all.skip(0) =~= all);
    while i < rows.len()
        invariant
            keep == lacks_key::<R>(key@),
            0 <= done <= all.len(),
            i == all.take(done).filter(keep).len(),
            rows.deep_view() == all.take(done).filter(keep) + all.skip(done),
            rows.len() == i + all.len() - done,
        decreases all.len() - done,
    {
        let ghost kept = all.take(done).filter(keep);
        assert(rows.deep_view()[i as int] == all[done]);
        assert(rows@[i as int].deep_view() == all[done]);
        assert(all.take(done + 1) =~= all.take(done).push(all[done]));
        proof {
            filter_push(all.take(done), all[done], keep);
        }
        if same_text(rows[i].key(), key) {
            let ghost before = rows.deep_view();
            rows.remove(i);
            assert(rows.deep_view() =~= before.remove(i as int));
            assert(rows.deep_view() =~= kept + all.skip(done + 1));
        } else {
            i = i + 1;
            assert(kept.push(all[done]) + all.skip(done + 1) =~= kept + all.skip(done));
        }
        proof {
            done = done + 1;
        }
    }
    assert(all.take(done) =~= all);
    assert(all.take(done).filter(keep) + all.skip(done) =~= all.filter(keep));
}

/// Puts a row into a keyed table, in place of the one with its key.
fn upsert_row<R: KeyedRow>(rows: &mut Vec<R>, row: R)
    ensures
        final(rows).deep_view() == replaced::<R>(old(rows).deep_view(), row.deep_view()),
{
    remove_key(rows, row.key());
    let ghost kept = rows.deep_view();
    rows.push(row);
    assert(rows.deep_view() =~= kept.push(row.deep_view()));
}

/// An edition as it is stored.
pub open spec fn edition_row(edition: EditionView) -> EditionRowView {
    EditionRowView {
        id: edition.id,
        name: edition.name,
        color: edition.color,
        level: edition.level,
        is_official: flag_column(edition.is_official),
    }
}

/// A role as it is stored.
pub open spec fn role_row(role: RoleView) -> RoleRowView {
    RoleRowView {
        id: role.id,
        name: role.name,
        team: role.team,
        edition: role.edition,
        ability: role.ability,
        flavor: role.flavor,
        setup: flag_column(role.setup),
        first_night_reminder: role.first_night_reminder,
        other_night_reminder: role.other_night_reminder,
    }
}

/// Editions as they are stored.
pub open spec fn edition_rows(editions: Seq<EditionView>) -> Seq<EditionRowView> {
    Seq::new(editions.len(), |i: int| edition_row(editions[i]))
}

/// Roles as they are stored.
pub open spec fn role_rows(roles: Seq<RoleView>) -> Seq<RoleRowView> {
    Seq::new(roles.len(), |i: int| role_row(roles[i]))
}

/// What storing editions returns, and the database after it. Each edition takes the place of
/// the stored one with its ID.
pub open spec fn editions_upserted(db: DatabaseView, editions: Seq<EditionView>) -> (
    Result<usize, StorageError>,
    DatabaseView,
) {
    if editions.len() == 0 {
        (Ok(0), db)
    } else {
        match db.editions {
            None => (Err(StorageError::NoSuchTable(TableName::Editions)), db),
            Some(rows) => (
                Ok(editions.len() as usize),
                DatabaseView {
                    editions: Some(upserted::<EditionRow>(rows, edition_rows(editions))),
                    ..db
                },
            ),
        }
    }
}

/// What storing roles returns, and the database after it. Each role takes the place of the
/// stored one with its ID.
pub open spec fn roles_upserted(db: DatabaseView, roles: Seq<RoleView>) -> (
    Result<usize, StorageError>,
    DatabaseView,
) {
    if roles.len() == 0 {
        (Ok(0), db)
    } else {
        match db.roles {
            None => (Err(StorageError::NoSuchTable(TableName::Roles)), db),
            Some(rows) => (
                Ok(roles.len() as usize),
                DatabaseView {
                    roles: Some(upserted::<RoleRow>(rows, role_rows(roles))),
                    ..db
                },
            ),
        }
    }
}

/// Stores editions. Returns how many were written.
pub fn upsert_editions(db: &mut Database, editions: &[Edition]) -> (written: Result<
    usize,
    StorageError,
>)
    ensures
        (written, final(db).deep_view()) == editions_upserted(
            old(db).deep_view(),
            editions.deep_view(),
        ),
        keeps_invariants(old(db).deep_view(), final(db).deep_view()),
{
    proof {
        if db.deep_view().well_formed() {
            storing_editions_keeps_invariants(db.deep_view(), editions.deep_view());
        }
    }
    if editions.len() == 0 {
        return Ok(0);
    }
    match &mut db.editions {
        None => Err(StorageError::NoSuchTable(TableName::Editions)),
        Some(rows) => {
            let ghost before = rows.deep_view();
            let ghost new = edition_rows(editions.deep_view());
            let mut count: usize = 0;
            while count < editions.len()
                invariant
                    count <= editions.len(),
                    new == edition_rows(editions.deep_view()),
                    rows.deep_view() == upserted::<EditionRow>(before, new.take(count as int)),
                decreases editions.len() - count,
            {
                let edition = &editions[count];
                let row = EditionRow {
                    id: edition.id.clone(),
                    name: edition.name.clone(),
                    color: edition.color.clone(),
                    level: edition.level.clone(),
                    is_official: write_flag(edition.is_official),
                };
                assert(row.deep_view() =~= new[count as int]);
                upsert_row(rows, row);
                assert(new.take(count + 1).drop_last() =~= new.take(count as int));
                count = count + 1;
            }
            assert(new.take(count as int) =~= new);
            Ok(count)
        },
    }
}

/// Stores roles. Returns how many were written.
pub fn upsert_roles(db: &mut Database, roles: &[Role]) -> (written: Result<usize, StorageError>)
    ensures
        (written, final(db).deep_view()) == roles_upserted(old(db).deep_view(), roles.deep_view()),
        keeps_invariants(old(db).deep_view(), final(db).deep_view()),
{
    proof {
        if db.deep_view().well_formed() {
            storing_roles_keeps_invariants(db.deep_view(), roles.deep_view());
        }
    }
    if roles.len() == 0 {
        return Ok(0);
    }
    match &mut db.roles {
        None => Err(StorageError::NoSuchTable(TableName::Roles)),
        Some(rows) => {
            let ghost before = rows.deep_view();
            let ghost new = role_rows(roles.deep_view());
            let mut count: usize = 0;
            while count < roles.len()
                invariant
                    count <= roles.len(),
                    new == role_rows(roles.deep_view()),
                    rows.deep_view() == upserted::<RoleRow>(before, new.take(count as int)),
                decreases roles.len() - count,
            {
                let role = &roles[count];
                let row = RoleRow {
                    id: role.id.clone(),
                    name: role.name.clone(),
                    team: role.team.clone(),
                    edition: role.edition.clone(),
                    ability: role.ability.clone(),
                    flavor: role.flavor.clone(),
                    setup: write_flag(role.setup),
                    first_night_reminder: role.first_night_reminder.clone(),
                    other_night_reminder: role.other_night_reminder.clone(),
                };
                assert(row.deep_view() =~= new[count as int]);
                upsert_row(rows, row);
                assert(new.take(count + 1).drop_last() =~= new.take(count as int));
                count = count + 1;
            }
            assert(new.take(count as int) =~= new);
            Ok(count)
        },
    }
}

impl Ordered for EditionRow {
    /// Editions are listed by ID.
    open spec fn le(a: EditionRowView, b: EditionRowView) -> bool {
        text_le(a.id, b.id)
    }

    proof fn le_total(a: EditionRowView, b: EditionRowView) {
        text_le_total(a.id, b.id);
    }

    proof fn le_transitive(a: EditionRowView, b: EditionRowView, c: EditionRowView) {
        text_le_transitive(a.id, b.id, c.id);
    }

    fn not_after(&self, other: &Self) -> (answer: bool) {
        text_not_after(self.id.as_str(), other.id.as_str())
    }
}

impl Ordered for RoleRow {
    /// Roles are listed by team, and within a team by name. An absent team or name comes
    /// first.
    open spec fn le(a: RoleRowView, b: RoleRowView) -> bool {
        if a.team == b.team {
            optional_text_le(a.name, b.name)
        } else {
            optional_text_le(a.team, b.team)
        }
    }

    proof fn le_total(a: RoleRowView, b: RoleRowView) {
        optional_text_le_total(a.team, b.team);
        optional_text_le_total(a.name, b.name);
    }

    proof fn le_transitive(a: RoleRowView, b: RoleRowView, c: RoleRowView) {
        if a.team == b.team && b.team == c.team {
            optional_text_le_transitive(a.name, b.name, c.name);
        } else if a.team != b.team && b.team != c.team {
            optional_text_le_transitive(a.team, b.team, c.team);
            if a.team == c.team {
                optional_text_le_antisymmetric(a.team, b.team);
            }
        }
    }

    fn not_after(&self, other: &Self) -> (answer: bool) {
        if same_optional_text(&self.team, &other.team) {
            optional_text_not_after(&self.name, &other.name)
        } else {
            optional_text_not_after(&self.team, &other.team)
        }
    }
}

/// A stored edition.
pub open spec fn edition_of(row: EditionRowView) -> EditionView {
    EditionView {
        id: row.id,
        name: row.name,
        color: row.color,
        level: row.level,
        is_official: flag_of(row.is_official),
    }
}

/// A stored role.
pub open spec fn role_of(row: RoleRowView) -> RoleView {
    RoleView {
        id: row.id,
        name: row.name,
        team: row.team,
        edition: row.edition,
        ability: row.ability,
        flavor: row.flavor,
        setup: flag_of(row.setup),
        first_night_reminder: row.first_night_reminder,
        other_night_reminder: row.other_night_reminder,
    }
}

/// Reading an edition off its row.
pub open spec fn reading_edition() -> spec_fn(EditionRowView) -> EditionView {
    |row: EditionRowView| edition_of(row)
}

/// Reading a role off its row.
pub open spec fn reading_role() -> spec_fn(RoleRowView) -> RoleView {
    |row: RoleRowView| role_of(row)
}

/// Having a flag that does not fit.
pub open spec fn edition_misfits() -> spec_fn(EditionRowView) -> bool {
    |row: EditionRowView| !flag_fits(row.is_official)
}

/// Having a flag that does not fit.
pub open spec fn role_misfits() -> spec_fn(RoleRowView) -> bool {
    |row: RoleRowView| !flag_fits(row.setup)
}

/// The stored editions, by ID. The first flag that does not fit is an error.
pub open spec fn editions_read(db: DatabaseView) -> Result<Seq<EditionView>, StorageError> {
    match db.editions {
        None => Err(StorageError::NoSuchTable(TableName::Editions)),
        Some(rows) => if forall|i: int|
            0 <= i < rows.len() ==> flag_fits((#[trigger] rows[i]).is_official) {
            Ok(ordered::<EditionRow>(rows).map_values(reading_edition()))
        } else {
            Err(
                StorageError::IntegerOutOfRange {
                    column: 4,
                    value: ordered::<EditionRow>(rows).filter(
                        edition_misfits(),
                    )[0].is_official->0,
                },
            )
        },
    }
}

/// Being asked for: `None` for the team or the edition asks for any.
pub open spec fn role_asked_for(
    team: Option<Seq<char>>,
    edition: Option<Seq<char>>,
) -> spec_fn(RoleRowView) -> bool {
    |row: RoleRowView|
        (team is Some ==> row.team == team) && (edition is Some ==> row.edition == edition)
}

/// The rows of the roles that are asked for, by team and then by name.
pub open spec fn role_rows_asked_for(
    rows: Seq<RoleRowView>,
    team: Option<Seq<char>>,
    edition: Option<Seq<char>>,
) -> Seq<RoleRowView> {
    ordered::<RoleRow>(rows.filter(role_asked_for(team, edition)))
}

/// The stored roles of a team and of an edition, by team and then by name. The first flag that
/// does not fit is an error.
pub open spec fn roles_read(
    db: DatabaseView,
    team: Option<Seq<char>>,
    edition: Option<Seq<char>>,
) -> Result<Seq<RoleView>, StorageError> {
    match db.roles {
        None => Err(StorageError::NoSuchTable(TableName::Roles)),
        Some(rows) => {
            let asked_for = role_rows_asked_for(rows, team, edition);
            if forall|i: int|
                0 <= i < asked_for.len() ==> flag_fits((#[trigger] asked_for[i]).setup) {
                Ok(asked_for.map_values(reading_role()))
            } else {
                Err(
                    StorageError::IntegerOutOfRange {
                        column: 6,
                        value: asked_for.filter(role_misfits())[0].setup->0,
                    },
                )
            }
        },
    }
}

/// Reads an edition off its row.
fn read_edition(row: &EditionRow) -> (edition: Result<Edition, StorageError>)
    ensures
        match edition {
            Ok(edition) => flag_fits(row.is_official) && edition.deep_view() == edition_of(
                row.deep_view(),
            ),
            Err(error) => !flag_fits(row.is_official) && error == (
            StorageError::IntegerOutOfRange { column: 4, value: row.is_official->0 }),
        },
{
    match read_flag(row.is_official, 4) {
        Err(error) => Err(error),
        Ok(is_official) => Ok(
            Edition {
                id: row.id.clone(),
                name: row.name.clone(),
                color: row.color.clone(),
                level: row.level.clone(),
                is_official,
            },
        ),
    }
}

/// Reads a role off its row.
fn read_role(row: &RoleRow) -> (role: Result<Role, StorageError>)
    ensures
        match role {
            Ok(role) => flag_fits(row.setup) && role.deep_view() == role_of(row.deep_view()),
            Err(error) => !flag_fits(row.setup) && error == (StorageError::IntegerOutOfRange {
                column: 6,
                value: row.setup->0,
            }),
        },
{
    match read_flag(row.setup, 6) {
        Err(error) => Err(error),
        Ok(setup) => Ok(
            Role {
                id: row.id.clone(),
                name: row.name.clone(),
                team: row.team.clone(),
                edition: row.edition.clone(),
                ability: row.ability.clone(),
                flavor: row.flavor.clone(),
                setup,
                first_night_reminder: row.first_night_reminder.clone(),
                other_night_reminder: row.other_night_reminder.clone(),
            },
        ),
    }
}

/// Retrieves all stored editions, ordered by ID.
pub fn get_editions(db: &Database) -> (editions: Result<Vec<Edition>, StorageError>)
    ensures
        result_view(editions) == editions_read(db.deep_view()),
{
    match &db.editions {
        None => Err(StorageError::NoSuchTable(TableName::Editions)),
        Some(rows) => {
            let ghost all = rows.deep_view();
            let mut sorted: Vec<EditionRow> = Vec::new();
            let mut i: usize = 0;
            assert(sorted.deep_view() =~= ordered::<EditionRow>(all.take(0)));
            while i < rows.len()
                invariant
                    i <= rows.len(),
                    all == rows.deep_view(),
                    sorted.deep_view() == ordered::<EditionRow>(all.take(i as int)),
                decreases rows.len() - i,
            {
                place(&mut sorted, rows[i].clone());
                assert(all.take(i + 1).drop_last() =~= all.take(i as int));
                i = i + 1;
            }
            assert(all.take(i as int) =~= all);
            let ghost order = ordered::<EditionRow>(all);
            let mut editions: Vec<Edition> = Vec::new();
            let mut j: usize = 0;
            proof {
                ordered_has_same_rows::<EditionRow>(all);
            }
            while j < sorted.len()
                invariant
                    j <= sorted.len(),
                    all == rows.deep_view(),
                    db.deep_view().editions == Some(all),
                    order == ordered::<EditionRow>(all),
                    order == sorted.deep_view(),
                    forall|row: EditionRowView|
                        #![trigger all.contains(row)]
                        #![trigger order.contains(row)]
                        all.contains(row) <==> order.contains(row),
                    forall|k: int| 0 <= k < j ==> flag_fits((#[trigger] order[k]).is_official),
                    editions.deep_view() == order.take(j as int).map_values(reading_edition()),
                decreases sorted.len() - j,
            {
                let row = &sorted[j];
                assert(row.deep_view() == order[j as int]);
                match read_edition(row) {
                    Err(error) => {
                        assert(order.contains(order[j as int]));
                        let ghost k = choose|k: int| 0 <= k < all.len() && all[k] == order[j as int];
                        assert(!flag_fits(all[k].is_official));
                        proof {
                            first_kept(order, edition_misfits(), j as int);
                        }
                        return Err(error);
                    },
                    Ok(edition) => {
                        let ghost before = editions.deep_view();
                        editions.push(edition);
                        assert(editions.deep_view() =~= before.push(edition_of(order[j as int])));
                        assert(order.take(j + 1) =~= order.take(j as int).push(order[j as int]));
                        assert(editions.deep_view() =~= order.take(j + 1).map_values(reading_edition()));
                    },
                }
                j = j + 1;
            }
            assert(order.take(j as int) =~= order);
            assert forall|k: int| 0 <= k < all.len() implies flag_fits(
                (#[trigger] all[k]).is_official,
            ) by {
                assert(all.contains(all[k]));
                let m = choose|m: int| 0 <= m < order.len() && order[m] == all[k];
                assert(flag_fits(order[m].is_official));
            }
            Ok(editions)
        },
    }
}

/// Retrieves roles, optionally only those of one team, of one edition, or of both. They are
/// ordered by team and then by name.
pub fn get_roles(db: &Database, team: Option<&str>, edition: Option<&str>) -> (roles: Result<
    Vec<Role>,
    StorageError,
>)
    ensures
        result_view(roles) == roles_read(db.deep_view(), team.deep_view(), edition.deep_view()),
{
    match &db.roles {
        None => Err(StorageError::NoSuchTable(TableName::Roles)),
        Some(rows) => {
            let ghost all = rows.deep_view();
            let ghost keep = role_asked_for(team.deep_view(), edition.deep_view());
            let mut sorted: Vec<RoleRow> = Vec::new();
            let mut i: usize = 0;
            assert(all.take(0).filter(keep) =~= Seq::empty()) by {
                reveal(Seq::filter);
            }
            assert(sorted.deep_view() =~= ordered::<RoleRow>(all.take(0).filter(keep)));
            while i < rows.len()
                invariant
                    i <= rows.len(),
                    all == rows.deep_view(),
                    keep == role_asked_for(team.deep_view(), edition.deep_view()),
                    sorted.deep_view() == ordered::<RoleRow>(all.take(i as int).filter(keep)),
                decreases rows.len() - i,
            {
                let row = &rows[i];
                assert(row.deep_view() == all[i as int]);
                assert(all.take(i + 1) =~= all.take(i as int).push(all[i as int]));
                proof {
                    filter_push(all.take(i as int), all[i as int], keep);
                }
                if is_asked_for(&row.team, team) && is_asked_for(&row.edition, edition) {
                    place(&mut sorted, row.clone());
                    let ghost kept = all.take(i as int).filter(keep);
                    assert(kept.push(all[i as int]).drop_last() =~= kept);
                }
                i = i + 1;
            }
            assert(all.take(i as int) =~= all);
            let ghost order = role_rows_asked_for(all, team.deep_view(), edition.deep_view());
            let mut roles: Vec<Role> = Vec::new();
            let mut j: usize = 0;
            while j < sorted.len()
                invariant
                    j <= sorted.len(),
                    db.deep_view().roles == Some(all),
                    order == role_rows_asked_for(all, team.deep_view(), edition.deep_view()),
                    order == sorted.deep_view(),
                    forall|k: int| 0 <= k < j ==> flag_fits((#[trigger] order[k]).setup),
                    roles.deep_view() == order.take(j as int).map_values(reading_role()),
                decreases sorted.len() - j,
            {
                let row = &sorted[j];
                assert(row.deep_view() == order[j as int]);
                match read_role(row) {
                    Err(error) => {
                        assert(!flag_fits(order[j as int].setup));
                        proof {
                            first_kept(order, role_misfits(), j as int);
                        }
                        return Err(error);
                    },
                    Ok(role) => {
                        let ghost before = roles.deep_view();
                        roles.push(role);
                        assert(roles.deep_view() =~= before.push(role_of(order[j as int])));
                        assert(order.take(j + 1) =~= order.take(j as int).push(order[j as int]));
                        assert(roles.deep_view() =~= order.take(j + 1).map_values(reading_role()));
                    },
                }
                j = j + 1;
            }
            assert(order.take(j as int) =~= order);
            Ok(roles)
        },
    }
}

/// Whether what is stored is what is asked for: `None` asks for anything.
fn is_asked_for(stored: &Option<String>, asked_for: Option<&str>) -> (answer: bool)
    ensures
        answer == (asked_for is Some ==> stored.deep_view() == asked_for.deep_view()),
{
    match asked_for {
        None => true,
        Some(wanted) => match stored {
            None => false,
            Some(text) => same_text(text.as_str(), wanted),
        },
    }
}

} // verus!
