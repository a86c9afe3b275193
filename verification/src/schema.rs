//! Creating the tables.

use crate::storage_laws::schema_keeps_invariants;
use crate::tables::{keeps_invariants, Database, DatabaseView, Numbered, NumberedView};
use vstd::prelude::*;

verus! {

/// A numbered table, created if it does not exist yet.
pub open spec fn numbered_or_new<V>(table: Option<NumberedView<V>>) -> Option<NumberedView<V>> {
    match table {
        Some(table) => Some(table),
        None => Some(NumberedView { last_id: 0, rows: Seq::empty() }),
    }
}

/// A keyed table, created if it does not exist yet.
pub open spec fn keyed_or_new<V>(rows: Option<Seq<V>>) -> Option<Seq<V>> {
    match rows {
        Some(rows) => Some(rows),
        None => Some(Seq::empty()),
    }
}

/// `db` with every table that did not exist yet created, and empty.
pub open spec fn initialised(db: DatabaseView) -> DatabaseView {
    DatabaseView {
        scrapes: numbered_or_new(db.scrapes),
        fields: numbered_or_new(db.fields),
        editions: keyed_or_new(db.editions),
        roles: keyed_or_new(db.roles),
        games: numbered_or_new(db.games),
        game_roles: numbered_or_new(db.game_roles),
    }
}

/// A numbered table without rows.
fn new_numbered<R: DeepView>() -> (table: Option<Numbered<R>>)
    ensures
        table.deep_view() == numbered_or_new::<R::V>(None),
{
    let table: Numbered<R> = Numbered { last_id: 0, rows: Vec::new() };
    assert(table.deep_view().rows =~= Seq::empty());
    Some(table)
}

/// A keyed table without rows.
fn new_keyed<R: DeepView>() -> (rows: Option<Vec<R>>)
    ensures
        rows.deep_view() == keyed_or_new::<R::V>(None),
{
    let rows: Vec<R> = Vec::new();
    assert(rows.deep_view() =~= Seq::empty());
    Some(rows)
}

/// Creates all tables that do not exist yet. What is stored stays as it is, so this is safe
/// to call on every startup.
pub fn init_schema(db: &mut Database)
    ensures
        final(db).deep_view() == initialised(old(db).deep_view()),
        keeps_invariants(old(db).deep_view(), final(db).deep_view()),
{
    proof {
        if db.deep_view().well_formed() {
            schema_keeps_invariants(db.deep_view());
        }
    }
    if db.scrapes.is_none() {
        db.scrapes = new_numbered();
    }
    if db.fields.is_none() {
        db.fields = new_numbered();
    }
    if db.editions.is_none() {
        db.editions = new_keyed();
    }
    if db.roles.is_none() {
        db.roles = new_keyed();
    }
    if db.games.is_none() {
        db.games = new_numbered();
    }
    if db.game_roles.is_none() {
        db.game_roles = new_numbered();
    }
}

} // verus!
