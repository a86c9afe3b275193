//! The tables that are kept, as plain values.
//!
//! ```text
//! scrapes     one row per scrape job (url, timestamp)
//! fields      name/value pairs extracted by a scrape
//! editions    editions, keyed by a short ID
//! roles       character roles, keyed by ID
//! games       game sessions
//! game_roles  the roles of each game, in order
//! ```
//!
//! `scrapes`, `fields`, `games` and `game_roles` number their rows: a new row gets a number
//! that the table never used before.

use crate::order::{first_kept, none_kept};
use crate::text::same_text;
use vstd::prelude::*;

verus! {

/// The tables by name.
#[derive(Debug, Clone, Copy, PartialEq, Eq, Structural)]
pub enum TableName {
    Scrapes,
    Fields,
    Editions,
    Roles,
    Games,
    GameRoles,
}

/// Why a storage operation failed.
#[derive(Debug, Clone, Copy, PartialEq, Eq, Structural)]
pub enum StorageError {
    /// The table does not exist.
    NoSuchTable(TableName),
    /// The table has used up its row numbers.
    IdsExhausted(TableName),
    /// A stored number does not fit the 32 bits that it is read into. The column is its place
    /// in the row, from zero on.
    IntegerOutOfRange { column: u64, value: i64 },
}

/// What a storage operation gave, as plain values.
pub open spec fn result_view<T: DeepView>(result: Result<T, StorageError>) -> Result<
    T::V,
    StorageError,
> {
    match result {
        Ok(value) => Ok(value.deep_view()),
        Err(error) => Err(error),
    }
}

/// A row of `scrapes`: one scrape job.
#[derive(Debug)]
pub struct ScrapeRow {
    pub id: i64,
    pub url: String,
    pub scraped_at: String,
}

/// What a [`ScrapeRow`] holds.
#[verifier::ext_equal]
pub struct ScrapeRowView {
    pub id: i64,
    pub url: Seq<char>,
    pub scraped_at: Seq<char>,
}

impl DeepView for ScrapeRow {
    type V = ScrapeRowView;

    open spec fn deep_view(&self) -> ScrapeRowView {
        ScrapeRowView {
            id: self.id.deep_view(),
            url: self.url.deep_view(),
            scraped_at: self.scraped_at.deep_view(),
        }
    }
}

/// A row of `fields`: one name and value extracted by a scrape.
#[derive(Debug)]
pub struct FieldRow {
    pub id: i64,
    /// The `id` of the scrape that the field belongs to.
    pub scrape_id: i64,
    pub name: String,
    pub value: String,
}

/// What a [`FieldRow`] holds.
#[verifier::ext_equal]
pub struct FieldRowView {
    pub id: i64,
    pub scrape_id: i64,
    pub name: Seq<char>,
    pub value: Seq<char>,
}

impl DeepView for FieldRow {
    type V = FieldRowView;

    open spec fn deep_view(&self) -> FieldRowView {
        FieldRowView {
            id: self.id.deep_view(),
            scrape_id: self.scrape_id.deep_view(),
            name: self.name.deep_view(),
            value: self.value.deep_view(),
        }
    }
}

/// A row of `editions`, keyed by its `id`.
#[derive(Debug)]
pub struct EditionRow {
    pub id: String,
    pub name: Option<String>,
    pub color: Option<String>,
    pub level: Option<String>,
    /// A flag as a number: zero is false, anything else is true.
    pub is_official: Option<i64>,
}

/// What a [`EditionRow`] holds.
#[verifier::ext_equal]
pub struct EditionRowView {
    pub id: Seq<char>,
    pub name: Option<Seq<char>>,
    pub color: Option<Seq<char>>,
    pub level: Option<Seq<char>>,
    pub is_official: Option<i64>,
}

impl DeepView for EditionRow {
    type V = EditionRowView;

    open spec fn deep_view(&self) -> EditionRowView {
        EditionRowView {
            id: self.id.deep_view(),
            name: self.name.deep_view(),
            color: self.color.deep_view(),
            level: self.level.deep_view(),
            is_official: self.is_official.deep_view(),
        }
    }
}

impl Clone for EditionRow {
    fn clone(&self) -> (copy: Self)
        ensures
            copy.deep_view() == self.deep_view(),
    {
        EditionRow {
            id: self.id.clone(),
            name: self.name.clone(),
            color: self.color.clone(),
            level: self.level.clone(),
            is_official: self.is_official,
        }
    }
}

/// A row of `roles`, keyed by its `id`.
#[derive(Debug)]
pub struct RoleRow {
    pub id: String,
    pub name: Option<String>,
    pub team: Option<String>,
    pub edition: Option<String>,
    pub ability: Option<String>,
    pub flavor: Option<String>,
    /// A flag as a number: zero is false, anything else is true.
    pub setup: Option<i64>,
    pub first_night_reminder: Option<String>,
    pub other_night_reminder: Option<String>,
}

/// What a [`RoleRow`] holds.
#[verifier::ext_equal]
pub struct RoleRowView {
    pub id: Seq<char>,
    pub name: Option<Seq<char>>,
    pub team: Option<Seq<char>>,
    pub edition: Option<Seq<char>>,
    pub ability: Option<Seq<char>>,
    pub flavor: Option<Seq<char>>,
    pub setup: Option<i64>,
    pub first_night_reminder: Option<Seq<char>>,
    pub other_night_reminder: Option<Seq<char>>,
}

impl DeepView for RoleRow {
    type V = RoleRowView;

    open spec fn deep_view(&self) -> RoleRowView {
        RoleRowView {
            id: self.id.deep_view(),
            name: self.name.deep_view(),
            team: self.team.deep_view(),
            edition: self.edition.deep_view(),
            ability: self.ability.deep_view(),
            flavor: self.flavor.deep_view(),
            setup: self.setup.deep_view(),
            first_night_reminder: self.first_night_reminder.deep_view(),
            other_night_reminder: self.other_night_reminder.deep_view(),
        }
    }
}

impl Clone for RoleRow {
    fn clone(&self) -> (copy: Self)
        ensures
            copy.deep_view() == self.deep_view(),
    {
        RoleRow {
            id: self.id.clone(),
            name: self.name.clone(),
            team: self.team.clone(),
            edition: self.edition.clone(),
            ability: self.ability.clone(),
            flavor: self.flavor.clone(),
            setup: self.setup,
            first_night_reminder: self.first_night_reminder.clone(),
            other_night_reminder: self.other_night_reminder.clone(),
        }
    }
}

/// A row of `games`: one game session.
#[derive(Debug)]
pub struct GameRow {
    pub id: i64,
    pub created_at: String,
}

/// What a [`GameRow`] holds.
#[verifier::ext_equal]
pub struct GameRowView {
    pub id: i64,
    pub created_at: Seq<char>,
}

impl DeepView for GameRow {
    type V = GameRowView;

    open spec fn deep_view(&self) -> GameRowView {
        GameRowView {
            id: self.id.deep_view(),
            created_at: self.created_at.deep_view(),
        }
    }
}

/// A row of `game_roles`: one role of a game.
#[derive(Debug)]
pub struct GameRoleRow {
    pub id: i64,
    /// The `id` of the game that the role is in.
    pub game_id: i64,
    /// The `id` of the role, which need not be among the stored roles.
    pub role_id: String,
    /// The role's place in the game, from zero.
    pub position: i64,
}

/// What a [`GameRoleRow`] holds.
#[verifier::ext_equal]
pub struct GameRoleRowView {
    pub id: i64,
    pub game_id: i64,
    pub role_id: Seq<char>,
    pub position: i64,
}

impl DeepView for GameRoleRow {
    type V = GameRoleRowView;

    open spec fn deep_view(&self) -> GameRoleRowView {
        GameRoleRowView {
            id: self.id.deep_view(),
            game_id: self.game_id.deep_view(),
            role_id: self.role_id.deep_view(),
            position: self.position.deep_view(),
        }
    }
}

impl Clone for GameRoleRow {
    fn clone(&self) -> (copy: Self)
        ensures
            copy.deep_view() == self.deep_view(),
    {
        GameRoleRow {
            id: self.id,
            game_id: self.game_id,
            role_id: self.role_id.clone(),
            position: self.position,
        }
    }
}

/// Rows that are numbered.
pub trait NumberedRow: DeepView + Sized {
    /// The row's number.
    spec fn id_of(row: Self::V) -> i64;

    /// The row's number.
    fn id(&self) -> (id: i64)
        ensures
            id == Self::id_of(self.deep_view()),
    ;
}

/// Rows that have a key of their own.
pub trait KeyedRow: DeepView + Sized {
    /// The row's key.
    spec fn key_of(row: Self::V) -> Seq<char>;

    /// The row's key.
    fn key(&self) -> (key: &str)
        ensures
            key@ == Self::key_of(self.deep_view()),
    ;
}

impl NumberedRow for ScrapeRow {
    open spec fn id_of(row: ScrapeRowView) -> i64 {
        row.id
    }

    fn id(&self) -> (id: i64) {
        self.id
    }
}

impl NumberedRow for FieldRow {
    open spec fn id_of(row: FieldRowView) -> i64 {
        row.id
    }

    fn id(&self) -> (id: i64) {
        self.id
    }
}

impl NumberedRow for GameRow {
    open spec fn id_of(row: GameRowView) -> i64 {
        row.id
    }

    fn id(&self) -> (id: i64) {
        self.id
    }
}

impl NumberedRow for GameRoleRow {
    open spec fn id_of(row: GameRoleRowView) -> i64 {
        row.id
    }

    fn id(&self) -> (id: i64) {
        self.id
    }
}

impl KeyedRow for EditionRow {
    open spec fn key_of(row: EditionRowView) -> Seq<char> {
        row.id
    }

    fn key(&self) -> (key: &str) {
        self.id.as_str()
    }
}

impl KeyedRow for RoleRow {
    open spec fn key_of(row: RoleRowView) -> Seq<char> {
        row.id
    }

    fn key(&self) -> (key: &str) {
        self.id.as_str()
    }
}

/// A table that numbers its rows. The rows stand in the order of their numbers.
#[derive(Debug)]
pub struct Numbered<R> {
    /// The largest number that the table ever gave to a row; zero before the first.
    pub last_id: i64,
    pub rows: Vec<R>,
}

/// What a [`Numbered`] table holds.
#[verifier::ext_equal]
pub struct NumberedView<V> {
    pub last_id: i64,
    pub rows: Seq<V>,
}

impl<R: DeepView> DeepView for Numbered<R> {
    type V = NumberedView<R::V>;

    open spec fn deep_view(&self) -> NumberedView<R::V> {
        NumberedView { last_id: self.last_id, rows: self.rows.deep_view() }
    }
}

/// Whether the rows stand in the order of their numbers, no two rows have the same number,
/// and no row has a number that the table has yet to give.
pub open spec fn numbered_in_order<R: NumberedRow>(table: NumberedView<R::V>) -> bool {
    &&& 0 <= table.last_id
    &&& forall|i: int|
        0 <= i < table.rows.len() ==> R::id_of(#[trigger] table.rows[i]) <= table.last_id
    &&& forall|i: int, j: int|
        0 <= i < j < table.rows.len() ==> R::id_of(#[trigger] table.rows[i]) < R::id_of(
            #[trigger] table.rows[j],
        )
}

/// Whether no two rows have the same key.
pub open spec fn keys_differ<R: KeyedRow>(rows: Seq<R::V>) -> bool {
    forall|i: int, j: int|
        0 <= i < j < rows.len() ==> R::key_of(#[trigger] rows[i]) != R::key_of(#[trigger] rows[j])
}

/// Having the key `key`.
pub open spec fn has_key<R: KeyedRow>(key: Seq<char>) -> spec_fn(R::V) -> bool {
    |row: R::V| R::key_of(row) == key
}

/// Having a key other than `key`.
pub open spec fn lacks_key<R: KeyedRow>(key: Seq<char>) -> spec_fn(R::V) -> bool {
    |row: R::V| R::key_of(row) != key
}

/// Having the number `id`.
pub open spec fn has_id<R: NumberedRow>(id: i64) -> spec_fn(R::V) -> bool {
    |row: R::V| R::id_of(row) == id
}

/// The rows that have the key `key`.
pub open spec fn rows_with_key<R: KeyedRow>(rows: Seq<R::V>, key: Seq<char>) -> Seq<R::V> {
    rows.filter(has_key::<R>(key))
}

/// The rows that have the number `id`.
pub open spec fn rows_with_id<R: NumberedRow>(rows: Seq<R::V>, id: i64) -> Seq<R::V> {
    rows.filter(has_id::<R>(id))
}

/// How many of `wanted` rows a table that has numbered up to `last_id` still has numbers for.
pub open spec fn numbers_left(last_id: i64, wanted: nat) -> nat {
    if wanted <= i64::MAX - last_id {
        wanted
    } else {
        (i64::MAX - last_id) as nat
    }
}

/// Everything that is kept. A table that is `None` has not been created yet.
#[derive(Debug)]
pub struct Database {
    pub scrapes: Option<Numbered<ScrapeRow>>,
    pub fields: Option<Numbered<FieldRow>>,
    pub editions: Option<Vec<EditionRow>>,
    pub roles: Option<Vec<RoleRow>>,
    pub games: Option<Numbered<GameRow>>,
    pub game_roles: Option<Numbered<GameRoleRow>>,
}

/// What a [`Database`] holds.
#[verifier::ext_equal]
pub struct DatabaseView {
    pub scrapes: Option<NumberedView<ScrapeRowView>>,
    pub fields: Option<NumberedView<FieldRowView>>,
    pub editions: Option<Seq<EditionRowView>>,
    pub roles: Option<Seq<RoleRowView>>,
    pub games: Option<NumberedView<GameRowView>>,
    pub game_roles: Option<NumberedView<GameRoleRowView>>,
}

impl DeepView for Database {
    type V = DatabaseView;

    open spec fn deep_view(&self) -> DatabaseView {
        DatabaseView {
            scrapes: self.scrapes.deep_view(),
            fields: self.fields.deep_view(),
            editions: self.editions.deep_view(),
            roles: self.roles.deep_view(),
            games: self.games.deep_view(),
            game_roles: self.game_roles.deep_view(),
        }
    }
}

/// Whether there is a scrape with the number `id`.
pub open spec fn scrape_exists(scrapes: Option<NumberedView<ScrapeRowView>>, id: i64) -> bool {
    match scrapes {
        Some(table) => exists|i: int|
            0 <= i < table.rows.len() && (#[trigger] table.rows[i]).id == id,
        None => false,
    }
}

/// Whether there is a game with the number `id`.
pub open spec fn game_exists(games: Option<NumberedView<GameRowView>>, id: i64) -> bool {
    match games {
        Some(table) => exists|i: int|
            0 <= i < table.rows.len() && (#[trigger] table.rows[i]).id == id,
        None => false,
    }
}

impl DatabaseView {
    /// What holds of every database: numbered tables are in the order of their numbers, and
    /// keys are unique.
    pub open spec fn well_formed(self) -> bool {
        &&& self.scrapes matches Some(table) ==> numbered_in_order::<ScrapeRow>(table)
        &&& self.fields matches Some(table) ==> numbered_in_order::<FieldRow>(table)
        &&& self.editions matches Some(rows) ==> keys_differ::<EditionRow>(rows)
        &&& self.roles matches Some(rows) ==> keys_differ::<RoleRow>(rows)
        &&& self.games matches Some(table) ==> numbered_in_order::<GameRow>(table)
        &&& self.game_roles matches Some(table) ==> numbered_in_order::<GameRoleRow>(table)
    }

    /// Whether every field belongs to a stored scrape and every role of a game to a stored
    /// game.
    pub open spec fn references_hold(self) -> bool {
        &&& self.fields matches Some(fields) ==> forall|i: int|
            0 <= i < fields.rows.len() ==> scrape_exists(
                self.scrapes,
                (#[trigger] fields.rows[i]).scrape_id,
            )
        &&& self.game_roles matches Some(roles) ==> forall|i: int|
            0 <= i < roles.rows.len() ==> game_exists(
                self.games,
                (#[trigger] roles.rows[i]).game_id,
            )
    }
}

/// Whether what holds of a database still holds after a change to it.
pub open spec fn keeps_invariants(before: DatabaseView, after: DatabaseView) -> bool {
    &&& before.well_formed() ==> after.well_formed()
    &&& before.well_formed() && before.references_hold() ==> after.references_hold()
}

impl Database {
    /// A database in which no table has been created yet.
    pub fn new() -> (db: Database)
        ensures
            db.deep_view() == (DatabaseView {
                scrapes: None,
                fields: None,
                editions: None,
                roles: None,
                games: None,
                game_roles: None,
            }),
            db.deep_view().well_formed(),
            db.deep_view().references_hold(),
    {
        Database {
            scrapes: None,
            fields: None,
            editions: None,
            roles: None,
            games: None,
            game_roles: None,
        }
    }

    /// Whether the tables are what tables have to be: numbered rows in the order of their
    /// numbers, keys unique.
    pub fn is_well_formed(&self) -> (answer: bool)
        ensures
            answer == self.deep_view().well_formed(),
    {
        (match &self.scrapes {
            Some(table) => is_numbered_in_order(table),
            None => true,
        }) && (match &self.fields {
            Some(table) => is_numbered_in_order(table),
            None => true,
        }) && (match &self.editions {
            Some(rows) => do_keys_differ(rows),
            None => true,
        }) && (match &self.roles {
            Some(rows) => do_keys_differ(rows),
            None => true,
        }) && (match &self.games {
            Some(table) => is_numbered_in_order(table),
            None => true,
        }) && (match &self.game_roles {
            Some(table) => is_numbered_in_order(table),
            None => true,
        })
    }
}

/// Finds the first row with the key `key`.
pub fn find_key<R: KeyedRow>(rows: &Vec<R>, key: &str) -> (at: Option<usize>)
    ensures
        match at {
            Some(i) => {
                &&& i < rows@.len()
                &&& rows_with_key::<R>(rows.deep_view(), key@).len() > 0
                &&& rows_with_key::<R>(rows.deep_view(), key@)[0] == rows@[i as int].deep_view()
            },
            None => rows_with_key::<R>(rows.deep_view(), key@).len() == 0,
        },
{
    let ghost all = rows.deep_view();
    let ghost wanted = has_key::<R>(key@);
    let mut i: usize = 0;
    while i < rows.len()
        invariant
            i <= rows.len(),
            all == rows.deep_view(),
            wanted == has_key::<R>(key@),
            forall|j: int| 0 <= j < i ==> !wanted(#[trigger] all[j]),
        decreases rows.len() - i,
    {
        assert(all[i as int] == rows@[i as int].deep_view());
        if same_text(rows[i].key(), key) {
            proof {
                first_kept(all, wanted, i as int);
            }
            return Some(i);
        }
        i = i + 1;
    }
    proof {
        none_kept(all, wanted);
    }
    None
}

/// Finds the first row with the number `id`.
pub fn find_id<R: NumberedRow>(rows: &Vec<R>, id: i64) -> (at: Option<usize>)
    ensures
        match at {
            Some(i) => {
                &&& i < rows@.len()
                &&& rows_with_id::<R>(rows.deep_view(), id).len() > 0
                &&& rows_with_id::<R>(rows.deep_view(), id)[0] == rows@[i as int].deep_view()
            },
            None => rows_with_id::<R>(rows.deep_view(), id).len() == 0,
        },
{
    let ghost all = rows.deep_view();
    let ghost wanted = has_id::<R>(id);
    let mut i: usize = 0;
    while i < rows.len()
        invariant
            i <= rows.len(),
            all == rows.deep_view(),
            wanted == has_id::<R>(id),
            forall|j: int| 0 <= j < i ==> !wanted(#[trigger] all[j]),
        decreases rows.len() - i,
    {
        assert(all[i as int] == rows@[i as int].deep_view());
        if rows[i].id() == id {
            proof {
                first_kept(all, wanted, i as int);
            }
            return Some(i);
        }
        i = i + 1;
    }
    proof {
        none_kept(all, wanted);
    }
    None
}

/// Whether a table is numbered in order.
fn is_numbered_in_order<R: NumberedRow>(table: &Numbered<R>) -> (answer: bool)
    ensures
        answer == numbered_in_order::<R>(table.deep_view()),
{
    let ghost rows = table.deep_view().rows;
    if table.last_id < 0 {
        return false;
    }
    let mut i: usize = 0;
    while i < table.rows.len()
        invariant
            i <= table.rows.len(),
            rows == table.rows.deep_view(),
            forall|j: int| 0 <= j < i ==> R::id_of(#[trigger] rows[j]) <= table.last_id,
            forall|j: int, k: int|
                0 <= j < k < i ==> R::id_of(#[trigger] rows[j]) < R::id_of(#[trigger] rows[k]),
        decreases table.rows.len() - i,
    {
        let id = table.rows[i].id();
        assert(id == R::id_of(rows[i as int]));
        if id > table.last_id {
            assert(R::id_of(table.deep_view().rows[i as int]) > table.last_id);
            return false;
        }
        if i > 0 {
            let previous = table.rows[i - 1].id();
            assert(previous == R::id_of(rows[i - 1]));
            if previous >= id {
                return false;
            }
        }
        i = i + 1;
    }
    true
}

/// Whether no two rows have the same key.
fn do_keys_differ<R: KeyedRow>(rows: &Vec<R>) -> (answer: bool)
    ensures
        answer == keys_differ::<R>(rows.deep_view()),
{
    let ghost all = rows.deep_view();
    let mut i: usize = 0;
    while i < rows.len()
        invariant
            i <= rows.len(),
            all == rows.deep_view(),
            forall|j: int, k: int|
                0 <= j < k < i ==> R::key_of(#[trigger] all[j]) != R::key_of(#[trigger] all[k]),
        decreases rows.len() - i,
    {
        let mut j: usize = 0;
        while j < i
            invariant
                j <= i < rows.len(),
                all == rows.deep_view(),
                forall|k: int|
                    0 <= k < j ==> R::key_of(#[trigger] all[k]) != R::key_of(all[i as int]),
            decreases i - j,
        {
            assert(all[j as int] == rows@[j as int].deep_view());
            assert(all[i as int] == rows@[i as int].deep_view());
            if same_text(rows[j].key(), rows[i].key()) {
                return false;
            }
            j = j + 1;
        }
        i = i + 1;
    }
    true
}

} // verus!
