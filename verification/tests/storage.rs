use rustscraper::models::{Edition, Field, Role, ScrapeRecord};
use rustscraper::scrapes::{group_scrapes, JoinedRow};
use rustscraper::storage::{
    create_game, create_game_at, get_all_scrapes, get_editions, get_game, get_roles,
    get_scrapes_by_url, init_schema, insert_scrape, upsert_editions, upsert_roles,
};
use rustscraper::tables::{
    Database, EditionRow, FieldRow, Numbered, RoleRow, ScrapeRow, StorageError, TableName,
};

fn ready() -> Database {
    let mut db = Database::new();
    init_schema(&mut db);
    db
}

fn some(text: &str) -> Option<String> {
    Some(text.to_string())
}

fn ids(list: &[&str]) -> Vec<String> {
    list.iter().map(|s| s.to_string()).collect()
}

fn edition(id: &str, name: &str, official: Option<bool>) -> Edition {
    Edition {
        id: id.to_string(),
        name: some(name),
        color: some("#fff"),
        level: some("beginner"),
        is_official: official,
    }
}

fn role(id: &str, name: &str, team: &str, edition: &str) -> Role {
    Role {
        id: id.to_string(),
        name: some(name),
        team: some(team),
        edition: some(edition),
        ability: some("Each night*, choose a player: they die."),
        flavor: None,
        setup: Some(false),
        first_night_reminder: None,
        other_night_reminder: some("Point at a player."),
    }
}

fn record(url: &str, fields: &[(&str, &str)]) -> ScrapeRecord {
    ScrapeRecord {
        id: 0,
        url: url.to_string(),
        scraped_at: "2024-05-01T09:30:00+00:00".to_string(),
        fields: fields
            .iter()
            .map(|(n, v)| Field { name: n.to_string(), value: v.to_string() })
            .collect(),
    }
}

fn pairs(record: &ScrapeRecord) -> Vec<(&str, &str)> {
    record.fields.iter().map(|f| (f.name.as_str(), f.value.as_str())).collect()
}

fn role_names(roles: &[Role]) -> Vec<&str> {
    roles.iter().map(|r| r.id.as_str()).collect()
}

#[test]
fn a_new_database_has_no_tables() {
    let mut db = Database::new();
    let missing = |table| StorageError::NoSuchTable(table);
    assert_eq!(get_editions(&db).unwrap_err(), missing(TableName::Editions));
    assert_eq!(get_roles(&db, None, None).unwrap_err(), missing(TableName::Roles));
    assert_eq!(get_game(&db, 1).unwrap_err(), missing(TableName::Games));
    assert_eq!(get_all_scrapes(&db).unwrap_err(), missing(TableName::Scrapes));
    assert_eq!(
        insert_scrape(&mut db, &record("u", &[])).unwrap_err(),
        missing(TableName::Scrapes)
    );
    assert_eq!(
        create_game_at(&mut db, &ids(&["imp"]), "t".to_string()).unwrap_err(),
        missing(TableName::Games)
    );
    assert_eq!(
        upsert_editions(&mut db, &[edition("tb", "Trouble Brewing", None)]).unwrap_err(),
        missing(TableName::Editions)
    );
    assert_eq!(
        upsert_roles(&mut db, &[role("imp", "Imp", "demon", "tb")]).unwrap_err(),
        missing(TableName::Roles)
    );
    assert_eq!(upsert_roles(&mut db, &[]), Ok(0));
    assert_eq!(upsert_editions(&mut db, &[]), Ok(0));
}

#[test]
fn creating_tables_keeps_what_is_stored() {
    let mut db = ready();
    insert_scrape(&mut db, &record("u", &[("a", "1")])).unwrap();
    upsert_editions(&mut db, &[edition("tb", "Trouble Brewing", None)]).unwrap();
    let before = format!("{db:?}");
    init_schema(&mut db);
    assert_eq!(format!("{db:?}"), before);
    assert!(db.is_well_formed());
}

#[test]
fn editions_come_back_by_id() {
    let mut db = ready();
    let stored = upsert_editions(
        &mut db,
        &[
            edition("tb", "Trouble Brewing", Some(true)),
            edition("bmr", "Bad Moon Rising", Some(false)),
            edition("snv", "Sects & Violets", None),
        ],
    );
    assert_eq!(stored, Ok(3));
    let editions = get_editions(&db).unwrap();
    let read: Vec<(&str, Option<bool>)> =
        editions.iter().map(|e| (e.id.as_str(), e.is_official)).collect();
    assert_eq!(read, vec![("bmr", Some(false)), ("snv", None), ("tb", Some(true))]);
    assert_eq!(editions[2].name, some("Trouble Brewing"));
    assert_eq!(editions[2].color, some("#fff"));
    assert_eq!(editions[2].level, some("beginner"));
}

#[test]
fn storing_editions_twice_changes_nothing() {
    let mut db = ready();
    let editions = [edition("tb", "Trouble Brewing", None), edition("bmr", "Bad Moon", None)];
    assert_eq!(upsert_editions(&mut db, &editions), Ok(2));
    let before = format!("{db:?}");
    assert_eq!(upsert_editions(&mut db, &editions), Ok(2));
    assert_eq!(format!("{db:?}"), before);
}

#[test]
fn the_last_of_two_with_one_key_stays() {
    let mut db = ready();
    let stored = upsert_roles(
        &mut db,
        &[
            role("imp", "Old", "demon", "tb"),
            role("spy", "Spy", "minion", "tb"),
            role("imp", "Imp", "demon", "tb"),
        ],
    );
    assert_eq!(stored, Ok(3));
    let roles = get_roles(&db, None, None).unwrap();
    assert_eq!(role_names(&roles), vec!["imp", "spy"]);
    assert_eq!(roles[0].name, some("Imp"));
    assert_eq!(roles[0].other_night_reminder, some("Point at a player."));
    assert_eq!(roles[0].setup, Some(false));
}

#[test]
fn storing_leaves_other_keys() {
    let mut db = ready();
    upsert_roles(&mut db, &[role("imp", "Imp", "demon", "tb"), role("po", "Po", "demon", "bmr")])
        .unwrap();
    upsert_roles(&mut db, &[role("imp", "Imp II", "demon", "tb")]).unwrap();
    let roles = get_roles(&db, None, None).unwrap();
    assert_eq!(roles[0].name, some("Imp II"));
    assert_eq!(roles[1].name, some("Po"));
}

#[test]
fn roles_come_back_by_team_and_name() {
    let mut db = ready();
    let mut nameless = role("x", "", "demon", "tb");
    nameless.name = None;
    let mut teamless = role("y", "Zombie", "", "tb");
    teamless.team = None;
    upsert_roles(
        &mut db,
        &[
            role("spy", "Spy", "minion", "tb"),
            role("po", "Po", "demon", "bmr"),
            role("imp", "Imp", "demon", "tb"),
            role("chef", "Chef", "townsfolk", "tb"),
            nameless,
            teamless,
        ],
    )
    .unwrap();
    let roles = get_roles(&db, None, None).unwrap();
    assert_eq!(role_names(&roles), vec!["y", "x", "imp", "po", "spy", "chef"]);
}

#[test]
fn roles_are_filtered_by_team_and_edition() {
    let mut db = ready();
    let mut loose = role("loose", "Loose", "demon", "");
    loose.edition = None;
    upsert_roles(
        &mut db,
        &[
            role("spy", "Spy", "minion", "tb"),
            role("po", "Po", "demon", "bmr"),
            role("imp", "Imp", "demon", "tb"),
            loose,
        ],
    )
    .unwrap();
    let find = |team, edition| {
        let roles = get_roles(&db, team, edition).unwrap();
        role_names(&roles).iter().map(|s| s.to_string()).collect::<Vec<String>>()
    };
    assert_eq!(find(Some("demon"), None), ids(&["imp", "loose", "po"]));
    assert_eq!(find(None, Some("tb")), ids(&["imp", "spy"]));
    assert_eq!(find(Some("demon"), Some("tb")), ids(&["imp"]));
    assert_eq!(find(Some("DEMON"), None), ids(&[]));
}

#[test]
fn roles_that_tie_stay_as_stored() {
    let mut db = ready();
    upsert_roles(
        &mut db,
        &[role("b", "Same", "demon", "tb"), role("a", "Same", "demon", "tb")],
    )
    .unwrap();
    assert_eq!(role_names(&get_roles(&db, None, None).unwrap()), vec!["b", "a"]);
}

#[test]
fn a_flag_that_is_too_large_is_an_error() {
    let mut db = ready();
    let row = |id: &str, official| EditionRow {
        id: id.to_string(),
        name: None,
        color: None,
        level: None,
        is_official: official,
    };
    db.editions = Some(vec![row("a", Some(i32::MAX as i64)), row("b", Some(-1))]);
    let editions = get_editions(&db).unwrap();
    assert_eq!(editions[0].is_official, Some(true));
    assert_eq!(editions[1].is_official, Some(true));
    db.editions = Some(vec![row("b", Some(i32::MIN as i64 - 1)), row("a", Some(1 << 31))]);
    assert_eq!(
        get_editions(&db).unwrap_err(),
        StorageError::IntegerOutOfRange { column: 4, value: 1 << 31 }
    );
}

#[test]
fn a_flag_that_is_not_asked_for_is_not_looked_at() {
    let mut db = ready();
    let row = |id: &str, team: &str, setup| RoleRow {
        id: id.to_string(),
        name: None,
        team: some(team),
        edition: None,
        ability: None,
        flavor: None,
        setup,
        first_night_reminder: None,
        other_night_reminder: None,
    };
    db.roles = Some(vec![row("a", "demon", Some(1 << 40)), row("b", "minion", Some(0))]);
    assert_eq!(
        get_roles(&db, None, None).unwrap_err(),
        StorageError::IntegerOutOfRange { column: 6, value: 1 << 40 }
    );
    assert_eq!(get_roles(&db, Some("minion"), None).unwrap()[0].setup, Some(false));
}

#[test]
fn a_game_comes_back_with_its_roles_in_order() {
    let mut db = ready();
    upsert_roles(&mut db, &[role("imp", "Imp", "demon", "tb")]).unwrap();
    let first = create_game_at(&mut db, &ids(&["spy", "imp", "imp"]), "then".to_string()).unwrap();
    let second = create_game_at(&mut db, &ids(&["chef"]), "later".to_string()).unwrap();
    assert_eq!((first, second), (1, 2));
    let game = get_game(&db, 1).unwrap().unwrap();
    assert_eq!(game.id, 1);
    assert_eq!(game.created_at, "then");
    let read: Vec<&str> = game.roles.iter().map(|r| r.role_id.as_str()).collect();
    assert_eq!(read, vec!["spy", "imp", "imp"]);
    assert_eq!(game.roles[0].name, None);
    assert_eq!(game.roles[0].team, None);
    assert_eq!(game.roles[0].edition, None);
    assert_eq!(game.roles[0].ability, None);
    assert_eq!(game.roles[1].name, some("Imp"));
    assert_eq!(game.roles[1].team, some("demon"));
    assert_eq!(game.roles[1].edition, some("tb"));
    assert_eq!(game.roles[1].ability, some("Each night*, choose a player: they die."));
    assert!(db.is_well_formed());
}

#[test]
fn a_game_that_was_not_created_is_not_found() {
    let mut db = ready();
    create_game_at(&mut db, &ids(&["imp"]), "then".to_string()).unwrap();
    assert!(get_game(&db, 0).unwrap().is_none());
    assert!(get_game(&db, 2).unwrap().is_none());
    assert!(get_game(&db, 1).unwrap().is_some());
}

#[test]
fn roles_stored_later_show_in_games() {
    let mut db = ready();
    create_game_at(&mut db, &ids(&["imp"]), "then".to_string()).unwrap();
    upsert_roles(&mut db, &[role("imp", "Imp", "demon", "tb")]).unwrap();
    assert_eq!(get_game(&db, 1).unwrap().unwrap().roles[0].name, some("Imp"));
}

#[test]
fn roles_stored_later_change_only_their_own_entries() {
    let mut db = ready();
    upsert_roles(&mut db, &[role("spy", "Spy", "minion", "tb")]).unwrap();
    create_game_at(&mut db, &ids(&["imp", "spy", "zzz"]), "then".to_string()).unwrap();
    let before = get_game(&db, 1).unwrap().unwrap();
    upsert_roles(&mut db, &[role("imp", "Imp", "demon", "tb")]).unwrap();
    let after = get_game(&db, 1).unwrap().unwrap();
    assert_eq!(after.created_at, before.created_at);
    assert_eq!(format!("{:?}", &after.roles[1..]), format!("{:?}", &before.roles[1..]));
    assert_eq!(before.roles[0].name, None);
    assert_eq!(after.roles[0].name, some("Imp"));
    assert_eq!(after.roles[0].role_id, "imp");
}

#[test]
fn a_game_may_have_no_roles() {
    let mut db = ready();
    assert_eq!(create_game_at(&mut db, &[], "then".to_string()), Ok(1));
    assert_eq!(get_game(&db, 1).unwrap().unwrap().roles.len(), 0);
}

#[test]
fn a_game_is_stamped_with_the_present_time() {
    let mut db = ready();
    let id = create_game(&mut db, &ids(&["imp", "spy", "chef"])).unwrap();
    let stamp = get_game(&db, id).unwrap().unwrap().created_at;
    let time = chrono::DateTime::parse_from_rfc3339(&stamp).unwrap();
    let age = chrono::Utc::now().signed_duration_since(time);
    assert!(age.num_seconds() >= 0 && age.num_seconds() < 60);
    assert!(stamp.ends_with("+00:00"));
    let fraction = &stamp[19..stamp.len() - 6];
    assert!([0, 4, 7, 10].contains(&fraction.len()));
    assert_eq!(&stamp[4..5], "-");
    assert_eq!(&stamp[10..11], "T");
}

#[test]
fn game_ids_run_out() {
    let mut db = ready();
    db.games = Some(Numbered { last_id: i64::MAX, rows: vec![] });
    assert_eq!(
        create_game_at(&mut db, &ids(&["imp"]), "t".to_string()).unwrap_err(),
        StorageError::IdsExhausted(TableName::Games)
    );
}

#[test]
fn what_was_stored_before_ids_run_out_stays() {
    let mut db = ready();
    db.game_roles = Some(Numbered { last_id: i64::MAX - 1, rows: vec![] });
    assert_eq!(
        create_game_at(&mut db, &ids(&["imp", "spy"]), "t".to_string()).unwrap_err(),
        StorageError::IdsExhausted(TableName::GameRoles)
    );
    let game = get_game(&db, 1).unwrap().unwrap();
    assert_eq!(game.roles.len(), 1);
    assert_eq!(game.roles[0].role_id, "imp");
}

#[test]
fn records_come_back_in_the_order_of_storing() {
    let mut db = ready();
    assert_eq!(insert_scrape(&mut db, &record("u", &[("b", "1"), ("a", "2")])), Ok(1));
    assert_eq!(insert_scrape(&mut db, &record("v", &[])), Ok(2));
    assert_eq!(insert_scrape(&mut db, &record("u", &[("c", "3")])), Ok(3));
    let all = get_all_scrapes(&db).unwrap();
    let read: Vec<i64> = all.iter().map(|r| r.id).collect();
    assert_eq!(read, vec![1, 2, 3]);
    assert_eq!(pairs(&all[0]), vec![("b", "1"), ("a", "2")]);
    assert_eq!(pairs(&all[1]), vec![]);
    assert_eq!(all[1].url, "v");
    assert_eq!(all[2].scraped_at, "2024-05-01T09:30:00+00:00");
}

#[test]
fn the_id_of_a_record_is_given_on_storing() {
    let mut db = ready();
    let mut given = record("u", &[]);
    given.id = 77;
    assert_eq!(insert_scrape(&mut db, &given), Ok(1));
    assert_eq!(get_all_scrapes(&db).unwrap()[0].id, 1);
}

#[test]
fn records_are_found_by_url() {
    let mut db = ready();
    insert_scrape(&mut db, &record("u", &[("a", "1")])).unwrap();
    insert_scrape(&mut db, &record("v", &[("a", "2")])).unwrap();
    insert_scrape(&mut db, &record("u", &[("a", "3")])).unwrap();
    let found = get_scrapes_by_url(&db, "u").unwrap();
    let read: Vec<i64> = found.iter().map(|r| r.id).collect();
    assert_eq!(read, vec![1, 3]);
    assert_eq!(pairs(&found[1]), vec![("a", "3")]);
    assert_eq!(get_scrapes_by_url(&db, "U").unwrap().len(), 0);
}

#[test]
fn scrape_ids_run_out() {
    let mut db = ready();
    db.scrapes = Some(Numbered { last_id: i64::MAX, rows: vec![] });
    assert_eq!(
        insert_scrape(&mut db, &record("u", &[])).unwrap_err(),
        StorageError::IdsExhausted(TableName::Scrapes)
    );
    db.scrapes = Some(Numbered { last_id: 0, rows: vec![] });
    db.fields = Some(Numbered { last_id: i64::MAX - 1, rows: vec![] });
    assert_eq!(
        insert_scrape(&mut db, &record("u", &[("a", "1"), ("b", "2")])).unwrap_err(),
        StorageError::IdsExhausted(TableName::Fields)
    );
    assert_eq!(pairs(&get_all_scrapes(&db).unwrap()[0]), vec![("a", "1")]);
}

#[test]
fn missing_tables_are_named() {
    let mut db = ready();
    db.fields = None;
    assert_eq!(
        get_all_scrapes(&db).unwrap_err(),
        StorageError::NoSuchTable(TableName::Fields)
    );
    assert_eq!(
        insert_scrape(&mut db, &record("u", &[("a", "1")])).unwrap_err(),
        StorageError::NoSuchTable(TableName::Fields)
    );
    create_game_at(&mut db, &ids(&["imp"]), "t".to_string()).unwrap();
    db.roles = None;
    assert_eq!(get_game(&db, 1).unwrap_err(), StorageError::NoSuchTable(TableName::Roles));
    assert!(get_game(&db, 2).unwrap().is_none());
    db.game_roles = None;
    assert_eq!(get_game(&db, 1).unwrap_err(), StorageError::NoSuchTable(TableName::GameRoles));
    assert_eq!(
        create_game_at(&mut db, &ids(&["imp"]), "t".to_string()).unwrap_err(),
        StorageError::NoSuchTable(TableName::GameRoles)
    );
}

#[test]
fn rows_are_grouped_by_scrape() {
    let row = |id, url: &str, name: Option<&str>, value: Option<&str>| JoinedRow {
        id,
        url: url.to_string(),
        scraped_at: "t".to_string(),
        name: name.map(|s| s.to_string()),
        value: value.map(|s| s.to_string()),
    };
    let records = group_scrapes(&vec![
        row(5, "five", Some("a"), Some("1")),
        row(-2, "two", None, None),
        row(5, "ignored", Some("b"), Some("2")),
        row(5, "ignored", Some("c"), None),
    ]);
    assert_eq!(records.len(), 2);
    assert_eq!((records[0].id, records[0].url.as_str()), (-2, "two"));
    assert_eq!((records[1].id, records[1].url.as_str()), (5, "five"));
    assert_eq!(pairs(&records[1]), vec![("a", "1"), ("b", "2")]);
}

#[test]
fn numbers_out_of_order_are_not_well_formed() {
    let mut db = ready();
    let row = |id| ScrapeRow { id, url: "u".to_string(), scraped_at: "t".to_string() };
    db.scrapes = Some(Numbered { last_id: 3, rows: vec![row(1), row(3)] });
    assert!(db.is_well_formed());
    db.scrapes = Some(Numbered { last_id: 3, rows: vec![row(3), row(1)] });
    assert!(!db.is_well_formed());
    db.scrapes = Some(Numbered { last_id: 2, rows: vec![row(1), row(3)] });
    assert!(!db.is_well_formed());
    db.scrapes = None;
    let field = |id| FieldRow {
        id,
        scrape_id: 1,
        name: "n".to_string(),
        value: "v".to_string(),
    };
    db.fields = Some(Numbered { last_id: 2, rows: vec![field(2), field(2)] });
    assert!(!db.is_well_formed());
}

#[test]
fn storing_touches_only_its_own_tables() {
    let mut db = ready();
    create_game_at(&mut db, &ids(&["imp"]), "t".to_string()).unwrap();
    insert_scrape(&mut db, &record("u", &[("a", "1")])).unwrap();
    let games = format!("{:?}{:?}", db.games, db.game_roles);
    let scrapes = format!("{:?}{:?}", db.scrapes, db.fields);
    upsert_editions(&mut db, &[edition("tb", "Trouble Brewing", None)]).unwrap();
    let editions = format!("{:?}", db.editions);
    upsert_roles(&mut db, &[role("imp", "Imp", "demon", "tb")]).unwrap();
    assert_eq!(format!("{:?}{:?}", db.games, db.game_roles), games);
    assert_eq!(format!("{:?}{:?}", db.scrapes, db.fields), scrapes);
    assert_eq!(format!("{:?}", db.editions), editions);
    create_game_at(&mut db, &ids(&["spy"]), "u".to_string()).unwrap();
    assert_eq!(format!("{:?}{:?}", db.scrapes, db.fields), scrapes);
    assert_eq!(db.games.as_ref().unwrap().rows[0].created_at, "t");
    assert_eq!(db.game_roles.as_ref().unwrap().rows[0].role_id, "imp");
}

#[test]
fn storing_looks_at_no_row() {
    let mut full = ready();
    insert_scrape(&mut full, &record("u", &[("a", "1")])).unwrap();
    create_game_at(&mut full, &ids(&["imp"]), "t".to_string()).unwrap();
    let mut bare = ready();
    bare.scrapes = Some(Numbered { last_id: 1, rows: vec![] });
    bare.fields = Some(Numbered { last_id: 1, rows: vec![] });
    bare.games = Some(Numbered { last_id: 1, rows: vec![] });
    bare.game_roles = Some(Numbered { last_id: 1, rows: vec![] });
    for db in [&mut full, &mut bare] {
        assert_eq!(insert_scrape(db, &record("v", &[("b", "2")])), Ok(2));
        assert_eq!(create_game_at(db, &ids(&["spy"]), "u".to_string()), Ok(2));
    }
    assert_eq!(
        format!("{:?}", &full.fields.unwrap().rows[1..]),
        format!("{:?}", bare.fields.unwrap().rows)
    );
    assert_eq!(
        format!("{:?}", &full.game_roles.unwrap().rows[1..]),
        format!("{:?}", bare.game_roles.unwrap().rows)
    );
}
