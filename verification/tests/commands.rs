use rustscraper::botc::{
    api_headers, can_run_roles, fitting_roles, has_role_count, run_api, run_editions, run_get_game,
    run_new_game, run_new_game_at, run_roles, write_roles_table,
};
use rustscraper::models::{BotcData, Edition, Role};
use rustscraper::page::can_be_parsed;
use rustscraper::report::{fetching, CommandError};
use rustscraper::scraping::{
    can_run_list, fitting_records, is_delivered, plan_fetch, run_export, run_list, run_scrape,
    run_scrape_at, will_store, write_records_table, FetchPlan,
};
use rustscraper::storage::{create_game_at, get_all_scrapes, get_game, get_roles, init_schema};
use rustscraper::tables::{Database, Numbered, StorageError, TableName};

fn ready() -> Database {
    let mut db = Database::new();
    init_schema(&mut db);
    db
}

fn some(text: &str) -> Option<String> {
    Some(text.to_string())
}

fn owned(list: &[&str]) -> Vec<String> {
    list.iter().map(|s| s.to_string()).collect()
}

fn edition(id: &str, name: Option<&str>, official: Option<bool>) -> Edition {
    Edition {
        id: id.to_string(),
        name: name.map(|s| s.to_string()),
        color: None,
        level: some("beginner"),
        is_official: official,
    }
}

fn role(id: &str, name: &str, ability: Option<&str>) -> Role {
    Role {
        id: id.to_string(),
        name: some(name),
        team: some("demon"),
        edition: None,
        ability: ability.map(|s| s.to_string()),
        flavor: None,
        setup: None,
        first_night_reminder: None,
        other_night_reminder: None,
    }
}

fn scrape(db: &mut Database, html: &str, select: &[&str]) -> (Vec<String>, Vec<String>) {
    let report = run_scrape_at(
        db,
        "https://example.com",
        html,
        &owned(select),
        false,
        "2024-05-01T09:30:00+00:00".to_string(),
    );
    (report.warnings, report.report.unwrap())
}

#[test]
fn fetching_is_announced() {
    assert_eq!(fetching("https://example.com"), "Fetching https://example.com ...");
}

#[test]
fn only_status_codes_of_success_deliver_a_page() {
    for status in [200, 204, 299] {
        assert!(is_delivered(status));
    }
    for status in [100, 199, 300, 304, 404, 500] {
        assert!(!is_delivered(status));
    }
}

#[test]
fn javascript_takes_a_browser() {
    assert!(matches!(
        plan_fetch("http://h/p", false, 10, Some("a=b"), &[]),
        FetchPlan::Get(url) if url == "http://h/p"
    ));
    assert!(matches!(
        plan_fetch("http://h/p", true, 10, None, &[]),
        FetchPlan::Browser(steps) if steps.len() == 4
    ));
}

#[test]
fn scraping_stores_and_prints_the_fields() {
    let mut db = ready();
    let (warnings, lines) = scrape(
        &mut db,
        "<h1>Title</h1><p>one</p><p>two</p>",
        &["p:text", "h1:title", "b:missing"],
    );
    assert_eq!(warnings, owned(&[]));
    assert_eq!(
        lines,
        owned(&["Stored record #1 with 2 field(s):", "  text: one", "  title: Title"])
    );
    let records = get_all_scrapes(&db).unwrap();
    assert_eq!(records.len(), 1);
    assert_eq!(records[0].url, "https://example.com");
    assert_eq!(records[0].scraped_at, "2024-05-01T09:30:00+00:00");
    assert_eq!(records[0].fields[1].name, "title");
    assert_eq!(records[0].fields[1].value, "Title");
}

#[test]
fn a_record_is_stored_even_without_fields() {
    let mut db = ready();
    let (_, lines) = scrape(&mut db, "<p>one</p>", &["b:missing"]);
    assert_eq!(lines, owned(&["Stored record #1 with 0 field(s):"]));
    assert_eq!(get_all_scrapes(&db).unwrap().len(), 1);
}

#[test]
fn scraping_warns_of_invalid_selectors() {
    let mut db = ready();
    let (warnings, lines) = scrape(&mut db, "<p>one</p>", &["p[:bad", "p:text"]);
    assert_eq!(warnings.len(), 1);
    assert!(warnings[0].starts_with("Warning: invalid CSS selector 'p[': "));
    assert_eq!(lines, owned(&["Stored record #1 with 1 field(s):", "  text: one"]));
}

#[test]
fn a_scrape_is_stamped_with_the_present_time() {
    let mut db = ready();
    let report = run_scrape(&mut db, "u", "<p>one</p>", &owned(&["p:text"]), false);
    assert!(report.report.is_ok());
    let stamp = &get_all_scrapes(&db).unwrap()[0].scraped_at;
    let time = chrono::DateTime::parse_from_rfc3339(stamp).unwrap();
    let age = chrono::Utc::now().signed_duration_since(time);
    assert!(age.num_seconds() >= 0 && age.num_seconds() < 60);
}

#[test]
fn dumping_prints_the_page_and_stores_nothing() {
    let mut db = ready();
    let before = format!("{db:?}");
    let report = run_scrape(&mut db, "u", "<p>\n</p>", &[], true);
    assert_eq!(report.report.unwrap(), owned(&["<p>\n</p>"]));
    assert_eq!(report.warnings.len(), 0);
    assert_eq!(format!("{db:?}"), before);
}

#[test]
fn scraping_needs_something_to_select() {
    let mut db = ready();
    let error = run_scrape(&mut db, "u", "<p></p>", &[], false).report.unwrap_err();
    assert_eq!(error.message(), "Provide at least one --select SELECTOR:FIELD argument");
    let error =
        run_scrape(&mut db, "u", "<p></p>", &owned(&["p:x", "oops"]), false).report.unwrap_err();
    assert_eq!(
        error.message(),
        "Invalid --select value 'oops'. Expected format: SELECTOR:FIELD"
    );
    assert_eq!(get_all_scrapes(&db).unwrap().len(), 0);
}

#[test]
fn scraping_reports_failures_of_the_storage() {
    let mut db = Database::new();
    let error = run_scrape(&mut db, "u", "<p></p>", &owned(&["p:x"]), false).report.unwrap_err();
    assert!(matches!(
        error,
        CommandError::Storage(StorageError::NoSuchTable(TableName::Scrapes))
    ));
    assert_eq!(error.message(), "no such table: scrapes");
}

#[test]
fn failures_of_the_storage_have_messages() {
    assert_eq!(
        StorageError::NoSuchTable(TableName::GameRoles).message(),
        "no such table: game_roles"
    );
    assert_eq!(
        StorageError::IdsExhausted(TableName::Fields).message(),
        "database or disk is full"
    );
    assert_eq!(
        StorageError::IntegerOutOfRange { column: 6, value: -3000000000 }.message(),
        "Integer -3000000000 out of range at index 6"
    );
}

#[test]
fn records_are_listed_in_a_table() {
    let mut db = ready();
    scrape(&mut db, "<h1>Title</h1><p>one</p>", &["p:text", "h1:title"]);
    let lines = run_list(&db, None).unwrap();
    assert_eq!(lines.len(), 3);
    assert_eq!(
        lines[0],
        format!("{:<6} {:<50} {:<30} {}", "ID", "URL", "SCRAPED AT", "FIELDS")
    );
    assert_eq!(lines[1], "-".repeat(110));
    assert_eq!(
        lines[2],
        format!(
            "{:<6} {:<50} {:<30} {}",
            1, "https://example.com", "2024-05-01T09:30:00+00:00", "text=one, title=Title"
        )
    );
    assert_eq!(run_list(&db, Some("https://example.com")).unwrap(), lines);
    assert_eq!(run_list(&db, Some("other")).unwrap(), owned(&["No results found."]));
}

#[test]
fn long_urls_are_cut_in_the_list() {
    let mut db = ready();
    let url = format!("https://example.com/{}", "x".repeat(29));
    assert_eq!(url.len(), 49);
    run_scrape(&mut db, &url, "<p>one</p>", &owned(&["p:text"]), false).report.unwrap();
    let lines = run_list(&db, None).unwrap();
    assert!(lines[2].starts_with(&format!("{:<6} {:<50} ", 1, format!("{}...", &url[..45]))));
}

#[test]
fn a_url_that_cannot_be_cut_is_told_beforehand() {
    let mut db = ready();
    run_scrape(&mut db, "u", "<p></p>", &owned(&["p:x"]), false).report.unwrap();
    assert!(can_run_list(&db, None));
    run_scrape(&mut db, &"é".repeat(30), "<p></p>", &owned(&["p:x"]), false).report.unwrap();
    assert!(!can_run_list(&db, None));
    assert!(can_run_list(&db, Some("u")));
}

#[test]
fn all_records_are_exported() {
    let mut db = ready();
    scrape(&mut db, "<p>one</p>", &["p:text"]);
    scrape(&mut db, "<p>two</p>", &["p:text"]);
    let export = run_export(&db, None).unwrap();
    assert_eq!(export.records.len(), 2);
    assert_eq!(export.records[1].fields[0].value, "two");
    assert_eq!(export.message, "Exported 2 record(s).");
    let export = run_export(&db, Some("out.json")).unwrap();
    assert_eq!(export.message, "Exported 2 record(s) to out.json.");
    let error = run_export(&Database::new(), None).unwrap_err();
    assert_eq!(error.message(), "no such table: scrapes");
}

#[test]
fn the_request_looks_like_a_browser() {
    let agent = "Mozilla/5.0 (Windows NT 10.0; Win64; x64) AppleWebKit/537.36 (KHTML, like Gecko) Chrome/148.0.0.0 Safari/537.36";
    let header = |name: &str, value: &str| (name.to_string(), value.to_string());
    assert_eq!(
        api_headers(None, None),
        vec![
            header("user-agent", agent),
            header("accept", "*/*"),
            header("referer", "https://botc.app/play"),
        ]
    );
    assert_eq!(
        api_headers(Some("JWT"), Some("cf=1"))[3..],
        [header("authorization", "Bearer JWT"), header("cookie", "cf=1")]
    );
    assert_eq!(api_headers(None, Some("cf=1")).len(), 4);
}

#[test]
fn a_response_is_stored() {
    let mut db = ready();
    let data = BotcData {
        editions: vec![edition("tb", Some("Trouble Brewing"), Some(true))],
        roles: vec![role("imp", "Imp", None), role("po", "Po", None)],
    };
    assert_eq!(run_api(&mut db, &data).unwrap(), owned(&["Stored 1 editions and 2 roles."]));
    let before = format!("{db:?}");
    assert_eq!(run_api(&mut db, &data).unwrap(), owned(&["Stored 1 editions and 2 roles."]));
    assert_eq!(format!("{db:?}"), before);
}

#[test]
fn editions_stay_where_roles_fail() {
    let mut db = ready();
    db.roles = None;
    let data = BotcData {
        editions: vec![edition("tb", None, None)],
        roles: vec![role("imp", "Imp", None)],
    };
    let error = run_api(&mut db, &data).unwrap_err();
    assert_eq!(error.message(), "no such table: roles");
    assert_eq!(run_editions(&db).unwrap().len(), 3);
}

#[test]
fn roles_are_listed_in_a_table() {
    let mut db = ready();
    let ability = "x".repeat(56);
    let data = BotcData {
        editions: vec![],
        roles: vec![role("po", "Po", None), role("imp", "Imp", Some(&ability))],
    };
    run_api(&mut db, &data).unwrap();
    assert!(can_run_roles(&db, None, None));
    assert_eq!(
        run_roles(&db, None, None).unwrap(),
        vec![
            format!("{:<20} {:<12} {:<10} {}", "NAME", "TEAM", "EDITION", "ABILITY"),
            "-".repeat(100),
            format!("{:<20} {:<12} {:<10} {}...", "Imp", "demon", "?", "x".repeat(52)),
            format!("{:<20} {:<12} {:<10} {}", "Po", "demon", "?", ""),
            "\n2 role(s) total.".to_string(),
        ]
    );
    assert_eq!(run_roles(&db, Some("minion"), None).unwrap(), owned(&["No roles found."]));
    let error = run_roles(&Database::new(), None, None).unwrap_err();
    assert_eq!(error.message(), "no such table: roles");
}

#[test]
fn an_ability_that_cannot_be_cut_is_told_beforehand() {
    let mut db = ready();
    let ability = format!("x{}", "é".repeat(30));
    let data = BotcData { editions: vec![], roles: vec![role("imp", "Imp", Some(&ability))] };
    run_api(&mut db, &data).unwrap();
    assert!(!can_run_roles(&db, None, None));
    assert!(can_run_roles(&db, Some("minion"), None));
}

#[test]
fn editions_are_listed_in_a_table() {
    let mut db = ready();
    assert_eq!(
        run_editions(&db).unwrap(),
        owned(&["No editions found. Run `api` first."])
    );
    let data = BotcData {
        editions: vec![
            edition("tb", Some("Trouble Brewing"), Some(true)),
            edition("bmr", None, None),
        ],
        roles: vec![],
    };
    run_api(&mut db, &data).unwrap();
    assert_eq!(
        run_editions(&db).unwrap(),
        vec![
            format!("{:<10} {:<25} {:<12} {}", "ID", "NAME", "LEVEL", "OFFICIAL"),
            "-".repeat(60),
            format!("{:<10} {:<25} {:<12} {}", "bmr", "?", "beginner", "no"),
            format!("{:<10} {:<25} {:<12} {}", "tb", "Trouble Brewing", "beginner", "yes"),
        ]
    );
}

#[test]
fn a_new_game_is_announced_and_shown() {
    let mut db = ready();
    let data = BotcData { editions: vec![], roles: vec![role("imp", "Imp", Some("Kills."))] };
    run_api(&mut db, &data).unwrap();
    let roles = owned(&["spy", "imp", "chef"]);
    assert_eq!(
        run_new_game_at(&mut db, &roles, "then".to_string()).unwrap(),
        owned(&["Game #1 created with 3 roles:", "  1. spy", "  2. imp", "  3. chef"])
    );
    assert_eq!(
        run_get_game(&db, 1).unwrap(),
        vec![
            "Game #1 — created then".to_string(),
            "-".repeat(70),
            format!("{:<4} {:<20} {:<12} {:<10} {}", "#", "NAME", "TEAM", "EDITION", "ABILITY"),
            "-".repeat(70),
            format!("{:<4} {:<20} {:<12} {:<10} {}", 1, "spy", "?", "?", "?"),
            format!("{:<4} {:<20} {:<12} {:<10} {}", 2, "Imp", "demon", "?", "Kills."),
            format!("{:<4} {:<20} {:<12} {:<10} {}", 3, "chef", "?", "?", "?"),
        ]
    );
    assert_eq!(run_get_game(&db, 9).unwrap(), owned(&["No game found with ID 9."]));
    let error = run_get_game(&Database::new(), 1).unwrap_err();
    assert_eq!(error.message(), "no such table: games");
}

#[test]
fn a_game_has_three_to_twenty_roles() {
    let mut db = ready();
    let before = format!("{db:?}");
    for count in [0, 2, 21] {
        let error = run_new_game(&mut db, &vec!["imp".to_string(); count]).unwrap_err();
        assert!(matches!(error, CommandError::WrongRoleCount(n) if n == count));
        assert_eq!(error.message(), format!("A game requires 3–20 roles, got {count}."));
    }
    assert_eq!(format!("{db:?}"), before);
    for (count, id) in [(3, 1), (20, 2)] {
        assert!(run_new_game(&mut db, &vec!["imp".to_string(); count]).is_ok());
        assert_eq!(get_game(&db, id).unwrap().unwrap().roles.len(), count);
    }
}

#[test]
fn a_new_game_reports_failures_of_the_storage() {
    let mut db = ready();
    db.games = Some(Numbered { last_id: i64::MAX, rows: vec![] });
    let error = run_new_game(&mut db, &owned(&["a", "b", "c"])).unwrap_err();
    assert_eq!(error.message(), "database or disk is full");
}

#[test]
fn a_role_that_is_not_stored_shows_question_marks() {
    let mut db = ready();
    create_game_at(&mut db, &owned(&["zzz"]), "then".to_string()).unwrap();
    assert_eq!(
        run_get_game(&db, 1).unwrap()[4],
        format!("{:<4} {:<20} {:<12} {:<10} {}", 1, "zzz", "?", "?", "?")
    );
}

#[test]
fn a_stored_role_without_an_ability_shows_none() {
    let mut db = ready();
    let data = BotcData { editions: vec![], roles: vec![role("imp", "Imp", None)] };
    run_api(&mut db, &data).unwrap();
    create_game_at(&mut db, &owned(&["imp"]), "then".to_string()).unwrap();
    assert_eq!(
        run_get_game(&db, 1).unwrap()[4],
        format!("{:<4} {:<20} {:<12} {:<10} {}", 1, "Imp", "demon", "?", "")
    );
}

#[test]
fn ordinary_pages_can_be_parsed() {
    assert!(can_be_parsed(""));
    assert!(can_be_parsed(&"<p>é</p>".repeat(1000)));
}

#[test]
fn what_comes_before_a_row_that_cannot_be_cut_is_shown() {
    let mut db = ready();
    run_scrape(&mut db, "u", "<p></p>", &owned(&["p:x"]), false).report.unwrap();
    run_scrape(&mut db, &"é".repeat(30), "<p></p>", &owned(&["p:x"]), false).report.unwrap();
    let records = get_all_scrapes(&db).unwrap();
    assert_eq!(fitting_records(&records), 1);
    let lines = write_records_table(&records, 1);
    assert_eq!(lines, run_list(&db, Some("u")).unwrap());
    let ability = format!("x{}", "é".repeat(30));
    let data = BotcData { editions: vec![], roles: vec![role("imp", "Imp", Some(&ability))] };
    run_api(&mut db, &data).unwrap();
    let roles = get_roles(&db, None, None).unwrap();
    assert_eq!(fitting_roles(&roles), 0);
    assert_eq!(write_roles_table(&roles, 0).len(), 2);
}

#[test]
fn a_role_stored_with_nothing_but_its_id_shows_no_ability() {
    let mut db = ready();
    let mut bare = role("imp", "", None);
    bare.name = None;
    bare.team = None;
    run_api(&mut db, &BotcData { editions: vec![], roles: vec![bare] }).unwrap();
    create_game_at(&mut db, &owned(&["imp", "zzz"]), "then".to_string()).unwrap();
    let lines = run_get_game(&db, 1).unwrap();
    assert_eq!(lines[4], format!("{:<4} {:<20} {:<12} {:<10} {}", 1, "imp", "?", "?", ""));
    assert_eq!(lines[5], format!("{:<4} {:<20} {:<12} {:<10} {}", 2, "zzz", "?", "?", "?"));
}

#[test]
fn without_javascript_sign_in_has_no_say() {
    let first = plan_fetch("http://h/p", false, 10, Some("a=b"), &owned(&["k=v"]));
    let second = plan_fetch("http://h/p", false, 99, None, &[]);
    assert_eq!(format!("{first:?}"), format!("{second:?}"));
}

#[test]
fn what_will_be_stored_is_told_beforehand() {
    assert!(will_store(&owned(&["p:x"]), false));
    assert!(!will_store(&owned(&["p:x"]), true));
    assert!(!will_store(&[], false));
    assert!(!will_store(&owned(&["p:x", "bad"]), false));
    for (count, answer) in [(2, false), (3, true), (20, true), (21, false)] {
        assert_eq!(has_role_count(&vec!["imp".to_string(); count]), answer);
    }
}
