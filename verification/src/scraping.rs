//! The commands on scrape results.

use crate::browser::{fetch_js_steps, fetching_steps, BrowserStep, BrowserStepView};
use crate::clock::{a_time_exists, is_rfc3339_utc, now_rfc3339};
use crate::models::{Field, FieldView, ScrapeRecord, ScrapeRecordView};
use crate::page::{
    extract, fields_of, lookups_of, page_elements, page_fits, parse_document, warnings_of,
    Extraction,
};
use crate::reading_laws::stored_scrape_is_read;
use crate::report::{
    add_line, one_line, report_view, row_of_four, write_row_of_four, CommandError, CommandErrorView,
};
use crate::scrapes::{
    get_all_scrapes, get_scrapes_by_url, insert_scrape, scrape_inserted, scrapes_read,
};
use crate::selectors::{parse_selectors, selectors_parsed};
use crate::tables::{keeps_invariants, result_view, Database, DatabaseView, StorageError};
use crate::text::{
    can_be_shortened, decimal, digits, fits_column, hyphens, join, joined, repeated, shorten,
    shortened, write_integer, write_natural,
};
use vstd::prelude::*;

verus! {

/// How a page is fetched.
#[derive(Debug)]
pub enum FetchPlan {
    /// With a plain GET request for this URL.
    Get(String),
    /// By taking a browser through these steps.
    Browser(Vec<BrowserStep>),
}

/// What a [`FetchPlan`] holds.
#[verifier::ext_equal]
pub enum FetchPlanView {
    Get(Seq<char>),
    Browser(Seq<BrowserStepView>),
}

impl DeepView for FetchPlan {
    type V = FetchPlanView;

    open spec fn deep_view(&self) -> FetchPlanView {
        match self {
            FetchPlan::Get(url) => FetchPlanView::Get(url.deep_view()),
            FetchPlan::Browser(steps) => FetchPlanView::Browser(steps.deep_view()),
        }
    }
}

/// How the page at `url` is fetched: with a browser where JavaScript is asked for, and with a
/// plain request otherwise.
pub open spec fn fetch_planned(
    url: Seq<char>,
    js: bool,
    wait_ms: u64,
    cookie: Option<Seq<char>>,
    local_storage: Seq<Seq<char>>,
) -> FetchPlanView {
    if js {
        FetchPlanView::Browser(fetching_steps(url, wait_ms, cookie, local_storage))
    } else {
        FetchPlanView::Get(url)
    }
}

/// How the page at `url` is fetched: with a browser where JavaScript is asked for, and with a
/// plain request otherwise. The last three arguments matter only to the browser.
pub fn plan_fetch(
    url: &str,
    js: bool,
    wait_ms: u64,
    cookie: Option<&str>,
    local_storage: &[String],
) -> (plan: FetchPlan)
    ensures
        plan.deep_view() == fetch_planned(
            url@,
            js,
            wait_ms,
            cookie.deep_view(),
            local_storage.deep_view(),
        ),
{
    if js {
        FetchPlan::Browser(fetch_js_steps(url, wait_ms, cookie, local_storage))
    } else {
        FetchPlan::Get(url.to_owned())
    }
}

/// Whether the status code of a response says that the page was delivered: only those from 200
/// to 299 do.
pub open spec fn delivers(status: u16) -> bool {
    200 <= status <= 299
}

/// Whether the status code of a response says that the page was delivered: only those from 200
/// to 299 do.
pub fn is_delivered(status: u16) -> (answer: bool)
    ensures
        answer == delivers(status),
        answer == (200 <= status <= 299),
{
    200 <= status && status <= 299
}

/// A field, of its name and value.
pub open spec fn making_field() -> spec_fn((Seq<char>, Seq<char>)) -> FieldView {
    |pair: (Seq<char>, Seq<char>)| FieldView { name: pair.0, value: pair.1 }
}

/// The line of a field.
pub open spec fn field_line(field: FieldView) -> Seq<char> {
    "  "@ + field.name + ": "@ + field.value
}

/// What is printed after a record was stored.
pub open spec fn record_announced(id: i64, fields: Seq<FieldView>) -> Seq<Seq<char>> {
    seq![
        "Stored record #"@ + decimal(id as int) + " with "@ + digits(fields.len()) + " field(s):"@,
    ] + fields.map_values(|field: FieldView| field_line(field))
}

/// What storing the fields of the page at `url` gives, and the database after it.
pub open spec fn fields_recorded(
    db: DatabaseView,
    url: Seq<char>,
    fields: Seq<FieldView>,
    scraped_at: Seq<char>,
) -> (Result<Seq<Seq<char>>, CommandErrorView>, DatabaseView) {
    let (inserted, after) = scrape_inserted(db, ScrapeRecordView { id: 0, url, scraped_at, fields });
    match inserted {
        Ok(id) => (Ok(record_announced(id, fields)), after),
        Err(error) => (Err(CommandErrorView::Storage(error)), after),
    }
}

/// Says that a record was stored.
pub fn announce_record(id: i64, fields: &Vec<Field>) -> (lines: Vec<String>)
    ensures
        lines.deep_view() == record_announced(id, fields.deep_view()),
{
    let ghost all = fields.deep_view();
    let mut lines: Vec<String> = Vec::new();
    let mut line = "Stored record #".to_owned();
    line.append(write_integer(id).as_str());
    line.append(" with ");
    line.append(write_natural(fields.len() as u64).as_str());
    line.append(" field(s):");
    add_line(&mut lines, line);
    let ghost head = lines.deep_view();
    let ghost rows = all.map_values(|field: FieldView| field_line(field));
    let mut i: usize = 0;
    assert(head + rows.take(0) =~= head);
    while i < fields.len()
        invariant
            i <= fields.len(),
            all == fields.deep_view(),
            rows == all.map_values(|field: FieldView| field_line(field)),
            lines.deep_view() == head + rows.take(i as int),
        decreases fields.len() - i,
    {
        assert(fields[i as int].deep_view() == all[i as int]);
        let mut line = "  ".to_owned();
        line.append(fields[i].name.as_str());
        line.append(": ");
        line.append(fields[i].value.as_str());
        add_line(&mut lines, line);
        assert(head + rows.take(i + 1) =~= (head + rows.take(i as int)).push(rows[i as int]));
        i = i + 1;
    }
    assert(lines.deep_view() =~= record_announced(id, all));
    lines
}

/// Makes fields of pairs of a name and a value.
fn make_fields(pairs: &Vec<(String, String)>) -> (fields: Vec<Field>)
    ensures
        fields.deep_view() == pairs.deep_view().map_values(making_field()),
{
    let ghost all = pairs.deep_view();
    let mut fields: Vec<Field> = Vec::new();
    let mut i: usize = 0;
    while i < pairs.len()
        invariant
            i <= pairs.len(),
            all == pairs.deep_view(),
            fields.deep_view() =~= all.take(i as int).map_values(making_field()),
        decreases pairs.len() - i,
    {
        let ghost before = fields.deep_view();
        assert(pairs[i as int].deep_view() == all[i as int]);
        let field = Field { name: pairs[i].0.clone(), value: pairs[i].1.clone() };
        let ghost field_view = field.deep_view();
        fields.push(field);
        assert(fields.deep_view() =~= before.push(field_view));
        i = i + 1;
    }
    assert(all.take(i as int) =~= all);
    fields
}

/// Stores what was extracted from the page at `url` at the time `scraped_at`.
pub fn record_fields_at(
    db: &mut Database,
    url: &str,
    extracted: &Vec<(String, String)>,
    scraped_at: String,
) -> (report: Result<Vec<String>, CommandError>)
    ensures
        (report_view(report), final(db).deep_view()) == fields_recorded(
            old(db).deep_view(),
            url@,
            extracted.deep_view().map_values(making_field()),
            scraped_at@,
        ),
        keeps_invariants(old(db).deep_view(), final(db).deep_view()),
{
    let record = ScrapeRecord {
        id: 0,
        url: url.to_owned(),
        scraped_at,
        fields: make_fields(extracted),
    };
    match insert_scrape(db, &record) {
        Ok(id) => Ok(announce_record(id, &record.fields)),
        Err(error) => Err(CommandError::Storage(error)),
    }
}

/// What scraping a page gave: the warnings, and the lines that are printed or why it failed.
#[derive(Debug)]
pub struct ScrapeReport {
    pub warnings: Vec<String>,
    pub report: Result<Vec<String>, CommandError>,
}

/// What a [`ScrapeReport`] holds.
#[verifier::ext_equal]
pub struct ScrapeReportView {
    pub warnings: Seq<Seq<char>>,
    pub report: Result<Seq<Seq<char>>, CommandErrorView>,
}

impl DeepView for ScrapeReport {
    type V = ScrapeReportView;

    open spec fn deep_view(&self) -> ScrapeReportView {
        ScrapeReportView {
            warnings: self.warnings.deep_view(),
            report: report_view(self.report),
        }
    }
}

/// What is answered where nothing is stored: the HTML where it is to be dumped, or why the
/// arguments are refused.
pub open spec fn answered_at_once(
    html: Seq<char>,
    select: Seq<Seq<char>>,
    dump_html: bool,
) -> Option<Result<Seq<Seq<char>>, CommandErrorView>> {
    if dump_html {
        Some(Ok(seq![html]))
    } else if select.len() == 0 {
        Some(Err(CommandErrorView::NothingSelected))
    } else {
        match selectors_parsed(select) {
            Err(argument) => Some(Err(CommandErrorView::InvalidSelector(argument))),
            Ok(_) => None,
        }
    }
}

/// Whether scraping with these arguments extracts fields and stores them.
pub open spec fn stores_fields(select: Seq<Seq<char>>, dump_html: bool) -> bool {
    !dump_html && select.len() > 0 && selectors_parsed(select) is Ok
}

/// What scraping the page at `url`, whose HTML is `html`, gives at the time `scraped_at`, and
/// the database after it. `elements` is what the page holds.
///
/// Where the HTML is to be dumped, it is printed as it is. Otherwise the arguments say what is
/// extracted and stored.
pub open spec fn page_scraped(
    db: DatabaseView,
    url: Seq<char>,
    html: Seq<char>,
    elements: Map<Seq<char>, Seq<Seq<Seq<char>>>>,
    select: Seq<Seq<char>>,
    dump_html: bool,
    scraped_at: Seq<char>,
) -> (ScrapeReportView, DatabaseView) {
    match answered_at_once(html, select, dump_html) {
        Some(report) => (ScrapeReportView { warnings: Seq::empty(), report }, db),
        None => {
            let selectors = selectors_parsed(select)->Ok_0;
            let lookups = lookups_of(elements, selectors);
            let fields = fields_of(selectors, lookups).map_values(making_field());
            let (report, after) = fields_recorded(db, url, fields, scraped_at);
            (ScrapeReportView { warnings: warnings_of(selectors, lookups), report }, after)
        },
    }
}

/// Whether scraping with these arguments extracts fields and stores them.
pub fn will_store(select: &[String], dump_html: bool) -> (answer: bool)
    ensures
        answer == stores_fields(select.deep_view(), dump_html),
{
    !dump_html && select.len() > 0 && parse_selectors(select).is_ok()
}

/// What the arguments ask for: the answer that is given at once, or what is to be stored.
enum Asked {
    Answer(Result<Vec<String>, CommandError>),
    Store(Extraction),
}

/// Does what the arguments ask for, up to the point where something is stored.
fn ask(raw_html: &str, select: &[String], dump_html: bool) -> (asked: Asked)
    requires
        stores_fields(select.deep_view(), dump_html) ==> page_fits(raw_html@),
    ensures
        match asked {
            Asked::Answer(report) => answered_at_once(
                raw_html@,
                select.deep_view(),
                dump_html,
            ) == Some(report_view(report)),
            Asked::Store(extraction) => {
                let selectors = selectors_parsed(select.deep_view())->Ok_0;
                let lookups = lookups_of(page_elements(raw_html@), selectors);
                &&& answered_at_once(raw_html@, select.deep_view(), dump_html) is None
                &&& extraction.fields.deep_view() == fields_of(selectors, lookups)
                &&& extraction.warnings.deep_view() == warnings_of(selectors, lookups)
            },
        },
{
    if dump_html {
        return Asked::Answer(Ok(one_line(raw_html)));
    }
    if select.len() == 0 {
        return Asked::Answer(Err(CommandError::NothingSelected));
    }
    match parse_selectors(select) {
        Err(argument) => Asked::Answer(Err(CommandError::InvalidSelector(argument))),
        Ok(selectors) => {
            let document = parse_document(raw_html);
            Asked::Store(extract(&document, selectors.as_slice()))
        },
    }
}

/// An answer without warnings.
fn without_warnings(report: Result<Vec<String>, CommandError>) -> (answer: ScrapeReport)
    ensures
        answer.deep_view() == (ScrapeReportView {
            warnings: Seq::empty(),
            report: report_view(report),
        }),
{
    let warnings: Vec<String> = Vec::new();
    assert(warnings.deep_view() =~= Seq::empty());
    ScrapeReport { warnings, report }
}

/// Scrapes the page at `url`, whose HTML is `raw_html`, at the time `scraped_at`.
pub fn run_scrape_at(
    db: &mut Database,
    url: &str,
    raw_html: &str,
    select: &[String],
    dump_html: bool,
    scraped_at: String,
) -> (report: ScrapeReport)
    requires
        stores_fields(select.deep_view(), dump_html) ==> page_fits(raw_html@),
    ensures
        (report.deep_view(), final(db).deep_view()) == page_scraped(
            old(db).deep_view(),
            url@,
            raw_html@,
            page_elements(raw_html@),
            select.deep_view(),
            dump_html,
            scraped_at@,
        ),
        keeps_invariants(old(db).deep_view(), final(db).deep_view()),
{
    match ask(raw_html, select, dump_html) {
        Asked::Answer(report) => without_warnings(report),
        Asked::Store(extraction) => {
            let report = record_fields_at(db, url, &extraction.fields, scraped_at);
            ScrapeReport { warnings: extraction.warnings, report }
        },
    }
}

/// Extracts fields from the page at `url`, whose HTML is `raw_html`, and stores them with the
/// present time. Where `dump_html` is set, the HTML is printed and nothing is stored.
pub fn run_scrape(
    db: &mut Database,
    url: &str,
    raw_html: &str,
    select: &[String],
    dump_html: bool,
) -> (report: ScrapeReport)
    requires
        stores_fields(select.deep_view(), dump_html) ==> page_fits(raw_html@),
    ensures
        exists|scraped_at: Seq<char>|
            is_rfc3339_utc(scraped_at) && (report.deep_view(), final(db).deep_view())
                == #[trigger] page_scraped(
                old(db).deep_view(),
                url@,
                raw_html@,
                page_elements(raw_html@),
                select.deep_view(),
                dump_html,
                scraped_at,
            ),
        keeps_invariants(old(db).deep_view(), final(db).deep_view()),
{
    match ask(raw_html, select, dump_html) {
        Asked::Answer(report) => {
            proof {
                let scraped_at = a_time_exists();
                assert(page_scraped(
                    db.deep_view(),
                    url@,
                    raw_html@,
                    page_elements(raw_html@),
                    select.deep_view(),
                    dump_html,
                    scraped_at,
                ).1 == db.deep_view());
            }
            without_warnings(report)
        },
        Asked::Store(extraction) => {
            let scraped_at = now_rfc3339();
            let ghost time = scraped_at@;
            let report = record_fields_at(db, url, &extraction.fields, scraped_at);
            let answer = ScrapeReport { warnings: extraction.warnings, report };
            assert((answer.deep_view(), db.deep_view()) == page_scraped(
                old(db).deep_view(),
                url@,
                raw_html@,
                page_elements(raw_html@),
                select.deep_view(),
                dump_html,
                time,
            ));
            answer
        },
    }
}

/// How the fields of a record are shown in the list of records.
pub open spec fn fields_cell(fields: Seq<FieldView>) -> Seq<char> {
    joined(fields.map_values(|field: FieldView| field.name + "="@ + field.value), ", "@)
}

/// Whether the URL of a record can be shown in the list of records: where it has to be cut, the
/// cut does not fall inside a character.
pub open spec fn url_fits(record: ScrapeRecordView) -> bool {
    can_be_shortened(record.url, 48, 45)
}

/// Whether the URLs of all records can be shown in the list of records.
pub open spec fn urls_fit(records: Seq<ScrapeRecordView>) -> bool {
    forall|i: int| 0 <= i < records.len() ==> url_fits(#[trigger] records[i])
}

/// The row of a record.
pub open spec fn record_line(record: ScrapeRecordView) -> Seq<char> {
    row_of_four(
        (decimal(record.id as int), 6),
        (shortened(record.url, 48, 45), 50),
        (record.scraped_at, 30),
        fields_cell(record.fields),
    )
}

/// The table of records: a head, a rule, and a row for each record.
pub open spec fn records_table(records: Seq<ScrapeRecordView>) -> Seq<Seq<char>> {
    seq![
        row_of_four(("ID"@, 6), ("URL"@, 50), ("SCRAPED AT"@, 30), "FIELDS"@),
        repeated('-', 110),
    ] + records.map_values(|record: ScrapeRecordView| record_line(record))
}

/// The list of records: their table, where there are any.
pub open spec fn records_listed(records: Seq<ScrapeRecordView>) -> Seq<Seq<char>> {
    if records.len() == 0 {
        seq!["No results found."@]
    } else {
        records_table(records)
    }
}

/// How many records can be shown before the first whose URL cannot.
pub fn fitting_records(records: &Vec<ScrapeRecord>) -> (count: usize)
    ensures
        count <= records@.len(),
        urls_fit(records.deep_view().take(count as int)),
        count < records@.len() ==> !url_fits(records.deep_view()[count as int]),
{
    let ghost all = records.deep_view();
    let mut i: usize = 0;
    while i < records.len()
        invariant
            i <= records.len(),
            all == records.deep_view(),
            forall|j: int| 0 <= j < i ==> url_fits(#[trigger] all[j]),
        decreases records.len() - i,
    {
        assert(records[i as int].deep_view() == all[i as int]);
        if !fits_column(records[i].url.as_str(), 48, 45) {
            return i;
        }
        i = i + 1;
    }
    i
}

/// Whether the URLs of all records can be shown in the list of records.
pub fn can_list_records(records: &Vec<ScrapeRecord>) -> (answer: bool)
    ensures
        answer == urls_fit(records.deep_view()),
{
    let count = fitting_records(records);
    assert(records.deep_view().take(records@.len() as int) =~= records.deep_view());
    count == records.len()
}

/// Writes the fields of a record.
fn write_fields(fields: &Vec<Field>) -> (cell: String)
    ensures
        cell@ == fields_cell(fields.deep_view()),
{
    let ghost all = fields.deep_view();
    let ghost expected = all.map_values(|field: FieldView| field.name + "="@ + field.value);
    let mut parts: Vec<String> = Vec::new();
    let mut i: usize = 0;
    assert(parts.deep_view() =~= expected.take(0));
    while i < fields.len()
        invariant
            i <= fields.len(),
            all == fields.deep_view(),
            expected == all.map_values(|field: FieldView| field.name + "="@ + field.value),
            parts.deep_view() == expected.take(i as int),
        decreases fields.len() - i,
    {
        assert(fields[i as int].deep_view() == all[i as int]);
        let mut part = fields[i].name.clone();
        part.append("=");
        part.append(fields[i].value.as_str());
        add_line(&mut parts, part);
        assert(expected.take(i + 1) =~= expected.take(i as int).push(expected[i as int]));
        i = i + 1;
    }
    assert(parts.deep_view() =~= expected);
    join(&parts, ", ")
}

/// Writes the row of a record.
fn write_record(record: &ScrapeRecord) -> (line: String)
    requires
        url_fits(record.deep_view()),
    ensures
        line@ == record_line(record.deep_view()),
{
    let id = write_integer(record.id);
    let url = shorten(record.url.as_str(), 48, 45);
    let fields = write_fields(&record.fields);
    write_row_of_four(
        (id.as_str(), 6),
        (url.as_str(), 50),
        (record.scraped_at.as_str(), 30),
        fields.as_str(),
    )
}

/// Writes the table of the first `count` records.
pub fn write_records_table(records: &Vec<ScrapeRecord>, count: usize) -> (lines: Vec<String>)
    requires
        count <= records@.len(),
        urls_fit(records.deep_view().take(count as int)),
    ensures
        lines.deep_view() == records_table(records.deep_view().take(count as int)),
{
    let ghost all = records.deep_view().take(count as int);
    let mut lines: Vec<String> = Vec::new();
    add_line(
        &mut lines,
        write_row_of_four(("ID", 6), ("URL", 50), ("SCRAPED AT", 30), "FIELDS"),
    );
    add_line(&mut lines, hyphens(110));
    let ghost head = lines.deep_view();
    let ghost rows = all.map_values(|record: ScrapeRecordView| record_line(record));
    let mut i: usize = 0;
    assert(head + rows.take(0) =~= head);
    while i < count
        invariant
            i <= count <= records.len(),
            all == records.deep_view().take(count as int),
            urls_fit(all),
            rows == all.map_values(|record: ScrapeRecordView| record_line(record)),
            lines.deep_view() == head + rows.take(i as int),
        decreases count - i,
    {
        assert(records[i as int].deep_view() == all[i as int]);
        assert(url_fits(all[i as int]));
        add_line(&mut lines, write_record(&records[i]));
        assert(head + rows.take(i + 1) =~= (head + rows.take(i as int)).push(rows[i as int]));
        i = i + 1;
    }
    assert(lines.deep_view() =~= records_table(all));
    lines
}

/// Lists records.
pub fn list_records(records: &Vec<ScrapeRecord>) -> (lines: Vec<String>)
    requires
        urls_fit(records.deep_view()),
    ensures
        lines.deep_view() == records_listed(records.deep_view()),
{
    if records.len() == 0 {
        return one_line("No results found.");
    }
    assert(records.deep_view().take(records@.len() as int) =~= records.deep_view());
    write_records_table(records, records.len())
}

/// What listing the stored records, or those with the URL `url`, gives.
pub open spec fn records_shown(db: DatabaseView, url: Option<Seq<char>>) -> Result<
    Seq<Seq<char>>,
    CommandErrorView,
> {
    match scrapes_read(db, url) {
        Ok(records) => Ok(records_listed(records)),
        Err(error) => Err(CommandErrorView::Storage(error)),
    }
}

/// Whether the stored records, or those with the URL `url`, can be listed.
pub open spec fn records_showable(db: DatabaseView, url: Option<Seq<char>>) -> bool {
    scrapes_read(db, url) matches Ok(records) ==> urls_fit(records)
}

/// Reads the stored records, or only those with the URL `url_filter`.
fn read_records(db: &Database, url_filter: Option<&str>) -> (records: Result<
    Vec<ScrapeRecord>,
    StorageError,
>)
    requires
        db.deep_view().well_formed(),
    ensures
        result_view(records) == scrapes_read(db.deep_view(), url_filter.deep_view()),
{
    match url_filter {
        Some(url) => get_scrapes_by_url(db, url),
        None => get_all_scrapes(db),
    }
}

/// Whether the stored records, or those with the URL `url_filter`, can be listed.
pub fn can_run_list(db: &Database, url_filter: Option<&str>) -> (answer: bool)
    requires
        db.deep_view().well_formed(),
    ensures
        answer == records_showable(db.deep_view(), url_filter.deep_view()),
{
    match read_records(db, url_filter) {
        Ok(records) => can_list_records(&records),
        Err(_) => true,
    }
}

/// Lists the stored records, or only those with the URL `url_filter`.
pub fn run_list(db: &Database, url_filter: Option<&str>) -> (report: Result<
    Vec<String>,
    CommandError,
>)
    requires
        db.deep_view().well_formed(),
        records_showable(db.deep_view(), url_filter.deep_view()),
    ensures
        report_view(report) == records_shown(db.deep_view(), url_filter.deep_view()),
{
    match read_records(db, url_filter) {
        Ok(records) => Ok(list_records(&records)),
        Err(error) => Err(CommandError::Storage(error)),
    }
}

/// What is said after `count` records were exported, to a file or to standard output.
pub open spec fn export_line(count: nat, output: Option<Seq<char>>) -> Seq<char> {
    match output {
        Some(path) => "Exported "@ + digits(count) + " record(s) to "@ + path + "."@,
        None => "Exported "@ + digits(count) + " record(s)."@,
    }
}

/// Says how many records were exported, to a file or to standard output.
pub fn announce_export(count: usize, output: Option<&str>) -> (line: String)
    ensures
        line@ == export_line(count as nat, output.deep_view()),
{
    let mut line = "Exported ".to_owned();
    line.append(write_natural(count as u64).as_str());
    match output {
        Some(path) => {
            line.append(" record(s) to ");
            line.append(path);
            line.append(".");
        },
        None => {
            line.append(" record(s).");
        },
    }
    line
}

/// What is exported, and what is said after it.
#[derive(Debug)]
pub struct Export {
    pub records: Vec<ScrapeRecord>,
    pub message: String,
}

/// Gathers all stored records for an export to a file or to standard output.
pub fn run_export(db: &Database, output: Option<&str>) -> (export: Result<Export, CommandError>)
    requires
        db.deep_view().well_formed(),
    ensures
        match export {
            Ok(export) => scrapes_read(db.deep_view(), None) matches Ok(records) && {
                &&& export.records.deep_view() == records
                &&& export.message@ == export_line(records.len(), output.deep_view())
            },
            Err(error) => scrapes_read(db.deep_view(), None) matches Err(failure)
                && error.deep_view() == CommandErrorView::Storage(failure),
        },
{
    match get_all_scrapes(db) {
        Err(error) => Err(CommandError::Storage(error)),
        Ok(records) => {
            let message = announce_export(records.len(), output);
            Ok(Export { records, message })
        },
    }
}

/// Dumping the HTML of a page prints it as it is and stores nothing, whatever is selected.
pub proof fn dumping_stores_nothing(
    db: DatabaseView,
    url: Seq<char>,
    html: Seq<char>,
    elements: Map<Seq<char>, Seq<Seq<Seq<char>>>>,
    select: Seq<Seq<char>>,
    scraped_at: Seq<char>,
)
    ensures
        page_scraped(db, url, html, elements, select, true, scraped_at).1 == db,
        page_scraped(db, url, html, elements, select, true, scraped_at).0.report == Ok::<
            Seq<Seq<char>>,
            CommandErrorView,
        >(seq![html]),
{
}

/// Arguments that do not say what to extract are refused, and nothing is stored.
pub proof fn refused_arguments_store_nothing(
    db: DatabaseView,
    url: Seq<char>,
    html: Seq<char>,
    elements: Map<Seq<char>, Seq<Seq<Seq<char>>>>,
    select: Seq<Seq<char>>,
    scraped_at: Seq<char>,
)
    requires
        select.len() == 0 || selectors_parsed(select) is Err,
    ensures
        page_scraped(db, url, html, elements, select, false, scraped_at).1 == db,
        page_scraped(db, url, html, elements, select, false, scraped_at).0.report is Err,
{
}

/// What was scraped is listed afterwards: behind the records before it, with its URL, its time
/// and the fields that the page gave.
pub proof fn scraped_page_is_read(
    db: DatabaseView,
    url: Seq<char>,
    html: Seq<char>,
    elements: Map<Seq<char>, Seq<Seq<Seq<char>>>>,
    select: Seq<Seq<char>>,
    scraped_at: Seq<char>,
)
    requires
        db.well_formed(),
        db.references_hold(),
        db.fields is Some,
        page_scraped(db, url, html, elements, select, false, scraped_at).0.report is Ok,
    ensures
        ({
            let after = page_scraped(db, url, html, elements, select, false, scraped_at).1;
            let selectors = selectors_parsed(select)->Ok_0;
            let id = (db.scrapes->0.last_id + 1) as i64;
            &&& scrapes_read(db, None) is Ok
            &&& scrapes_read(after, None) == Ok::<Seq<ScrapeRecordView>, StorageError>(
                scrapes_read(db, None)->Ok_0.push(
                    ScrapeRecordView {
                        id,
                        url,
                        scraped_at,
                        fields: fields_of(selectors, lookups_of(elements, selectors)).map_values(
                            making_field(),
                        ),
                    },
                ),
            )
        }),
{
    let selectors = selectors_parsed(select)->Ok_0;
    let fields = fields_of(selectors, lookups_of(elements, selectors)).map_values(making_field());
    stored_scrape_is_read(db, ScrapeRecordView { id: 0, url, scraped_at, fields }, None);
}

/// What scraping gives where `respond` says which HTML comes back for each way to fetch the
/// page.
pub open spec fn scraped_by_plan(
    db: DatabaseView,
    url: Seq<char>,
    plan: FetchPlanView,
    respond: spec_fn(FetchPlanView) -> Seq<char>,
    select: Seq<Seq<char>>,
    dump_html: bool,
    scraped_at: Seq<char>,
) -> (ScrapeReportView, DatabaseView) {
    let html = respond(plan);
    page_scraped(db, url, html, page_elements(html), select, dump_html, scraped_at)
}

/// Without JavaScript, the waiting time, the cookie and the local storage have no say: the page
/// is fetched in the same way, and where the same HTML comes back, the same is printed and
/// stored.
pub proof fn only_the_browser_is_signed_in(
    db: DatabaseView,
    url: Seq<char>,
    respond: spec_fn(FetchPlanView) -> Seq<char>,
    select: Seq<Seq<char>>,
    dump_html: bool,
    scraped_at: Seq<char>,
    first: (u64, Option<Seq<char>>, Seq<Seq<char>>),
    second: (u64, Option<Seq<char>>, Seq<Seq<char>>),
)
    ensures
        ({
            let plan = fetch_planned(url, false, first.0, first.1, first.2);
            let other = fetch_planned(url, false, second.0, second.1, second.2);
            &&& plan == other
            &&& scraped_by_plan(db, url, plan, respond, select, dump_html, scraped_at)
                == scraped_by_plan(db, url, other, respond, select, dump_html, scraped_at)
        }),
{
}

/// Fields are stored exactly where nothing is answered at once.
pub proof fn stored_or_answered(html: Seq<char>, select: Seq<Seq<char>>, dump_html: bool)
    ensures
        stores_fields(select, dump_html) <==> answered_at_once(html, select, dump_html) is None,
{
}

} // verus!
