//! Scrape results, stored and read back.

use crate::models::{Field, FieldView, ScrapeRecord, ScrapeRecordView};
use crate::order::{all_kept, filter_push, none_kept};
use crate::storage_laws::storing_a_scrape_keeps_invariants;
use crate::tables::{
    keeps_invariants, numbers_left, result_view, Database, DatabaseView, FieldRow, FieldRowView,
    Numbered, NumberedView, ScrapeRow, ScrapeRowView, StorageError, TableName,
};
use crate::text::same_text;
use std::collections::BTreeMap;
use vstd::prelude::*;

verus! {

/// The rows that hold the first `count` fields of a scrape, numbered from behind `last_id` on.
pub open spec fn field_rows(
    last_id: i64,
    scrape_id: i64,
    fields: Seq<FieldView>,
    count: nat,
) -> Seq<FieldRowView> {
    Seq::new(
        count,
        |i: int|
            FieldRowView {
                id: (last_id + 1 + i) as i64,
                scrape_id,
                name: fields[i].name,
                value: fields[i].value,
            },
    )
}

/// What storing the fields of a scrape gives: the failure, if any, and the table after it. The
/// fields before the one at which it fails stay stored.
pub open spec fn fields_stored(
    table: Option<NumberedView<FieldRowView>>,
    scrape_id: i64,
    fields: Seq<FieldView>,
) -> (Option<StorageError>, Option<NumberedView<FieldRowView>>) {
    if fields.len() == 0 {
        (None, table)
    } else {
        match table {
            None => (Some(StorageError::NoSuchTable(TableName::Fields)), None),
            Some(table) => {
                let count = numbers_left(table.last_id, fields.len());
                (
                    if count < fields.len() {
                        Some(StorageError::IdsExhausted(TableName::Fields))
                    } else {
                        None
                    },
                    Some(
                        NumberedView {
                            last_id: (table.last_id + count) as i64,
                            rows: table.rows + field_rows(table.last_id, scrape_id, fields, count),
                        },
                    ),
                )
            },
        }
    }
}

/// What storing a scrape record returns, and the database after it: a new scrape, and behind
/// it its fields in order. The ID of the record itself is not looked at.
pub open spec fn scrape_inserted(db: DatabaseView, record: ScrapeRecordView) -> (
    Result<i64, StorageError>,
    DatabaseView,
) {
    match db.scrapes {
        None => (Err(StorageError::NoSuchTable(TableName::Scrapes)), db),
        Some(table) => if table.last_id == i64::MAX {
            (Err(StorageError::IdsExhausted(TableName::Scrapes)), db)
        } else {
            let id = (table.last_id + 1) as i64;
            let (failure, fields) = fields_stored(db.fields, id, record.fields);
            (
                match failure {
                    Some(error) => Err(error),
                    None => Ok(id),
                },
                DatabaseView {
                    scrapes: Some(
                        NumberedView {
                            last_id: id,
                            rows: table.rows.push(
                                ScrapeRowView {
                                    id,
                                    url: record.url,
                                    scraped_at: record.scraped_at,
                                },
                            ),
                        },
                    ),
                    fields,
                    ..db
                },
            )
        },
    }
}

/// Stores the fields of a scrape, in order, until the table has no number left.
fn store_fields(table: &mut Numbered<FieldRow>, scrape_id: i64, fields: &Vec<Field>) -> (failure:
    Option<StorageError>)
    requires
        fields@.len() > 0,
    ensures
        (failure, Some(final(table).deep_view())) == fields_stored(
            Some(old(table).deep_view()),
            scrape_id,
            fields.deep_view(),
        ),
{
    let ghost all = fields.deep_view();
    let ghost start = table.deep_view();
    let mut i: usize = 0;
    assert(table.rows.deep_view() =~= start.rows + field_rows(start.last_id, scrape_id, all, 0));
    while i < fields.len()
        invariant
            i <= fields.len(),
            all == fields.deep_view(),
            start == old(table).deep_view(),
            all.len() > 0,
            table.last_id == start.last_id + i,
            table.rows.deep_view() == start.rows + field_rows(
                start.last_id,
                scrape_id,
                all,
                i as nat,
            ),
        decreases fields.len() - i,
    {
        if table.last_id == i64::MAX {
            assert(numbers_left(start.last_id, all.len()) == i);
            return Some(StorageError::IdsExhausted(TableName::Fields));
        }
        let ghost rows = table.rows.deep_view();
        let id = table.last_id + 1;
        let row = FieldRow {
            id,
            scrape_id,
            name: fields[i].name.clone(),
            value: fields[i].value.clone(),
        };
        let ghost row_view = row.deep_view();
        table.rows.push(row);
        table.last_id = id;
        assert(table.rows.deep_view() =~= rows.push(row_view));
        assert(rows.push(row_view) =~= start.rows + field_rows(
            start.last_id,
            scrape_id,
            all,
            (i + 1) as nat,
        ));
        i = i + 1;
    }
    assert(numbers_left(start.last_id, all.len()) == all.len());
    None
}

/// Stores a scrape record with all its fields. Returns the ID that it was given.
pub fn insert_scrape(db: &mut Database, record: &ScrapeRecord) -> (inserted: Result<
    i64,
    StorageError,
>)
    ensures
        (inserted, final(db).deep_view()) == scrape_inserted(
            old(db).deep_view(),
            record.deep_view(),
        ),
        keeps_invariants(old(db).deep_view(), final(db).deep_view()),
{
    proof {
        if db.deep_view().well_formed() {
            storing_a_scrape_keeps_invariants(db.deep_view(), record.deep_view());
        }
    }
    let id: i64;
    match &mut db.scrapes {
        None => {
            return Err(StorageError::NoSuchTable(TableName::Scrapes));
        },
        Some(table) => {
            if table.last_id == i64::MAX {
                return Err(StorageError::IdsExhausted(TableName::Scrapes));
            }
            let ghost rows = table.rows.deep_view();
            id = table.last_id + 1;
            let row = ScrapeRow {
                id,
                url: record.url.clone(),
                scraped_at: record.scraped_at.clone(),
            };
            let ghost row_view = row.deep_view();
            table.rows.push(row);
            table.last_id = id;
            assert(table.rows.deep_view() =~= rows.push(row_view));
        },
    }
    if record.fields.len() == 0 {
        return Ok(id);
    }
    match &mut db.fields {
        None => Err(StorageError::NoSuchTable(TableName::Fields)),
        Some(table) => match store_fields(table, id, &record.fields) {
            Some(error) => Err(error),
            None => Ok(id),
        },
    }
}

/// A scrape together with one of its fields, or with none where it has none.
#[derive(Debug)]
pub struct JoinedRow {
    pub id: i64,
    pub url: String,
    pub scraped_at: String,
    pub name: Option<String>,
    pub value: Option<String>,
}

/// What a [`JoinedRow`] holds.
#[verifier::ext_equal]
pub struct JoinedRowView {
    pub id: i64,
    pub url: Seq<char>,
    pub scraped_at: Seq<char>,
    pub name: Option<Seq<char>>,
    pub value: Option<Seq<char>>,
}

impl DeepView for JoinedRow {
    type V = JoinedRowView;

    open spec fn deep_view(&self) -> JoinedRowView {
        JoinedRowView {
            id: self.id,
            url: self.url.deep_view(),
            scraped_at: self.scraped_at.deep_view(),
            name: self.name.deep_view(),
            value: self.value.deep_view(),
        }
    }
}

/// Being a row of the scrape `id`.
pub open spec fn is_of_scrape(id: i64) -> spec_fn(JoinedRowView) -> bool {
    |row: JoinedRowView| row.id == id
}

/// Being a row of the scrape `id` that has a field.
pub open spec fn has_field_of_scrape(id: i64) -> spec_fn(JoinedRowView) -> bool {
    |row: JoinedRowView| row.id == id && row.name is Some && row.value is Some
}

/// The field of a row that has one.
pub open spec fn field_of_row() -> spec_fn(JoinedRowView) -> FieldView {
    |row: JoinedRowView| FieldView { name: row.name->0, value: row.value->0 }
}

/// The record that the rows of the scrape `id` make up: its URL and time as the first of them
/// has them, and the fields of all of them, in order.
pub open spec fn record_of(rows: Seq<JoinedRowView>, id: i64) -> ScrapeRecordView {
    let first = rows.filter(is_of_scrape(id))[0];
    ScrapeRecordView {
        id,
        url: first.url,
        scraped_at: first.scraped_at,
        fields: rows.filter(has_field_of_scrape(id)).map_values(field_of_row()),
    }
}

/// Whether some row is of the scrape `id`.
pub open spec fn has_scrape(rows: Seq<JoinedRowView>, id: i64) -> bool {
    exists|i: int| 0 <= i < rows.len() && (#[trigger] rows[i]).id == id
}

/// Whether `records` are the records that `rows` make up: one for each scrape that has a row,
/// in the order of their IDs.
pub open spec fn is_grouping(rows: Seq<JoinedRowView>, records: Seq<ScrapeRecordView>) -> bool {
    &&& forall|i: int, j: int|
        0 <= i < j < records.len() ==> (#[trigger] records[i]).id < (#[trigger] records[j]).id
    &&& forall|i: int|
        0 <= i < records.len() ==> has_scrape(rows, (#[trigger] records[i]).id) && records[i]
            == record_of(rows, records[i].id)
    &&& forall|id: i64| #[trigger]
        has_scrape(rows, id) ==> exists|i: int|
            0 <= i < records.len() && (#[trigger] records[i]).id == id
}

/// What one more row adds to the record of the scrape `id`.
proof fn record_of_push(rows: Seq<JoinedRowView>, row: JoinedRowView, id: i64)
    ensures
        row.id != id ==> record_of(rows.push(row), id) == record_of(rows, id),
        row.id == id && !has_scrape(rows, id) ==> {
            &&& record_of(rows.push(row), id).url == row.url
            &&& record_of(rows.push(row), id).scraped_at == row.scraped_at
            &&& rows.filter(has_field_of_scrape(id)) == Seq::<JoinedRowView>::empty()
        },
        row.id == id && has_scrape(rows, id) ==> {
            &&& record_of(rows.push(row), id).url == record_of(rows, id).url
            &&& record_of(rows.push(row), id).scraped_at == record_of(rows, id).scraped_at
        },
        rows.push(row).filter(has_field_of_scrape(id)) == (if has_field_of_scrape(id)(row) {
            rows.filter(has_field_of_scrape(id)).push(row)
        } else {
            rows.filter(has_field_of_scrape(id))
        }),
{
    filter_push(rows, row, is_of_scrape(id));
    filter_push(rows, row, has_field_of_scrape(id));
    if has_scrape(rows, id) {
        let i = choose|i: int| 0 <= i < rows.len() && (#[trigger] rows[i]).id == id;
        rows.lemma_filter_contains(is_of_scrape(id), i);
    } else {
        none_kept(rows, is_of_scrape(id));
        none_kept(rows, has_field_of_scrape(id));
    }
}

/// The keys of a map, in order.
fn keys_in_order(map: &BTreeMap<i64, ScrapeRecord>) -> (ids: Vec<i64>)
    ensures
        forall|i: int, j: int| 0 <= i < j < ids@.len() ==> ids@[i] < ids@[j],
        forall|i: int| 0 <= i < ids@.len() ==> map@.contains_key(#[trigger] ids@[i]),
        forall|id: i64| #[trigger] map@.contains_key(id) ==> ids@.contains(id),
{
    broadcast use vstd::std_specs::btree::group_btree_axioms;
    broadcast use vstd::laws_cmp::group_laws_cmp;

    let ghost walked = vstd::std_specs::iter::IteratorSpec::remaining(
        &vstd::std_specs::btree::spec_keys_iter(map),
    );
    let mut ids: Vec<i64> = Vec::new();
    for id in it: map.keys()
        invariant
            it.seq() == walked,
            ids@ == walked.unref().take(it.index()),
    {
        ids.push(*id);
        assert(walked.unref().take(it.index() + 1) =~= walked.unref().take(it.index()).push(*id));
    }
    assert(ids@ =~= walked.unref());
    assert(ids@.to_set() == map@.dom());
    assert forall|i: int, j: int| 0 <= i < j < ids@.len() implies ids@[i] < ids@[j] by {
        assert(vstd::std_specs::btree::increasing_seq(walked));
        assert(vstd::std_specs::cmp::OrdSpec::cmp_spec(&walked[i], &walked[j]) is Less);
    }
    assert forall|id: i64| #[trigger] map@.contains_key(id) implies ids@.contains(id) by {
        assert(ids@.to_set().contains(id));
    }
    assert forall|i: int| 0 <= i < ids@.len() implies map@.contains_key(#[trigger] ids@[i]) by {
        assert(ids@.to_set().contains(ids@[i]));
    }
    ids
}

/// Takes the record with the key `id` out of a map, if it is there.
fn take_out(map: &mut BTreeMap<i64, ScrapeRecord>, id: i64) -> (record: Option<ScrapeRecord>)
    ensures
        final(map)@ == old(map)@.remove(id),
        match record {
            Some(record) => old(map)@.contains_key(id) && record == old(map)@[id],
            None => !old(map)@.contains_key(id),
        },
{
    broadcast use vstd::std_specs::btree::group_btree_axioms;
    broadcast use vstd::laws_cmp::group_laws_cmp;

    map.remove(&id)
}

/// Puts a record into a map under the key `id`.
fn put_in(map: &mut BTreeMap<i64, ScrapeRecord>, id: i64, record: ScrapeRecord)
    ensures
        final(map)@ == old(map)@.insert(id, record),
{
    broadcast use vstd::std_specs::btree::group_btree_axioms;
    broadcast use vstd::laws_cmp::group_laws_cmp;

    map.insert(id, record);
}

/// Groups rows by scrape into records, in the order of the scrapes' IDs.
pub fn group_scrapes(rows: &Vec<JoinedRow>) -> (records: Vec<ScrapeRecord>)
    ensures
        is_grouping(rows.deep_view(), records.deep_view()),
{
    let ghost all = rows.deep_view();
    let mut map: BTreeMap<i64, ScrapeRecord> = BTreeMap::new();
    let mut i: usize = 0;
    while i < rows.len()
        invariant
            i <= rows.len(),
            all == rows.deep_view(),
            forall|id: i64| #[trigger]
                map@.contains_key(id) <==> has_scrape(all.take(i as int), id),
            forall|id: i64| #[trigger]
                map@.contains_key(id) ==> map@[id].deep_view() == record_of(
                    all.take(i as int),
                    id,
                ),
        decreases rows.len() - i,
    {
        let row = &rows[i];
        let ghost seen = all.take(i as int);
        let ghost row_view = all[i as int];
        let ghost before = map@;
        assert(row.deep_view() == row_view);
        assert(all.take(i + 1) =~= seen.push(row_view));
        let mut record = match take_out(&mut map, row.id) {
            Some(record) => record,
            None => ScrapeRecord {
                id: row.id,
                url: row.url.clone(),
                scraped_at: row.scraped_at.clone(),
                fields: Vec::new(),
            },
        };
        proof {
            record_of_push(seen, row_view, row.id);
        }
        let ghost fields = record.fields.deep_view();
        assert(fields =~= seen.filter(has_field_of_scrape(row.id)).map_values(field_of_row()));
        if let (Some(name), Some(value)) = (&row.name, &row.value) {
            record.fields.push(Field { name: name.clone(), value: value.clone() });
            assert(record.fields.deep_view() =~= fields.push(field_of_row()(row_view)));
        }
        assert(record.fields.deep_view() =~= seen.push(row_view).filter(
            has_field_of_scrape(row.id),
        ).map_values(field_of_row()));
        assert(record.deep_view() =~= record_of(seen.push(row_view), row.id));
        put_in(&mut map, row.id, record);
        assert forall|id: i64| #[trigger] map@.contains_key(id) <==> has_scrape(
            seen.push(row_view),
            id,
        ) by {
            if has_scrape(seen, id) {
                let k = choose|k: int| 0 <= k < seen.len() && (#[trigger] seen[k]).id == id;
                assert(seen.push(row_view)[k].id == id);
            }
            if has_scrape(seen.push(row_view), id) && id != row_view.id {
                let k = choose|k: int|
                    0 <= k < seen.push(row_view).len() && (#[trigger] seen.push(row_view)[k]).id
                        == id;
                assert(seen[k].id == id);
            }
            if id == row_view.id {
                assert(seen.push(row_view)[seen.len() as int].id == id);
            }
            assert(before.contains_key(id) <==> has_scrape(seen, id));
        }
        assert forall|id: i64| #[trigger] map@.contains_key(id) implies map@[id].deep_view()
            == record_of(seen.push(row_view), id) by {
            if id != row_view.id {
                assert(before.contains_key(id));
                record_of_push(seen, row_view, id);
            }
        }
        i = i + 1;
    }
    assert(all.take(i as int) =~= all);
    let ghost grouped = map@;
    let ids = keys_in_order(&map);
    let mut records: Vec<ScrapeRecord> = Vec::new();
    let mut j: usize = 0;
    while j < ids.len()
        invariant
            j <= ids.len(),
            forall|a: int, b: int| 0 <= a < b < ids@.len() ==> ids@[a] < ids@[b],
            forall|k: int| j <= k < ids@.len() ==> #[trigger] map@.contains_key(ids@[k]),
            forall|k: int| j <= k < ids@.len() ==> map@[#[trigger] ids@[k]] == grouped[ids@[k]],
            forall|k: int| 0 <= k < ids@.len() ==> grouped.contains_key(#[trigger] ids@[k]),
            forall|id: i64| #[trigger]
                grouped.contains_key(id) ==> grouped[id].deep_view() == record_of(all, id),
            records@.len() == j,
            forall|k: int| 0 <= k < j ==> #[trigger] records.deep_view()[k] == record_of(all, ids@[k]),
        decreases ids.len() - j,
    {
        let ghost before = records.deep_view();
        if let Some(record) = take_out(&mut map, ids[j]) {
            assert(grouped.contains_key(ids@[j as int]));
            records.push(record);
            assert(records.deep_view() =~= before.push(record_of(all, ids@[j as int])));
        }
        j = j + 1;
    }
    assert forall|id: i64| #[trigger] has_scrape(all, id) implies exists|k: int|
        0 <= k < records@.len() && (#[trigger] records.deep_view()[k]).id == id by {
        assert(grouped.contains_key(id));
        let k = choose|k: int| 0 <= k < ids@.len() && ids@[k] == id;
        assert(records.deep_view()[k] == record_of(all, ids@[k]));
    }
    records
}

/// Having the URL that is asked for: `None` asks for any.
pub open spec fn url_asked_for(url: Option<Seq<char>>) -> spec_fn(ScrapeRowView) -> bool {
    |row: ScrapeRowView| url is Some ==> url == Some(row.url)
}

/// Being a field of the scrape `scrape_id`.
pub open spec fn belongs_to(scrape_id: i64) -> spec_fn(FieldRowView) -> bool {
    |row: FieldRowView| row.scrape_id == scrape_id
}

/// A scrape with one of its fields.
pub open spec fn with_field(scrape: ScrapeRowView) -> spec_fn(FieldRowView) -> JoinedRowView {
    |field: FieldRowView|
        JoinedRowView {
            id: scrape.id,
            url: scrape.url,
            scraped_at: scrape.scraped_at,
            name: Some(field.name),
            value: Some(field.value),
        }
}

/// A scrape with each of its fields in turn, or once without a field where it has none.
pub open spec fn joined_with_fields(scrape: ScrapeRowView, fields: Seq<FieldRowView>) -> Seq<
    JoinedRowView,
> {
    let own = fields.filter(belongs_to(scrape.id));
    if own.len() == 0 {
        seq![
            JoinedRowView {
                id: scrape.id,
                url: scrape.url,
                scraped_at: scrape.scraped_at,
                name: None,
                value: None,
            },
        ]
    } else {
        own.map_values(with_field(scrape))
    }
}

/// All scrapes in turn, each with each of its fields.
pub open spec fn left_joined(scrapes: Seq<ScrapeRowView>, fields: Seq<FieldRowView>) -> Seq<
    JoinedRowView,
>
    decreases scrapes.len(),
{
    if scrapes.len() == 0 {
        Seq::empty()
    } else {
        left_joined(scrapes.drop_last(), fields) + joined_with_fields(scrapes.last(), fields)
    }
}

/// The field that a row holds.
pub open spec fn stored_field() -> spec_fn(FieldRowView) -> FieldView {
    |row: FieldRowView| FieldView { name: row.name, value: row.value }
}

/// The record of a stored scrape: its row, and its fields in the order of their rows.
pub open spec fn stored_record(fields: Seq<FieldRowView>) -> spec_fn(
    ScrapeRowView,
) -> ScrapeRecordView {
    |scrape: ScrapeRowView|
        ScrapeRecordView {
            id: scrape.id,
            url: scrape.url,
            scraped_at: scrape.scraped_at,
            fields: fields.filter(belongs_to(scrape.id)).map_values(stored_field()),
        }
}

/// The stored records, or those with the URL `url`, in the order in which they were stored.
pub open spec fn scrapes_read(db: DatabaseView, url: Option<Seq<char>>) -> Result<
    Seq<ScrapeRecordView>,
    StorageError,
> {
    match (db.scrapes, db.fields) {
        (None, _) => Err(StorageError::NoSuchTable(TableName::Scrapes)),
        (Some(_), None) => Err(StorageError::NoSuchTable(TableName::Fields)),
        (Some(scrapes), Some(fields)) => Ok(
            scrapes.rows.filter(url_asked_for(url)).map_values(stored_record(fields.rows)),
        ),
    }
}

/// Whether each scrape has a larger ID than those before it.
pub open spec fn ids_ascend(scrapes: Seq<ScrapeRowView>) -> bool {
    forall|i: int, j: int|
        0 <= i < j < scrapes.len() ==> (#[trigger] scrapes[i]).id < (#[trigger] scrapes[j]).id
}

proof fn filter_keeps_ascending(scrapes: Seq<ScrapeRowView>, keep: spec_fn(ScrapeRowView) -> bool)
    requires
        ids_ascend(scrapes),
    ensures
        ids_ascend(scrapes.filter(keep)),
        forall|i: int|
            0 <= i < scrapes.filter(keep).len() ==> scrapes.contains(
                #[trigger] scrapes.filter(keep)[i],
            ),
    decreases scrapes.len(),
{
    reveal(Seq::filter);
    if scrapes.len() > 0 {
        let front = scrapes.drop_last();
        let last = scrapes.last();
        assert(ids_ascend(front)) by {
            assert forall|i: int, j: int| 0 <= i < j < front.len() implies (#[trigger] front[i]).id
                < (#[trigger] front[j]).id by {
                assert(scrapes[i].id < scrapes[j].id);
            }
        }
        filter_keeps_ascending(front, keep);
        let kept = front.filter(keep);
        let result = scrapes.filter(keep);
        assert forall|i: int| 0 <= i < kept.len() implies (#[trigger] kept[i]).id < last.id
            && scrapes.contains(kept[i]) by {
            let k = choose|k: int| 0 <= k < front.len() && front[k] == kept[i];
            assert(scrapes[k] == kept[i]);
            assert(scrapes[k].id < scrapes[scrapes.len() - 1].id);
        }
        assert forall|i: int| 0 <= i < result.len() implies scrapes.contains(
            #[trigger] result[i],
        ) by {
            if i < kept.len() {
                assert(result[i] == kept[i]);
            } else {
                assert(scrapes[scrapes.len() - 1] == last);
            }
        }
    }
}

/// What the rows of one scrape give of another, and of itself.
proof fn joined_with_fields_of(scrape: ScrapeRowView, fields: Seq<FieldRowView>, id: i64)
    ensures
        scrape.id != id ==> {
            &&& joined_with_fields(scrape, fields).filter(is_of_scrape(id)) == Seq::<
                JoinedRowView,
            >::empty()
            &&& joined_with_fields(scrape, fields).filter(has_field_of_scrape(id)) == Seq::<
                JoinedRowView,
            >::empty()
        },
        scrape.id == id ==> {
            &&& joined_with_fields(scrape, fields).filter(is_of_scrape(id)) == joined_with_fields(
                scrape,
                fields,
            )
            &&& joined_with_fields(scrape, fields).filter(has_field_of_scrape(id)).map_values(
                field_of_row(),
            ) == fields.filter(belongs_to(id)).map_values(stored_field())
        },
        joined_with_fields(scrape, fields).len() > 0,
        joined_with_fields(scrape, fields)[0].url == scrape.url,
        joined_with_fields(scrape, fields)[0].scraped_at == scrape.scraped_at,
        forall|i: int|
            0 <= i < joined_with_fields(scrape, fields).len() ==> (
            #[trigger] joined_with_fields(scrape, fields)[i]).id == scrape.id,
{
    let rows = joined_with_fields(scrape, fields);
    let own = fields.filter(belongs_to(scrape.id));
    if scrape.id != id {
        none_kept(rows, is_of_scrape(id));
        none_kept(rows, has_field_of_scrape(id));
    } else {
        all_kept(rows, is_of_scrape(id));
        if own.len() == 0 {
            none_kept(rows, has_field_of_scrape(id));
        } else {
            all_kept(rows, has_field_of_scrape(id));
        }
        assert(rows.filter(has_field_of_scrape(id)).map_values(field_of_row()) =~= own.map_values(
            stored_field(),
        ));
    }
}

/// The rows of all scrapes that are of a scrape that is not among them: there are none.
proof fn left_joined_without(scrapes: Seq<ScrapeRowView>, fields: Seq<FieldRowView>, id: i64)
    requires
        forall|i: int| 0 <= i < scrapes.len() ==> (#[trigger] scrapes[i]).id != id,
    ensures
        left_joined(scrapes, fields).filter(is_of_scrape(id)) == Seq::<JoinedRowView>::empty(),
        left_joined(scrapes, fields).filter(has_field_of_scrape(id)) == Seq::<
            JoinedRowView,
        >::empty(),
        !has_scrape(left_joined(scrapes, fields), id),
    decreases scrapes.len(),
{
    if scrapes.len() == 0 {
        none_kept(left_joined(scrapes, fields), is_of_scrape(id));
        none_kept(left_joined(scrapes, fields), has_field_of_scrape(id));
    } else {
        let front = scrapes.drop_last();
        let last = scrapes.last();
        assert forall|i: int| 0 <= i < front.len() implies (#[trigger] front[i]).id != id by {
            assert(scrapes[i].id != id);
        }
        assert(scrapes[scrapes.len() - 1].id != id);
        left_joined_without(front, fields, id);
        joined_with_fields_of(last, fields, id);
        let head = left_joined(front, fields);
        let tail = joined_with_fields(last, fields);
        Seq::filter_distributes_over_add(head, tail, is_of_scrape(id));
        Seq::filter_distributes_over_add(head, tail, has_field_of_scrape(id));
        assert(left_joined(scrapes, fields) == head + tail);
        assert forall|i: int| 0 <= i < (head + tail).len() implies (#[trigger] (head + tail)[i]).id
            != id by {
            if i < head.len() {
                assert((head + tail)[i] == head[i]);
                assert(head[i].id != id);
            } else {
                assert((head + tail)[i] == tail[i - head.len()]);
            }
        }
    }
}

/// The rows of all scrapes make up, for each scrape, the record that is stored.
proof fn left_joined_record(
    scrapes: Seq<ScrapeRowView>,
    fields: Seq<FieldRowView>,
    k: int,
)
    requires
        ids_ascend(scrapes),
        0 <= k < scrapes.len(),
    ensures
        has_scrape(left_joined(scrapes, fields), scrapes[k].id),
        record_of(left_joined(scrapes, fields), scrapes[k].id) == stored_record(fields)(scrapes[k]),
    decreases scrapes.len(),
{
    let front = scrapes.drop_last();
    let last = scrapes.last();
    let id = scrapes[k].id;
    let head = left_joined(front, fields);
    let tail = joined_with_fields(last, fields);
    assert(left_joined(scrapes, fields) == head + tail);
    Seq::filter_distributes_over_add(head, tail, is_of_scrape(id));
    Seq::filter_distributes_over_add(head, tail, has_field_of_scrape(id));
    joined_with_fields_of(last, fields, id);
    if k == scrapes.len() - 1 {
        assert forall|i: int| 0 <= i < front.len() implies (#[trigger] front[i]).id != id by {
            assert(scrapes[i].id < scrapes[k].id);
        }
        left_joined_without(front, fields, id);
        assert(head.filter(is_of_scrape(id)) + tail =~= tail);
        assert(head.filter(has_field_of_scrape(id)) + tail.filter(has_field_of_scrape(id))
            =~= tail.filter(has_field_of_scrape(id)));
        assert((head + tail)[head.len() as int].id == id);
    } else {
        assert(ids_ascend(front)) by {
            assert forall|i: int, j: int| 0 <= i < j < front.len() implies (#[trigger] front[i]).id
                < (#[trigger] front[j]).id by {
                assert(scrapes[i].id < scrapes[j].id);
            }
        }
        assert(front[k] == scrapes[k]);
        assert(scrapes[k].id < scrapes[scrapes.len() - 1].id);
        left_joined_record(front, fields, k);
        assert(head.filter(is_of_scrape(id)) + Seq::<JoinedRowView>::empty() =~= head.filter(
            is_of_scrape(id),
        ));
        assert(head.filter(has_field_of_scrape(id)) + Seq::<JoinedRowView>::empty()
            =~= head.filter(has_field_of_scrape(id)));
        let i = choose|i: int| 0 <= i < head.len() && (#[trigger] head[i]).id == id;
        assert((head + tail)[i].id == id);
    }
}

/// Two ascending sequences that hold the same numbers are the same.
proof fn ascending_unique(a: Seq<i64>, b: Seq<i64>)
    requires
        forall|i: int, j: int| 0 <= i < j < a.len() ==> a[i] < a[j],
        forall|i: int, j: int| 0 <= i < j < b.len() ==> b[i] < b[j],
        forall|x: i64| #[trigger] a.contains(x) <==> b.contains(x),
    ensures
        a == b,
    decreases a.len(),
{
    if a.len() == 0 {
        if b.len() > 0 {
            assert(b.contains(b[0]));
            assert(a.contains(b[0]));
        }
        assert(a =~= b);
    } else {
        assert(a.contains(a.last()));
        assert(b.contains(a.last()));
        let m = choose|m: int| 0 <= m < b.len() && b[m] == a.last();
        assert(b.contains(b.last()));
        assert(a.contains(b.last()));
        let n = choose|n: int| 0 <= n < a.len() && a[n] == b.last();
        assert(a.last() == b.last());
        let x = a.drop_last();
        let y = b.drop_last();
        assert forall|v: i64| #[trigger] x.contains(v) <==> y.contains(v) by {
            if x.contains(v) {
                let i = choose|i: int| 0 <= i < x.len() && x[i] == v;
                assert(a[i] == v);
                assert(a.contains(v));
                let j = choose|j: int| 0 <= j < b.len() && b[j] == v;
                assert(y[j] == v);
            }
            if y.contains(v) {
                let i = choose|i: int| 0 <= i < y.len() && y[i] == v;
                assert(b[i] == v);
                assert(b.contains(v));
                assert(a.contains(v));
                let j = choose|j: int| 0 <= j < a.len() && a[j] == v;
                assert(x[j] == v);
            }
        }
        ascending_unique(x, y);
        assert(a =~= x.push(a.last()));
        assert(b =~= y.push(b.last()));
    }
}

/// Grouping the rows of ascending scrapes gives the stored records.
proof fn grouping_is_stored(
    scrapes: Seq<ScrapeRowView>,
    fields: Seq<FieldRowView>,
    records: Seq<ScrapeRecordView>,
)
    requires
        ids_ascend(scrapes),
        is_grouping(left_joined(scrapes, fields), records),
    ensures
        records == scrapes.map_values(stored_record(fields)),
{
    let rows = left_joined(scrapes, fields);
    let a = records.map_values(|record: ScrapeRecordView| record.id);
    let b = scrapes.map_values(|scrape: ScrapeRowView| scrape.id);
    assert forall|i: int, j: int| 0 <= i < j < a.len() implies a[i] < a[j] by {
        assert(records[i].id < records[j].id);
    }
    assert forall|i: int, j: int| 0 <= i < j < b.len() implies b[i] < b[j] by {
        assert(scrapes[i].id < scrapes[j].id);
    }
    assert forall|x: i64| #[trigger] a.contains(x) <==> b.contains(x) by {
        if a.contains(x) {
            let i = choose|i: int| 0 <= i < a.len() && a[i] == x;
            assert(has_scrape(rows, records[i].id));
            if !b.contains(x) {
                assert forall|k: int| 0 <= k < scrapes.len() implies (#[trigger] scrapes[k]).id
                    != x by {
                    assert(b[k] == scrapes[k].id);
                }
                left_joined_without(scrapes, fields, x);
            }
        }
        if b.contains(x) {
            let k = choose|k: int| 0 <= k < b.len() && b[k] == x;
            left_joined_record(scrapes, fields, k);
            assert(has_scrape(rows, x));
            let i = choose|i: int| 0 <= i < records.len() && (#[trigger] records[i]).id == x;
            assert(a[i] == x);
        }
    }
    ascending_unique(a, b);
    assert forall|i: int| 0 <= i < records.len() implies records[i] == stored_record(fields)(
        scrapes[i],
    ) by {
        assert(a[i] == b[i]);
        left_joined_record(scrapes, fields, i);
    }
    assert(records =~= scrapes.map_values(stored_record(fields)));
}

/// Adds the rows of a scrape to those of the scrapes before it.
fn join_with_fields(scrape: &ScrapeRow, fields: &Vec<FieldRow>, rows: &mut Vec<JoinedRow>)
    ensures
        final(rows).deep_view() == old(rows).deep_view() + joined_with_fields(
            scrape.deep_view(),
            fields.deep_view(),
        ),
{
    let ghost all = fields.deep_view();
    let ghost own = belongs_to(scrape.id);
    let ghost before = rows.deep_view();
    let mut found = false;
    let mut i: usize = 0;
    proof {
        none_kept(all.take(0), own);
    }
    assert(before + all.take(0).filter(own).map_values(with_field(scrape.deep_view())) =~= before);
    while i < fields.len()
        invariant
            i <= fields.len(),
            all == fields.deep_view(),
            own == belongs_to(scrape.id),
            found == (all.take(i as int).filter(own).len() > 0),
            rows.deep_view() == before + all.take(i as int).filter(own).map_values(
                with_field(scrape.deep_view()),
            ),
        decreases fields.len() - i,
    {
        let field = &fields[i];
        let ghost kept = all.take(i as int).filter(own);
        let ghost so_far = rows.deep_view();
        assert(field.deep_view() == all[i as int]);
        assert(all.take(i + 1) =~= all.take(i as int).push(all[i as int]));
        proof {
            filter_push(all.take(i as int), all[i as int], own);
        }
        if field.scrape_id == scrape.id {
            found = true;
            rows.push(
                JoinedRow {
                    id: scrape.id,
                    url: scrape.url.clone(),
                    scraped_at: scrape.scraped_at.clone(),
                    name: Some(field.name.clone()),
                    value: Some(field.value.clone()),
                },
            );
            assert(rows.deep_view() =~= so_far.push(
                with_field(scrape.deep_view())(all[i as int]),
            ));
            assert(rows.deep_view() =~= before + kept.push(all[i as int]).map_values(
                with_field(scrape.deep_view()),
            ));
        }
        i = i + 1;
    }
    assert(all.take(i as int) =~= all);
    if !found {
        let ghost so_far = rows.deep_view();
        rows.push(
            JoinedRow {
                id: scrape.id,
                url: scrape.url.clone(),
                scraped_at: scrape.scraped_at.clone(),
                name: None,
                value: None,
            },
        );
        assert(so_far =~= before);
        assert(rows.deep_view() =~= before + joined_with_fields(scrape.deep_view(), all));
    }
}

/// Shared by the queries: all stored records, or those with the URL `url_filter`.
pub fn query_scrapes(db: &Database, url_filter: Option<&str>) -> (records: Result<
    Vec<ScrapeRecord>,
    StorageError,
>)
    requires
        db.deep_view().well_formed(),
    ensures
        result_view(records) == scrapes_read(db.deep_view(), url_filter.deep_view()),
{
    let scrapes = match &db.scrapes {
        None => {
            return Err(StorageError::NoSuchTable(TableName::Scrapes));
        },
        Some(table) => &table.rows,
    };
    let fields = match &db.fields {
        None => {
            return Err(StorageError::NoSuchTable(TableName::Fields));
        },
        Some(table) => &table.rows,
    };
    let ghost all = scrapes.deep_view();
    let ghost field_views = fields.deep_view();
    let ghost keep = url_asked_for(url_filter.deep_view());
    let mut rows: Vec<JoinedRow> = Vec::new();
    let mut i: usize = 0;
    proof {
        none_kept(all.take(0), keep);
    }
    assert(rows.deep_view() =~= left_joined(all.take(0).filter(keep), field_views));
    while i < scrapes.len()
        invariant
            i <= scrapes.len(),
            all == scrapes.deep_view(),
            field_views == fields.deep_view(),
            keep == url_asked_for(url_filter.deep_view()),
            rows.deep_view() == left_joined(all.take(i as int).filter(keep), field_views),
        decreases scrapes.len() - i,
    {
        let scrape = &scrapes[i];
        let ghost kept = all.take(i as int).filter(keep);
        assert(scrape.deep_view() == all[i as int]);
        assert(all.take(i + 1) =~= all.take(i as int).push(all[i as int]));
        proof {
            filter_push(all.take(i as int), all[i as int], keep);
        }
        let asked_for = match url_filter {
            None => true,
            Some(url) => same_text(url, scrape.url.as_str()),
        };
        if asked_for {
            join_with_fields(scrape, fields, &mut rows);
            assert(kept.push(all[i as int]).drop_last() =~= kept);
        }
        i = i + 1;
    }
    assert(all.take(i as int) =~= all);
    let records = group_scrapes(&rows);
    proof {
        assert(ids_ascend(all));
        filter_keeps_ascending(all, keep);
        grouping_is_stored(all.filter(keep), field_views, records.deep_view());
    }
    Ok(records)
}

/// Retrieves every stored scrape record with its fields.
pub fn get_all_scrapes(db: &Database) -> (records: Result<Vec<ScrapeRecord>, StorageError>)
    requires
        db.deep_view().well_formed(),
    ensures
        result_view(records) == scrapes_read(db.deep_view(), None),
{
    query_scrapes(db, None)
}

/// Retrieves all scrape records whose URL is exactly `url`.
pub fn get_scrapes_by_url(db: &Database, url: &str) -> (records: Result<
    Vec<ScrapeRecord>,
    StorageError,
>)
    requires
        db.deep_view().well_formed(),
    ensures
        result_view(records) == scrapes_read(db.deep_view(), Some(url@)),
{
    query_scrapes(db, Some(url))
}

} // verus!
