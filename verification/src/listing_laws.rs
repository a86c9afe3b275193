//! What the lists show: a line for each thing that is listed, with all that is known of it.

use crate::botc::{
    ability_fits, edition_line, editions_shown, game_role_line, game_shown, is_stored, role_line,
    roles_showable, roles_shown,
};
use crate::catalog::{editions_read, roles_read};
use crate::games::game_read;
use crate::models::{FieldView, GameRoleView, RoleView, ScrapeRecordView};
use crate::report::{row_of_four, CommandErrorView};
use crate::scrapes::scrapes_read;
use crate::scraping::{fields_cell, record_line, records_showable, records_shown, url_fits};
use crate::tables::{DatabaseView, RoleRowView};
use crate::text::{byte_count, decimal, digits, joined, padded, shortened};
use crate::text_laws::{cutting_for_a_column, padding_adds_spaces, shows_cut};
use vstd::prelude::*;

verus! {

/// A text in a column that is `width` characters wide, and the space that parts it from the next
/// column.
pub open spec fn cell(text: Seq<char>, width: nat) -> Seq<char> {
    text + Seq::new(
        if text.len() < width {
            (width - text.len() + 1) as nat
        } else {
            1
        },
        |i: int| ' ',
    )
}

/// Whether a line is a rule of so many hyphens.
pub open spec fn is_rule(line: Seq<char>, count: nat) -> bool {
    line.len() == count && forall|i: int| 0 <= i < line.len() ==> #[trigger] line[i] == '-'
}

/// How a text that may be absent is shown: as it is, or by a stand-in.
pub open spec fn shown(text: Option<Seq<char>>, stand_in: Seq<char>) -> Seq<char> {
    if text is Some {
        text->0
    } else {
        stand_in
    }
}

proof fn padded_is_cell(text: Seq<char>, width: nat)
    ensures
        padded(text, width) + " "@ == cell(text, width),
{
    reveal_strlit(" ");
    padding_adds_spaces(text, width);
    let line = padded(text, width);
    assert forall|i: int| 0 <= i < text.len() implies line[i] == text[i] by {
        assert(line.take(text.len() as int)[i] == text[i]);
    }
    assert(line + " "@ =~= cell(text, width));
}

/// A row of a table shows its cells in order, each in its column.
pub proof fn a_row_shows_its_cells(
    first: (Seq<char>, nat),
    second: (Seq<char>, nat),
    third: (Seq<char>, nat),
    last: Seq<char>,
)
    ensures
        row_of_four(first, second, third, last) == cell(first.0, first.1) + cell(
            second.0,
            second.1,
        ) + cell(third.0, third.1) + last,
{
    padded_is_cell(first.0, first.1);
    padded_is_cell(second.0, second.1);
    padded_is_cell(third.0, third.1);
    assert(row_of_four(first, second, third, last) =~= (padded(first.0, first.1) + " "@) + (padded(
        second.0,
        second.1,
    ) + " "@) + (padded(third.0, third.1) + " "@) + last);
}

/// The fields of a record as they are listed: `name=value`, with a comma and a space between
/// each two.
pub open spec fn fields_in_a_row(fields: Seq<FieldView>) -> Seq<char> {
    joined(
        Seq::new(fields.len(), |i: int| fields[i].name + seq!['='] + fields[i].value),
        seq![',', ' '],
    )
}

/// Whether a line shows a record: its ID, its URL, cut where it is long, its time and its fields.
pub open spec fn shows_record(record: ScrapeRecordView, line: Seq<char>) -> bool {
    exists|url: Seq<char>|
        #[trigger] shows_cut(record.url, 48, 45, url) && line == cell(decimal(record.id as int), 6)
            + cell(url, 50) + cell(record.scraped_at, 30) + fields_in_a_row(record.fields)
}

/// The list of stored records has a line for each of them, behind a head and a rule, in the order
/// in which they are read. Where there are none, a line says so. Where they cannot be read, the
/// failure is passed on.
pub proof fn every_record_is_listed(db: DatabaseView, url: Option<Seq<char>>)
    requires
        records_showable(db, url),
    ensures
        match scrapes_read(db, url) {
            Err(error) => records_shown(db, url) == Err::<Seq<Seq<char>>, CommandErrorView>(
                CommandErrorView::Storage(error),
            ),
            Ok(records) => records_shown(db, url) matches Ok(lines) && {
                &&& records.len() == 0 ==> lines == seq!["No results found."@]
                &&& records.len() > 0 ==> {
                    &&& lines.len() == records.len() + 2
                    &&& lines[0] == cell("ID"@, 6) + cell("URL"@, 50) + cell("SCRAPED AT"@, 30)
                        + "FIELDS"@
                    &&& is_rule(lines[1], 110)
                    &&& forall|i: int|
                        0 <= i < records.len() ==> shows_record(
                            #[trigger] records[i],
                            lines[i + 2],
                        )
                }
            },
        },
{
    if let Ok(records) = scrapes_read(db, url) {
        if records.len() > 0 {
            let lines = records_shown(db, url)->Ok_0;
            a_row_shows_its_cells(("ID"@, 6), ("URL"@, 50), ("SCRAPED AT"@, 30), "FIELDS"@);
            assert forall|i: int| 0 <= i < records.len() implies shows_record(
                #[trigger] records[i],
                lines[i + 2],
            ) by {
                let record = records[i];
                let url_cell = shortened(record.url, 48, 45);
                assert(lines[i + 2] == record_line(record));
                cutting_for_a_column(record.url, 48, 45);
                fields_are_in_the_row(record.fields);
                a_row_shows_its_cells(
                    (decimal(record.id as int), 6),
                    (url_cell, 50),
                    (record.scraped_at, 30),
                    fields_cell(record.fields),
                );
            }
        }
    }
}

proof fn fields_are_in_the_row(fields: Seq<FieldView>)
    ensures
        fields_cell(fields) == fields_in_a_row(fields),
{
    reveal_strlit("=");
    reveal_strlit(", ");
    assert("="@ =~= seq!['=']);
    assert(", "@ =~= seq![',', ' ']);
    assert(fields.map_values(|field: FieldView| field.name + "="@ + field.value) =~= Seq::new(
        fields.len(),
        |i: int| fields[i].name + seq!['='] + fields[i].value,
    ));
}

/// Whether a line shows a role: its name, team and edition, each with a question mark where it is
/// absent, whatever the others are, and its ability, cut where it is long.
pub open spec fn shows_role(role: RoleView, line: Seq<char>) -> bool {
    exists|ability: Seq<char>|
        #[trigger] shows_cut(shown(role.ability, Seq::empty()), 55, 52, ability) && line == cell(
            shown(role.name, seq!['?']),
            20,
        ) + cell(shown(role.team, seq!['?']), 12) + cell(shown(role.edition, seq!['?']), 10)
            + ability
}

/// The list of stored roles has a line for each of them, behind a head and a rule, in the order
/// in which they are read, and then a line that says how many there are. Where there are none, a
/// line says so. Where they cannot be read, the failure is passed on.
pub proof fn every_role_is_listed(
    db: DatabaseView,
    team: Option<Seq<char>>,
    edition: Option<Seq<char>>,
)
    requires
        roles_showable(db, team, edition),
    ensures
        match roles_read(db, team, edition) {
            Err(error) => roles_shown(db, team, edition) == Err::<Seq<Seq<char>>, CommandErrorView>(
                CommandErrorView::Storage(error),
            ),
            Ok(roles) => roles_shown(db, team, edition) matches Ok(lines) && {
                &&& roles.len() == 0 ==> lines == seq!["No roles found."@]
                &&& roles.len() > 0 ==> {
                    &&& lines.len() == roles.len() + 3
                    &&& lines[0] == cell("NAME"@, 20) + cell("TEAM"@, 12) + cell("EDITION"@, 10)
                        + "ABILITY"@
                    &&& is_rule(lines[1], 100)
                    &&& forall|i: int|
                        0 <= i < roles.len() ==> shows_role(#[trigger] roles[i], lines[i + 2])
                    &&& lines[lines.len() - 1] == "\n"@ + digits(roles.len()) + " role(s) total."@
                }
            },
        },
{
    reveal_strlit("?");
    reveal_strlit("");
    assert("?"@ =~= seq!['?']);
    assert(""@ =~= Seq::empty());
    if let Ok(roles) = roles_read(db, team, edition) {
        if roles.len() > 0 {
            let lines = roles_shown(db, team, edition)->Ok_0;
            a_row_shows_its_cells(("NAME"@, 20), ("TEAM"@, 12), ("EDITION"@, 10), "ABILITY"@);
            assert forall|i: int| 0 <= i < roles.len() implies shows_role(
                #[trigger] roles[i],
                lines[i + 2],
            ) by {
                let role = roles[i];
                let whole = shown(role.ability, Seq::empty());
                assert(lines[i + 2] == role_line(role));
                assert(ability_fits(role));
                cutting_for_a_column(whole, 55, 52);
                a_row_shows_its_cells(
                    (shown(role.name, seq!['?']), 20),
                    (shown(role.team, seq!['?']), 12),
                    (shown(role.edition, seq!['?']), 10),
                    shortened(whole, 55, 52),
                );
            }
        }
    }
}

/// The list of stored editions has a line for each of them, behind a head and a rule, in the
/// order in which they are read: its ID, its name and level, each with a question mark where it
/// is absent, and whether it is known to be official. Where there are none, a line says so. Where
/// they cannot be read, the failure is passed on.
pub proof fn every_edition_is_listed(db: DatabaseView)
    ensures
        match editions_read(db) {
            Err(error) => editions_shown(db) == Err::<Seq<Seq<char>>, CommandErrorView>(
                CommandErrorView::Storage(error),
            ),
            Ok(editions) => editions_shown(db) matches Ok(lines) && {
                &&& editions.len() == 0 ==> lines == seq!["No editions found. Run `api` first."@]
                &&& editions.len() > 0 ==> {
                    &&& lines.len() == editions.len() + 2
                    &&& lines[0] == cell("ID"@, 10) + cell("NAME"@, 25) + cell("LEVEL"@, 12)
                        + "OFFICIAL"@
                    &&& is_rule(lines[1], 60)
                    &&& forall|i: int|
                        0 <= i < editions.len() ==> lines[i + 2] == cell(
                            (#[trigger] editions[i]).id,
                            10,
                        ) + cell(shown(editions[i].name, seq!['?']), 25) + cell(
                            shown(editions[i].level, seq!['?']),
                            12,
                        ) + if editions[i].is_official == Some(true) {
                            seq!['y', 'e', 's']
                        } else {
                            seq!['n', 'o']
                        }
                }
            },
        },
{
    reveal_strlit("?");
    reveal_strlit("yes");
    reveal_strlit("no");
    assert("?"@ =~= seq!['?']);
    assert("yes"@ =~= seq!['y', 'e', 's']);
    assert("no"@ =~= seq!['n', 'o']);
    if let Ok(editions) = editions_read(db) {
        if editions.len() > 0 {
            let lines = editions_shown(db)->Ok_0;
            a_row_shows_its_cells(("ID"@, 10), ("NAME"@, 25), ("LEVEL"@, 12), "OFFICIAL"@);
            assert forall|i: int| 0 <= i < editions.len() implies lines[i + 2] == cell(
                (#[trigger] editions[i]).id,
                10,
            ) + cell(shown(editions[i].name, seq!['?']), 25) + cell(
                shown(editions[i].level, seq!['?']),
                12,
            ) + if editions[i].is_official == Some(true) {
                seq!['y', 'e', 's']
            } else {
                seq!['n', 'o']
            } by {
                let edition = editions[i];
                assert(lines[i + 2] == edition_line(edition));
                a_row_shows_its_cells(
                    (edition.id, 10),
                    (shown(edition.name, seq!['?']), 25),
                    (shown(edition.level, seq!['?']), 12),
                    if edition.is_official == Some(true) {
                        seq!['y', 'e', 's']
                    } else {
                        seq!['n', 'o']
                    },
                );
            }
        }
    }
}

/// The line of a role of a game: its number, its name or its ID where the name is absent, its
/// team and its edition, each with a question mark where it is absent, whatever the others are,
/// and its ability. An absent ability is left out where the role is stored, and a question mark
/// where it is not.
pub open spec fn game_row(number: nat, role: GameRoleView, known: bool) -> Seq<char> {
    cell(digits(number), 4) + cell(shown(role.name, role.role_id), 20) + cell(
        shown(role.team, seq!['?']),
        12,
    ) + cell(shown(role.edition, seq!['?']), 10) + shown(
        role.ability,
        if known {
            Seq::empty()
        } else {
            seq!['?']
        },
    )
}

/// Whether one of the stored roles has an ID.
pub open spec fn some_role_has(rows: Seq<RoleRowView>, role_id: Seq<char>) -> bool {
    exists|k: int| 0 <= k < rows.len() && role_id == (#[trigger] rows[k]).id
}

proof fn a_game_row_shows_its_cells(number: nat, role: GameRoleView, rows: Seq<RoleRowView>)
    ensures
        game_role_line(number, role, rows) == game_row(
            number,
            role,
            some_role_has(rows, role.role_id),
        ),
{
    reveal_strlit("?");
    reveal_strlit("");
    assert("?"@ =~= seq!['?']);
    assert(""@ =~= Seq::empty());
    let known = some_role_has(rows, role.role_id);
    assert(known == is_stored(role.role_id, rows)) by {
        if is_stored(role.role_id, rows) {
            let k = choose|k: int| 0 <= k < rows.len() && (#[trigger] rows[k]).id == role.role_id;
            assert(role.role_id == rows[k].id);
        }
    }
    let ability = shown(
        role.ability,
        if known {
            Seq::empty()
        } else {
            seq!['?']
        },
    );
    let name = shown(role.name, role.role_id);
    let team = shown(role.team, seq!['?']);
    let edition = shown(role.edition, seq!['?']);
    padded_is_cell(digits(number), 4);
    a_row_shows_its_cells((name, 20), (team, 12), (edition, 10), ability);
    assert(game_role_line(number, role, rows) == cell(digits(number), 4) + (cell(name, 20) + cell(
        team,
        12,
    ) + cell(edition, 10) + ability));
    assert(game_role_line(number, role, rows) =~= game_row(number, role, known));
}

/// A game is shown by a head with its ID and time, and a line for each of its roles, in order.
/// Where there is none with the ID, a line says so. Where it cannot be read, the failure is
/// passed on.
pub proof fn every_role_of_a_game_is_shown(db: DatabaseView, id: i64)
    ensures
        match game_read(db, id) {
            Err(error) => game_shown(db, id) == Err::<Seq<Seq<char>>, CommandErrorView>(
                CommandErrorView::Storage(error),
            ),
            Ok(None) => game_shown(db, id) == Ok::<Seq<Seq<char>>, CommandErrorView>(
                seq!["No game found with ID "@ + decimal(id as int) + "."@],
            ),
            Ok(Some(game)) => game_shown(db, id) matches Ok(lines) && {
                &&& lines.len() == game.roles.len() + 4
                &&& lines[0] == "Game #"@ + decimal(game.id as int) + " — created "@
                    + game.created_at
                &&& is_rule(lines[1], 70)
                &&& lines[2] == cell("#"@, 4) + cell("NAME"@, 20) + cell("TEAM"@, 12) + cell(
                    "EDITION"@,
                    10,
                ) + "ABILITY"@
                &&& is_rule(lines[3], 70)
                &&& forall|i: int|
                    0 <= i < game.roles.len() ==> lines[i + 4] == game_row(
                        (i + 1) as nat,
                        #[trigger] game.roles[i],
                        some_role_has(db.roles->0, game.roles[i].role_id),
                    )
            },
        },
{
    if let Ok(Some(game)) = game_read(db, id) {
        let lines = game_shown(db, id)->Ok_0;
        padded_is_cell("#"@, 4);
        a_row_shows_its_cells(("NAME"@, 20), ("TEAM"@, 12), ("EDITION"@, 10), "ABILITY"@);
        assert(lines[2] =~= cell("#"@, 4) + cell("NAME"@, 20) + cell("TEAM"@, 12) + cell(
            "EDITION"@,
            10,
        ) + "ABILITY"@);
        assert forall|i: int| 0 <= i < game.roles.len() implies lines[i + 4] == game_row(
            (i + 1) as nat,
            #[trigger] game.roles[i],
            some_role_has(db.roles->0, game.roles[i].role_id),
        ) by {
            assert(lines[i + 4] == game_role_line((i + 1) as nat, game.roles[i], db.roles->0));
            a_game_row_shows_its_cells((i + 1) as nat, game.roles[i], db.roles->0);
        }
    }
}

/// Whether a text can be cut after `keep` bytes where it has more than `limit`.
pub open spec fn can_be_cut(text: Seq<char>, limit: nat, keep: nat) -> bool {
    byte_count(text) <= limit || vstd::utf8::is_char_boundary(
        vstd::utf8::encode_utf8(text),
        keep as int,
    )
}

/// Records can be listed exactly where no URL has to be cut inside a character, and roles where
/// no ability has to be.
pub proof fn lists_that_can_be_shown(
    db: DatabaseView,
    url: Option<Seq<char>>,
    team: Option<Seq<char>>,
    edition: Option<Seq<char>>,
)
    ensures
        records_showable(db, url) <==> (scrapes_read(db, url) is Ok ==> forall|i: int|
            0 <= i < scrapes_read(db, url)->Ok_0.len() ==> can_be_cut(
                (#[trigger] scrapes_read(db, url)->Ok_0[i]).url,
                48,
                45,
            )),
        roles_showable(db, team, edition) <==> (roles_read(db, team, edition) is Ok
            ==> forall|i: int|
            0 <= i < roles_read(db, team, edition)->Ok_0.len() ==> can_be_cut(
                shown((#[trigger] roles_read(db, team, edition)->Ok_0[i]).ability, Seq::empty()),
                55,
                52,
            )),
{
    reveal_strlit("");
    assert(""@ =~= Seq::empty());
    if let Ok(records) = scrapes_read(db, url) {
        assert forall|i: int| 0 <= i < records.len() implies url_fits(#[trigger] records[i])
            == can_be_cut(records[i].url, 48, 45) by {
        }
    }
    if let Ok(roles) = roles_read(db, team, edition) {
        assert forall|i: int| 0 <= i < roles.len() implies ability_fits(#[trigger] roles[i])
            == can_be_cut(shown(roles[i].ability, Seq::empty()), 55, 52) by {
        }
    }
}

} // verus!
