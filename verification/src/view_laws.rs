//! The views that contracts speak of show values whole: every field, as it is.

use crate::browser::{BrowserStep, BrowserStepView, Cookie};
use crate::models::{BotcData, Edition, Field, GameInstance, GameRole, Role, ScrapeRecord};
use crate::page::{Lookup, LookupView};
use crate::report::{report_view, CommandError, CommandErrorView};
use crate::scrapes::JoinedRow;
use crate::scraping::{FetchPlan, FetchPlanView, ScrapeReport};
use crate::selectors::parsed_view;
use crate::tables::{
    result_view, Database, EditionRow, FieldRow, GameRoleRow, GameRow, Numbered, RoleRow, ScrapeRow,
    StorageError,
};
use vstd::prelude::*;

verus! {

/// The view of a `Field` shows each of its fields.
pub proof fn field_is_seen_whole(value: Field)
    ensures
        value.deep_view().name == value.name.deep_view(),
        value.deep_view().value == value.value.deep_view(),
{
}

/// The view of a `ScrapeRecord` shows each of its fields.
pub proof fn scrape_record_is_seen_whole(value: ScrapeRecord)
    ensures
        value.deep_view().id == value.id,
        value.deep_view().url == value.url.deep_view(),
        value.deep_view().scraped_at == value.scraped_at.deep_view(),
        value.deep_view().fields == value.fields.deep_view(),
{
}

/// The view of an `Edition` shows each of its fields.
pub proof fn edition_is_seen_whole(value: Edition)
    ensures
        value.deep_view().id == value.id.deep_view(),
        value.deep_view().name == value.name.deep_view(),
        value.deep_view().color == value.color.deep_view(),
        value.deep_view().level == value.level.deep_view(),
        value.deep_view().is_official == value.is_official,
{
}

/// The view of a `Role` shows each of its fields.
pub proof fn role_is_seen_whole(value: Role)
    ensures
        value.deep_view().id == value.id.deep_view(),
        value.deep_view().name == value.name.deep_view(),
        value.deep_view().team == value.team.deep_view(),
        value.deep_view().edition == value.edition.deep_view(),
        value.deep_view().ability == value.ability.deep_view(),
        value.deep_view().flavor == value.flavor.deep_view(),
        value.deep_view().setup == value.setup,
        value.deep_view().first_night_reminder == value.first_night_reminder.deep_view(),
        value.deep_view().other_night_reminder == value.other_night_reminder.deep_view(),
{
}

/// The view of a `BotcData` shows each of its fields.
pub proof fn response_is_seen_whole(value: BotcData)
    ensures
        value.deep_view().editions == value.editions.deep_view(),
        value.deep_view().roles == value.roles.deep_view(),
{
}

/// The view of a `GameRole` shows each of its fields.
pub proof fn game_role_is_seen_whole(value: GameRole)
    ensures
        value.deep_view().role_id == value.role_id.deep_view(),
        value.deep_view().name == value.name.deep_view(),
        value.deep_view().team == value.team.deep_view(),
        value.deep_view().edition == value.edition.deep_view(),
        value.deep_view().ability == value.ability.deep_view(),
{
}

/// The view of a `GameInstance` shows each of its fields.
pub proof fn game_is_seen_whole(value: GameInstance)
    ensures
        value.deep_view().id == value.id,
        value.deep_view().created_at == value.created_at.deep_view(),
        value.deep_view().roles == value.roles.deep_view(),
{
}

/// The view of a `ScrapeRow` shows each of its fields.
pub proof fn scrape_row_is_seen_whole(value: ScrapeRow)
    ensures
        value.deep_view().id == value.id,
        value.deep_view().url == value.url.deep_view(),
        value.deep_view().scraped_at == value.scraped_at.deep_view(),
{
}

/// The view of a `FieldRow` shows each of its fields.
pub proof fn field_row_is_seen_whole(value: FieldRow)
    ensures
        value.deep_view().id == value.id,
        value.deep_view().scrape_id == value.scrape_id,
        value.deep_view().name == value.name.deep_view(),
        value.deep_view().value == value.value.deep_view(),
{
}

/// The view of an `EditionRow` shows each of its fields.
pub proof fn edition_row_is_seen_whole(value: EditionRow)
    ensures
        value.deep_view().id == value.id.deep_view(),
        value.deep_view().name == value.name.deep_view(),
        value.deep_view().color == value.color.deep_view(),
        value.deep_view().level == value.level.deep_view(),
        value.deep_view().is_official == value.is_official,
{
}

/// The view of a `RoleRow` shows each of its fields.
pub proof fn role_row_is_seen_whole(value: RoleRow)
    ensures
        value.deep_view().id == value.id.deep_view(),
        value.deep_view().name == value.name.deep_view(),
        value.deep_view().team == value.team.deep_view(),
        value.deep_view().edition == value.edition.deep_view(),
        value.deep_view().ability == value.ability.deep_view(),
        value.deep_view().flavor == value.flavor.deep_view(),
        value.deep_view().setup == value.setup,
        value.deep_view().first_night_reminder == value.first_night_reminder.deep_view(),
        value.deep_view().other_night_reminder == value.other_night_reminder.deep_view(),
{
}

/// The view of a `GameRow` shows each of its fields.
pub proof fn game_row_is_seen_whole(value: GameRow)
    ensures
        value.deep_view().id == value.id,
        value.deep_view().created_at == value.created_at.deep_view(),
{
}

/// The view of a `GameRoleRow` shows each of its fields.
pub proof fn game_role_row_is_seen_whole(value: GameRoleRow)
    ensures
        value.deep_view().id == value.id,
        value.deep_view().game_id == value.game_id,
        value.deep_view().role_id == value.role_id.deep_view(),
        value.deep_view().position == value.position,
{
}

/// The view of a `Database` shows each of its fields.
pub proof fn database_is_seen_whole(value: Database)
    ensures
        value.deep_view().scrapes == value.scrapes.deep_view(),
        value.deep_view().fields == value.fields.deep_view(),
        value.deep_view().editions == value.editions.deep_view(),
        value.deep_view().roles == value.roles.deep_view(),
        value.deep_view().games == value.games.deep_view(),
        value.deep_view().game_roles == value.game_roles.deep_view(),
{
}

/// The view of a `JoinedRow` shows each of its fields.
pub proof fn joined_row_is_seen_whole(value: JoinedRow)
    ensures
        value.deep_view().id == value.id,
        value.deep_view().url == value.url.deep_view(),
        value.deep_view().scraped_at == value.scraped_at.deep_view(),
        value.deep_view().name == value.name.deep_view(),
        value.deep_view().value == value.value.deep_view(),
{
}

/// The view of a `Cookie` shows each of its fields.
pub proof fn cookie_is_seen_whole(value: Cookie)
    ensures
        value.deep_view().name == value.name.deep_view(),
        value.deep_view().value == value.value.deep_view(),
        value.deep_view().url == value.url.deep_view(),
{
}

/// The view of a numbered table shows its rows and the last number it gave.
pub proof fn numbered_is_seen_whole<R: DeepView>(value: Numbered<R>)
    ensures
        value.deep_view().last_id == value.last_id,
        value.deep_view().rows == value.rows.deep_view(),
{
}

/// The view of a result of the storage shows the value or the error.
pub proof fn result_is_seen_whole<T: DeepView>(value: T, error: StorageError)
    ensures
        result_view(Ok::<T, StorageError>(value)) == Ok::<T::V, StorageError>(value.deep_view()),
        result_view(Err::<T, StorageError>(error)) == Err::<T::V, StorageError>(error),
{
}

/// The view of a report shows all its lines, or the error.
pub proof fn report_is_seen_whole(lines: Vec<String>, error: CommandError)
    ensures
        report_view(Ok::<Vec<String>, CommandError>(lines)) == Ok::<
            Seq<Seq<char>>,
            CommandErrorView,
        >(lines.deep_view()),
        report_view(Err::<Vec<String>, CommandError>(error)) == Err::<
            Seq<Seq<char>>,
            CommandErrorView,
        >(error.deep_view()),
{
}

/// The view of what was scraped shows all warnings and the report.
pub proof fn scrape_report_is_seen_whole(value: ScrapeReport)
    ensures
        value.deep_view().warnings == value.warnings.deep_view(),
        value.deep_view().report == report_view(value.report),
{
}

/// The view of parsed arguments shows all pairs, or the argument that was refused.
pub proof fn parsed_is_seen_whole(pairs: Vec<(String, String)>, argument: String)
    ensures
        parsed_view(Ok::<Vec<(String, String)>, String>(pairs)) == Ok::<
            Seq<(Seq<char>, Seq<char>)>,
            Seq<char>,
        >(pairs.deep_view()),
        parsed_view(Err::<Vec<(String, String)>, String>(argument)) == Err::<
            Seq<(Seq<char>, Seq<char>)>,
            Seq<char>,
        >(argument@),
{
}

/// The view of an error of a command shows what it holds.
pub proof fn command_error_is_seen_whole(error: StorageError, argument: String, count: usize)
    ensures
        CommandError::Storage(error).deep_view() == CommandErrorView::Storage(error),
        CommandError::NothingSelected.deep_view() == CommandErrorView::NothingSelected,
        CommandError::InvalidSelector(argument).deep_view() == CommandErrorView::InvalidSelector(
            argument@,
        ),
        CommandError::WrongRoleCount(count).deep_view() == CommandErrorView::WrongRoleCount(
            count as nat,
        ),
{
}

/// The view of a lookup shows what it holds.
pub proof fn lookup_is_seen_whole(fault: String, texts: Vec<String>)
    ensures
        Lookup::Invalid(fault).deep_view() == LookupView::Invalid(fault@),
        Lookup::Missing.deep_view() == LookupView::Missing,
        Lookup::Found(texts).deep_view() == LookupView::Found(texts.deep_view()),
{
}

/// The view of a step of the browser shows what it holds.
pub proof fn browser_step_is_seen_whole(
    arguments: Vec<String>,
    text: String,
    cookies: Vec<Cookie>,
    time: u64,
)
    ensures
        BrowserStep::Launch(arguments).deep_view() == BrowserStepView::Launch(
            arguments.deep_view(),
        ),
        BrowserStep::Open(text).deep_view() == BrowserStepView::Open(text@),
        BrowserStep::SetCookies(cookies).deep_view() == BrowserStepView::SetCookies(
            cookies.deep_view(),
        ),
        BrowserStep::Navigate(text).deep_view() == BrowserStepView::Navigate(text@),
        BrowserStep::RunScript(text).deep_view() == BrowserStepView::RunScript(text@),
        BrowserStep::Wait(time).deep_view() == BrowserStepView::Wait(time),
        BrowserStep::Capture.deep_view() == BrowserStepView::Capture,
{
}

/// The view of a plan shows the URL, or all steps.
pub proof fn fetch_plan_is_seen_whole(url: String, steps: Vec<BrowserStep>)
    ensures
        FetchPlan::Get(url).deep_view() == FetchPlanView::Get(url@),
        FetchPlan::Browser(steps).deep_view() == FetchPlanView::Browser(steps.deep_view()),
{
}

} // verus!
