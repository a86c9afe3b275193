//! What the commands print: table rows, lists of lines and messages.

use crate::tables::{StorageError, TableName};
use crate::text::{decimal, digits, pad, padded, write_integer, write_natural};
use vstd::prelude::*;

verus! {

/// Why a command failed.
#[derive(Debug)]
pub enum CommandError {
    /// The storage failed.
    Storage(StorageError),
    /// There was nothing to extract.
    NothingSelected,
    /// This argument is not of the form `SELECTOR:FIELD`.
    InvalidSelector(String),
    /// A game was asked for with this many roles.
    WrongRoleCount(usize),
}

/// What a [`CommandError`] holds.
#[verifier::ext_equal]
pub enum CommandErrorView {
    Storage(StorageError),
    NothingSelected,
    InvalidSelector(Seq<char>),
    WrongRoleCount(nat),
}

impl DeepView for CommandError {
    type V = CommandErrorView;

    open spec fn deep_view(&self) -> CommandErrorView {
        match self {
            CommandError::Storage(error) => CommandErrorView::Storage(*error),
            CommandError::NothingSelected => CommandErrorView::NothingSelected,
            CommandError::InvalidSelector(argument) => CommandErrorView::InvalidSelector(
                argument.deep_view(),
            ),
            CommandError::WrongRoleCount(count) => CommandErrorView::WrongRoleCount(*count as nat),
        }
    }
}

/// The name of a table.
pub open spec fn table_name(table: TableName) -> Seq<char> {
    match table {
        TableName::Scrapes => "scrapes"@,
        TableName::Fields => "fields"@,
        TableName::Editions => "editions"@,
        TableName::Roles => "roles"@,
        TableName::Games => "games"@,
        TableName::GameRoles => "game_roles"@,
    }
}

/// What is said of a failure of the storage.
pub open spec fn storage_message(error: StorageError) -> Seq<char> {
    match error {
        StorageError::NoSuchTable(table) => "no such table: "@ + table_name(table),
        StorageError::IdsExhausted(_) => "database or disk is full"@,
        StorageError::IntegerOutOfRange { column, value } => "Integer "@ + decimal(value as int)
            + " out of range at index "@ + digits(column as nat),
    }
}

/// What is said of a command that failed.
pub open spec fn error_message(error: CommandErrorView) -> Seq<char> {
    match error {
        CommandErrorView::Storage(error) => storage_message(error),
        CommandErrorView::NothingSelected =>
            "Provide at least one --select SELECTOR:FIELD argument"@,
        CommandErrorView::InvalidSelector(argument) => "Invalid --select value '"@ + argument
            + "'. Expected format: SELECTOR:FIELD"@,
        CommandErrorView::WrongRoleCount(count) => "A game requires 3–20 roles, got "@ + digits(
            count,
        ) + "."@,
    }
}

/// The name of a table.
fn name_of(table: TableName) -> (name: &'static str)
    ensures
        name@ == table_name(table),
{
    match table {
        TableName::Scrapes => "scrapes",
        TableName::Fields => "fields",
        TableName::Editions => "editions",
        TableName::Roles => "roles",
        TableName::Games => "games",
        TableName::GameRoles => "game_roles",
    }
}

impl StorageError {
    /// What is said of this failure.
    pub fn message(&self) -> (message: String)
        ensures
            message@ == storage_message(*self),
    {
        match self {
            StorageError::NoSuchTable(table) => {
                let mut message = "no such table: ".to_owned();
                message.append(name_of(*table));
                message
            },
            StorageError::IdsExhausted(_) => "database or disk is full".to_owned(),
            StorageError::IntegerOutOfRange { column, value } => {
                let mut message = "Integer ".to_owned();
                message.append(write_integer(*value).as_str());
                message.append(" out of range at index ");
                message.append(write_natural(*column).as_str());
                message
            },
        }
    }
}

impl CommandError {
    /// What is said of this failure.
    pub fn message(&self) -> (message: String)
        ensures
            message@ == error_message(self.deep_view()),
    {
        match self {
            CommandError::Storage(error) => error.message(),
            CommandError::NothingSelected => {
                "Provide at least one --select SELECTOR:FIELD argument".to_owned()
            },
            CommandError::InvalidSelector(argument) => {
                let mut message = "Invalid --select value '".to_owned();
                message.append(argument.as_str());
                message.append("'. Expected format: SELECTOR:FIELD");
                message
            },
            CommandError::WrongRoleCount(count) => {
                let mut message = "A game requires 3–20 roles, got ".to_owned();
                message.append(write_natural(*count as u64).as_str());
                message.append(".");
                message
            },
        }
    }
}

/// What a command gave: the lines that it prints, or why it failed.
pub open spec fn report_view(report: Result<Vec<String>, CommandError>) -> Result<
    Seq<Seq<char>>,
    CommandErrorView,
> {
    match report {
        Ok(lines) => Ok(lines.deep_view()),
        Err(error) => Err(error.deep_view()),
    }
}

/// A row of a table with four columns, of which the first three have a fixed width.
pub open spec fn row_of_four(
    first: (Seq<char>, nat),
    second: (Seq<char>, nat),
    third: (Seq<char>, nat),
    last: Seq<char>,
) -> Seq<char> {
    padded(first.0, first.1) + " "@ + padded(second.0, second.1) + " "@ + padded(third.0, third.1)
        + " "@ + last
}

/// Writes a row of a table with four columns, of which the first three have a fixed width.
pub fn write_row_of_four(
    first: (&str, usize),
    second: (&str, usize),
    third: (&str, usize),
    last: &str,
) -> (row: String)
    ensures
        row@ == row_of_four(
            (first.0@, first.1 as nat),
            (second.0@, second.1 as nat),
            (third.0@, third.1 as nat),
            last@,
        ),
{
    let mut row = pad(first.0, first.1);
    row.append(" ");
    row.append(pad(second.0, second.1).as_str());
    row.append(" ");
    row.append(pad(third.0, third.1).as_str());
    row.append(" ");
    row.append(last);
    row
}

/// Adds a line to those that are printed.
pub fn add_line(lines: &mut Vec<String>, line: String)
    ensures
        final(lines).deep_view() == old(lines).deep_view().push(line@),
{
    let ghost before = lines.deep_view();
    let ghost text = line@;
    lines.push(line);
    assert(lines.deep_view() =~= before.push(text));
}

/// A single line.
pub fn one_line(line: &str) -> (lines: Vec<String>)
    ensures
        lines.deep_view() == seq![line@],
{
    let mut lines: Vec<String> = Vec::new();
    add_line(&mut lines, line.to_owned());
    assert(lines.deep_view() =~= seq![line@]);
    lines
}

/// The line that says which URL is being fetched.
pub open spec fn fetching_line(url: Seq<char>) -> Seq<char> {
    "Fetching "@ + url + " ..."@
}

/// Says which URL is being fetched.
pub fn fetching(url: &str) -> (line: String)
    ensures
        line@ == fetching_line(url@),
{
    let mut line = "Fetching ".to_owned();
    line.append(url);
    line.append(" ...");
    line
}

/// A text, or a stand-in where there is none.
pub open spec fn text_or(text: Option<Seq<char>>, stand_in: Seq<char>) -> Seq<char> {
    match text {
        Some(text) => text,
        None => stand_in,
    }
}

/// A text, or a stand-in where there is none.
pub fn or_stand_in<'a>(text: &'a Option<String>, stand_in: &'a str) -> (shown: &'a str)
    ensures
        shown@ == text_or(text.deep_view(), stand_in@),
{
    match text {
        Some(text) => text.as_str(),
        None => stand_in,
    }
}

} // verus!
