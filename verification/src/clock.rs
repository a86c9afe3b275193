//! The time of day, as it is stored.

use vstd::prelude::*;

verus! {

/// Whether `c` is a decimal digit.
pub open spec fn is_digit(c: char) -> bool {
    '0' <= c <= '9'
}

/// Whether `text` is made of decimal digits alone.
pub open spec fn all_digits(text: Seq<char>) -> bool {
    forall|i: int| 0 <= i < text.len() ==> is_digit(#[trigger] text[i])
}

/// Whether two decimal digits stand at `at`, for a number from `least` to `most`.
pub open spec fn two_digits_at(text: Seq<char>, at: int, least: int, most: int) -> bool {
    &&& is_digit(text[at])
    &&& is_digit(text[at + 1])
    &&& least <= (text[at] as int - '0' as int) * 10 + (text[at + 1] as int - '0' as int) <= most
}

/// Whether `text` is a year: four digits, or a sign and at least four digits.
pub open spec fn is_year(text: Seq<char>) -> bool {
    ||| text.len() == 4 && all_digits(text)
    ||| text.len() >= 5 && (text[0] == '+' || text[0] == '-') && all_digits(text.skip(1))
}

/// Whether `text` is a fraction of a second: nothing, or a point and three, six or nine digits.
pub open spec fn is_fraction(text: Seq<char>) -> bool {
    ||| text.len() == 0
    ||| (text.len() == 4 || text.len() == 7 || text.len() == 10) && text[0] == '.' && all_digits(
        text.skip(1),
    )
}

/// Whether `text` is a date and time of day in UTC as RFC 3339 writes it, with a year of
/// `year` characters: `2024-05-01T09:30:00+00:00`, where a fraction may follow the seconds.
pub open spec fn rfc3339_utc_layout(text: Seq<char>, year: int) -> bool {
    &&& 4 <= year
    &&& year + 21 <= text.len()
    &&& is_year(text.take(year))
    &&& text[year] == '-'
    &&& two_digits_at(text, year + 1, 1, 12)
    &&& text[year + 3] == '-'
    &&& two_digits_at(text, year + 4, 1, 31)
    &&& text[year + 6] == 'T'
    &&& two_digits_at(text, year + 7, 0, 23)
    &&& text[year + 9] == ':'
    &&& two_digits_at(text, year + 10, 0, 59)
    &&& text[year + 12] == ':'
    &&& two_digits_at(text, year + 13, 0, 60)
    &&& is_fraction(text.subrange(year + 15, text.len() - 6))
    &&& text.skip(text.len() - 6) == "+00:00"@
}

/// Whether `text` is a date and time of day in UTC as RFC 3339 writes it.
pub open spec fn is_rfc3339_utc(text: Seq<char>) -> bool {
    exists|year: int| rfc3339_utc_layout(text, year)
}

/// There is such a text: the first second of 1970 is one.
pub proof fn a_time_exists() -> (time: Seq<char>)
    ensures
        is_rfc3339_utc(time),
{
    let time = "1970-01-01T00:00:00+00:00"@;
    reveal_strlit("1970-01-01T00:00:00+00:00");
    reveal_strlit("+00:00");
    assert(time.skip(time.len() - 6) =~= "+00:00"@);
    assert(rfc3339_utc_layout(time, 4));
    time
}

/// The present date and time in UTC, as RFC 3339 writes it: `chrono::Utc::now` and
/// `chrono::DateTime::to_rfc3339`.
///
/// What is claimed is the layout of the text and the range of each number in it, whatever the
/// clock says. Nothing is claimed of which time it is. Where the system clock stands before
/// 1970, `chrono::Utc::now` panics.
#[verifier::external_body]
pub(crate) fn now_rfc3339() -> (text: String)
    ensures
        is_rfc3339_utc(text@),
{
    chrono::Utc::now().to_rfc3339()
}

} // verus!
