//! What is characteristic of the operations on text.

use crate::text::{
    byte_count, byte_prefix, can_be_shortened, cut_at_first, cut_at_last, decimal, digits,
    is_white_space, joined, optional_text_le, padded, shortened, shortened_fits_the_column, text_le,
    trimmed, trimmed_end, trimmed_has_no_space_around, trimmed_start,
};
use vstd::prelude::*;

verus! {

/// The number that decimal digits stand for.
pub open spec fn number_written(text: Seq<char>) -> nat
    decreases text.len(),
{
    if text.len() == 0 {
        0
    } else {
        number_written(text.drop_last()) * 10 + (text.last() as nat - '0' as nat) as nat
    }
}

/// A number in decimal reads as that number, is made of digits, and starts with a zero only
/// where it is zero itself.
pub proof fn digits_read_back(value: nat)
    ensures
        number_written(digits(value)) == value,
        digits(value).len() > 0,
        forall|i: int| 0 <= i < digits(value).len() ==> '0' <= #[trigger] digits(value)[i] <= '9',
        digits(value)[0] == '0' ==> value == 0 && digits(value).len() == 1,
    decreases value,
{
    let text = digits(value);
    if value < 10 {
        assert(text.drop_last() =~= Seq::empty());
        assert(number_written(text.drop_last()) == 0);
    } else {
        digits_read_back(value / 10);
        assert(text.drop_last() =~= digits(value / 10));
        assert(text[0] == digits(value / 10)[0]);
        assert forall|i: int| 0 <= i < text.len() implies '0' <= #[trigger] text[i] <= '9' by {
            if i < text.len() - 1 {
                assert(text[i] == digits(value / 10)[i]);
            }
        }
    }
}

/// A negative number in decimal is a minus sign and the digits of what it is short of zero; any
/// other is its digits.
pub proof fn decimal_reads_back(value: int)
    ensures
        value >= 0 ==> decimal(value) == digits(value as nat),
        value < 0 ==> decimal(value).len() > 0 && decimal(value)[0] == '-' && decimal(value).skip(1)
            == digits((-value) as nat),
{
    if value < 0 {
        reveal_strlit("-");
        assert(decimal(value).skip(1) =~= digits((-value) as nat));
    }
}

/// Of no parts nothing is joined, and one part is joined as it is.
pub proof fn joining_few_parts(part: Seq<char>, separator: Seq<char>)
    ensures
        joined(Seq::empty(), separator) == Seq::<char>::empty(),
        joined(seq![part], separator) == part,
{
}

/// Joining some parts and then others, with the separator between them, is joining them all.
pub proof fn joining_in_two_parts(
    first: Seq<Seq<char>>,
    second: Seq<Seq<char>>,
    separator: Seq<char>,
)
    requires
        first.len() > 0,
        second.len() > 0,
    ensures
        joined(first + second, separator) == joined(first, separator) + separator + joined(
            second,
            separator,
        ),
    decreases second.len(),
{
    let all = first + second;
    let front = second.drop_last();
    if second.len() == 1 {
        assert(all.drop_last() =~= first);
        assert(joined(all, separator) =~= joined(first, separator) + separator + joined(
            second,
            separator,
        ));
    } else {
        joining_in_two_parts(first, front, separator);
        assert(all.drop_last() =~= first + front);
        assert(joined(all, separator) =~= joined(first, separator) + separator + joined(
            second,
            separator,
        ));
    }
}

/// Whether `text` is white space alone.
pub open spec fn is_blank(text: Seq<char>) -> bool {
    forall|i: int| 0 <= i < text.len() ==> is_white_space(#[trigger] text[i])
}

proof fn trimmed_start_drops_blanks(text: Seq<char>) -> (count: int)
    ensures
        0 <= count <= text.len(),
        is_blank(text.take(count)),
        trimmed_start(text) == text.skip(count),
    decreases text.len(),
{
    if text.len() > 0 && is_white_space(text.first()) {
        let rest = text.drop_first();
        let count = trimmed_start_drops_blanks(rest) + 1;
        assert forall|i: int| 0 <= i < count implies is_white_space(
            #[trigger] text.take(count)[i],
        ) by {
            if i > 0 {
                assert(text.take(count)[i] == rest.take(count - 1)[i - 1]);
            }
        }
        assert(text.skip(count) =~= rest.skip(count - 1));
        count
    } else {
        assert(text.skip(0) =~= text);
        0
    }
}

proof fn trimmed_end_drops_blanks(text: Seq<char>) -> (count: int)
    ensures
        0 <= count <= text.len(),
        is_blank(text.skip(count)),
        trimmed_end(text) == text.take(count),
    decreases text.len(),
{
    if text.len() > 0 && is_white_space(text.last()) {
        let front = text.drop_last();
        let count = trimmed_end_drops_blanks(front);
        assert forall|i: int| 0 <= i < text.len() - count implies is_white_space(
            #[trigger] text.skip(count)[i],
        ) by {
            if i < text.len() - count - 1 {
                assert(text.skip(count)[i] == front.skip(count)[i]);
            }
        }
        assert(text.take(count) =~= front.take(count));
        count
    } else {
        assert(text.take(text.len() as int) =~= text);
        text.len() as int
    }
}

/// Trimming takes only white space off, at either end, and takes off all of it.
pub proof fn trimming_takes_off_the_space_around(text: Seq<char>)
    ensures
        exists|before: Seq<char>, after: Seq<char>|
            #![trigger before + trimmed(text) + after]
            is_blank(before) && is_blank(after) && text == before + trimmed(text) + after,
        trimmed(text).len() > 0 ==> !is_white_space(trimmed(text).first()) && !is_white_space(
            trimmed(text).last(),
        ),
        trimmed(text).len() == 0 <==> is_blank(text),
{
    trimmed_has_no_space_around(text);
    let start = trimmed_start_drops_blanks(text);
    let rest = trimmed_start(text);
    let end = trimmed_end_drops_blanks(rest);
    let before = text.take(start);
    let after = rest.skip(end);
    assert(text =~= before + trimmed(text) + after);
    if trimmed(text).len() == 0 {
        assert forall|i: int| 0 <= i < text.len() implies is_white_space(#[trigger] text[i]) by {
            if i < start {
                assert(before[i] == text[i]);
            } else {
                assert(after[i - start] == text[i]);
            }
        }
    } else {
        assert(trimmed(text).first() == text[start]);
        if is_blank(text) {
            assert(is_white_space(text[start]));
        }
    }
}

/// A text is cut in two at the first separator: the first half does not hold it. Where there is
/// none, it is not cut.
pub proof fn cutting_at_the_first(text: Seq<char>, separator: char)
    ensures
        cut_at_first(text, separator) is Some <==> text.contains(separator),
        cut_at_first(text, separator) matches Some((head, tail)) ==> {
            &&& text == head.push(separator) + tail
            &&& !head.contains(separator)
        },
{
    text.index_of_first_ensures(separator);
    if let Some((head, tail)) = cut_at_first(text, separator) {
        assert(text =~= head.push(separator) + tail);
        if head.contains(separator) {
            let k = choose|k: int| 0 <= k < head.len() && head[k] == separator;
            assert(text[k] == separator);
        }
    }
}

/// A text is cut in two at the last separator: the second half does not hold it. Where there is
/// none, it is not cut.
pub proof fn cutting_at_the_last(text: Seq<char>, separator: char)
    ensures
        cut_at_last(text, separator) is Some <==> text.contains(separator),
        cut_at_last(text, separator) matches Some((head, tail)) ==> {
            &&& text == head.push(separator) + tail
            &&& !tail.contains(separator)
        },
{
    text.index_of_last_ensures(separator);
    if let Some((head, tail)) = cut_at_last(text, separator) {
        assert(text =~= head.push(separator) + tail);
        let at = text.index_of_last(separator)->0;
        if tail.contains(separator) {
            let k = choose|k: int| 0 <= k < tail.len() && tail[k] == separator;
            assert(text[at + 1 + k] == separator);
        }
    }
}

/// Padding adds spaces behind a text, and as many as the column has room for.
pub proof fn padding_adds_spaces(text: Seq<char>, width: nat)
    ensures
        padded(text, width).len() == if text.len() < width {
            width
        } else {
            text.len()
        },
        padded(text, width).take(text.len() as int) == text,
        forall|i: int|
            text.len() <= i < padded(text, width).len() ==> #[trigger] padded(text, width)[i]
                == ' ',
{
    assert(padded(text, width).take(text.len() as int) =~= text);
}

/// Whether `shown` is how a text is shown in a column of `limit` bytes: as it is where it fits,
/// and otherwise its first `keep` bytes with three dots behind them.
pub open spec fn shows_cut(text: Seq<char>, limit: nat, keep: nat, shown: Seq<char>) -> bool {
    if byte_count(text) <= limit {
        shown == text
    } else {
        exists|head: Seq<char>|
            head.is_prefix_of(text) && #[trigger] byte_count(head) == keep && shown == head + seq![
                '.',
                '.',
                '.',
            ]
    }
}

/// A text is shown in a column as it is where it fits, and otherwise by its first `keep` bytes
/// with three dots behind them.
pub proof fn cutting_for_a_column(text: Seq<char>, limit: nat, keep: nat)
    requires
        can_be_shortened(text, limit, keep),
        keep + 3 <= limit,
    ensures
        shows_cut(text, limit, keep, shortened(text, limit, keep)),
{
    if byte_count(text) > limit {
        shortened_fits_the_column(text, limit, keep);
        let bytes = vstd::utf8::encode_utf8(text);
        let head = byte_prefix(text, keep);
        vstd::utf8::encode_utf8_valid_utf8(text);
        vstd::utf8::valid_utf8_split(bytes, keep as int);
        vstd::utf8::decode_utf8_encode_utf8(bytes.subrange(0, keep as int));
        assert(byte_count(head) == keep);
        reveal_strlit("...");
        assert("..."@ =~= seq!['.', '.', '.']);
        assert(shortened(text, limit, keep) == head + seq!['.', '.', '.']);
    }
}

/// Texts are ordered by their code points: one that starts another comes before it, and otherwise
/// the first character in which they differ decides.
pub proof fn texts_are_ordered_by_code_points(a: Seq<char>, b: Seq<char>)
    ensures
        text_le(a, b) <==> a.is_prefix_of(b) || exists|i: int|
            #![trigger a.take(i)]
            0 <= i < a.len() && i < b.len() && a.take(i) == b.take(i) && a[i] < b[i],
    decreases a.len(),
{
    if a.len() > 0 && b.len() > 0 && a.first() == b.first() {
        let x = a.drop_first();
        let y = b.drop_first();
        texts_are_ordered_by_code_points(x, y);
        if x.is_prefix_of(y) {
            assert forall|i: int| 0 <= i < a.len() implies a[i] == b[i] by {
                if i > 0 {
                    assert(x[i - 1] == y.take(x.len() as int)[i - 1]);
                }
            }
            assert(a =~= b.take(a.len() as int));
        }
        if a.is_prefix_of(b) {
            assert forall|i: int| 0 <= i < x.len() implies x[i] == y[i] by {
                assert(a[i + 1] == b.take(a.len() as int)[i + 1]);
            }
            assert(x =~= y.take(x.len() as int));
        }
        if exists|i: int|
            #![trigger x.take(i)]
            0 <= i < x.len() && i < y.len() && x.take(i) == y.take(i) && x[i] < y[i] {
            let i = choose|i: int|
                #![trigger x.take(i)]
                0 <= i < x.len() && i < y.len() && x.take(i) == y.take(i) && x[i] < y[i];
            assert forall|k: int| 0 <= k < i + 1 implies a[k] == b[k] by {
                if k > 0 {
                    assert(x.take(i)[k - 1] == y.take(i)[k - 1]);
                }
            }
            assert(a.take(i + 1) =~= b.take(i + 1));
        }
        if exists|i: int|
            #![trigger a.take(i)]
            0 <= i < a.len() && i < b.len() && a.take(i) == b.take(i) && a[i] < b[i] {
            let i = choose|i: int|
                #![trigger a.take(i)]
                0 <= i < a.len() && i < b.len() && a.take(i) == b.take(i) && a[i] < b[i];
            assert forall|k: int| 0 <= k < i - 1 implies x[k] == y[k] by {
                assert(a.take(i)[k + 1] == b.take(i)[k + 1]);
            }
            assert(x.take(i - 1) =~= y.take(i - 1));
        }
    } else if a.len() == 0 {
        assert(a =~= b.take(0));
    } else if b.len() > 0 {
        if a.first() < b.first() {
            assert(a.take(0) =~= b.take(0));
        }
        if a.is_prefix_of(b) {
            assert(a[0] == b.take(a.len() as int)[0]);
        }
        if exists|i: int|
            #![trigger a.take(i)]
            0 <= i < a.len() && i < b.len() && a.take(i) == b.take(i) && a[i] < b[i] {
            let i = choose|i: int|
                #![trigger a.take(i)]
                0 <= i < a.len() && i < b.len() && a.take(i) == b.take(i) && a[i] < b[i];
            if i > 0 {
                assert(a.take(i)[0] == b.take(i)[0]);
            }
        }
    }
}

/// An absent text comes before every text, and two that are there are ordered as texts are.
pub proof fn absent_texts_come_first(a: Seq<char>, b: Seq<char>)
    ensures
        optional_text_le(None, None),
        optional_text_le(None, Some(b)),
        !optional_text_le(Some(a), None),
        optional_text_le(Some(a), Some(b)) == text_le(a, b),
{
}

} // verus!
