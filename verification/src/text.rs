//! Text: splitting, trimming, joining, padding, shortening and ordering.
//!
//! Every function here is stated over the sequence of characters that a string
//! holds.

use vstd::prelude::*;
use vstd::string::StringSliceAdditionalSpecFns;

verus! {

/// `count` copies of the character `c`.
pub open spec fn repeated(c: char, count: nat) -> Seq<char> {
    Seq::new(count, |i: int| c)
}

/// `text`, followed by as many spaces as it takes to be `width` characters long.
/// A text that is at least that long is left as it is.
pub open spec fn padded(text: Seq<char>, width: nat) -> Seq<char> {
    if text.len() < width {
        text + repeated(' ', (width - text.len()) as nat)
    } else {
        text
    }
}

/// The parts, one after the other, with `separator` between each two.
pub open spec fn joined(parts: Seq<Seq<char>>, separator: Seq<char>) -> Seq<char>
    decreases parts.len(),
{
    if parts.len() == 0 {
        Seq::empty()
    } else if parts.len() == 1 {
        parts[0]
    } else {
        joined(parts.drop_last(), separator) + separator + parts.last()
    }
}

/// The pieces of `text` between the occurrences of `separator`. There is always one
/// more piece than there are separators.
pub open spec fn pieces(text: Seq<char>, separator: char) -> Seq<Seq<char>>
    decreases text.len(),
{
    if text.len() == 0 {
        seq![Seq::empty()]
    } else {
        let before = pieces(text.drop_last(), separator);
        if text.last() == separator {
            before.push(Seq::empty())
        } else {
            before.drop_last().push(before.last().push(text.last()))
        }
    }
}

/// There is always at least one piece, and no piece holds the separator.
pub proof fn pieces_hold_no_separator(text: Seq<char>, separator: char)
    ensures
        pieces(text, separator).len() > 0,
        forall|i: int|
            0 <= i < pieces(text, separator).len() ==> !(#[trigger] pieces(
                text,
                separator,
            )[i]).contains(separator),
    decreases text.len(),
{
    if text.len() > 0 {
        pieces_hold_no_separator(text.drop_last(), separator);
        let before = pieces(text.drop_last(), separator);
        let all = pieces(text, separator);
        assert forall|i: int| 0 <= i < all.len() implies !(#[trigger] all[i]).contains(
            separator,
        ) by {
            if i < all.len() - 1 {
                assert(all[i] == before[i]);
            } else if text.last() != separator {
                let last = before[before.len() - 1];
                assert(!last.contains(separator));
                assert(all[i] == last.push(text.last()));
                if all[i].contains(separator) {
                    let k = choose|k: int| 0 <= k < all[i].len() && all[i][k] == separator;
                    assert(last[k] == separator);
                }
            }
        }
    }
}

/// Text that is split at a separator and joined with it is what it was.
pub proof fn pieces_join_back(text: Seq<char>, separator: char)
    ensures
        joined(pieces(text, separator), seq![separator]) == text,
    decreases text.len(),
{
    if text.len() > 0 {
        let before = pieces(text.drop_last(), separator);
        let all = pieces(text, separator);
        pieces_join_back(text.drop_last(), separator);
        pieces_hold_no_separator(text.drop_last(), separator);
        assert(text =~= text.drop_last().push(text.last()));
        assert(all.drop_last() =~= if text.last() == separator {
            before
        } else {
            before.drop_last()
        });
        if text.last() == separator {
            assert(joined(all, seq![separator]) =~= text);
        } else {
            assert(joined(all, seq![separator]) =~= text);
        }
    } else {
        assert(joined(pieces(text, separator), seq![separator]) =~= text);
    }
}

/// Splitting a text that starts with a piece and a separator: the piece comes first, and then
/// the pieces of what is left.
pub proof fn pieces_of_rest(head: Seq<char>, separator: char, rest: Seq<char>)
    requires
        !head.contains(separator),
    ensures
        pieces(head, separator) == seq![head],
        pieces(head.push(separator) + rest, separator) == seq![head] + pieces(rest, separator),
    decreases head.len() + rest.len(),
{
    if rest.len() > 0 {
        pieces_of_rest(head, separator, rest.drop_last());
        pieces_hold_no_separator(rest.drop_last(), separator);
        let whole = head.push(separator) + rest;
        assert(whole.drop_last() =~= head.push(separator) + rest.drop_last());
        assert(pieces(whole, separator) =~= seq![head] + pieces(rest, separator));
    } else {
        if head.len() > 0 {
            assert forall|i: int| 0 <= i < head.drop_last().len() implies head.drop_last()[i]
                != separator by {
                assert(head.contains(head[i]));
            }
            assert(head.contains(head[head.len() - 1]));
            pieces_of_rest(head.drop_last(), separator, Seq::empty());
            assert(head.drop_last().push(head.last()) =~= head);
        } else {
            assert(head =~= Seq::empty());
        }
        assert(pieces(head, separator) =~= seq![head]);
        assert(head.push(separator) + rest =~= head.push(separator));
        assert(head.push(separator).drop_last() =~= head);
        assert(pieces(head.push(separator), separator) =~= seq![head] + pieces(rest, separator));
    }
}

/// What stands before and after the first `separator`, if there is one.
pub open spec fn cut_at_first(text: Seq<char>, separator: char) -> Option<(Seq<char>, Seq<char>)> {
    match text.index_of_first(separator) {
        Some(at) => Some((text.take(at), text.skip(at + 1))),
        None => None,
    }
}

/// What stands before and after the last `separator`, if there is one.
pub open spec fn cut_at_last(text: Seq<char>, separator: char) -> Option<(Seq<char>, Seq<char>)> {
    match text.index_of_last(separator) {
        Some(at) => Some((text.take(at), text.skip(at + 1))),
        None => None,
    }
}

/// The characters with the Unicode property `White_Space`.
pub open spec fn is_white_space(c: char) -> bool {
    ||| '\u{9}' <= c <= '\u{d}'
    ||| c == ' '
    ||| c == '\u{85}'
    ||| c == '\u{a0}'
    ||| c == '\u{1680}'
    ||| '\u{2000}' <= c <= '\u{200a}'
    ||| c == '\u{2028}'
    ||| c == '\u{2029}'
    ||| c == '\u{202f}'
    ||| c == '\u{205f}'
    ||| c == '\u{3000}'
}

/// `text` without the white space that it starts with.
pub open spec fn trimmed_start(text: Seq<char>) -> Seq<char>
    decreases text.len(),
{
    if text.len() > 0 && is_white_space(text.first()) {
        trimmed_start(text.drop_first())
    } else {
        text
    }
}

/// `text` without the white space that it ends with.
pub open spec fn trimmed_end(text: Seq<char>) -> Seq<char>
    decreases text.len(),
{
    if text.len() > 0 && is_white_space(text.last()) {
        trimmed_end(text.drop_last())
    } else {
        text
    }
}

/// `text` without the white space at either end.
pub open spec fn trimmed(text: Seq<char>) -> Seq<char> {
    trimmed_end(trimmed_start(text))
}

proof fn trimmed_start_has_none(text: Seq<char>)
    ensures
        trimmed_start(text).len() > 0 ==> !is_white_space(trimmed_start(text).first()),
    decreases text.len(),
{
    if text.len() > 0 && is_white_space(text.first()) {
        trimmed_start_has_none(text.drop_first());
    }
}

proof fn trimmed_end_has_none(text: Seq<char>)
    ensures
        trimmed_end(text).len() <= text.len(),
        trimmed_end(text) == text.take(trimmed_end(text).len() as int),
        trimmed_end(text).len() > 0 ==> !is_white_space(trimmed_end(text).last()),
    decreases text.len(),
{
    if text.len() > 0 && is_white_space(text.last()) {
        trimmed_end_has_none(text.drop_last());
        let kept = trimmed_end(text);
        assert(kept =~= text.take(kept.len() as int));
    } else {
        assert(text =~= text.take(text.len() as int));
    }
}

/// Trimmed text neither starts nor ends with white space, so trimming it again changes nothing.
pub proof fn trimmed_has_no_space_around(text: Seq<char>)
    ensures
        trimmed(text).len() > 0 ==> !is_white_space(trimmed(text).first()),
        trimmed(text).len() > 0 ==> !is_white_space(trimmed(text).last()),
        trimmed(trimmed(text)) == trimmed(text),
{
    trimmed_start_has_none(text);
    trimmed_end_has_none(trimmed_start(text));
}

/// How many bytes `text` takes in UTF-8.
pub open spec fn byte_count(text: Seq<char>) -> nat {
    vstd::utf8::encode_utf8(text).len()
}

/// Whether the first `count` bytes of `text` in UTF-8 are whole characters.
pub open spec fn cuts_between_chars(text: Seq<char>, count: nat) -> bool {
    vstd::utf8::is_char_boundary(vstd::utf8::encode_utf8(text), count as int)
}

/// The characters that the first `count` bytes of `text` in UTF-8 make up.
pub open spec fn byte_prefix(text: Seq<char>, count: nat) -> Seq<char> {
    vstd::utf8::decode_utf8(vstd::utf8::encode_utf8(text).subrange(0, count as int))
}

/// `text` as it is shown in a column: a text of more than `limit` bytes is cut to its
/// first `keep` bytes, and three dots show the cut.
pub open spec fn shortened(text: Seq<char>, limit: nat, keep: nat) -> Seq<char> {
    if byte_count(text) > limit {
        byte_prefix(text, keep) + "..."@
    } else {
        text
    }
}

/// Whether `text` can be shown in such a column: where it has to be cut, the cut does
/// not fall inside a character.
pub open spec fn can_be_shortened(text: Seq<char>, limit: nat, keep: nat) -> bool {
    byte_count(text) > limit ==> cuts_between_chars(text, keep)
}

/// A padded text is as wide as its column, unless it was too wide for it before.
pub proof fn padded_fills_the_column(text: Seq<char>, width: nat)
    ensures
        text.len() <= width ==> padded(text, width).len() == width,
        text.len() >= width ==> padded(text, width) == text,
        text.is_prefix_of(padded(text, width)),
{
}

proof fn bytes_of_parts(first: Seq<char>, second: Seq<char>)
    ensures
        byte_count(first + second) == byte_count(first) + byte_count(second),
    decreases first.len(),
{
    if first.len() == 0 {
        assert(first + second =~= second);
    } else {
        bytes_of_parts(first.drop_first(), second);
        assert((first + second).drop_first() =~= first.drop_first() + second);
    }
}

proof fn chars_take_bytes(text: Seq<char>)
    ensures
        text.len() <= byte_count(text),
    decreases text.len(),
{
    if text.len() > 0 {
        chars_take_bytes(text.drop_first());
        vstd::utf8::encode_utf8_first_scalar(text);
    }
}

/// A text that is cut for a column takes no more than `limit` bytes, and so no more than as many
/// characters. Before the dots it is a prefix of what it was.
pub proof fn shortened_fits_the_column(text: Seq<char>, limit: nat, keep: nat)
    requires
        can_be_shortened(text, limit, keep),
        keep + 3 <= limit,
    ensures
        byte_count(shortened(text, limit, keep)) <= limit,
        shortened(text, limit, keep).len() <= limit,
        byte_count(text) > limit ==> byte_prefix(text, keep).is_prefix_of(text),
{
    if byte_count(text) > limit {
        let bytes = vstd::utf8::encode_utf8(text);
        let head = bytes.subrange(0, keep as int);
        let tail = bytes.subrange(keep as int, bytes.len() as int);
        vstd::utf8::encode_utf8_valid_utf8(text);
        vstd::utf8::valid_utf8_split(bytes, keep as int);
        vstd::utf8::decode_utf8_encode_utf8(head);
        vstd::utf8::decode_utf8_split(bytes, keep as int);
        vstd::utf8::encode_utf8_decode_utf8(text);
        assert(text == byte_prefix(text, keep) + vstd::utf8::decode_utf8(tail));
        reveal_strlit("...");
        let dots = "..."@;
        bytes_of_parts(byte_prefix(text, keep), dots);
        assert(dots =~= seq!['.'] + seq!['.'] + seq!['.']);
        assert(byte_count(seq!['.']) == 1) by {
            assert(seq!['.'].drop_first() =~= Seq::empty());
            assert(vstd::utf8::encode_utf8(Seq::<char>::empty()).len() == 0);
        }
        bytes_of_parts(seq!['.'] + seq!['.'], seq!['.']);
        bytes_of_parts(seq!['.'], seq!['.']);
    }
    chars_take_bytes(shortened(text, limit, keep));
}

/// The decimal digit of value `value`.
pub open spec fn digit(value: nat) -> char {
    ('0' as nat + value) as char
}

/// `value` in decimal, without leading zeros.
pub open spec fn digits(value: nat) -> Seq<char>
    decreases value,
{
    if value < 10 {
        seq![digit(value)]
    } else {
        digits(value / 10).push(digit(value % 10))
    }
}

/// `value` in decimal, with a minus sign where it is negative.
pub open spec fn decimal(value: int) -> Seq<char> {
    if value < 0 {
        "-"@ + digits((-value) as nat)
    } else {
        digits(value as nat)
    }
}

/// The order of texts by their code points, which is also that of their bytes in UTF-8:
/// whether `a` does not come after `b`.
pub open spec fn text_le(a: Seq<char>, b: Seq<char>) -> bool
    decreases a.len(),
{
    if a.len() == 0 {
        true
    } else if b.len() == 0 {
        false
    } else if a.first() != b.first() {
        a.first() < b.first()
    } else {
        text_le(a.drop_first(), b.drop_first())
    }
}

/// The order of texts that may be absent: an absent one comes before every other.
pub open spec fn optional_text_le(a: Option<Seq<char>>, b: Option<Seq<char>>) -> bool {
    match (a, b) {
        (None, _) => true,
        (Some(_), None) => false,
        (Some(a), Some(b)) => text_le(a, b),
    }
}

/// Two texts that come neither before nor after each other are the same.
pub proof fn text_le_antisymmetric(a: Seq<char>, b: Seq<char>)
    requires
        text_le(a, b),
        text_le(b, a),
    ensures
        a == b,
    decreases a.len(),
{
    if a.len() > 0 {
        text_le_antisymmetric(a.drop_first(), b.drop_first());
        assert(a =~= seq![a.first()] + a.drop_first());
        assert(b =~= seq![b.first()] + b.drop_first());
    } else {
        assert(a =~= b);
    }
}

/// Of two texts, one does not come after the other.
pub proof fn text_le_total(a: Seq<char>, b: Seq<char>)
    ensures
        text_le(a, b) || text_le(b, a),
    decreases a.len(),
{
    if a.len() > 0 && b.len() > 0 {
        text_le_total(a.drop_first(), b.drop_first());
    }
}

/// The order of texts is transitive.
pub proof fn text_le_transitive(a: Seq<char>, b: Seq<char>, c: Seq<char>)
    requires
        text_le(a, b),
        text_le(b, c),
    ensures
        text_le(a, c),
    decreases a.len(),
{
    if a.len() > 0 && a.first() == b.first() && b.first() == c.first() {
        text_le_transitive(a.drop_first(), b.drop_first(), c.drop_first());
    }
}

/// Of two texts that may be absent, one does not come after the other.
pub proof fn optional_text_le_total(a: Option<Seq<char>>, b: Option<Seq<char>>)
    ensures
        optional_text_le(a, b) || optional_text_le(b, a),
{
    if let (Some(x), Some(y)) = (a, b) {
        text_le_total(x, y);
    }
}

/// The order of texts that may be absent is transitive.
pub proof fn optional_text_le_transitive(
    a: Option<Seq<char>>,
    b: Option<Seq<char>>,
    c: Option<Seq<char>>,
)
    requires
        optional_text_le(a, b),
        optional_text_le(b, c),
    ensures
        optional_text_le(a, c),
{
    if let (Some(x), Some(y), Some(z)) = (a, b, c) {
        text_le_transitive(x, y, z);
    }
}

/// Two texts that may be absent, and come neither before nor after each other, are the same.
pub proof fn optional_text_le_antisymmetric(a: Option<Seq<char>>, b: Option<Seq<char>>)
    requires
        optional_text_le(a, b),
        optional_text_le(b, a),
    ensures
        a == b,
{
    if let (Some(x), Some(y)) = (a, b) {
        text_le_antisymmetric(x, y);
    }
}

/// The characters of `text`, in order.
pub fn chars_of(text: &str) -> (chars: Vec<char>)
    ensures
        chars@ == text@,
{
    let mut chars: Vec<char> = Vec::new();
    for c in it: text.chars()
        invariant
            it.seq() == text@,
            chars@ == text@.take(it.index()),
    {
        chars.push(c);
        assert(text@.take(it.index() + 1) =~= text@.take(it.index()).push(c));
    }
    assert(text@.take(text@.len() as int) =~= text@);
    chars
}

/// `count` hyphens.
pub fn hyphens(count: usize) -> (line: String)
    ensures
        line@ == repeated('-', count as nat),
{
    let mut line = String::new();
    let mut i: usize = 0;
    while i < count
        invariant
            i <= count,
            line@ == repeated('-', i as nat),
        decreases count - i,
    {
        line.append("-");
        proof {
            reveal_strlit("-");
        }
        i = i + 1;
        assert(line@ =~= repeated('-', i as nat));
    }
    line
}

/// Pads a text with spaces on the right.
pub fn pad(text: &str, width: usize) -> (cell: String)
    ensures
        cell@ == padded(text@, width as nat),
{
    let length = text.unicode_len();
    let mut cell = text.to_owned();
    let mut i: usize = length;
    assert(cell@ =~= text@ + repeated(' ', 0));
    while i < width
        invariant
            length == text@.len(),
            length <= i,
            length <= width ==> i <= width,
            length > width ==> i == length,
            cell@ == text@ + repeated(' ', (i - length) as nat),
        decreases width - i,
    {
        cell.append(" ");
        proof {
            reveal_strlit(" ");
        }
        i = i + 1;
        assert(cell@ =~= text@ + repeated(' ', (i - length) as nat));
    }
    assert(cell@ =~= padded(text@, width as nat));
    cell
}

/// Joins texts with a separator between each two.
pub fn join(parts: &Vec<String>, separator: &str) -> (text: String)
    ensures
        text@ == joined(parts.deep_view(), separator@),
{
    let ghost all = parts.deep_view();
    let mut text = String::new();
    let mut i: usize = 0;
    assert(text@ =~= joined(all.take(0), separator@));
    while i < parts.len()
        invariant
            i <= parts.len(),
            all == parts.deep_view(),
            text@ == joined(all.take(i as int), separator@),
        decreases parts.len() - i,
    {
        if i > 0 {
            text.append(separator);
        }
        text.append(parts[i].as_str());
        assert(all.take(i + 1).drop_last() =~= all.take(i as int));
        i = i + 1;
        assert(text@ =~= joined(all.take(i as int), separator@));
    }
    assert(all.take(all.len() as int) =~= all);
    text
}

/// Where `wanted` stands first in `chars`.
fn first_position(chars: &Vec<char>, wanted: char) -> (at: Option<usize>)
    ensures
        match at {
            Some(i) => chars@.index_of_first(wanted) == Some(i as int) && i < chars@.len(),
            None => chars@.index_of_first(wanted) is None,
        },
{
    proof {
        chars@.index_of_first_ensures(wanted);
    }
    let mut i: usize = 0;
    while i < chars.len()
        invariant
            i <= chars.len(),
            forall|j: int| 0 <= j < i ==> chars@[j] != wanted,
            match chars@.index_of_first(wanted) {
                Some(index) => {
                    &&& chars@.contains(wanted)
                    &&& 0 <= index < chars@.len()
                    &&& chars@[index] == wanted
                    &&& forall|j: int| 0 <= j < index < chars@.len() ==> chars@[j] != wanted
                },
                None => { !chars@.contains(wanted) },
            },
        decreases chars.len() - i,
    {
        if chars[i] == wanted {
            assert(chars@.contains(wanted));
            return Some(i);
        }
        i = i + 1;
    }
    None
}

/// Where `wanted` stands last in `chars`.
fn last_position(chars: &Vec<char>, wanted: char) -> (at: Option<usize>)
    ensures
        match at {
            Some(i) => chars@.index_of_last(wanted) == Some(i as int) && i < chars@.len(),
            None => chars@.index_of_last(wanted) is None,
        },
{
    proof {
        chars@.index_of_last_ensures(wanted);
    }
    let mut i: usize = chars.len();
    while i > 0
        invariant
            i <= chars.len(),
            forall|j: int| i <= j < chars.len() ==> chars@[j] != wanted,
            match chars@.index_of_last(wanted) {
                Some(index) => {
                    &&& chars@.contains(wanted)
                    &&& 0 <= index < chars@.len()
                    &&& chars@[index] == wanted
                    &&& forall|j: int| 0 <= index < j < chars@.len() ==> chars@[j] != wanted
                },
                None => { !chars@.contains(wanted) },
            },
        decreases i,
    {
        i = i - 1;
        if chars[i] == wanted {
            assert(chars@.contains(wanted));
            return Some(i);
        }
    }
    None
}

/// Splits a text at the first `separator`.
pub fn split_at_first(text: &str, separator: char) -> (halves: Option<(String, String)>)
    ensures
        halves.deep_view() == cut_at_first(text@, separator),
{
    let chars = chars_of(text);
    let length = chars.len();
    match first_position(&chars, separator) {
        Some(at) => {
            let head = text.substring_char(0, at).to_owned();
            let tail = text.substring_char(at + 1, length).to_owned();
            assert(head@ =~= text@.take(at as int));
            assert(tail@ =~= text@.skip(at + 1));
            Some((head, tail))
        },
        None => None,
    }
}

/// Splits a text at the last `separator`.
pub fn split_at_last(text: &str, separator: char) -> (halves: Option<(String, String)>)
    ensures
        halves.deep_view() == cut_at_last(text@, separator),
{
    let chars = chars_of(text);
    let length = chars.len();
    match last_position(&chars, separator) {
        Some(at) => {
            let head = text.substring_char(0, at).to_owned();
            let tail = text.substring_char(at + 1, length).to_owned();
            assert(head@ =~= text@.take(at as int));
            assert(tail@ =~= text@.skip(at + 1));
            Some((head, tail))
        },
        None => None,
    }
}

/// Splits a text at every `separator`.
pub fn split(text: &str, separator: char) -> (parts: Vec<String>)
    ensures
        parts.deep_view() == pieces(text@, separator),
{
    let chars = chars_of(text);
    let length = chars.len();
    let mut parts: Vec<String> = Vec::new();
    let mut start: usize = 0;
    let mut i: usize = 0;
    assert(text@.subrange(0, 0) =~= Seq::empty());
    assert(text@.take(0) =~= Seq::empty());
    assert(parts.deep_view().push(text@.subrange(0, 0)) =~= pieces(text@.take(0), separator));
    while i < length
        invariant
            start <= i <= length,
            length == chars.len(),
            chars@ == text@,
            parts.deep_view().push(text@.subrange(start as int, i as int)) == pieces(
                text@.take(i as int),
                separator,
            ),
        decreases length - i,
    {
        let ghost done = parts.deep_view();
        assert(text@.take(i + 1).drop_last() =~= text@.take(i as int));
        assert(done.push(text@.subrange(start as int, i as int)).drop_last() =~= done);
        if chars[i] == separator {
            parts.push(text.substring_char(start, i).to_owned());
            start = i + 1;
            assert(text@.subrange(i + 1, i + 1) =~= Seq::empty());
        } else {
            assert(text@.subrange(start as int, i as int).push(chars@[i as int])
                =~= text@.subrange(start as int, i + 1));
        }
        i = i + 1;
        assert(parts.deep_view().push(text@.subrange(start as int, i as int)) =~= pieces(
            text@.take(i as int),
            separator,
        ));
    }
    let ghost done = parts.deep_view();
    parts.push(text.substring_char(start, length).to_owned());
    assert(text@.take(length as int) =~= text@);
    assert(parts.deep_view() =~= done.push(text@.subrange(start as int, length as int)));
    parts
}

/// Whether a character is white space.
pub fn white_space(c: char) -> (answer: bool)
    ensures
        answer == is_white_space(c),
{
    ('\u{9}' <= c && c <= '\u{d}') || c == ' ' || c == '\u{85}' || c == '\u{a0}' || c
        == '\u{1680}' || ('\u{2000}' <= c && c <= '\u{200a}') || c == '\u{2028}' || c
        == '\u{2029}' || c == '\u{202f}' || c == '\u{205f}' || c == '\u{3000}'
}

/// Takes the white space off both ends of a text.
pub fn trim(text: &str) -> (kept: String)
    ensures
        kept@ == trimmed(text@),
{
    let chars = chars_of(text);
    let mut start: usize = 0;
    assert(text@.skip(0) =~= text@);
    while start < chars.len() && white_space(chars[start])
        invariant
            start <= chars.len(),
            chars@ == text@,
            trimmed_start(text@) == trimmed_start(text@.skip(start as int)),
        decreases chars.len() - start,
    {
        assert(text@.skip(start as int).drop_first() =~= text@.skip(start + 1));
        start = start + 1;
    }
    let ghost rest = text@.skip(start as int);
    assert(trimmed_start(text@) == rest);
    let mut end: usize = chars.len();
    assert(text@.subrange(start as int, end as int) =~= rest);
    while start < end && white_space(chars[end - 1])
        invariant
            start <= end <= chars.len(),
            chars@ == text@,
            trimmed_end(rest) == trimmed_end(text@.subrange(start as int, end as int)),
        decreases end,
    {
        assert(text@.subrange(start as int, end as int).drop_last() =~= text@.subrange(
            start as int,
            end - 1,
        ));
        end = end - 1;
    }
    text.substring_char(start, end).to_owned()
}

/// Cuts a text that is too long for a column.
pub fn shorten(text: &str, limit: usize, keep: usize) -> (cell: String)
    requires
        can_be_shortened(text@, limit as nat, keep as nat),
    ensures
        cell@ == shortened(text@, limit as nat, keep as nat),
{
    if text.as_bytes().len() > limit {
        let (head, _) = text.split_at(keep);
        proof {
            vstd::utf8::encode_utf8_decode_utf8(head@);
        }
        let mut cell = head.to_owned();
        cell.append("...");
        cell
    } else {
        text.to_owned()
    }
}

/// Whether a text can be shown in a column where texts of more than `limit` bytes are
/// cut to `keep` bytes.
pub fn fits_column(text: &str, limit: usize, keep: usize) -> (answer: bool)
    ensures
        answer == can_be_shortened(text@, limit as nat, keep as nat),
{
    text.as_bytes().len() <= limit || text.is_char_boundary(keep)
}

/// The digit of value `value`.
fn digit_text(value: u64) -> (text: &'static str)
    requires
        value < 10,
    ensures
        text@ == seq![digit(value as nat)],
{
    proof {
        reveal_strlit("0");
        reveal_strlit("1");
        reveal_strlit("2");
        reveal_strlit("3");
        reveal_strlit("4");
        reveal_strlit("5");
        reveal_strlit("6");
        reveal_strlit("7");
        reveal_strlit("8");
        reveal_strlit("9");
    }
    if value == 0 {
        "0"
    } else if value == 1 {
        "1"
    } else if value == 2 {
        "2"
    } else if value == 3 {
        "3"
    } else if value == 4 {
        "4"
    } else if value == 5 {
        "5"
    } else if value == 6 {
        "6"
    } else if value == 7 {
        "7"
    } else if value == 8 {
        "8"
    } else {
        "9"
    }
}

/// Writes a natural number in decimal.
pub fn write_natural(value: u64) -> (text: String)
    ensures
        text@ == digits(value as nat),
    decreases value,
{
    if value < 10 {
        digit_text(value).to_owned()
    } else {
        let mut text = write_natural(value / 10);
        let ghost leading = text@;
        text.append(digit_text(value % 10));
        assert(text@ =~= leading.push(digit((value % 10) as nat)));
        text
    }
}

/// Writes an integer in decimal.
pub fn write_integer(value: i64) -> (text: String)
    ensures
        text@ == decimal(value as int),
{
    if value == i64::MIN {
        let mut text = "-".to_owned();
        text.append(write_natural(9223372036854775808).as_str());
        text
    } else if value < 0 {
        let mut text = "-".to_owned();
        text.append(write_natural((-value) as u64).as_str());
        text
    } else {
        write_natural(value as u64)
    }
}

/// Whether two texts are the same.
pub fn same_text(a: &str, b: &str) -> (answer: bool)
    ensures
        answer == (a@ == b@),
{
    a.to_owned() == b.to_owned()
}

/// Whether two texts that may be absent are the same.
pub fn same_optional_text(a: &Option<String>, b: &Option<String>) -> (answer: bool)
    ensures
        answer == (a.deep_view() == b.deep_view()),
{
    match (a, b) {
        (None, None) => true,
        (Some(a), Some(b)) => same_text(a.as_str(), b.as_str()),
        _ => false,
    }
}

/// Whether the text `a` does not come after the text `b`.
pub fn text_not_after(a: &str, b: &str) -> (answer: bool)
    ensures
        answer == text_le(a@, b@),
{
    let left = chars_of(a);
    let right = chars_of(b);
    let mut i: usize = 0;
    assert(a@.skip(0) =~= a@);
    assert(b@.skip(0) =~= b@);
    while i < left.len() && i < right.len()
        invariant
            i <= left.len(),
            i <= right.len(),
            left@ == a@,
            right@ == b@,
            text_le(a@, b@) == text_le(a@.skip(i as int), b@.skip(i as int)),
        decreases left.len() - i,
    {
        if left[i] != right[i] {
            return left[i] < right[i];
        }
        assert(a@.skip(i as int).drop_first() =~= a@.skip(i + 1));
        assert(b@.skip(i as int).drop_first() =~= b@.skip(i + 1));
        i = i + 1;
    }
    i == left.len()
}

/// Whether the text `a`, which may be absent, does not come after `b`.
pub fn optional_text_not_after(a: &Option<String>, b: &Option<String>) -> (answer: bool)
    ensures
        answer == optional_text_le(a.deep_view(), b.deep_view()),
{
    match (a, b) {
        (None, _) => true,
        (Some(_), None) => false,
        (Some(a), Some(b)) => text_not_after(a.as_str(), b.as_str()),
    }
}

} // verus!
