//! The `SELECTOR:FIELD` arguments that say what to extract.

use crate::text::{cut_at_last, split_at_last};
use vstd::prelude::*;

verus! {

/// What one `SELECTOR:FIELD` argument asks for: the selector and the field name, where the
/// argument has both. The field name stands behind the last colon, so that the colons of a
/// pseudo-class such as `a:first-child` stay with the selector.
pub open spec fn selector_pair(argument: Seq<char>) -> Option<(Seq<char>, Seq<char>)> {
    match cut_at_last(argument, ':') {
        Some((css, field)) => if css.len() > 0 && field.len() > 0 {
            Some((css, field))
        } else {
            None
        },
        None => None,
    }
}

/// What the arguments ask for, in order, or the first one that does not ask for anything.
pub open spec fn selectors_parsed(arguments: Seq<Seq<char>>) -> Result<
    Seq<(Seq<char>, Seq<char>)>,
    Seq<char>,
>
    decreases arguments.len(),
{
    if arguments.len() == 0 {
        Ok(Seq::empty())
    } else {
        match selectors_parsed(arguments.drop_last()) {
            Err(argument) => Err(argument),
            Ok(pairs) => match selector_pair(arguments.last()) {
                Some(pair) => Ok(pairs.push(pair)),
                None => Err(arguments.last()),
            },
        }
    }
}

/// What the result of parsing holds.
pub open spec fn parsed_view(parsed: Result<Vec<(String, String)>, String>) -> Result<
    Seq<(Seq<char>, Seq<char>)>,
    Seq<char>,
> {
    match parsed {
        Ok(pairs) => Ok(pairs.deep_view()),
        Err(argument) => Err(argument@),
    }
}

/// Parses `SELECTOR:FIELD` arguments into pairs of a selector and a field name. The error is
/// the first argument that is not of this form, with something on either side of the colon.
pub fn parse_selectors(select_args: &[String]) -> (pairs: Result<Vec<(String, String)>, String>)
    ensures
        parsed_view(pairs) == selectors_parsed(select_args.deep_view()),
{
    let ghost arguments = select_args.deep_view();
    let mut pairs: Vec<(String, String)> = Vec::new();
    let mut i: usize = 0;
    assert(pairs.deep_view() =~= Seq::empty());
    while i < select_args.len()
        invariant
            i <= select_args.len(),
            arguments == select_args.deep_view(),
            selectors_parsed(arguments.take(i as int)) == Ok::<
                Seq<(Seq<char>, Seq<char>)>,
                Seq<char>,
            >(pairs.deep_view()),
        decreases select_args.len() - i,
    {
        assert(arguments.take(i + 1).drop_last() =~= arguments.take(i as int));
        assert(arguments.take(i + 1).last() == arguments[i as int]);
        match split_at_last(select_args[i].as_str(), ':') {
            Some((css, field)) => {
                if css.as_str().is_empty() || field.as_str().is_empty() {
                    proof {
                        first_failure_stays(arguments, i + 1);
                    }
                    return Err(select_args[i].clone());
                }
                let ghost before = pairs.deep_view();
                pairs.push((css, field));
                assert(pairs.deep_view() =~= before.push((css@, field@)));
            },
            None => {
                proof {
                    first_failure_stays(arguments, i + 1);
                }
                return Err(select_args[i].clone());
            },
        }
        i = i + 1;
    }
    assert(arguments.take(i as int) =~= arguments);
    Ok(pairs)
}

/// Where some of the arguments fail, all of them fail in the same way.
proof fn first_failure_stays(arguments: Seq<Seq<char>>, count: int)
    requires
        0 <= count <= arguments.len(),
        selectors_parsed(arguments.take(count)) is Err,
    ensures
        selectors_parsed(arguments) == selectors_parsed(arguments.take(count)),
    decreases arguments.len(),
{
    if count < arguments.len() {
        assert(arguments.drop_last().take(count) =~= arguments.take(count));
        first_failure_stays(arguments.drop_last(), count);
    } else {
        assert(arguments.take(count) =~= arguments);
    }
}

/// Parsing succeeds exactly where every argument asks for something, and gives what each of
/// them asks for.
pub proof fn parsed_one_by_one(arguments: Seq<Seq<char>>)
    ensures
        selectors_parsed(arguments) is Ok <==> forall|i: int|
            0 <= i < arguments.len() ==> selector_pair(#[trigger] arguments[i]) is Some,
        selectors_parsed(arguments) matches Ok(pairs) ==> {
            &&& pairs.len() == arguments.len()
            &&& forall|i: int|
                0 <= i < pairs.len() ==> selector_pair(arguments[i]) == Some(#[trigger] pairs[i])
        },
    decreases arguments.len(),
{
    if arguments.len() > 0 {
        let front = arguments.drop_last();
        parsed_one_by_one(front);
        if selectors_parsed(arguments) is Ok {
            assert forall|i: int| 0 <= i < arguments.len() implies selector_pair(
                #[trigger] arguments[i],
            ) is Some by {
                if i < front.len() {
                    assert(selector_pair(front[i]) is Some);
                }
            }
        }
        if forall|i: int|
            0 <= i < arguments.len() ==> selector_pair(#[trigger] arguments[i]) is Some {
            assert forall|i: int| 0 <= i < front.len() implies selector_pair(
                #[trigger] front[i],
            ) is Some by {
                assert(selector_pair(arguments[i]) is Some);
            }
            assert(selector_pair(arguments[arguments.len() - 1]) is Some);
        }
    }
}

/// Whether the arguments before number `i` all ask for something and number `i` does not.
pub open spec fn first_invalid(arguments: Seq<Seq<char>>, i: int) -> bool {
    &&& 0 <= i < arguments.len()
    &&& selector_pair(arguments[i]) is None
    &&& forall|j: int| 0 <= j < i ==> selector_pair(#[trigger] arguments[j]) is Some
}

/// Where parsing fails, the error is the first argument that does not ask for anything.
pub proof fn first_invalid_is_reported(arguments: Seq<Seq<char>>)
    requires
        selectors_parsed(arguments) is Err,
    ensures
        exists|i: int|
            #[trigger] first_invalid(arguments, i) && selectors_parsed(arguments) == Err::<
                Seq<(Seq<char>, Seq<char>)>,
                Seq<char>,
            >(arguments[i]),
    decreases arguments.len(),
{
    let front = arguments.drop_last();
    if selectors_parsed(front) is Err {
        first_invalid_is_reported(front);
        let i = choose|i: int|
            #[trigger] first_invalid(front, i) && selectors_parsed(front) == Err::<
                Seq<(Seq<char>, Seq<char>)>,
                Seq<char>,
            >(front[i]);
        assert forall|j: int| 0 <= j < i implies selector_pair(
            #[trigger] arguments[j],
        ) is Some by {
            assert(selector_pair(front[j]) is Some);
        }
        assert(first_invalid(arguments, i));
    } else {
        parsed_one_by_one(front);
        let last = arguments.len() - 1;
        assert forall|j: int| 0 <= j < last implies selector_pair(
            #[trigger] arguments[j],
        ) is Some by {
            assert(selector_pair(front[j]) is Some);
        }
        assert(first_invalid(arguments, last));
    }
}

/// An argument is taken apart at its last colon: what is behind it holds no colon, and the two
/// parts with a colon between them are the argument.
pub proof fn split_at_the_last_colon(argument: Seq<char>)
    ensures
        selector_pair(argument) matches Some((css, field)) ==> {
            &&& argument == css.push(':') + field
            &&& !field.contains(':')
        },
{
    if let Some((css, field)) = selector_pair(argument) {
        argument.index_of_last_ensures(':');
        let at = argument.index_of_last(':')->0;
        assert(argument =~= css.push(':') + field);
        if field.contains(':') {
            let k = choose|k: int| 0 <= k < field.len() && field[k] == ':';
            assert(argument[at + 1 + k] == ':');
        }
    }
}

/// An argument that is made of a selector, a colon and a field name without a colon asks for
/// that selector and that field name.
pub proof fn joined_pair_is_parsed(css: Seq<char>, field: Seq<char>)
    requires
        css.len() > 0,
        field.len() > 0,
        !field.contains(':'),
    ensures
        selector_pair(css.push(':') + field) == Some((css, field)),
{
    let argument = css.push(':') + field;
    assert(argument[css.len() as int] == ':');
    assert(argument.contains(':'));
    argument.index_of_last_ensures(':');
    let at = argument.index_of_last(':')->0;
    if at > css.len() {
        assert(field[at - css.len() - 1] == ':');
    }
    assert(at == css.len());
    assert(argument.take(at) =~= css);
    assert(argument.skip(at + 1) =~= field);
}

/// Joining a selector and a field name with a colon.
pub open spec fn joining_with_a_colon() -> spec_fn((Seq<char>, Seq<char>)) -> Seq<char> {
    |pair: (Seq<char>, Seq<char>)| pair.0.push(':') + pair.1
}

/// Parsing undoes joining with a colon: pairs of a selector and a field name without a colon are
/// given back, in order.
pub proof fn parsing_undoes_joining(pairs: Seq<(Seq<char>, Seq<char>)>)
    requires
        forall|i: int|
            0 <= i < pairs.len() ==> (#[trigger] pairs[i]).0.len() > 0 && pairs[i].1.len() > 0
                && !pairs[i].1.contains(':'),
    ensures
        selectors_parsed(pairs.map_values(joining_with_a_colon())) == Ok::<
            Seq<(Seq<char>, Seq<char>)>,
            Seq<char>,
        >(pairs),
    decreases pairs.len(),
{
    let arguments = pairs.map_values(joining_with_a_colon());
    if pairs.len() > 0 {
        let front = pairs.drop_last();
        assert forall|i: int| 0 <= i < front.len() implies (#[trigger] front[i]).0.len() > 0
            && front[i].1.len() > 0 && !front[i].1.contains(':') by {
            assert(pairs[i] == front[i]);
        }
        parsing_undoes_joining(front);
        assert(arguments.drop_last() =~= front.map_values(joining_with_a_colon()));
        assert(pairs[pairs.len() - 1] == pairs.last());
        joined_pair_is_parsed(pairs.last().0, pairs.last().1);
        assert(front.push(pairs.last()) =~= pairs);
    } else {
        assert(pairs =~= Seq::empty());
    }
}

/// Parsing two lists of arguments in a row: the pairs of the one and then those of the other, or
/// what the first list that fails gives.
pub proof fn parsing_in_two_parts(first: Seq<Seq<char>>, second: Seq<Seq<char>>)
    ensures
        selectors_parsed(first + second) == match selectors_parsed(first) {
            Err(argument) => Err(argument),
            Ok(pairs) => match selectors_parsed(second) {
                Err(argument) => Err(argument),
                Ok(more) => Ok(pairs + more),
            },
        },
    decreases second.len(),
{
    if second.len() == 0 {
        assert(first + second =~= first);
        if let Ok(pairs) = selectors_parsed(first) {
            assert(pairs + Seq::<(Seq<char>, Seq<char>)>::empty() =~= pairs);
        }
    } else {
        parsing_in_two_parts(first, second.drop_last());
        assert((first + second).drop_last() =~= first + second.drop_last());
        if let (Ok(pairs), Ok(more)) = (
            selectors_parsed(first),
            selectors_parsed(second.drop_last()),
        ) {
            if let Some(pair) = selector_pair(second.last()) {
                assert((pairs + more).push(pair) =~= pairs + more.push(pair));
            }
        }
    }
}

/// What an argument asks for has both a selector and a field name.
pub proof fn a_pair_has_both_parts(argument: Seq<char>)
    ensures
        selector_pair(argument) matches Some((css, field)) ==> css.len() > 0 && field.len() > 0,
        selector_pair(argument) is None ==> !argument.contains(':') || argument.first() == ':'
            && !argument.skip(1).contains(':') || argument.last() == ':',
{
    argument.index_of_last_ensures(':');
    if selector_pair(argument) is None && argument.contains(':') {
        let at = argument.index_of_last(':')->0;
        if at == 0 {
            assert forall|k: int| 0 <= k < argument.skip(1).len() implies argument.skip(1)[k]
                != ':' by {
                assert(argument.skip(1)[k] == argument[k + 1]);
            }
        } else {
            assert(argument.skip(at + 1).len() == 0);
            assert(argument.last() == argument[at]);
        }
    }
}

} // verus!
