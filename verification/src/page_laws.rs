//! What each selector gives on a page.

use crate::page::{
    fields_of, lookups_of, page_fits, selector_fault, selectors_are_independent,
    skipped_selectors_give_no_field, warnings_of, LookupView,
};
use crate::text::{byte_count, joined, trimmed};
use vstd::prelude::*;

verus! {

/// An element with text gives one field, with the name that was asked for and all its texts,
/// however many it has: they are joined by spaces and trimmed. An element without text gives
/// none. Neither gives a warning.
pub proof fn an_element_gives_its_text(css: Seq<char>, name: Seq<char>, texts: Seq<Seq<char>>)
    ensures
        trimmed(joined(texts, seq![' '])).len() > 0 ==> fields_of(
            seq![(css, name)],
            seq![LookupView::Found(texts)],
        ) == seq![(name, trimmed(joined(texts, seq![' '])))],
        trimmed(joined(texts, seq![' '])).len() == 0 ==> fields_of(
            seq![(css, name)],
            seq![LookupView::Found(texts)],
        ) == Seq::<(Seq<char>, Seq<char>)>::empty(),
        warnings_of(seq![(css, name)], seq![LookupView::Found(texts)]) == Seq::<Seq<char>>::empty(),
{
    reveal_strlit(" ");
    assert(" "@ =~= seq![' ']);
    let one = seq![(css, name)];
    let lookups = seq![LookupView::Found(texts)];
    assert(one.drop_last() =~= Seq::empty());
    assert(fields_of(one.drop_last(), lookups) =~= Seq::empty());
    assert(warnings_of(one.drop_last(), lookups) =~= Seq::empty());
    if trimmed(joined(texts, seq![' '])).len() > 0 {
        assert(fields_of(one, lookups) =~= seq![(name, trimmed(joined(texts, seq![' '])))]);
    }
}

/// A selector with a fault gives no field, and a warning that names the selector and the fault.
pub proof fn a_fault_is_warned_of(css: Seq<char>, name: Seq<char>, fault: Seq<char>)
    ensures
        fields_of(seq![(css, name)], seq![LookupView::Invalid(fault)]) == Seq::<
            (Seq<char>, Seq<char>),
        >::empty(),
        warnings_of(seq![(css, name)], seq![LookupView::Invalid(fault)]) == seq![
            "Warning: invalid CSS selector '"@ + css + "': "@ + fault,
        ],
{
    let one = seq![(css, name)];
    let lookups = seq![LookupView::Invalid(fault)];
    assert(one.drop_last() =~= Seq::empty());
    assert(fields_of(one.drop_last(), lookups) =~= Seq::empty());
    assert(warnings_of(one.drop_last(), lookups) =~= Seq::empty());
    assert(warnings_of(one, lookups) =~= seq![
        "Warning: invalid CSS selector '"@ + css + "': "@ + fault,
    ]);
}

/// Each selector is looked up by itself: one with a fault gives the fault, another the texts of
/// the first element that matches, where there is one.
pub proof fn each_selector_is_looked_up(
    elements: Map<Seq<char>, Seq<Seq<Seq<char>>>>,
    selectors: Seq<(Seq<char>, Seq<char>)>,
    i: int,
)
    requires
        0 <= i < selectors.len(),
    ensures
        lookups_of(elements, selectors).len() == selectors.len(),
        ({
            let css = selectors[i].0;
            let lookup = lookups_of(elements, selectors)[i];
            &&& selector_fault(css) matches Some(fault) ==> lookup == LookupView::Invalid(fault)
            &&& selector_fault(css) is None && elements[css].len() == 0 ==> lookup
                == LookupView::Missing
            &&& selector_fault(css) is None && elements[css].len() > 0 ==> lookup
                == LookupView::Found(elements[css][0])
        }),
{
}

/// The fields that selectors give on a page that holds `elements`.
pub open spec fn page_fields(
    elements: Map<Seq<char>, Seq<Seq<Seq<char>>>>,
    selectors: Seq<(Seq<char>, Seq<char>)>,
) -> Seq<(Seq<char>, Seq<char>)> {
    fields_of(selectors, lookups_of(elements, selectors))
}

/// The warnings that selectors give on a page that holds `elements`.
pub open spec fn page_warnings(
    elements: Map<Seq<char>, Seq<Seq<Seq<char>>>>,
    selectors: Seq<(Seq<char>, Seq<char>)>,
) -> Seq<Seq<char>> {
    warnings_of(selectors, lookups_of(elements, selectors))
}

/// No selectors give nothing.
pub proof fn no_selectors_give_nothing(elements: Map<Seq<char>, Seq<Seq<Seq<char>>>>)
    ensures
        page_fields(elements, Seq::empty()) == Seq::<(Seq<char>, Seq<char>)>::empty(),
        page_warnings(elements, Seq::empty()) == Seq::<Seq<char>>::empty(),
{
}

/// One more selector, behind others on the same page, leaves what they give as it is. Where it is
/// valid and its first match has text, it adds exactly one field, with its name and that whole
/// text; where it has a fault, it adds a warning; otherwise it adds nothing.
pub proof fn one_more_selector(
    elements: Map<Seq<char>, Seq<Seq<Seq<char>>>>,
    selectors: Seq<(Seq<char>, Seq<char>)>,
    css: Seq<char>,
    name: Seq<char>,
)
    ensures
        ({
            let all = selectors.push((css, name));
            let text = trimmed(joined(elements[css][0], seq![' ']));
            let has_text = selector_fault(css) is None && elements[css].len() > 0 && text.len() > 0;
            &&& has_text ==> page_fields(elements, all) == page_fields(elements, selectors).push(
                (name, text),
            )
            &&& !has_text ==> page_fields(elements, all) == page_fields(elements, selectors)
            &&& selector_fault(css) matches Some(fault) ==> page_warnings(elements, all)
                == page_warnings(elements, selectors).push(
                "Warning: invalid CSS selector '"@ + css + "': "@ + fault,
            )
            &&& selector_fault(css) is None ==> page_warnings(elements, all) == page_warnings(
                elements,
                selectors,
            )
        }),
{
    let one = seq![(css, name)];
    let all = selectors.push((css, name));
    let lookups = lookups_of(elements, selectors);
    let lookup = lookups_of(elements, one);
    assert(all =~= selectors + one);
    assert(lookups_of(elements, all) =~= lookups + lookup);
    selectors_are_independent(selectors, lookups, one, lookup);
    each_selector_is_looked_up(elements, one, 0);
    let fields = fields_of(selectors, lookups);
    let warnings = warnings_of(selectors, lookups);
    assert(fields + Seq::<(Seq<char>, Seq<char>)>::empty() =~= fields);
    assert(warnings + Seq::<Seq<char>>::empty() =~= warnings);
    if let Some(fault) = selector_fault(css) {
        assert(lookup =~= seq![LookupView::Invalid(fault)]);
        a_fault_is_warned_of(css, name, fault);
        let warning = "Warning: invalid CSS selector '"@ + css + "': "@ + fault;
        assert(warnings + seq![warning] =~= warnings.push(warning));
    } else if elements[css].len() > 0 {
        assert(lookup =~= seq![LookupView::Found(elements[css][0])]);
        an_element_gives_its_text(css, name, elements[css][0]);
        let text = trimmed(joined(elements[css][0], seq![' ']));
        assert(fields + seq![(name, text)] =~= fields.push((name, text)));
    } else {
        assert(lookup =~= seq![LookupView::Missing]);
        skipped_selectors_give_no_field(css, name, css);
    }
}

/// A page can be parsed where three times its bytes are no more than 2^31.
pub proof fn pages_that_can_be_parsed(page: Seq<char>)
    ensures
        page_fits(page) <==> byte_count(page) <= 715_827_882,
{
}

} // verus!
