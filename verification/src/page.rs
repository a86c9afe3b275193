//! Extracting named fields from an HTML page by CSS selectors.

use crate::text::{
    byte_count, is_white_space, join, joined, trim, trimmed, trimmed_has_no_space_around,
};
use vstd::prelude::*;

verus! {

/// The parsed document of the `scraper` crate.
#[verifier::external_type_specification]
#[verifier::external_body]
pub struct ExHtml(scraper::Html);

/// What a document holds: for each CSS selector, the elements that match it, in the order in
/// which they were added to the document, each as the texts inside it.
pub uninterp spec fn document_elements(document: scraper::Html) -> Map<Seq<char>, Seq<Seq<Seq<char>>>>;

/// What the document holds that `scraper::Html::parse_document` makes of an HTML page.
pub uninterp spec fn page_elements(page: Seq<char>) -> Map<Seq<char>, Seq<Seq<Seq<char>>>>;

/// What `scraper::Selector::parse` says is wrong with a CSS selector: nothing, if it is valid.
pub uninterp spec fn selector_fault(css: Seq<char>) -> Option<Seq<char>>;

/// Whether a page can be parsed. The parser keeps text in buffers that it grows to at most 2^31
/// bytes, and a character of the page can take three times its bytes there.
pub open spec fn page_fits(page: Seq<char>) -> bool {
    byte_count(page) * 3 <= 0x8000_0000
}

/// Whether a page can be parsed.
pub fn can_be_parsed(page: &str) -> (answer: bool)
    ensures
        answer == page_fits(page@),
{
    page.as_bytes().len() <= 715_827_882
}

/// Parses an HTML page: `scraper::Html::parse_document`.
///
/// What is claimed is that the contents of the document depend on the page alone. On a page so
/// large that one of its buffers overflows it panics, so a page has to fit.
#[verifier::external_body]
pub(crate) fn parse_document(page: &str) -> (document: scraper::Html)
    requires
        page_fits(page@),
    ensures
        document_elements(document) == page_elements(page@),
{
    scraper::Html::parse_document(page)
}

/// The texts inside the first element that matches a CSS selector: `scraper::Selector::parse`,
/// and the first element that `scraper::Html::select` gives, with its
/// `scraper::ElementRef::text`.
///
/// What is claimed is that the selector is refused exactly where `scraper::Selector::parse`
/// finds a fault in it, with that fault, and that otherwise the first of the matching elements
/// is handed back, where there is one.
#[verifier::external_body]
fn select_first(document: &scraper::Html, css: &str) -> (found: Result<Option<Vec<String>>, String>)
    ensures
        match found {
            Err(fault) => selector_fault(css@) == Some(fault@),
            Ok(found) => {
                &&& selector_fault(css@) is None
                &&& found is Some <==> document_elements(*document)[css@].len() > 0
                &&& found matches Some(texts) ==> texts.deep_view() == document_elements(
                    *document,
                )[css@][0]
            },
        },
{
    match scraper::Selector::parse(css) {
        Err(fault) => Err(fault.to_string()),
        Ok(selector) => Ok(
            document.select(&selector).next().map(
                |element| element.text().map(|text| text.to_string()).collect(),
            ),
        ),
    }
}

/// What a selector gives on a page.
#[derive(Debug)]
pub enum Lookup {
    /// The selector is not valid, for this reason.
    Invalid(String),
    /// No element matches.
    Missing,
    /// The texts inside the first element that matches.
    Found(Vec<String>),
}

/// What a [`Lookup`] holds.
#[verifier::ext_equal]
pub enum LookupView {
    Invalid(Seq<char>),
    Missing,
    Found(Seq<Seq<char>>),
}

impl DeepView for Lookup {
    type V = LookupView;

    open spec fn deep_view(&self) -> LookupView {
        match self {
            Lookup::Invalid(fault) => LookupView::Invalid(fault.deep_view()),
            Lookup::Missing => LookupView::Missing,
            Lookup::Found(texts) => LookupView::Found(texts.deep_view()),
        }
    }
}

/// What a selector gives on a page that holds `elements`.
pub open spec fn lookup_of(
    elements: Map<Seq<char>, Seq<Seq<Seq<char>>>>,
    css: Seq<char>,
) -> LookupView {
    match selector_fault(css) {
        Some(fault) => LookupView::Invalid(fault),
        None => if elements[css].len() > 0 {
            LookupView::Found(elements[css][0])
        } else {
            LookupView::Missing
        },
    }
}

/// What the selectors give on a page that holds `elements`, one by one.
pub open spec fn lookups_of(
    elements: Map<Seq<char>, Seq<Seq<Seq<char>>>>,
    selectors: Seq<(Seq<char>, Seq<char>)>,
) -> Seq<LookupView> {
    selectors.map_values(|pair: (Seq<char>, Seq<char>)| lookup_of(elements, pair.0))
}

/// The value of a field: the texts of an element with a space between each two, without the
/// white space at either end.
pub open spec fn value_of(texts: Seq<Seq<char>>) -> Seq<char> {
    trimmed(joined(texts, " "@))
}

/// The fields that the selectors, each with the name of its field, give, in order. A field
/// without text is left out.
pub open spec fn fields_of(
    selectors: Seq<(Seq<char>, Seq<char>)>,
    lookups: Seq<LookupView>,
) -> Seq<(Seq<char>, Seq<char>)>
    decreases selectors.len(),
{
    if selectors.len() == 0 {
        Seq::empty()
    } else {
        let before = fields_of(selectors.drop_last(), lookups);
        match lookups[selectors.len() - 1] {
            LookupView::Found(texts) => if value_of(texts).len() > 0 {
                before.push((selectors.last().1, value_of(texts)))
            } else {
                before
            },
            _ => before,
        }
    }
}

/// The warning about a selector that is not valid.
pub open spec fn selector_warning(css: Seq<char>, fault: Seq<char>) -> Seq<char> {
    "Warning: invalid CSS selector '"@ + css + "': "@ + fault
}

/// The warnings about the selectors that are not valid, in order.
pub open spec fn warnings_of(
    selectors: Seq<(Seq<char>, Seq<char>)>,
    lookups: Seq<LookupView>,
) -> Seq<Seq<char>>
    decreases selectors.len(),
{
    if selectors.len() == 0 {
        Seq::empty()
    } else {
        let before = warnings_of(selectors.drop_last(), lookups);
        match lookups[selectors.len() - 1] {
            LookupView::Invalid(fault) => before.push(
                selector_warning(selectors.last().0, fault),
            ),
            _ => before,
        }
    }
}

/// The fields that were extracted from a page, and the warnings to be given.
#[derive(Debug)]
pub struct Extraction {
    pub fields: Vec<(String, String)>,
    pub warnings: Vec<String>,
}

/// Looks up a selector on a page.
fn look_up(document: &scraper::Html, css: &str) -> (lookup: Lookup)
    ensures
        lookup.deep_view() == lookup_of(document_elements(*document), css@),
{
    match select_first(document, css) {
        Err(fault) => Lookup::Invalid(fault),
        Ok(Some(texts)) => Lookup::Found(texts),
        Ok(None) => Lookup::Missing,
    }
}

/// Makes fields of what the selectors, each with the name of its field, gave.
pub fn collect_fields(selectors: &[(String, String)], lookups: &Vec<Lookup>) -> (extraction:
    Extraction)
    requires
        lookups@.len() == selectors@.len(),
    ensures
        extraction.fields.deep_view() == fields_of(selectors.deep_view(), lookups.deep_view()),
        extraction.warnings.deep_view() == warnings_of(selectors.deep_view(), lookups.deep_view()),
{
    let ghost pairs = selectors.deep_view();
    let ghost given = lookups.deep_view();
    let mut fields: Vec<(String, String)> = Vec::new();
    let mut warnings: Vec<String> = Vec::new();
    let mut i: usize = 0;
    assert(fields.deep_view() =~= fields_of(pairs.take(0), given));
    assert(warnings.deep_view() =~= warnings_of(pairs.take(0), given));
    while i < selectors.len()
        invariant
            i <= selectors.len(),
            lookups@.len() == selectors@.len(),
            pairs == selectors.deep_view(),
            given == lookups.deep_view(),
            fields.deep_view() == fields_of(pairs.take(i as int), given),
            warnings.deep_view() == warnings_of(pairs.take(i as int), given),
        decreases selectors.len() - i,
    {
        let ghost fields_before = fields.deep_view();
        let ghost warnings_before = warnings.deep_view();
        assert(pairs.take(i + 1).drop_last() =~= pairs.take(i as int));
        assert(lookups[i as int].deep_view() == given[i as int]);
        assert(selectors[i as int].deep_view() == pairs[i as int]);
        let (css, name) = &selectors[i];
        match &lookups[i] {
            Lookup::Invalid(fault) => {
                let mut warning = "Warning: invalid CSS selector '".to_owned();
                warning.append(css.as_str());
                warning.append("': ");
                warning.append(fault.as_str());
                let ghost warning_view = warning@;
                warnings.push(warning);
                assert(warnings.deep_view() =~= warnings_before.push(warning_view));
            },
            Lookup::Missing => {},
            Lookup::Found(texts) => {
                let value = trim(join(texts, " ").as_str());
                if !value.as_str().is_empty() {
                    let ghost field = (name@, value@);
                    fields.push((name.clone(), value));
                    assert(fields.deep_view() =~= fields_before.push(field));
                }
            },
        }
        i = i + 1;
    }
    assert(pairs.take(i as int) =~= pairs);
    Extraction { fields, warnings }
}

/// Extracts named fields from a document by CSS selectors, each given with the name of its
/// field. The value of a field is the text of the first element that matches, without the white
/// space around it. Fields without text are left out. Selectors that are not valid are passed
/// over with a warning.
pub fn extract(document: &scraper::Html, selectors: &[(String, String)]) -> (extraction: Extraction)
    ensures
        extraction.fields.deep_view() == fields_of(
            selectors.deep_view(),
            lookups_of(document_elements(*document), selectors.deep_view()),
        ),
        extraction.warnings.deep_view() == warnings_of(
            selectors.deep_view(),
            lookups_of(document_elements(*document), selectors.deep_view()),
        ),
{
    let ghost pairs = selectors.deep_view();
    let ghost expected = lookups_of(document_elements(*document), pairs);
    let mut lookups: Vec<Lookup> = Vec::new();
    let mut i: usize = 0;
    while i < selectors.len()
        invariant
            i <= selectors.len(),
            pairs == selectors.deep_view(),
            expected == lookups_of(document_elements(*document), pairs),
            lookups.deep_view() =~= expected.take(i as int),
        decreases selectors.len() - i,
    {
        let ghost before = lookups.deep_view();
        assert(selectors[i as int].deep_view() == pairs[i as int]);
        let lookup = look_up(document, selectors[i].0.as_str());
        let ghost lookup_view = lookup.deep_view();
        lookups.push(lookup);
        assert(lookups.deep_view() =~= before.push(lookup_view));
        i = i + 1;
    }
    assert(lookups.deep_view() =~= expected);
    collect_fields(selectors, &lookups)
}

/// Every field has the name that some selector was given with, and a value that is neither
/// empty nor has white space around it.
pub proof fn values_are_trimmed(selectors: Seq<(Seq<char>, Seq<char>)>, lookups: Seq<LookupView>)
    ensures
        forall|i: int|
            0 <= i < fields_of(selectors, lookups).len() ==> {
                let (name, value) = #[trigger] fields_of(selectors, lookups)[i];
                &&& exists|k: int| 0 <= k < selectors.len() && (#[trigger] selectors[k]).1 == name
                &&& value.len() > 0
                &&& !is_white_space(value.first())
                &&& !is_white_space(value.last())
            },
    decreases selectors.len(),
{
    if selectors.len() > 0 {
        let front = selectors.drop_last();
        let before = fields_of(front, lookups);
        let all = fields_of(selectors, lookups);
        values_are_trimmed(front, lookups);
        assert forall|i: int| 0 <= i < all.len() implies {
            let (name, value) = #[trigger] all[i];
            &&& exists|k: int| 0 <= k < selectors.len() && (#[trigger] selectors[k]).1 == name
            &&& value.len() > 0
            &&& !is_white_space(value.first())
            &&& !is_white_space(value.last())
        } by {
            if i < before.len() {
                assert(all[i] == before[i]);
                let k = choose|k: int|
                    0 <= k < front.len() && (#[trigger] front[k]).1 == before[i].0;
                assert(selectors[k].1 == all[i].0);
            } else {
                let texts = lookups[selectors.len() - 1]->Found_0;
                trimmed_has_no_space_around(joined(texts, " "@));
                assert(selectors[selectors.len() - 1].1 == all[i].0);
            }
        }
    }
}

/// Lookups behind those of the selectors do not matter.
proof fn lookups_beyond(
    selectors: Seq<(Seq<char>, Seq<char>)>,
    lookups: Seq<LookupView>,
    more: Seq<LookupView>,
)
    requires
        selectors.len() <= lookups.len(),
    ensures
        fields_of(selectors, lookups + more) == fields_of(selectors, lookups),
        warnings_of(selectors, lookups + more) == warnings_of(selectors, lookups),
    decreases selectors.len(),
{
    if selectors.len() > 0 {
        lookups_beyond(selectors.drop_last(), lookups, more);
    }
}

/// What some selectors and then others give is what the first ones give and then what the
/// others give: no selector has a say in what another one gives.
pub proof fn selectors_are_independent(
    first: Seq<(Seq<char>, Seq<char>)>,
    first_lookups: Seq<LookupView>,
    second: Seq<(Seq<char>, Seq<char>)>,
    second_lookups: Seq<LookupView>,
)
    requires
        first.len() == first_lookups.len(),
        second.len() == second_lookups.len(),
    ensures
        fields_of(first + second, first_lookups + second_lookups) == fields_of(
            first,
            first_lookups,
        ) + fields_of(second, second_lookups),
        warnings_of(first + second, first_lookups + second_lookups) == warnings_of(
            first,
            first_lookups,
        ) + warnings_of(second, second_lookups),
    decreases second.len(),
{
    if second.len() == 0 {
        assert(first + second =~= first);
        assert(first_lookups + second_lookups =~= first_lookups);
        assert(fields_of(first, first_lookups) + Seq::<(Seq<char>, Seq<char>)>::empty()
            =~= fields_of(first, first_lookups));
        assert(warnings_of(first, first_lookups) + Seq::<Seq<char>>::empty() =~= warnings_of(
            first,
            first_lookups,
        ));
    } else {
        let front = second.drop_last();
        let front_lookups = second_lookups.drop_last();
        let last_lookup = seq![second_lookups.last()];
        selectors_are_independent(first, first_lookups, front, front_lookups);
        assert((first + second).drop_last() =~= first + front);
        assert(first_lookups + second_lookups =~= (first_lookups + front_lookups) + last_lookup);
        assert(second_lookups =~= front_lookups + last_lookup);
        lookups_beyond(first + front, first_lookups + front_lookups, last_lookup);
        lookups_beyond(front, front_lookups, last_lookup);
        assert(fields_of(first + second, first_lookups + second_lookups) =~= fields_of(
            first,
            first_lookups,
        ) + fields_of(second, second_lookups));
        assert(warnings_of(first + second, first_lookups + second_lookups) =~= warnings_of(
            first,
            first_lookups,
        ) + warnings_of(second, second_lookups));
    }
}

/// A selector that is not valid gives a warning and no field. One that matches nothing gives
/// neither.
pub proof fn skipped_selectors_give_no_field(css: Seq<char>, name: Seq<char>, fault: Seq<char>)
    ensures
        fields_of(seq![(css, name)], seq![LookupView::Invalid(fault)]) == Seq::<
            (Seq<char>, Seq<char>),
        >::empty(),
        warnings_of(seq![(css, name)], seq![LookupView::Invalid(fault)]) == seq![
            selector_warning(css, fault),
        ],
        fields_of(seq![(css, name)], seq![LookupView::Missing]) == Seq::<
            (Seq<char>, Seq<char>),
        >::empty(),
        warnings_of(seq![(css, name)], seq![LookupView::Missing]) == Seq::<Seq<char>>::empty(),
{
    let one = seq![(css, name)];
    assert(one.drop_last() =~= Seq::empty());
    assert(warnings_of(one.drop_last(), seq![LookupView::Invalid(fault)]) =~= Seq::empty());
    assert(warnings_of(one, seq![LookupView::Invalid(fault)]) =~= seq![
        selector_warning(css, fault),
    ]);
    assert(fields_of(one.drop_last(), seq![LookupView::Invalid(fault)]) =~= Seq::empty());
    assert(fields_of(one.drop_last(), seq![LookupView::Missing]) =~= Seq::empty());
    assert(warnings_of(one.drop_last(), seq![LookupView::Missing]) =~= Seq::empty());
}

} // verus!
