//! The trusted layer over `scraper` for reading an anchor's `href` out of one
//! line of HTML.

use vstd::prelude::*;

verus! {

/// The `href` attribute of the first anchor element of an HTML fragment, when
/// the fragment parses to a tree holding such an anchor: a function of the
/// fragment text alone.
pub uninterp spec fn first_href_of(s: Seq<char>) -> Option<Seq<char>>;

/// Reads the `href` of the first anchor of an HTML fragment.
///
/// Relies on `scraper::Html::parse_fragment`, `scraper::Selector::parse` on
/// the selector text `a` (a valid CSS selector, so that parse always
/// succeeds), `Html::select` and `ElementRef::attr`: together they read the
/// `href` of the fragment's first anchor, a function of the fragment text
/// alone (named `first_href_of`).
#[verifier::external_body]
pub fn first_anchor_href(fragment: &str) -> (r: Option<String>)
    ensures
        (match r {
            Some(h) => first_href_of(fragment@) == Some(h@),
            None => first_href_of(fragment@) is None,
        }),
{
    let html = scraper::Html::parse_fragment(fragment);
    let selector = scraper::Selector::parse("a").unwrap();
    let element = html.select(&selector).next()?;
    let href = element.attr("href")?;
    Some(href.to_string())
}

} // verus!
