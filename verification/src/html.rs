use vstd::prelude::*;

verus! {

#[verifier::external_type_specification]
#[verifier::external_body]
pub struct ExHtml(scraper::Html);

#[verifier::external_type_specification]
#[verifier::external_body]
pub struct ExSelector(scraper::Selector);

/// A parsed HTML document, with the text it was parsed from.
pub struct HtmlDocument {
    text: String,
    parsed: scraper::Html,
}

impl View for HtmlDocument {
    type V = Seq<char>;

    /// A document stands for the text it was parsed from.
    closed spec fn view(&self) -> Seq<char> {
        self.text@
    }
}

/// A parsed CSS selector group, with the text it was parsed from.
pub struct CssSelector {
    text: String,
    parsed: scraper::Selector,
}

impl View for CssSelector {
    type V = Seq<char>;

    /// A selector stands for the text it was parsed from.
    closed spec fn view(&self) -> Seq<char> {
        self.text@
    }
}

/// What to read from the elements that a CSS selector matches: their text, and the values
/// of the attributes named in `attrs`.
pub struct Query {
    pub selector: CssSelector,
    pub attrs: Vec<String>,
}

/// What was read from one element: its text (the concatenation of the text nodes below it)
/// and, for each attribute that the query names, its value if the element has one.
pub struct Element {
    pub text: String,
    pub attrs: Vec<Option<String>>,
}

/// The mathematical value of a `Query`.
pub struct QuerySpec {
    pub selector: Seq<char>,
    pub attrs: Seq<Seq<char>>,
}

/// The mathematical value of an `Element`.
pub struct ElementSpec {
    pub text: Seq<char>,
    pub attrs: Seq<Option<Seq<char>>>,
}

pub open spec fn opt_string_view(o: Option<String>) -> Option<Seq<char>> {
    match o {
        Some(s) => Some(s@),
        None => None,
    }
}

impl View for Query {
    type V = QuerySpec;

    open spec fn view(&self) -> QuerySpec {
        QuerySpec { selector: self.selector@, attrs: self.attrs@.map_values(|a: String| a@) }
    }
}

impl View for Element {
    type V = ElementSpec;

    open spec fn view(&self) -> ElementSpec {
        ElementSpec {
            text: self.text@,
            attrs: self.attrs@.map_values(|o: Option<String>| opt_string_view(o)),
        }
    }
}

/// The models of a list of elements.
pub open spec fn elements_view(v: Seq<Element>) -> Seq<ElementSpec> {
    v.map_values(|e: Element| e@)
}

/// The models of the elements read per outer element and per query.
pub open spec fn nested_view(v: Seq<Vec<Vec<Element>>>) -> Seq<Seq<Seq<ElementSpec>>> {
    v.map_values(|row: Vec<Vec<Element>>| row@.map_values(|es: Vec<Element>| elements_view(es@)))
}

/// The models of a list of queries.
pub open spec fn queries_view(v: Seq<Query>) -> Seq<QuerySpec> {
    v.map_values(|q: Query| q@)
}

/// Why the text `s` is no CSS selector group, or `None` where it is one.
pub uninterp spec fn selector_error(s: Seq<char>) -> Option<Seq<char>>;

/// What `query` reads from each element of the document `html` that its selector matches,
/// in the order in which `Html::select` yields them.
pub uninterp spec fn html_select(html: Seq<char>, query: QuerySpec) -> Seq<ElementSpec>;

/// For each element of the document `html` that `outer` matches, in the order in which
/// `Html::select` yields them, and for each query, what the query reads from the elements
/// below it, in the order in which `ElementRef::select` yields them.
pub uninterp spec fn html_select_each(html: Seq<char>, outer: Seq<char>, queries: Seq<QuerySpec>) -> Seq<
    Seq<Seq<ElementSpec>>,
>;

/// What `query` reads from the elements below the first element of the document `html`
/// that `scope` matches; nothing where none does.
pub uninterp spec fn html_select_in_first(html: Seq<char>, scope: Seq<char>, query: QuerySpec) -> Seq<
    ElementSpec,
>;

/// As `html_select_each`, among the elements below the first element of the document that
/// `scope` matches; nothing where none does.
pub uninterp spec fn html_select_each_in_first(
    html: Seq<char>,
    scope: Seq<char>,
    outer: Seq<char>,
    queries: Seq<QuerySpec>,
) -> Seq<Seq<Seq<ElementSpec>>>;

/// `scraper::Html::parse_document`. The document keeps the text, which is its model.
#[verifier::external_body]
pub(crate) fn parse_html(html: &str) -> (r: HtmlDocument)
    ensures
        r@ == html@,
{
    HtmlDocument { text: html.to_string(), parsed: scraper::Html::parse_document(html) }
}

/// `scraper::Selector::parse`. On success the selector keeps the text, which is its model;
/// the error's text is named `selector_error(s)`.
#[verifier::external_body]
pub(crate) fn parse_selector(s: &str) -> (r: Result<CssSelector, String>)
    ensures
        match r {
            Ok(c) => c@ == s@ && selector_error(s@) is None,
            Err(e) => selector_error(s@) == Some(e@),
        },
{
    match scraper::Selector::parse(s) {
        Ok(parsed) => Ok(CssSelector { text: s.to_string(), parsed }),
        Err(e) => Err(e.to_string()),
    }
}

/// `Html::select`, reading each match with `ElementRef::text` and `ElementRef::attr`.
/// The contract names the result `html_select(html, query)`: the document's text and the
/// query fix it.
#[verifier::external_body]
pub(crate) fn select(doc: &HtmlDocument, query: &Query) -> (r: Vec<Element>)
    ensures
        elements_view(r@) == html_select(doc@, query@),
{
    doc.parsed.select(&query.selector.parsed).map(|e| Element { text: e.text().collect(), attrs: query.attrs.iter().map(|a| e.attr(a).map(String::from)).collect() }).collect()
}

/// `Html::select` for `outer`, then `ElementRef::select` for each query below each match,
/// reading as `select` does. The contract names the result `html_select_each`.
#[verifier::external_body]
pub(crate) fn select_each(doc: &HtmlDocument, outer: &CssSelector, queries: &Vec<Query>) -> (r: Vec<
    Vec<Vec<Element>>,
>)
    ensures
        nested_view(r@) == html_select_each(doc@, outer@, queries_view(queries@)),
{
    doc.parsed.select(&outer.parsed).map(|row| queries.iter().map(|q| row.select(&q.selector.parsed).map(|e| Element { text: e.text().collect(), attrs: q.attrs.iter().map(|a| e.attr(a).map(String::from)).collect() }).collect()).collect()).collect()
}

/// `Html::select(scope).next()`, then `ElementRef::select` for the query below it, reading
/// as `select` does. The contract names the result `html_select_in_first`.
#[verifier::external_body]
pub(crate) fn select_in_first(doc: &HtmlDocument, scope: &CssSelector, query: &Query) -> (r: Vec<Element>)
    ensures
        elements_view(r@) == html_select_in_first(doc@, scope@, query@),
{
    doc.parsed.select(&scope.parsed).next().map_or(Vec::new(), |b| b.select(&query.selector.parsed).map(|e| Element { text: e.text().collect(), attrs: query.attrs.iter().map(|a| e.attr(a).map(String::from)).collect() }).collect())
}

/// `Html::select(scope).next()`, then what `select_each` reads below it. The contract names
/// the result `html_select_each_in_first`.
#[verifier::external_body]
pub(crate) fn select_each_in_first(doc: &HtmlDocument, scope: &CssSelector, outer: &CssSelector, queries: &Vec<Query>) -> (r: Vec<Vec<Vec<Element>>>)
    ensures
        nested_view(r@) == html_select_each_in_first(doc@, scope@, outer@, queries_view(queries@)),
{
    doc.parsed.select(&scope.parsed).next().map_or(Vec::new(), |b| b.select(&outer.parsed).map(|row| queries.iter().map(|q| row.select(&q.selector.parsed).map(|e| Element { text: e.text().collect(), attrs: q.attrs.iter().map(|a| e.attr(a).map(String::from)).collect() }).collect()).collect()).collect())
}

} // verus!
