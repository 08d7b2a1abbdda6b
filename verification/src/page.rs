//! What the crawler takes from a page.
use crate::text::{begins_with, chars_of, lemma_trimmed_bytes, string_of, trim, trimmed};
use crate::web_url::{joined, option_text, url_view, Address, UrlView, MAX_TEXT_BYTES};
use vstd::prelude::*;
use vstd::utf8::encode_utf8;

verus! {

/// The selector of a page's title.
pub const TITLE: &'static str = "title";

/// The selector of a page's description.
pub const DESCRIPTION: &'static str = "meta[name=description]";

/// The selector of a page's links.
pub const LINKS: &'static str = "a[href]";

/// The longest page that is read, in bytes: a third of two gibibytes. The reader
/// of HTML holds no text longer than two, and may write three bytes for one.
pub const MAX_PAGE_BYTES: usize = 0x2AAA_AAAA;

/// An element of a page: the text inside it and one of its attributes.
pub struct Element {
    pub text: String,
    pub attribute: Option<String>,
}

/// An element over views.
pub struct ElementView {
    pub text: Seq<char>,
    pub attribute: Option<Seq<char>>,
}

impl View for Element {
    type V = ElementView;

    open spec fn view(&self) -> ElementView {
        ElementView { text: self.text@, attribute: option_text(self.attribute) }
    }
}

/// The elements that a vector holds, over views.
pub open spec fn element_views(elements: Seq<Element>) -> Seq<ElementView> {
    elements.map_values(|e: Element| e@)
}

/// The elements of an HTML document that a CSS selector selects, in the order
/// in which `scraper` finds them: each with its text and with one of its
/// attributes.
pub uninterp spec fn selected(
    body: Seq<char>,
    selector: Seq<char>,
    attribute: Seq<char>,
) -> Seq<ElementView>;

/// Whether the attribute of an element, if it has it, is no longer than so many
/// bytes.
pub open spec fn attribute_within(element: ElementView, max: nat) -> bool {
    element.attribute matches Some(value) ==> encode_utf8(value).len() <= max
}

/// Whether a text is one of the selectors that the crawler uses.
pub open spec fn known_selector(selector: Seq<char>) -> bool {
    selector == TITLE@ || selector == DESCRIPTION@ || selector == LINKS@
}

/// A question about a page: which elements to find, and which of their
/// attributes to read.
pub struct Query {
    pub selector: &'static str,
    pub attribute: &'static str,
}

/// `scraper::Html::parse_document` and, for each question, `Html::select` with
/// the selector that `scraper::Selector::parse` reads: gives [`selected`],
/// where `ElementRef::text` gives the text of an element and `Element::attr`
/// the attribute. The reader of HTML writes at most three bytes for one.
#[verifier::external_body]
fn select(body: &str, queries: &Vec<Query>) -> (res: Vec<Vec<Element>>)
    requires
        forall|i: int|
            0 <= i < queries@.len() ==> known_selector((#[trigger] queries@[i]).selector@),
        encode_utf8(body@).len() <= MAX_PAGE_BYTES,
    ensures
        res@.len() == queries@.len(),
        forall|i: int|
            0 <= i < res@.len() ==> element_views((#[trigger] res@[i])@) == selected(
                body@,
                queries@[i].selector@,
                queries@[i].attribute@,
            ),
        forall|i: int, j: int|
            0 <= i < res@.len() && 0 <= j < res@[i]@.len() ==> attribute_within(
                (#[trigger] res@[i]@[j])@,
                3 * encode_utf8(body@).len(),
            ),
{
    let page = scraper::Html::parse_document(body);
    let elements = |q: &Query| {
        let css = scraper::Selector::parse(q.selector).unwrap();
        page.select(&css)
            .map(|e| Element {
                text: e.text().collect(),
                attribute: e.value().attr(q.attribute).map(String::from),
            })
            .collect()
    };
    queries.iter().map(elements).collect()
}

/// A text without white space around it, if anything is left of it.
pub open spec fn nonempty(s: Seq<char>) -> Option<Seq<char>> {
    if trimmed(s).len() == 0 {
        None
    } else {
        Some(trimmed(s))
    }
}

/// The title that the first title element gives.
pub open spec fn title_of(titles: Seq<ElementView>) -> Option<Seq<char>> {
    if titles.len() == 0 {
        None
    } else {
        nonempty(titles[0].text)
    }
}

/// The description that the first description element gives.
pub open spec fn description_of(descriptions: Seq<ElementView>) -> Option<Seq<char>> {
    if descriptions.len() == 0 {
        None
    } else {
        match descriptions[0].attribute {
            Some(content) => nonempty(content),
            None => None,
        }
    }
}

/// The reference that a link leads to, unless it stays on the page or leads to
/// a script, a mailbox or a telephone.
pub open spec fn link_target_spec(href: Seq<char>) -> Option<Seq<char>> {
    let target = trimmed(href);
    if target.len() == 0 || target[0] == '#' || "javascript:"@.is_prefix_of(target)
        || "mailto:"@.is_prefix_of(target) || "tel:"@.is_prefix_of(target) {
        None
    } else {
        Some(target)
    }
}

/// The page that a resolved link leads to: a web address without its fragment.
pub open spec fn kept(child: Option<UrlView>) -> Option<UrlView> {
    match child {
        Some(child) => if child.is_web() {
            Some(child.without_fragment())
        } else {
            None
        },
        None => None,
    }
}

/// The page that a link on the page at `base` leads to.
pub open spec fn link_of(base: UrlView, link: ElementView) -> Option<UrlView> {
    match link.attribute {
        Some(href) => match link_target_spec(href) {
            Some(target) => kept(joined(base, target)),
            None => None,
        },
        None => None,
    }
}

/// Whether the reference that a link leads to is not too long to be resolved.
pub open spec fn can_be_followed(link: ElementView) -> bool {
    link.attribute matches Some(href) ==> {
        link_target_spec(href) matches Some(target) ==> encode_utf8(target).len()
            <= MAX_TEXT_BYTES
    }
}

/// The pages that the links on the page at `base` lead to.
pub open spec fn links_of(base: UrlView, links: Seq<ElementView>) -> Seq<UrlView> {
    links.filter_map(|link: ElementView| link_of(base, link))
}

/// What the crawler takes from a page.
pub struct Page {
    pub title: Option<String>,
    pub description: Option<String>,
    pub links: Vec<Address>,
}

/// What the crawler takes from a page, over views.
#[verifier::ext_equal]
pub struct PageView {
    pub title: Option<Seq<char>>,
    pub description: Option<Seq<char>>,
    pub links: Seq<UrlView>,
}

/// The URLs that a vector holds, over views.
pub open spec fn url_views(urls: Seq<Address>) -> Seq<UrlView> {
    urls.map_values(|u: Address| u@)
}

impl View for Page {
    type V = PageView;

    open spec fn view(&self) -> PageView {
        PageView {
            title: option_text(self.title),
            description: option_text(self.description),
            links: url_views(self.links@),
        }
    }
}

/// A page of which nothing was read.
pub open spec fn unread() -> PageView {
    PageView { title: None, description: None, links: Seq::empty() }
}

/// What the page at `base` holds, given its title, description and link
/// elements.
pub open spec fn page_of(
    base: UrlView,
    titles: Seq<ElementView>,
    descriptions: Seq<ElementView>,
    links: Seq<ElementView>,
) -> PageView {
    PageView {
        title: title_of(titles),
        description: description_of(descriptions),
        links: links_of(base, links),
    }
}

/// What the page at `base` holds, given its HTML.
pub open spec fn parsed_page(base: UrlView, body: Seq<char>) -> PageView {
    page_of(
        base,
        selected(body, TITLE@, ""@),
        selected(body, DESCRIPTION@, "content"@),
        selected(body, LINKS@, "href"@),
    )
}

/// Trims a text, and gives nothing where nothing is left.
pub fn trim_to_nonempty(s: &str) -> (res: Option<String>)
    ensures
        option_text(res) == nonempty(s@),
{
    let chars = chars_of(s);
    let rest = trim(chars.as_slice());
    if rest.len() == 0 {
        None
    } else {
        Some(string_of(rest))
    }
}

/// The reference that a link leads to, if the crawler follows it.
pub fn link_target(href: &str) -> (res: Option<String>)
    ensures
        option_text(res) == link_target_spec(href@),
{
    let chars = chars_of(href);
    let target = trim(chars.as_slice());
    if target.len() == 0 || target[0] == '#' || begins_with(
        target,
        chars_of("javascript:").as_slice(),
    ) || begins_with(target, chars_of("mailto:").as_slice()) || begins_with(
        target,
        chars_of("tel:").as_slice(),
    ) {
        None
    } else {
        Some(string_of(target))
    }
}

/// The page that a resolved link leads to, if the crawler follows it.
pub fn keep_link(child: Option<Address>) -> (res: Option<Address>)
    ensures
        url_view(res) == kept(url_view(child)),
{
    match child {
        Some(child) => if child.is_web() {
            Some(child.without_fragment())
        } else {
            None
        },
        None => None,
    }
}

/// The page that a link on the page at `base` leads to.
pub fn follow_link(base: &Address, link: &Element) -> (res: Option<Address>)
    requires
        can_be_followed(link@),
    ensures
        url_view(res) == link_of(base@, link@),
{
    match &link.attribute {
        Some(href) => match link_target(href.as_str()) {
            Some(target) => keep_link(base.join(target.as_str())),
            None => None,
        },
        None => None,
    }
}

/// Reads off what the page at `base` holds, given its title, description and
/// link elements.
pub fn read_elements(
    base: &Address,
    titles: &Vec<Element>,
    descriptions: &Vec<Element>,
    links: &Vec<Element>,
) -> (page: Page)
    requires
        forall|i: int| 0 <= i < links@.len() ==> can_be_followed((#[trigger] links@[i])@),
    ensures
        page@ == page_of(
            base@,
            element_views(titles@),
            element_views(descriptions@),
            element_views(links@),
        ),
{
    let title = if titles.len() == 0 {
        None
    } else {
        trim_to_nonempty(titles[0].text.as_str())
    };
    let description = if descriptions.len() == 0 {
        None
    } else {
        match &descriptions[0].attribute {
            Some(content) => trim_to_nonempty(content.as_str()),
            None => None,
        }
    };
    let mut urls: Vec<Address> = Vec::new();
    let ghost all = element_views(links@);
    let ghost leads = |link: ElementView| link_of(base@, link);
    assert(url_views(urls@) =~= all.take(0).filter_map(leads));
    for i in 0..links.len()
        invariant
            forall|i: int| 0 <= i < links@.len() ==> can_be_followed((#[trigger] links@[i])@),
            all == element_views(links@),
            leads == (|link: ElementView| link_of(base@, link)),
            url_views(urls@) == all.take(i as int).filter_map(leads),
    {
        let ghost before = url_views(urls@);
        proof {
            all.lemma_filter_map_take_succ(leads, i as int);
            assert(all[i as int] == links@[i as int]@);
        }
        match follow_link(base, &links[i]) {
            Some(url) => {
                urls.push(url);
                assert(url_views(urls@) =~= before + seq![url@]);
            },
            None => {
                assert(before + Seq::<UrlView>::empty() =~= before);
            },
        }
    }
    assert(all.take(all.len() as int) =~= all);
    let page = Page { title, description, links: urls };
    assert(page@ =~= page_of(
        base@,
        element_views(titles@),
        element_views(descriptions@),
        element_views(links@),
    ));
    page
}

/// Reads the HTML of the page at `base`.
pub fn parse_page(base: &Address, body: &str) -> (page: Page)
    requires
        encode_utf8(body@).len() <= MAX_PAGE_BYTES,
    ensures
        page@ == parsed_page(base@, body@),
{
    let mut queries: Vec<Query> = Vec::new();
    queries.push(Query { selector: TITLE, attribute: "" });
    queries.push(Query { selector: DESCRIPTION, attribute: "content" });
    queries.push(Query { selector: LINKS, attribute: "href" });
    let found = select(body, &queries);
    let links = &found[2];
    proof {
        assert forall|j: int| 0 <= j < links@.len() implies can_be_followed(
            (#[trigger] links@[j])@,
        ) by {
            assert(attribute_within(found@[2]@[j]@, 3 * encode_utf8(body@).len()));
            if links@[j]@.attribute is Some {
                lemma_trimmed_bytes(links@[j]@.attribute->0);
            }
        }
    }
    read_elements(base, &found[0], &found[1], links)
}

impl Page {
    /// A page of which nothing was read.
    pub fn empty() -> (page: Page)
        ensures
            page@ == unread(),
    {
        let page = Page { title: None, description: None, links: Vec::new() };
        assert(page@.links =~= Seq::empty());
        page
    }
}

/// Every link that is taken from a page is a web address without fragment.
pub proof fn law_links_are_web_addresses(base: UrlView, links: Seq<ElementView>)
    ensures
        forall|i: int|
            0 <= i < links_of(base, links).len() ==> {
                &&& (#[trigger] links_of(base, links)[i]).is_web()
                &&& links_of(base, links)[i].fragment is None
            },
{
    let leads = |link: ElementView| link_of(base, link);
    let found = links_of(base, links);
    assert forall|i: int| 0 <= i < found.len() implies (#[trigger] found[i]).is_web()
        && found[i].fragment is None by {
        assert(found.contains(found[i]));
        links.lemma_filter_map_contains(leads, found[i]);
    }
}

/// Links are taken in order, each that leads somewhere: its reference, without
/// white space around it, is not empty, is no place on the same page, no script,
/// no mailbox and no telephone, and resolves to a web address. What is taken is
/// that address without its fragment.
pub proof fn law_every_link_that_leads_somewhere_is_taken(
    base: UrlView,
    before: Seq<ElementView>,
    href: Option<Seq<char>>,
    text: Seq<char>,
)
    ensures
        ({
            let earlier = links_of(base, before);
            let found = links_of(base, before.push(ElementView { text, attribute: href }));
            let target = trimmed(href->0);
            let leads = {
                &&& href is Some
                &&& target.len() > 0
                &&& target[0] != '#'
                &&& !"javascript:"@.is_prefix_of(target)
                &&& !"mailto:"@.is_prefix_of(target)
                &&& !"tel:"@.is_prefix_of(target)
                &&& joined(base, target) is Some
                &&& joined(base, target)->0.scheme == "http"@ || joined(base, target)->0.scheme
                    == "https"@
            };
            &&& leads ==> found == earlier + seq![
                UrlView { fragment: None, ..joined(base, target)->0 },
            ]
            &&& !leads ==> found == earlier
        }),
        links_of(base, Seq::empty()) == Seq::<UrlView>::empty(),
{
    let link = ElementView { text, attribute: href };
    let all = before.push(link);
    assert(all.drop_last() =~= before);
    assert(all.last() == link);
}

/// What a page holds: the text of its first title element and the content of its
/// first description element, without white space around them, if anything is
/// left, and what its links lead to.
pub proof fn law_what_a_page_holds(base: UrlView, body: Seq<char>)
    ensures
        ({
            let page = parsed_page(base, body);
            let titles = selected(body, "title"@, ""@);
            let descriptions = selected(body, "meta[name=description]"@, "content"@);
            let title = trimmed(titles[0].text);
            let description = trimmed(descriptions[0].attribute->0);
            &&& page.title == if titles.len() > 0 && title.len() > 0 {
                Some(title)
            } else {
                None
            }
            &&& page.description == if descriptions.len() > 0 && descriptions[0].attribute is Some
                && description.len() > 0 {
                Some(description)
            } else {
                None
            }
            &&& page.links == links_of(base, selected(body, "a[href]"@, "href"@))
        }),
{
}

} // verus!
