//! HTML, by `scraper`.
use crate::ir::opt_view;
use crate::text::views;
use scraper::{ElementRef, Html, Node, Selector};
use vstd::prelude::*;

verus! {

// ---------------------------------------------------------------------------
// Plain values
// ---------------------------------------------------------------------------

/// View of an [`HtmlElement`].
#[verifier::ext_equal]
pub struct HtmlElementView {
    pub name: Seq<char>,
    pub class: Option<Seq<char>>,
    pub alt: Option<Seq<char>>,
    pub children: Seq<HtmlNodeView>,
}

/// View of an [`HtmlNode`].
#[verifier::ext_equal]
pub enum HtmlNodeView {
    Element(HtmlElementView),
    Text(Seq<char>),
    Fragment(Seq<HtmlNodeView>),
    Other,
}

/// View of an [`HtmlPage`].
#[verifier::ext_equal]
pub struct HtmlPageView {
    pub errors: Seq<Seq<char>>,
    pub title: Option<HtmlElementView>,
    pub body: Option<HtmlElementView>,
    pub root: HtmlElementView,
}

/// An element: its name, its `class` and `alt` attributes, and what is in it.
#[derive(Debug)]
pub struct HtmlElement {
    pub name: String,
    pub class: Option<String>,
    pub alt: Option<String>,
    pub children: Vec<HtmlNode>,
}

/// What an element holds: elements, text, fragments, and comments and the like. A fragment stands
/// in a template and holds what the template does.
#[derive(Debug)]
pub enum HtmlNode {
    Element(HtmlElement),
    Text(String),
    Fragment(Vec<HtmlNode>),
    Other,
}

/// A parsed page: the parse errors, the title and body elements that the parser made first, if
/// there are any, and the root element.
#[derive(Debug)]
pub struct HtmlPage {
    pub errors: Vec<String>,
    pub title: Option<HtmlElement>,
    pub body: Option<HtmlElement>,
    pub root: HtmlElement,
}

/// View of an element, its contents included.
pub open spec fn element_view(e: HtmlElement) -> HtmlElementView
    decreases e,
{
    HtmlElementView {
        name: e.name@,
        class: opt_view(e.class),
        alt: opt_view(e.alt),
        children: Seq::new(
            e.children@.len(),
            |i: int|
                if 0 <= i < e.children@.len() {
                    node_view(e.children@[i])
                } else {
                    arbitrary()
                },
        ),
    }
}

/// View of a node, its contents included.
pub open spec fn node_view(n: HtmlNode) -> HtmlNodeView
    decreases n,
{
    match n {
        HtmlNode::Element(e) => HtmlNodeView::Element(element_view(e)),
        HtmlNode::Text(t) => HtmlNodeView::Text(t@),
        HtmlNode::Fragment(ns) => HtmlNodeView::Fragment(
            Seq::new(
                ns@.len(),
                |i: int|
                    if 0 <= i < ns@.len() {
                        node_view(ns@[i])
                    } else {
                        arbitrary()
                    },
            ),
        ),
        HtmlNode::Other => HtmlNodeView::Other,
    }
}

/// Views of a list of nodes.
pub open spec fn node_views(v: Seq<HtmlNode>) -> Seq<HtmlNodeView> {
    v.map_values(|n: HtmlNode| n@)
}

impl View for HtmlElement {
    type V = HtmlElementView;

    open spec fn view(&self) -> HtmlElementView {
        element_view(*self)
    }
}

impl View for HtmlNode {
    type V = HtmlNodeView;

    open spec fn view(&self) -> HtmlNodeView {
        node_view(*self)
    }
}

/// View of an optional element.
pub open spec fn opt_element(e: Option<HtmlElement>) -> Option<HtmlElementView> {
    match e {
        Some(e) => Some(e@),
        None => None,
    }
}

impl View for HtmlPage {
    type V = HtmlPageView;

    open spec fn view(&self) -> HtmlPageView {
        HtmlPageView {
            errors: views(self.errors@),
            title: opt_element(self.title),
            body: opt_element(self.body),
            root: self.root@,
        }
    }
}

/// The contents of an element, seen as a list.
pub proof fn lemma_element_view(e: HtmlElement)
    ensures
        e@.children == node_views(e.children@),
{
    assert(e@.children =~= node_views(e.children@));
}

/// The contents of a fragment, seen as a list.
pub proof fn lemma_fragment_view(n: HtmlNode)
    ensures
        n matches HtmlNode::Fragment(ns) ==> n@ == HtmlNodeView::Fragment(node_views(ns@)),
{
    if let HtmlNode::Fragment(ns) = n {
        assert(n@->Fragment_0 =~= node_views(ns@));
    }
}

// ---------------------------------------------------------------------------
// Pages
// ---------------------------------------------------------------------------

/// The parsed page of `scraper`.
#[verifier::external_type_specification]
#[verifier::external_body]
pub struct ExHtml(Html);

/// An element of `scraper`.
#[verifier::external_type_specification]
#[verifier::external_body]
pub struct ExElementRef<'a>(ElementRef<'a>);

/// What `Html::parse_document` makes of `text`.
pub uninterp spec fn html_parsed(text: Seq<char>) -> HtmlPageView;

/// What a page holds.
pub uninterp spec fn html_page(page: Html) -> HtmlPageView;

/// What an element holds.
pub uninterp spec fn html_element(e: ElementRef<'_>) -> HtmlElementView;

/// A node below an element.
pub(crate) enum Child<'a> {
    Element(ElementRef<'a>),
    Text(String),
    Fragment(Vec<Child<'a>>),
    Other,
}

/// What a node holds.
pub(crate) open spec fn child_model(c: Child) -> HtmlNodeView
    decreases c,
{
    match c {
        Child::Element(e) => HtmlNodeView::Element(html_element(e)),
        Child::Text(t) => HtmlNodeView::Text(t@),
        Child::Fragment(cs) => HtmlNodeView::Fragment(
            Seq::new(
                cs@.len(),
                |i: int|
                    if 0 <= i < cs@.len() {
                        child_model(cs@[i])
                    } else {
                        arbitrary()
                    },
            ),
        ),
        Child::Other => HtmlNodeView::Other,
    }
}

/// What a list of nodes holds.
pub(crate) open spec fn child_models(v: Seq<Child>) -> Seq<HtmlNodeView> {
    v.map_values(|c: Child| child_model(c))
}

/// What an optional element holds.
pub open spec fn opt_model(e: Option<ElementRef<'_>>) -> Option<HtmlElementView> {
    match e {
        Some(e) => Some(html_element(e)),
        None => None,
    }
}

/// The element of a page that `tag` names: its title or its body.
pub open spec fn page_part(page: HtmlPageView, tag: Seq<char>) -> Option<HtmlElementView> {
    if tag == "title"@ {
        page.title
    } else {
        page.body
    }
}

/// The attribute of an element that `key` names: its class or its alternative text.
pub open spec fn element_part(e: HtmlElementView, key: Seq<char>) -> Option<Seq<char>> {
    if key == "class"@ {
        e.class
    } else {
        e.alt
    }
}

/// `Html::parse_document`: what the page holds is a function of the text.
#[verifier::external_body]
fn parse_document(text: &str) -> (r: Html)
    ensures
        html_page(r) == html_parsed(text@),
{
    Html::parse_document(text)
}

/// `Html::errors`: the parse errors of a page.
#[verifier::external_body]
fn page_errors(page: &Html) -> (r: Vec<String>)
    ensures
        views(r@) == html_page(*page).errors,
{
    page.errors.iter().map(|e| e.to_string()).collect()
}

/// `Html::select`: the element with the given name that comes first in the order in which the
/// parser made the nodes, among those that a page model holds.
#[verifier::external_body]
fn page_element<'a>(page: &'a Html, tag: &str) -> (r: Option<ElementRef<'a>>)
    requires
        tag@ == "title"@ || tag@ == "body"@,
    ensures
        opt_model(r) == page_part(html_page(*page), tag@),
{
    let selector = Selector::parse(tag).unwrap();
    let found = page.select(&selector).next();
    found
}

/// Whether a page is what some text was parsed to.
pub open spec fn is_parsed(page: Html) -> bool {
    exists|text: Seq<char>| html_page(page) == #[trigger] html_parsed(text)
}

/// `Html::root_element`: the root element of a page. A parsed page always has one.
#[verifier::external_body]
fn page_root<'a>(page: &'a Html) -> (r: ElementRef<'a>)
    requires
        is_parsed(*page),
    ensures
        html_element(r) == html_page(*page).root,
{
    page.root_element()
}

/// `Element::name`: the local name of an element.
#[verifier::external_body]
fn element_name(e: &ElementRef<'_>) -> (r: String)
    ensures
        r@ == html_element(*e).name,
{
    e.value().name().to_string()
}

/// `Element::attr`: an attribute of an element, among those that an element model holds.
#[verifier::external_body]
fn element_attribute(e: &ElementRef<'_>, key: &str) -> (r: Option<String>)
    requires
        key@ == "class"@ || key@ == "alt"@,
    ensures
        opt_view(r) == element_part(html_element(*e), key@),
{
    e.value().attr(key).map(|v| v.to_string())
}

/// `NodeRef::children` of an element, in order: elements, texts, fragments with their own
/// children, and anything else. A fragment right below another, which no parse makes, counts as
/// anything else.
#[verifier::external_body]
fn element_children<'a>(e: &ElementRef<'a>) -> (r: Vec<Child<'a>>)
    ensures
        child_models(r@) == html_element(*e).children,
{
    e.children().map(|c| match c.value() {
        Node::Element(_) => Child::Element(ElementRef::wrap(c).unwrap()),
        Node::Text(t) => Child::Text(t.to_string()),
        Node::Fragment => Child::Fragment(c.children().map(|d| match d.value() {
            Node::Element(_) => Child::Element(ElementRef::wrap(d).unwrap()),
            Node::Text(t) => Child::Text(t.to_string()),
            _ => Child::Other,
        }).collect()),
        _ => Child::Other,
    }).collect()
}

/// The plain value of an element.
fn plain_element(e: &ElementRef<'_>) -> (r: HtmlElement)
    ensures
        r@ == html_element(*e),
    decreases html_element(*e), 0nat,
{
    proof {
        reveal_strlit("class");
        reveal_strlit("alt");
        assert("class"@.len() != "alt"@.len());
    }
    let below = element_children(e);
    let children = plain_nodes(&below);
    let r = HtmlElement {
        name: element_name(e),
        class: element_attribute(e, "class"),
        alt: element_attribute(e, "alt"),
        children,
    };
    proof {
        lemma_element_view(r);
    }
    r
}

/// The plain values of nodes.
fn plain_nodes(below: &Vec<Child<'_>>) -> (r: Vec<HtmlNode>)
    ensures
        node_views(r@) == child_models(below@),
    decreases child_models(below@), 1nat,
{
    let ghost all = child_models(below@);
    let mut nodes: Vec<HtmlNode> = Vec::new();
    for i in 0..below.len()
        invariant
            all == child_models(below@),
            nodes@.len() == i,
            forall|j: int| 0 <= j < i ==> (#[trigger] nodes@[j])@ == all[j],
    {
        assert(child_model(below@[i as int]) == all[i as int]);
        let node = match &below[i] {
            Child::Element(c) => HtmlNode::Element(plain_element(c)),
            Child::Text(t) => HtmlNode::Text(t.clone()),
            Child::Fragment(cs) => {
                proof {
                    lemma_child_fragment(below@[i as int]);
                    let n = all[i as int];
                    assert(decreases_to!(all => all[i as int]));
                    assert(decreases_to!(n => n->Fragment_0));
                }
                HtmlNode::Fragment(plain_nodes(cs))
            },
            Child::Other => HtmlNode::Other,
        };
        proof {
            lemma_fragment_view(node);
        }
        nodes.push(node);
    }
    assert(node_views(nodes@) =~= all);
    nodes
}

/// What a fragment holds, seen as a list.
proof fn lemma_child_fragment(c: Child)
    ensures
        c matches Child::Fragment(cs) ==> child_model(c) == HtmlNodeView::Fragment(
            child_models(cs@),
        ),
{
    if let Child::Fragment(cs) = c {
        assert(child_model(c)->Fragment_0 =~= child_models(cs@));
    }
}

/// The plain value of an optional element.
fn plain_option(e: &Option<ElementRef<'_>>) -> (r: Option<HtmlElement>)
    ensures
        opt_element(r) == opt_model(*e),
{
    match e {
        Some(e) => Some(plain_element(e)),
        None => None,
    }
}

/// Parses a page. Parsing does not fail: errors are listed, and the page is as good as can be.
pub fn parse_html(text: &str) -> (r: HtmlPage)
    ensures
        r@ == html_parsed(text@),
{
    proof {
        reveal_strlit("title");
        reveal_strlit("body");
        assert("title"@.len() != "body"@.len());
    }
    let page = parse_document(text);
    HtmlPage {
        errors: page_errors(&page),
        title: plain_option(&page_element(&page, "title")),
        body: plain_option(&page_element(&page, "body")),
        root: plain_element(&page_root(&page)),
    }
}

} // verus!
