//! The parsed HTML document the cleanup passes edit: `scraper`'s tree,
//! reached through a few calls (parse, select, read an element, detach,
//! move, insert text, set attributes, rename) and turned into a `DomNode`
//! tree for rendering.

use vstd::prelude::*;
use ego_tree::NodeId;
use scraper::{ElementRef, Html, Node, Selector};
use crate::dom::DomNode;
use crate::serialize::{AttrNamespace, Attribute};
use crate::text::str_eq;
use crate::validation::selector_error_result;

verus! {

/// `scraper::Html`, a parsed document.
#[verifier::external_type_specification]
#[verifier::external_body]
pub struct ExHtml(Html);

/// `ego_tree::NodeId`, a node of a document.
#[verifier::external_type_specification]
#[verifier::external_body]
pub struct ExNodeId(NodeId);

/// `scraper::Selector`, a parsed CSS selector.
#[verifier::external_type_specification]
#[verifier::external_body]
pub struct ExSelector(Selector);

/// The nodes of a document's arena (`Tree::get` finds each of them; a
/// detached node stays in the arena).
pub uninterp spec fn html_node_ids(doc: Html) -> Set<NodeId>;

/// The document that an HTML text parses to.
pub uninterp spec fn parsed_html(html: Seq<char>) -> Html;

/// The HTML of an element of a document and its descendants.
pub uninterp spec fn html_outer(doc: Html, id: NodeId) -> Seq<char>;

/// The parent of each node of a document that has one. Every document here
/// is a tree: parsing makes one, and no wrapper below makes a cycle.
pub uninterp spec fn html_parents(doc: Html) -> Map<NodeId, NodeId>;

/// The children of a node of a document, in order.
pub uninterp spec fn html_children(doc: Html, id: NodeId) -> Seq<NodeId>;

/// The root node of a document.
pub uninterp spec fn html_root(doc: Html) -> NodeId;

/// A document serialized as HTML.
pub uninterp spec fn html_serialized(doc: Html) -> Seq<char>;

/// The text nodes of a document, each with its text.
pub uninterp spec fn html_texts(doc: Html) -> Map<NodeId, Seq<char>>;

/// The comment nodes of a document, each with its text.
pub uninterp spec fn html_comments(doc: Html) -> Map<NodeId, Seq<char>>;

/// The document (and fragment) nodes of a document.
pub uninterp spec fn html_document_nodes(doc: Html) -> Set<NodeId>;

/// How many nodes a document's arena holds, detached ones included.
pub uninterp spec fn html_arena_len(doc: Html) -> nat;

/// The element nodes of a document, each with its local name and its
/// attributes (namespace URL, local name, value) in the element's order.
pub uninterp spec fn html_elements(doc: Html) -> Map<NodeId, (Seq<char>, Seq<(Seq<char>, Seq<char>, Seq<char>)>)>;

/// The elements that a selector selects in a document, in the arena's
/// order (detached elements included).
pub uninterp spec fn html_selection(doc: Html, sel: Selector) -> Seq<NodeId>;

/// The selector that a valid selector text parses to.
pub uninterp spec fn parsed_selector(s: Seq<char>) -> Selector;

/// An attribute read as `(namespace URL, local name, value)`.
pub open spec fn read_attribute(a: Attribute, t: (Seq<char>, Seq<char>, Seq<char>)) -> bool {
    a.ns == namespace_of(t.0) && a.name@ == t.1 && a.value@ == t.2
}

/// The namespace of an attribute, from its namespace URL.
pub open spec fn namespace_of(url: Seq<char>) -> AttrNamespace {
    if url.len() == 0 {
        AttrNamespace::NoNamespace
    } else if url == "http://www.w3.org/XML/1998/namespace"@ {
        AttrNamespace::Xml
    } else if url == "http://www.w3.org/2000/xmlns/"@ {
        AttrNamespace::Xmlns
    } else if url == "http://www.w3.org/1999/xlink"@ {
        AttrNamespace::Xlink
    } else {
        AttrNamespace::Other
    }
}

/// An attribute from its namespace URL, local name and value.
pub fn attribute_from(ns_url: &str, local: &str, value: &str) -> (a: Attribute)
    ensures
        a.ns == namespace_of(ns_url@),
        a.name@ == local@,
        a.value@ == value@,
{
    let ns = if ns_url.is_empty() {
        AttrNamespace::NoNamespace
    } else if str_eq(ns_url, "http://www.w3.org/XML/1998/namespace") {
        AttrNamespace::Xml
    } else if str_eq(ns_url, "http://www.w3.org/2000/xmlns/") {
        AttrNamespace::Xmlns
    } else if str_eq(ns_url, "http://www.w3.org/1999/xlink") {
        AttrNamespace::Xlink
    } else {
        AttrNamespace::Other
    };
    Attribute { ns, name: local.to_owned(), value: value.to_owned() }
}

/// `Html::parse_document`: parses a whole HTML document.
#[verifier::external_body]
pub fn parse_document(html: &str) -> (d: Html)
    ensures
        d == parsed_html(html@),
{
    Html::parse_document(html)
}

/// `Selector::parse`, keeping only the error's message: `Ok` exactly when
/// the selector parses.
#[verifier::external_body]
pub fn parse_selector(s: &str) -> (r: Result<Selector, String>)
    ensures
        match r {
            Ok(sel) => selector_error_result(s@) is None && sel == parsed_selector(s@),
            Err(e) => selector_error_result(s@) == Some(e@),
        },
{
    Selector::parse(s).map_err(|e| format!("{e}"))
}

/// `Html::select`: the nodes of the elements that match, in the arena's
/// order (it walks every node of the arena, detached ones too); which
/// elements match a selector is named, not stated.
#[verifier::external_body]
pub fn select_ids(doc: &Html, sel: &Selector) -> (r: Vec<NodeId>)
    ensures
        r@ == html_selection(*doc, *sel),
        forall|i: int| 0 <= i < r@.len() ==> html_elements(*doc).contains_key(#[trigger] r@[i]),
        forall|i: int, j: int| 0 <= i < j < r@.len() ==> r@[i] != r@[j],
{
    doc.select(sel).map(|e| e.id()).collect()
}

/// The root node of the document (`Tree::root`).
#[verifier::external_body]
pub fn root_id(doc: &Html) -> (r: NodeId)
    ensures
        r == html_root(*doc),
{
    doc.tree.root().id()
}

/// `NodeRef::children`: the children of a node, in order: the nodes whose
/// parent it is, each once, none of them the node itself (the document is a
/// tree).
#[verifier::external_body]
pub fn child_ids(doc: &Html, id: NodeId) -> (r: Vec<NodeId>)
    ensures
        r@ == html_children(*doc, id),
        forall|i: int| 0 <= i < r@.len() ==> html_node_ids(*doc).contains(#[trigger] r@[i]) && r@[i] != id,
        forall|i: int, j: int| 0 <= i < j < r@.len() ==> r@[i] != r@[j],
        forall|k: NodeId| (html_parents(*doc).contains_key(k) && html_parents(*doc)[k] == id) <==> #[trigger] r@.contains(k),
{
    doc.tree.get(id).map(|n| n.children().map(|c| c.id()).collect()).unwrap_or_default()
}

/// `NodeRef::parent`: the parent of a node.
#[verifier::external_body]
pub fn parent_id(doc: &Html, id: NodeId) -> (r: Option<NodeId>)
    ensures
        r == (if html_parents(*doc).contains_key(id) {
            Some(html_parents(*doc)[id])
        } else {
            None
        }),
        r is Some ==> html_node_ids(*doc).contains(id),
{
    doc.tree.get(id).and_then(|n| n.parent()).map(|p| p.id())
}

/// The local name and the attributes (namespace URL, local name, value) of
/// an element node, in the element's order; `None` for other nodes.
#[verifier::external_body]
fn element_raw(doc: &Html, id: NodeId) -> (r: Option<(String, Vec<(String, String, String)>)>)
    ensures
        match r {
            Some((t, a)) => html_elements(*doc).contains_key(id) && t@ == html_elements(*doc)[id].0
                && a@.map_values(|x: (String, String, String)| (x.0@, x.1@, x.2@)) == html_elements(*doc)[id].1,
            None => !html_elements(*doc).contains_key(id),
        },
{
    let el = doc.tree.get(id).and_then(|n| n.value().as_element())?;
    let attrs = el.attrs.iter().map(|(n, v)| (n.ns.to_string(), n.local.to_string(), v.to_string())).collect();
    Some((el.name().to_owned(), attrs))
}

/// The tag and the attributes of an element node, in the element's order;
/// `None` for other nodes.
pub fn element_parts(doc: &Html, id: NodeId) -> (r: Option<(String, Vec<Attribute>)>)
    ensures
        match r {
            Some((t, a)) => html_elements(*doc).contains_key(id) && t@ == html_elements(*doc)[id].0
                && a@.len() == html_elements(*doc)[id].1.len() && forall|i: int|
                0 <= i < a@.len() ==> read_attribute(#[trigger] a@[i], html_elements(*doc)[id].1[i]),
            None => !html_elements(*doc).contains_key(id),
        },
{
    let (tag, raw) = match element_raw(doc, id) {
        Some(x) => x,
        None => return None,
    };
    let ghost rv = raw@.map_values(|x: (String, String, String)| (x.0@, x.1@, x.2@));
    let mut attrs: Vec<Attribute> = Vec::new();
    let mut i: usize = 0;
    while i < raw.len()
        invariant
            i <= raw@.len(),
            attrs@.len() == i,
            rv == raw@.map_values(|x: (String, String, String)| (x.0@, x.1@, x.2@)),
            forall|j: int| 0 <= j < i ==> read_attribute(#[trigger] attrs@[j], rv[j]),
        decreases raw@.len() - i,
    {
        assert(rv[i as int] == (raw@[i as int].0@, raw@[i as int].1@, raw@[i as int].2@));
        let a = attribute_from(raw[i].0.as_str(), raw[i].1.as_str(), raw[i].2.as_str());
        attrs.push(a);
        i += 1;
    }
    Some((tag, attrs))
}

/// `ElementRef::html`: the HTML of an element and its descendants.
#[verifier::external_body]
pub fn outer_html(doc: &Html, id: NodeId) -> (r: String)
    ensures
        r@ == html_outer(*doc, id),
{
    doc.tree.get(id).and_then(ElementRef::wrap).map(|e| e.html()).unwrap_or_default()
}

/// `Html::html`: the whole document serialized.
#[verifier::external_body]
pub fn document_html(doc: &Html) -> (r: String)
    ensures
        r@ == html_serialized(*doc),
{
    doc.html()
}

/// `NodeMut::detach`: takes a node (and its subtree) out of the document:
/// the node loses its parent, no other node's parent changes, and the arena
/// keeps every node with its data.
#[verifier::external_body]
pub fn detach(doc: &mut Html, id: NodeId)
    ensures
        html_node_ids(*final(doc)) == html_node_ids(*old(doc)),
        html_parents(*final(doc)) == html_parents(*old(doc)).remove(id),
        html_elements(*final(doc)) == html_elements(*old(doc)),
{
    if let Some(mut n) = doc.tree.get_mut(id) {
        n.detach();
    }
}

/// `NodeMut::insert_id_before`: moves node `child`, a child of `target`,
/// before `target`, under `target`'s parent. It panics on a `child` that is
/// `target` or not in the arena, and on a `target` without a parent, so
/// those are left out; and since `child` must be a child of `target`, it is
/// no ancestor of `target`, and no cycle can arise. No other node's parent
/// changes.
#[verifier::external_body]
pub fn insert_id_before(doc: &mut Html, target: NodeId, child: NodeId)
    requires
        html_parents(*old(doc)).contains_key(target),
        html_node_ids(*old(doc)).contains(child),
        html_parents(*old(doc)).contains_key(child),
        html_parents(*old(doc))[child] == target,
        child != target,
    ensures
        html_node_ids(*final(doc)) == html_node_ids(*old(doc)),
        html_parents(*final(doc)) == html_parents(*old(doc)).insert(child, html_parents(*old(doc))[target]),
        html_elements(*final(doc)) == html_elements(*old(doc)),
{
    if let Some(mut t) = doc.tree.get_mut(target) {
        t.insert_id_before(child);
    }
}

/// `NodeMut::insert_before`: inserts a new text node before node `target`.
/// It panics on a `target` without a parent, so that is left out. The
/// other nodes keep their parents and their data.
#[verifier::external_body]
pub fn insert_text_before(doc: &mut Html, target: NodeId, text: &str)
    requires
        html_parents(*old(doc)).contains_key(target),
    ensures
        html_node_ids(*old(doc)).subset_of(html_node_ids(*final(doc))),
        forall|k: NodeId| #[trigger] html_parents(*old(doc)).contains_key(k) ==> html_parents(*final(doc)).contains_key(k)
            && html_parents(*final(doc))[k] == html_parents(*old(doc))[k],
        forall|k: NodeId| #[trigger] html_parents(*final(doc)).contains_key(k) ==> html_parents(*old(doc)).contains_key(k)
            || !html_node_ids(*old(doc)).contains(k),
        html_elements(*final(doc)) == html_elements(*old(doc)),
{
    if let Some(mut t) = doc.tree.get_mut(target) {
        t.insert_before(Node::Text(scraper::node::Text { text: text.into() }));
    }
}

/// Replaces the attributes of an element (each name without prefix, in its
/// namespace), in the order given; nothing else changes.
#[verifier::external_body]
pub fn set_attrs(doc: &mut Html, id: NodeId, attrs: Vec<(String, String, String)>)
    ensures
        html_elements(*final(doc)) == if html_elements(*old(doc)).contains_key(id) {
            html_elements(*old(doc)).insert(
                id,
                (html_elements(*old(doc))[id].0, attrs@.map_values(|t: (String, String, String)| (t.0@, t.1@, t.2@))),
            )
        } else {
            html_elements(*old(doc))
        },
        html_parents(*final(doc)) == html_parents(*old(doc)),
        html_node_ids(*final(doc)) == html_node_ids(*old(doc)),
{
    if let Some(mut n) = doc.tree.get_mut(id) {
        if let Node::Element(el) = n.value() {
            el.attrs = attrs.into_iter().map(|(ns, local, v)| {
                (markup5ever::QualName::new(None, ns.as_str().into(), local.as_str().into()), v.into())
            }).collect();
        }
    }
}

/// Gives an element a new local name, in the same namespace; nothing else
/// changes.
#[verifier::external_body]
pub fn rename(doc: &mut Html, id: NodeId, tag: &str)
    ensures
        html_elements(*final(doc)) == if html_elements(*old(doc)).contains_key(id) {
            html_elements(*old(doc)).insert(id, (tag@, html_elements(*old(doc))[id].1))
        } else {
            html_elements(*old(doc))
        },
        html_parents(*final(doc)) == html_parents(*old(doc)),
        html_node_ids(*final(doc)) == html_node_ids(*old(doc)),
{
    if let Some(mut n) = doc.tree.get_mut(id) {
        if let Node::Element(el) = n.value() {
            el.name = markup5ever::QualName::new(None, el.name.ns.clone(), tag.into());
        }
    }
}

/// What a node is, with the text of text and comment nodes.
pub enum NodeKind {
    Document,
    Element,
    Text(String),
    Comment(String),
    Other,
}

/// The kind of a node: a `Fragment` counts as a document (this library
/// reads one as it reads a document); doctypes and processing instructions
/// are other.
#[verifier::external_body]
pub fn node_kind(doc: &Html, id: NodeId) -> (r: NodeKind)
    ensures
        match r {
            NodeKind::Document => html_document_nodes(*doc).contains(id),
            NodeKind::Element => html_elements(*doc).contains_key(id),
            NodeKind::Text(t) => html_texts(*doc).contains_key(id) && t@ == html_texts(*doc)[id],
            NodeKind::Comment(c) => html_comments(*doc).contains_key(id) && c@ == html_comments(*doc)[id],
            NodeKind::Other => !html_document_nodes(*doc).contains(id) && !html_elements(*doc).contains_key(id)
                && !html_texts(*doc).contains_key(id) && !html_comments(*doc).contains_key(id),
        },
{
    match doc.tree.get(id).map(|n| n.value()) {
        Some(Node::Document) => NodeKind::Document,
        Some(Node::Fragment) => NodeKind::Document,
        Some(Node::Element(_)) => NodeKind::Element,
        Some(Node::Text(t)) => NodeKind::Text(t.text.to_string()),
        Some(Node::Comment(c)) => NodeKind::Comment(c.comment.to_string()),
        _ => NodeKind::Other,
    }
}

/// `Tree::nodes`: how many nodes the document's arena holds (detached
/// ones included); in a tree, a bound on the depth of any node.
#[verifier::external_body]
pub fn arena_size(doc: &Html) -> (r: usize)
    ensures
        r == html_arena_len(*doc),
{
    doc.tree.nodes().count()
}

} // verus!
