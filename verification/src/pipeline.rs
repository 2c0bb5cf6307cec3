//! The conversion pipeline: parse, check the limits, read the metadata,
//! run the cleanup passes over the document, render it and finish the
//! result.

use vstd::prelude::*;
use ego_tree::NodeId;
use scraper::{Html, Selector};
use crate::cleanup::{
    flatten_table_text, form_readable_text, heading_offset_tag, image_alt_text,
    image_metadata_alt, is_complex_table, is_custom_element, lazy_image_src,
    media_placeholder_text, remove_tag_selector, srcset_image_src, summary_text, table_handling_for,
    tag_action, TagAction,
};
use crate::convert::{check_limits, finish_conversion, finished, limit_message, output_bytes, ExtractedMetadata};
use crate::postprocess::post_processed;
use crate::profiles::profile_markdown;
use crate::result::any_error;
use crate::diagnostic::Diagnostic;
use crate::document::{
    child_ids, detach, document_html, element_parts, html_elements, html_node_ids, html_parents, html_selection,
    html_arena_len, html_children, html_comments, html_document_nodes, html_outer, html_root, html_texts,
    insert_id_before, insert_text_before, parsed_html, parsed_selector, read_attribute,
    node_kind, outer_html, parent_id, parse_document, parse_selector, rename, root_id, select_ids,
    set_attrs, arena_size, NodeKind,
};
use crate::dom::{collect_text, get_attr, DomNode};
use crate::error::{Error, Result};
use crate::validation::selector_error_result;
use crate::native::NativeBackend;
use crate::options::{
    opt_view, views, CleanupOptions, CustomRule, ConversionOptions, CustomElementPolicy, MetadataOptions, CustomRuleAction, DetailsHandling, FormHandling,
    HiddenContentPolicy, ImageMode, MediaPolicy, RawHtmlPolicy, TableHandling, TitleHandling,
};
use crate::result::ConversionResult;
use crate::serialize::{AttrNamespace, Attribute};
use crate::text::{
    char_vec, eq_ignore_ascii_case, str_views, exec_eq_ignore_ascii_case, push_str, str_eq, trim_string, usize_to_string, TrimSet,
};

verus! {

// ---------------------------------------------------------------------------
// Reading the document
// ---------------------------------------------------------------------------

/// Is `r` the subtree of `doc` at node `id`, read at most `fuel` levels
/// deep? Elements keep their HTML where rendering may need it: tables
/// always, block elements when `block_html` is set.
pub open spec fn read_tree(doc: Html, id: NodeId, block_html: bool, fuel: nat, r: DomNode) -> bool
    decreases fuel,
{
    if fuel == 0 {
        r is Other
    } else {
        let kids = html_children(doc, id);
        let children_read = |cs: Seq<DomNode>|
            cs.len() == kids.len() && forall|i: int|
                0 <= i < cs.len() ==> read_tree(doc, kids[i], block_html, (fuel - 1) as nat, #[trigger] cs[i]);
        match r {
            DomNode::Document { children } => html_document_nodes(doc).contains(id) && children_read(children@),
            DomNode::Element { tag, attrs, children, html } => {
                &&& html_elements(doc).contains_key(id)
                &&& tag@ == html_elements(doc)[id].0
                &&& attrs@.len() == html_elements(doc)[id].1.len()
                &&& forall|i: int| 0 <= i < attrs@.len() ==> read_attribute(#[trigger] attrs@[i], html_elements(doc)[id].1[i])
                &&& html@ == if tag@ == "table"@ || (block_html && crate::blocks::is_block_tag(tag@)) {
                    html_outer(doc, id)
                } else {
                    Seq::empty()
                }
                &&& children_read(children@)
            },
            DomNode::Text { text } => html_texts(doc).contains_key(id) && text@ == html_texts(doc)[id],
            DomNode::Comment { text } => html_comments(doc).contains_key(id) && text@ == html_comments(doc)[id],
            DomNode::Other => !html_document_nodes(doc).contains(id) && !html_elements(doc).contains_key(id)
                && !html_texts(doc).contains_key(id) && !html_comments(doc).contains_key(id),
        }
    }
}

/// The subtree at `id` as a `DomNode` tree, at most `fuel` levels deep
/// (the arena size bounds every depth, so the whole subtree is read).
/// Elements keep their HTML where rendering may need it: tables always,
/// block elements when `block_html` is set.
pub fn to_dom(doc: &Html, id: NodeId, block_html: bool, fuel: usize) -> (r: DomNode)
    ensures
        read_tree(*doc, id, block_html, fuel as nat, r),
        fuel == 0 ==> r is Other,
        r matches DomNode::Element { tag, html, .. } ==> (tag@ == "table"@ || (block_html
            && crate::blocks::is_block_tag(tag@))) || html@ == Seq::<char>::empty(),
    decreases fuel,
{
    if fuel == 0 {
        return DomNode::Other;
    }
    let kids = child_ids(doc, id);
    let mut children: Vec<DomNode> = Vec::new();
    let mut i: usize = 0;
    while i < kids.len()
        invariant
            i <= kids@.len(),
            fuel > 0,
            kids@ == html_children(*doc, id),
            children@.len() == i,
            forall|j: int|
                0 <= j < i ==> read_tree(*doc, kids@[j], block_html, (fuel - 1) as nat, #[trigger] children@[j]),
        decreases kids@.len() - i,
    {
        children.push(to_dom(doc, kids[i], block_html, fuel - 1));
        i += 1;
    }
    match node_kind(doc, id) {
        NodeKind::Document => DomNode::Document { children },
        NodeKind::Element => match element_parts(doc, id) {
            Some((tag, attrs)) => {
                proof {
                    reveal_strlit("table");
                }
                let keep = str_eq(tag.as_str(), "table") || (block_html
                    && crate::blocks::is_block_element(tag.as_str()));
                let html = if keep {
                    outer_html(doc, id)
                } else {
                    String::new()
                };
                DomNode::Element { tag, attrs, children, html }
            },
            None => DomNode::Other,
        },
        NodeKind::Text(t) => DomNode::Text { text: t },
        NodeKind::Comment(c) => DomNode::Comment { text: c },
        NodeKind::Other => DomNode::Other,
    }
}

/// The subtree at `id`, without kept HTML.
fn subtree(doc: &Html, id: NodeId) -> (r: DomNode)
    ensures
        read_tree(*doc, id, false, html_arena_len(*doc), r),
        r matches DomNode::Element { tag, html, .. } ==> tag@ == "table"@ || html@ == Seq::<char>::empty(),
{
    to_dom(doc, id, false, arena_size(doc))
}

/// All the text under node `id`.
fn subtree_text(doc: &Html, id: NodeId) -> (r: String)
    ensures
        exists|d: DomNode| read_tree(*doc, id, false, html_arena_len(*doc), d) && r@ == #[trigger] crate::dom::node_text(d),
{
    let d = subtree(doc, id);
    let mut t = String::new();
    collect_text(&d, &mut t);
    t
}

/// The value of the first of `attrs` called `name` (in any namespace).
pub open spec fn triple_value(attrs: Seq<(Seq<char>, Seq<char>, Seq<char>)>, name: Seq<char>) -> Option<Seq<char>>
    decreases attrs.len(),
{
    if attrs.len() == 0 {
        None
    } else if attrs[0].1 == name {
        Some(attrs[0].2)
    } else {
        triple_value(attrs.drop_first(), name)
    }
}

/// The value of attribute `name` of element `id` of `e`, if any.
pub open spec fn element_attr(
    e: Map<NodeId, (Seq<char>, Seq<(Seq<char>, Seq<char>, Seq<char>)>)>,
    id: NodeId,
    name: Seq<char>,
) -> Option<Seq<char>> {
    if e.contains_key(id) {
        triple_value(e[id].1, name)
    } else {
        None
    }
}

proof fn lemma_triple_value(attrs: Seq<Attribute>, triples: Seq<(Seq<char>, Seq<char>, Seq<char>)>, name: Seq<char>)
    requires
        attrs.len() == triples.len(),
        forall|j: int| 0 <= j < attrs.len() ==> read_attribute(#[trigger] attrs[j], triples[j]),
    ensures
        crate::dom::attr_value(attrs, name) == triple_value(triples, name),
    decreases attrs.len(),
{
    if attrs.len() > 0 {
        assert(read_attribute(attrs[0], triples[0]));
        assert forall|j: int| 0 <= j < attrs.drop_first().len() implies read_attribute(
            #[trigger] attrs.drop_first()[j],
            triples.drop_first()[j],
        ) by {
            assert(read_attribute(attrs[j + 1], triples[j + 1]));
        }
        lemma_triple_value(attrs.drop_first(), triples.drop_first(), name);
    }
}

/// The value of the first attribute of element `id` called `name` (in any
/// namespace).
fn attr_of(doc: &Html, id: NodeId, name: &str) -> (r: Option<String>)
    ensures
        opt_view(r) == element_attr(html_elements(*doc), id, name@),
{
    let ghost e = html_elements(*doc);
    match element_parts(doc, id) {
        Some((_, attrs)) => {
            proof {
                lemma_triple_value(attrs@, e[id].1, name@);
            }
            get_attr(&attrs, name)
        },
        None => None,
    }
}

/// The namespace URL of an attribute namespace.
pub open spec fn namespace_url(ns: AttrNamespace) -> Seq<char> {
    match ns {
        AttrNamespace::Xml => "http://www.w3.org/XML/1998/namespace"@,
        AttrNamespace::Xmlns => "http://www.w3.org/2000/xmlns/"@,
        AttrNamespace::Xlink => "http://www.w3.org/1999/xlink"@,
        _ => Seq::empty(),
    }
}

/// The attributes as (namespace URL, local name, value).
fn raw_attrs(attrs: &Vec<Attribute>) -> (r: Vec<(String, String, String)>)
    ensures
        r@.len() == attrs@.len(),
        forall|i: int|
            0 <= i < r@.len() ==> (#[trigger] r@[i]).0@ == namespace_url(attrs@[i].ns) && r@[i].1@
                == attrs@[i].name@ && r@[i].2@ == attrs@[i].value@,
{
    let mut r: Vec<(String, String, String)> = Vec::new();
    let mut i: usize = 0;
    while i < attrs.len()
        invariant
            i <= attrs@.len(),
            r@.len() == i,
            forall|j: int|
                0 <= j < i ==> (#[trigger] r@[j]).0@ == namespace_url(attrs@[j].ns) && r@[j].1@
                    == attrs@[j].name@ && r@[j].2@ == attrs@[j].value@,
        decreases attrs@.len() - i,
    {
        let url = match attrs[i].ns {
            AttrNamespace::Xml => "http://www.w3.org/XML/1998/namespace".to_owned(),
            AttrNamespace::Xmlns => "http://www.w3.org/2000/xmlns/".to_owned(),
            AttrNamespace::Xlink => "http://www.w3.org/1999/xlink".to_owned(),
            _ => String::new(),
        };
        r.push((url, attrs[i].name.clone(), attrs[i].value.clone()));
        i += 1;
    }
    r
}

/// An attribute as (namespace URL, local name, value).
pub type AttrTriple = (Seq<char>, Seq<char>, Seq<char>);

/// An attribute written back as it was read: its namespace URL kept where
/// the namespace is a known one, empty otherwise.
pub open spec fn rewritten_attr(t: AttrTriple) -> AttrTriple {
    (namespace_url(crate::document::namespace_of(t.0)), t.1, t.2)
}

/// Is `t` the attribute `name` without a namespace?
pub open spec fn is_plain_attr(t: AttrTriple, name: Seq<char>) -> bool {
    crate::document::namespace_of(t.0) == AttrNamespace::NoNamespace && t.1 == name
}

/// The position of the first attribute `name` without a namespace, or the
/// length where there is none.
pub open spec fn first_plain_attr(attrs: Seq<AttrTriple>, name: Seq<char>) -> int
    decreases attrs.len(),
{
    if attrs.len() == 0 {
        0
    } else {
        let f = first_plain_attr(attrs.drop_last(), name);
        if f < attrs.len() - 1 {
            f
        } else if is_plain_attr(attrs.last(), name) {
            attrs.len() - 1
        } else {
            attrs.len() as int
        }
    }
}

/// The attributes with `name` set to `value`: the first attribute `name`
/// (no namespace) takes the value, or the attribute is added at the end.
pub open spec fn attrs_with(attrs: Seq<AttrTriple>, name: Seq<char>, value: Seq<char>) -> Seq<AttrTriple> {
    let n = attrs.map_values(|t: AttrTriple| rewritten_attr(t));
    let f = first_plain_attr(attrs, name);
    if f < attrs.len() {
        n.update(f, (n[f].0, n[f].1, value))
    } else {
        n.push((Seq::empty(), name, value))
    }
}

/// The attributes without any attribute `name` (no namespace).
pub open spec fn attrs_without(attrs: Seq<AttrTriple>, name: Seq<char>) -> Seq<AttrTriple>
    decreases attrs.len(),
{
    if attrs.len() == 0 {
        Seq::empty()
    } else {
        attrs_without(attrs.drop_last(), name) + if is_plain_attr(attrs.last(), name) {
            Seq::<AttrTriple>::empty()
        } else {
            seq![rewritten_attr(attrs.last())]
        }
    }
}

proof fn lemma_first_plain_attr(attrs: Seq<AttrTriple>, name: Seq<char>, i: int)
    requires
        0 <= i <= attrs.len(),
        forall|j: int| 0 <= j < i ==> !is_plain_attr(#[trigger] attrs[j], name),
        i < attrs.len() ==> is_plain_attr(attrs[i], name),
    ensures
        first_plain_attr(attrs, name) == i,
    decreases attrs.len(),
{
    if attrs.len() > 0 {
        let d = attrs.drop_last();
        if i == attrs.len() {
            lemma_first_plain_attr(d, name, d.len() as int);
        } else if i == attrs.len() - 1 {
            lemma_first_plain_attr(d, name, d.len() as int);
        } else {
            lemma_first_plain_attr(d, name, i);
        }
    }
}

/// The element `id` with attribute `name` set to `value`.
pub open spec fn element_with_attr(
    e: Map<NodeId, (Seq<char>, Seq<AttrTriple>)>,
    id: NodeId,
    name: Seq<char>,
    value: Seq<char>,
) -> Map<NodeId, (Seq<char>, Seq<AttrTriple>)> {
    if e.contains_key(id) {
        e.insert(id, (e[id].0, attrs_with(e[id].1, name, value)))
    } else {
        e
    }
}

/// The element `id` without its attributes `name`.
pub open spec fn element_without_attr(
    e: Map<NodeId, (Seq<char>, Seq<AttrTriple>)>,
    id: NodeId,
    name: Seq<char>,
) -> Map<NodeId, (Seq<char>, Seq<AttrTriple>)> {
    if e.contains_key(id) {
        e.insert(id, (e[id].0, attrs_without(e[id].1, name)))
    } else {
        e
    }
}

/// Sets attribute `name` of element `id` to `value`.
fn set_attr(doc: &mut Html, id: NodeId, name: &str, value: &str)
    ensures
        html_elements(*final(doc)) == element_with_attr(html_elements(*old(doc)), id, name@, value@),
        html_parents(*final(doc)) == html_parents(*old(doc)),
        html_node_ids(*final(doc)) == html_node_ids(*old(doc)),
{
    let ghost e = html_elements(*doc);
    let mut attrs = match element_parts(doc, id) {
        Some((_, a)) => a,
        None => return,
    };
    let ghost old_attrs = attrs@;
    let ghost triples = e[id].1;
    let mut i: usize = 0;
    while i < attrs.len()
        invariant
            i <= attrs@.len(),
            attrs@ == old_attrs,
            old_attrs.len() == triples.len(),
            forall|j: int| 0 <= j < old_attrs.len() ==> read_attribute(#[trigger] old_attrs[j], triples[j]),
            forall|j: int| 0 <= j < i ==> !is_plain_attr(#[trigger] triples[j], name@),
        ensures
            i < attrs@.len() ==> is_plain_attr(triples[i as int], name@),
        decreases attrs@.len() - i,
    {
        assert(read_attribute(old_attrs[i as int], triples[i as int]));
        if attrs[i].ns == AttrNamespace::NoNamespace && str_eq(attrs[i].name.as_str(), name) {
            break;
        }
        i += 1;
    }
    proof {
        if i < attrs@.len() {
            assert(read_attribute(old_attrs[i as int], triples[i as int]));
        }
        lemma_first_plain_attr(triples, name@, i as int);
    }
    if i < attrs.len() {
        let a = Attribute { ns: attrs[i].ns, name: attrs[i].name.clone(), value: value.to_owned() };
        attrs.set(i, a);
    } else {
        attrs.push(Attribute { ns: AttrNamespace::NoNamespace, name: name.to_owned(), value: value.to_owned() });
    }
    let raw = raw_attrs(&attrs);
    proof {
        let rv = raw@.map_values(|t: (String, String, String)| (t.0@, t.1@, t.2@));
        let target = attrs_with(triples, name@, value@);
        assert forall|j: int| 0 <= j < rv.len() implies rv[j] == target[j] by {
            if j < old_attrs.len() {
                assert(read_attribute(old_attrs[j], triples[j]));
            }
        }
        assert(rv =~= target);
    }
    set_attrs(doc, id, raw);
}

/// Removes every attribute `name` (no namespace) of element `id`.
fn remove_attr(doc: &mut Html, id: NodeId, name: &str)
    ensures
        html_elements(*final(doc)) == element_without_attr(html_elements(*old(doc)), id, name@),
        html_parents(*final(doc)) == html_parents(*old(doc)),
        html_node_ids(*final(doc)) == html_node_ids(*old(doc)),
{
    let ghost e = html_elements(*doc);
    let attrs = match element_parts(doc, id) {
        Some((_, a)) => a,
        None => return,
    };
    let ghost triples = e[id].1;
    let mut kept: Vec<Attribute> = Vec::new();
    let mut i: usize = 0;
    while i < attrs.len()
        invariant
            i <= attrs@.len(),
            attrs@.len() == triples.len(),
            forall|j: int| 0 <= j < attrs@.len() ==> read_attribute(#[trigger] attrs@[j], triples[j]),
            kept@.map_values(|a: Attribute| (namespace_url(a.ns), a.name@, a.value@)) == attrs_without(
                triples.take(i as int),
                name@,
            ),
        decreases attrs@.len() - i,
    {
        assert(read_attribute(attrs@[i as int], triples[i as int]));
        assert(triples.take(i + 1).drop_last() =~= triples.take(i as int));
        let ghost before = kept@.map_values(|a: Attribute| (namespace_url(a.ns), a.name@, a.value@));
        if !(attrs[i].ns == AttrNamespace::NoNamespace && str_eq(attrs[i].name.as_str(), name)) {
            kept.push(Attribute { ns: attrs[i].ns, name: attrs[i].name.clone(), value: attrs[i].value.clone() });
            assert(kept@.map_values(|a: Attribute| (namespace_url(a.ns), a.name@, a.value@)) =~= before.push(
                rewritten_attr(triples[i as int]),
            ));
        }
        i += 1;
    }
    assert(triples.take(attrs@.len() as int) =~= triples);
    let raw = raw_attrs(&kept);
    assert(raw@.map_values(|t: (String, String, String)| (t.0@, t.1@, t.2@)) =~= kept@.map_values(
        |a: Attribute| (namespace_url(a.ns), a.name@, a.value@),
    ));
    set_attrs(doc, id, raw);
}

// ---------------------------------------------------------------------------
// Tree edits
// ---------------------------------------------------------------------------

/// From `before` to `after`: the elements that `selector` selects in
/// `before` detached, every other parent link and every element's data kept.
pub open spec fn detached_by(before: Html, after: Html, selector: Seq<char>) -> bool {
    &&& html_parents(after) == html_parents(before).remove_keys(selected(before, selector).to_set())
    &&& html_elements(after) == html_elements(before)
}

/// Documents one after another, each made from the one before by detaching
/// what the matching selector selects in it.
pub open spec fn detach_chain(docs: Seq<Html>, selectors: Seq<Seq<char>>) -> bool {
    &&& docs.len() == selectors.len() + 1
    &&& forall|i: int| 0 <= i < selectors.len() ==> detached_by(#[trigger] docs[i], docs[i + 1], selectors[i])
}

/// From `before` to `after`: `selectors` applied in turn, each detaching
/// what it selects in the document as the earlier ones left it.
pub open spec fn detached_in_turn(before: Html, after: Html, selectors: Seq<Seq<char>>) -> bool {
    exists|docs: Seq<Html>|
        #[trigger] detach_chain(docs, selectors) && docs[0] == before && docs.last() == after
}

/// A chain grows by one more detaching step.
proof fn lemma_chain_push(docs: Seq<Html>, sels: Seq<Seq<char>>, d: Html, s: Seq<char>)
    requires
        detach_chain(docs, sels),
        detached_by(docs.last(), d, s),
    ensures
        detach_chain(docs.push(d), sels.push(s)),
        docs.push(d)[0] == docs[0],
        docs.push(d).last() == d,
{
    let nd = docs.push(d);
    let ns = sels.push(s);
    assert forall|k: int| 0 <= k < ns.len() implies detached_by(#[trigger] nd[k], nd[k + 1], ns[k]) by {
        if k < sels.len() {
            assert(detached_by(docs[k], docs[k + 1], sels[k]));
        }
    }
}

/// Detaches, in turn, what each of `selectors` selects.
fn detach_each(doc: &mut Html, selectors: &Vec<String>)
    ensures
        detached_in_turn(*old(doc), *final(doc), views(*selectors)),
{
    let ghost mut docs: Seq<Html> = seq![*doc];
    let mut i: usize = 0;
    while i < selectors.len()
        invariant
            i <= selectors@.len(),
            detach_chain(docs, views(*selectors).take(i as int)),
            docs[0] == *old(doc),
            docs.last() == *doc,
        decreases selectors@.len() - i,
    {
        assert(selectors@[i as int]@ == views(*selectors)[i as int]);
        detach_by_tag(doc, selectors[i].as_str());
        proof {
            lemma_chain_push(docs, views(*selectors).take(i as int), *doc, views(*selectors)[i as int]);
            assert(views(*selectors).take(i as int).push(views(*selectors)[i as int]) =~= views(*selectors).take(i + 1));
            docs = docs.push(*doc);
        }
        i += 1;
    }
    assert(views(*selectors).take(selectors@.len() as int) =~= views(*selectors));
}

/// The set of the first `i + 1` nodes: that of the first `i`, and one more.
proof fn lemma_take_to_set(ids: Seq<NodeId>, i: int)
    requires
        0 <= i < ids.len(),
    ensures
        ids.take(i + 1).to_set() == ids.take(i).to_set().insert(ids[i]),
{
    assert forall|x: NodeId| ids.take(i + 1).to_set().contains(x) <==> ids.take(i).to_set().insert(ids[i]).contains(x) by {
        if ids.take(i + 1).contains(x) {
            let j = choose|j: int| 0 <= j < i + 1 && #[trigger] ids.take(i + 1)[j] == x;
            if j < i {
                assert(ids.take(i)[j] == x);
            }
        }
        if ids.take(i).contains(x) {
            let j = choose|j: int| 0 <= j < i && #[trigger] ids.take(i)[j] == x;
            assert(ids.take(i + 1)[j] == x);
        }
        if x == ids[i] {
            assert(ids.take(i + 1)[i] == x);
        }
    }
    assert(ids.take(i + 1).to_set() =~= ids.take(i).to_set().insert(ids[i]));
}

fn detach_selected(doc: &mut Html, sel: &Selector)
    ensures
        html_parents(*final(doc)) == html_parents(*old(doc)).remove_keys(html_selection(*old(doc), *sel).to_set()),
        html_elements(*final(doc)) == html_elements(*old(doc)),
{
    let ids = select_ids(doc, sel);
    let mut i: usize = 0;
    while i < ids.len()
        invariant
            i <= ids@.len(),
            ids@ == html_selection(*old(doc), *sel),
            html_parents(*doc) == html_parents(*old(doc)).remove_keys(ids@.take(i as int).to_set()),
            html_elements(*doc) == html_elements(*old(doc)),
        decreases ids@.len() - i,
    {
        detach(doc, ids[i]);
        proof {
            lemma_take_to_set(ids@, i as int);
            assert(html_parents(*doc) =~= html_parents(*old(doc)).remove_keys(ids@.take(i + 1).to_set()));
        }
        i += 1;
    }
    assert(ids@.take(ids@.len() as int) =~= ids@);
}

/// Replaces a node by its children (moved, last first, before it).
/// The parent links after node `id` is replaced by its children: they take
/// its parent, and it has none; nothing changes where it has no parent.
pub open spec fn parents_unwrapped(p: Map<NodeId, NodeId>, id: NodeId) -> Map<NodeId, NodeId> {
    if p.contains_key(id) {
        Map::new(
            |k: NodeId| p.contains_key(k) && k != id,
            |k: NodeId| if p[k] == id { p[id] } else { p[k] },
        )
    } else {
        p
    }
}

fn unwrap_node(doc: &mut Html, id: NodeId)
    ensures
        html_parents(*final(doc)) == parents_unwrapped(html_parents(*old(doc)), id),
        html_elements(*final(doc)) == html_elements(*old(doc)),
{
    let ghost p = html_parents(*doc);
    let kids = child_ids(doc, id);
    if parent_id(doc, id).is_some() {
        let mut k = kids.len();
        while k > 0
            invariant
                k <= kids@.len(),
                p.contains_key(id),
                html_elements(*doc) == html_elements(*old(doc)),
                p == html_parents(*old(doc)),
                forall|x: NodeId| (p.contains_key(x) && p[x] == id) <==> #[trigger] kids@.contains(x),
                html_parents(*doc) == Map::new(
                    |x: NodeId| p.contains_key(x),
                    |x: NodeId| if kids@.skip(k as int).contains(x) { p[id] } else { p[x] },
                ),
                forall|i: int| 0 <= i < kids@.len() ==> html_node_ids(*doc).contains(#[trigger] kids@[i]) && kids@[i] != id,
                forall|i: int, j: int| 0 <= i < j < kids@.len() ==> kids@[i] != kids@[j],
            decreases k,
        {
            k -= 1;
            let ghost before = html_parents(*doc);
            assert(kids@.contains(kids@[k as int]));
            assert(!kids@.skip(k + 1).contains(kids@[k as int])) by {
                if kids@.skip(k + 1).contains(kids@[k as int]) {
                    let j = choose|j: int| 0 <= j < kids@.skip(k + 1).len() && #[trigger] kids@.skip(k + 1)[j] == kids@[k as int];
                    assert(kids@[k + 1 + j] == kids@[k as int]);
                }
            }
            assert(p[kids@[k as int]] == id);
            assert(before[id] == p[id]) by {
                assert(!kids@.skip(k + 1).contains(id)) by {
                    if kids@.skip(k + 1).contains(id) {
                        let j = choose|j: int| 0 <= j < kids@.skip(k + 1).len() && #[trigger] kids@.skip(k + 1)[j] == id;
                        assert(kids@[k + 1 + j] == id);
                    }
                }
            }
            insert_id_before(doc, id, kids[k]);
            proof {
                assert forall|x: NodeId| kids@.skip(k as int).contains(x) <==> (kids@.skip(k + 1).contains(x) || x == kids@[k as int]) by {
                    if kids@.skip(k as int).contains(x) {
                        let j = choose|j: int| 0 <= j < kids@.skip(k as int).len() && #[trigger] kids@.skip(k as int)[j] == x;
                        if j > 0 {
                            assert(kids@.skip(k + 1)[j - 1] == x);
                        }
                    }
                    if kids@.skip(k + 1).contains(x) {
                        let j = choose|j: int| 0 <= j < kids@.skip(k + 1).len() && #[trigger] kids@.skip(k + 1)[j] == x;
                        assert(kids@.skip(k as int)[j + 1] == x);
                    }
                    if x == kids@[k as int] {
                        assert(kids@.skip(k as int)[0] == x);
                    }
                }
                assert(html_parents(*doc) =~= Map::new(
                    |x: NodeId| p.contains_key(x),
                    |x: NodeId| if kids@.skip(k as int).contains(x) { p[id] } else { p[x] },
                ));
            }
        }
        detach(doc, id);
        proof {
            assert(kids@.skip(0) =~= kids@);
            assert(html_parents(*doc) =~= parents_unwrapped(p, id));
        }
    } else {
        detach(doc, id);
        assert(html_parents(*doc) =~= p);
    }
}

/// The parent links after the nodes `ids` are unwrapped in turn.
pub open spec fn parents_unwrapped_all(p: Map<NodeId, NodeId>, ids: Seq<NodeId>) -> Map<NodeId, NodeId>
    decreases ids.len(),
{
    if ids.len() == 0 {
        p
    } else {
        parents_unwrapped(parents_unwrapped_all(p, ids.drop_last()), ids.last())
    }
}

/// From `before` to `after`: the elements that `selector` selects in
/// `before` unwrapped in turn, every element's data kept.
pub open spec fn unwrapped_by(before: Html, after: Html, selector: Seq<char>) -> bool {
    &&& html_parents(after) == parents_unwrapped_all(html_parents(before), selected(before, selector))
    &&& html_elements(after) == html_elements(before)
}

/// Documents one after another, each made from the one before by
/// unwrapping what the matching selector selects in it.
pub open spec fn unwrap_chain(docs: Seq<Html>, selectors: Seq<Seq<char>>) -> bool {
    &&& docs.len() == selectors.len() + 1
    &&& forall|i: int| 0 <= i < selectors.len() ==> unwrapped_by(#[trigger] docs[i], docs[i + 1], selectors[i])
}

/// From `before` to `after`: `selectors` applied in turn, each unwrapping
/// what it selects in the document as the earlier ones left it.
pub open spec fn unwrapped_in_turn(before: Html, after: Html, selectors: Seq<Seq<char>>) -> bool {
    exists|docs: Seq<Html>|
        #[trigger] unwrap_chain(docs, selectors) && docs[0] == before && docs.last() == after
}

/// An unwrapping chain grows by one more step.
proof fn lemma_unwrap_chain_push(docs: Seq<Html>, sels: Seq<Seq<char>>, d: Html, s: Seq<char>)
    requires
        unwrap_chain(docs, sels),
        unwrapped_by(docs.last(), d, s),
    ensures
        unwrap_chain(docs.push(d), sels.push(s)),
        docs.push(d)[0] == docs[0],
        docs.push(d).last() == d,
{
    let nd = docs.push(d);
    let ns = sels.push(s);
    assert forall|k: int| 0 <= k < ns.len() implies unwrapped_by(#[trigger] nd[k], nd[k + 1], ns[k]) by {
        if k < sels.len() {
            assert(unwrapped_by(docs[k], docs[k + 1], sels[k]));
        }
    }
}

fn unwrap_selected(doc: &mut Html, sel: &Selector)
    ensures
        html_parents(*final(doc)) == parents_unwrapped_all(html_parents(*old(doc)), html_selection(*old(doc), *sel)),
        html_elements(*final(doc)) == html_elements(*old(doc)),
{
    let ids = select_ids(doc, sel);
    let mut i: usize = 0;
    while i < ids.len()
        invariant
            i <= ids@.len(),
            ids@ == html_selection(*old(doc), *sel),
            html_parents(*doc) == parents_unwrapped_all(html_parents(*old(doc)), ids@.take(i as int)),
            html_elements(*doc) == html_elements(*old(doc)),
        decreases ids@.len() - i,
    {
        assert(ids@.take(i + 1).drop_last() =~= ids@.take(i as int));
        unwrap_node(doc, ids[i]);
        i += 1;
    }
    assert(ids@.take(ids@.len() as int) =~= ids@);
}

/// From `before` to `after`: node `id` out of its parent (a text node in its
/// place), every other parent link and every element's data kept.
pub open spec fn node_replaced(before: Html, after: Html, id: NodeId) -> bool {
    &&& html_elements(after) == html_elements(before)
    &&& !html_parents(after).contains_key(id)
    &&& html_node_ids(before).contains(id)
    &&& html_node_ids(before).subset_of(html_node_ids(after))
    &&& forall|k: NodeId| #[trigger] html_parents(after).contains_key(k) ==> html_parents(before).contains_key(k)
        || !html_node_ids(before).contains(k)
    &&& forall|k: NodeId|
        #[trigger] html_parents(before).contains_key(k) && k != id ==> html_parents(after).contains_key(k)
            && html_parents(after)[k] == html_parents(before)[k]
}

/// From `before` to `after`: the elements that `selector` selects in
/// `before` replaced by text nodes, every other parent link and every
/// element's data kept.
pub open spec fn replaced_by_text(before: Html, after: Html, selector: Seq<char>) -> bool {
    texts_replaced(before, after, selected(before, selector))
}

fn replace_with_text(doc: &mut Html, id: NodeId, text: &str)
    ensures
        html_parents(*old(doc)).contains_key(id) ==> node_replaced(*old(doc), *final(doc), id),
        !html_parents(*old(doc)).contains_key(id) ==> *final(doc) == *old(doc),
{
    if parent_id(doc, id).is_some() {
        insert_text_before(doc, id, text);
        detach(doc, id);
    }
}

/// From `before` to `after`: the nodes `ids` out of their parents (text
/// nodes in their places), every other parent link and every element's data
/// kept.
pub open spec fn texts_replaced(before: Html, after: Html, ids: Seq<NodeId>) -> bool {
    &&& html_elements(after) == html_elements(before)
    &&& forall|k: NodeId| #[trigger] html_parents(before).contains_key(k) ==> if ids.contains(k) {
        !html_parents(after).contains_key(k) && html_node_ids(after).contains(k)
    } else {
        html_parents(after).contains_key(k) && html_parents(after)[k] == html_parents(before)[k]
    }
}

/// One more node replaced after `ids.take(i)`.
proof fn lemma_text_step(b: Html, m: Html, a: Html, ids: Seq<NodeId>, i: int)
    requires
        0 <= i < ids.len(),
        texts_replaced(b, m, ids.take(i)),
        html_parents(m).contains_key(ids[i]) ==> node_replaced(m, a, ids[i]),
        !html_parents(m).contains_key(ids[i]) ==> a == m,
    ensures
        texts_replaced(b, a, ids.take(i + 1)),
{
    assert forall|k: NodeId| #[trigger] html_parents(b).contains_key(k) implies if ids.take(i + 1).contains(k) {
        !html_parents(a).contains_key(k) && html_node_ids(a).contains(k)
    } else {
        html_parents(a).contains_key(k) && html_parents(a)[k] == html_parents(b)[k]
    } by {
        if ids.take(i + 1).contains(k) {
            let j = choose|j: int| 0 <= j < i + 1 && #[trigger] ids.take(i + 1)[j] == k;
            if j < i {
                assert(ids.take(i)[j] == k);
                assert(ids.take(i).contains(k));
            }
        } else {
            assert(!ids.take(i).contains(k)) by {
                if ids.take(i).contains(k) {
                    let j = choose|j: int| 0 <= j < i && #[trigger] ids.take(i)[j] == k;
                    assert(ids.take(i + 1)[j] == k);
                }
            }
            assert(k != ids[i]) by {
                assert(ids.take(i + 1)[i] == ids[i]);
            }
            assert(html_parents(m).contains_key(k));
        }
    }
}

/// Replaces each of `ids` that still has a parent by its text.
fn replace_each_with_text(doc: &mut Html, ids: &Vec<NodeId>)
    ensures
        texts_replaced(*old(doc), *final(doc), ids@),
{
    let mut i: usize = 0;
    while i < ids.len()
        invariant
            i <= ids@.len(),
            texts_replaced(*old(doc), *doc, ids@.take(i as int)),
        decreases ids@.len() - i,
    {
        let ghost before = *doc;
        replace_with_inner_text(doc, ids[i]);
        proof {
            lemma_text_step(*old(doc), before, *doc, ids@, i as int);
        }
        i += 1;
    }
    assert(ids@.take(ids@.len() as int) =~= ids@);
}

fn replace_with_inner_text(doc: &mut Html, id: NodeId)
    ensures
        html_parents(*old(doc)).contains_key(id) ==> node_replaced(*old(doc), *final(doc), id),
        !html_parents(*old(doc)).contains_key(id) ==> *final(doc) == *old(doc),
{
    let t = subtree_text(doc, id);
    let t = trim_string(t.as_str(), TrimSet::UnicodeWs);
    replace_with_text(doc, id, t.as_str());
}

/// The elements a selector text selects in a document: none where it does
/// not parse.
pub open spec fn selected(doc: Html, selector: Seq<char>) -> Seq<NodeId> {
    match selector_error_result(selector) {
        None => html_selection(doc, parsed_selector(selector)),
        Some(_) => Seq::empty(),
    }
}

fn ids_of(doc: &Html, selector: &str) -> (r: Vec<NodeId>)
    ensures
        r@ == selected(*doc, selector@),
        forall|i: int| 0 <= i < r@.len() ==> html_elements(*doc).contains_key(#[trigger] r@[i]),
{
    match parse_selector(selector) {
        Ok(sel) => select_ids(doc, &sel),
        Err(_) => Vec::new(),
    }
}

fn detach_by_tag(doc: &mut Html, tag: &str)
    ensures
        selector_error_result(tag@) is Some ==> *final(doc) == *old(doc),
        detached_by(*old(doc), *final(doc), tag@),
{
    match parse_selector(tag) {
        Ok(sel) => detach_selected(doc, &sel),
        Err(_) => {
            assert(html_parents(*doc) =~= html_parents(*doc).remove_keys(Seq::<NodeId>::empty().to_set()));
        },
    }
}

fn unwrap_by_tag(doc: &mut Html, tag: &str)
    ensures
        selector_error_result(tag@) is Some ==> *final(doc) == *old(doc),
        unwrapped_by(*old(doc), *final(doc), tag@),
{
    match parse_selector(tag) {
        Ok(sel) => unwrap_selected(doc, &sel),
        Err(_) => {},
    }
}

/// A warning, with the document's path when there is one.
fn warning_at(message: &str, path: Option<&str>) -> (d: Diagnostic)
    ensures
        d.kind == crate::diagnostic::DiagnosticKind::Warning,
        d.message@ == message@,
        match path {
            Some(p) => d.path.is_some() && d.path.unwrap()@ == p@,
            None => d.path.is_none(),
        },
        d.selector.is_none(),
        d.rule.is_none(),
{
    let d = Diagnostic::warning(message);
    match path {
        Some(p) => d.with_path(p),
        None => d,
    }
}

fn selector_message(prefix: &str, s: &str, e: &str) -> (r: String)
    ensures
        r@ == prefix@ + s@ + ": "@ + e@,
{
    let mut m = String::new();
    push_str(&mut m, prefix);
    push_str(&mut m, s);
    push_str(&mut m, ": ");
    push_str(&mut m, e);
    proof {
        reveal_strlit(": ");
    }
    m
}

// ---------------------------------------------------------------------------
// Passes
// ---------------------------------------------------------------------------

/// The selectors of hidden content: the `hidden` attribute, `aria-hidden`
/// true, and inline styles that hide.
pub open spec fn hidden_selectors() -> Seq<Seq<char>> {
    seq![
        "[hidden]"@,
        "[aria-hidden=\"true\"]"@,
        "[style*=\"display:none\"]"@,
        "[style*=\"display: none\"]"@,
        "[style*=\"visibility:hidden\"]"@,
        "[style*=\"visibility: hidden\"]"@,
    ]
}

/// From `before` to `after`: hidden content removed as the options say.
pub open spec fn hidden_removed(before: Html, after: Html, o: ConversionOptions) -> bool {
    &&& o.cleanup.hidden_content_policy == HiddenContentPolicy::Show ==> after == before
    &&& o.cleanup.hidden_content_policy != HiddenContentPolicy::Show ==> detached_in_turn(before, after, hidden_selectors())
}

/// Removes hidden elements (unless hidden content is shown).
pub fn remove_hidden(doc: &mut Html, options: &ConversionOptions)
    ensures
        hidden_removed(*old(doc), *final(doc), *options),
{
    if options.cleanup.hidden_content_policy == HiddenContentPolicy::Show {
        return;
    }
    let selectors = vec![
        "[hidden]",
        "[aria-hidden=\"true\"]",
        "[style*=\"display:none\"]",
        "[style*=\"display: none\"]",
        "[style*=\"visibility:hidden\"]",
        "[style*=\"visibility: hidden\"]",
    ];
    assert(str_views(selectors@) == hidden_selectors());
    let ghost mut docs: Seq<Html> = seq![*doc];
    let mut i: usize = 0;
    while i < selectors.len()
        invariant
            i <= selectors@.len(),
            str_views(selectors@) == hidden_selectors(),
            detach_chain(docs, hidden_selectors().take(i as int)),
            docs[0] == *old(doc),
            docs.last() == *doc,
        decreases selectors@.len() - i,
    {
        assert(selectors@[i as int]@ == hidden_selectors()[i as int]);
        detach_by_tag(doc, selectors[i]);
        proof {
            let prev = docs;
            docs = docs.push(*doc);
            assert forall|k: int| 0 <= k < i + 1 implies detached_by(
                #[trigger] docs[k],
                docs[k + 1],
                hidden_selectors().take(i + 1)[k],
            ) by {
                if k < i {
                    assert(detached_by(prev[k], prev[k + 1], hidden_selectors().take(i as int)[k]));
                }
            }
        }
        i += 1;
    }
    assert(hidden_selectors().take(6) =~= hidden_selectors());
}

/// From `before` to `after`: the configured tags removed.
pub open spec fn tags_removed(before: Html, after: Html, o: ConversionOptions) -> bool {
    &&& o.cleanup.remove_tags@.len() == 0 ==> after == before
    &&& detached_in_turn(before, after, views(o.cleanup.remove_tags).map_values(|t: Seq<char>| crate::cleanup::remove_selector(t, o.semantic.math.enabled)))
}

/// Removes the configured tags (math scripts kept when math is on).
pub fn apply_remove_tags(doc: &mut Html, options: &ConversionOptions)
    ensures
        tags_removed(*old(doc), *final(doc), *options),
{
    let mut selectors: Vec<String> = Vec::new();
    let mut i: usize = 0;
    while i < options.cleanup.remove_tags.len()
        invariant
            i <= options.cleanup.remove_tags@.len(),
            views(selectors) == views(options.cleanup.remove_tags).take(i as int).map_values(
                |t: Seq<char>| crate::cleanup::remove_selector(t, options.semantic.math.enabled),
            ),
        decreases options.cleanup.remove_tags@.len() - i,
    {
        let s = remove_tag_selector(options.cleanup.remove_tags[i].as_str(), options.semantic.math.enabled);
        let ghost before = views(selectors);
        selectors.push(s);
        assert(views(selectors) =~= before.push(s@));
        i += 1;
        assert(views(selectors) =~= views(options.cleanup.remove_tags).take(i as int).map_values(
            |t: Seq<char>| crate::cleanup::remove_selector(t, options.semantic.math.enabled),
        ));
    }
    assert(views(options.cleanup.remove_tags).take(i as int) =~= views(options.cleanup.remove_tags));
    let ghost d0 = *doc;
    detach_each(doc, &selectors);
    proof {
        if options.cleanup.remove_tags@.len() == 0 {
            let docs = choose|docs: Seq<Html>| #[trigger] detach_chain(docs, views(selectors)) && docs[0] == d0 && docs.last() == *doc;
            assert(views(selectors).len() == 0);
        }
    }
}

/// The selectors of footnote lists.
pub open spec fn footnote_list_selectors() -> Seq<Seq<char>> {
    seq![".footnotes ol"@, ".footnote-list"@, "ol.footnotes"@]
}

/// From `before` to `after`: footnote lists unwrapped when footnotes are on.
pub open spec fn footnotes_unwrapped(before: Html, after: Html, o: ConversionOptions) -> bool {
    &&& !o.semantic.footnotes ==> after == before
    &&& o.semantic.footnotes ==> unwrapped_in_turn(before, after, footnote_list_selectors())
}

/// Unwraps footnote lists so their items render in place.
pub fn apply_footnote_cleanup(doc: &mut Html, options: &ConversionOptions)
    ensures
        footnotes_unwrapped(*old(doc), *final(doc), *options),
{
    if !options.semantic.footnotes {
        return;
    }
    let selectors = vec![".footnotes ol", ".footnote-list", "ol.footnotes"];
    assert(str_views(selectors@) == footnote_list_selectors());
    let ghost mut docs: Seq<Html> = seq![*doc];
    let mut i: usize = 0;
    while i < selectors.len()
        invariant
            i <= selectors@.len(),
            str_views(selectors@) == footnote_list_selectors(),
            unwrap_chain(docs, footnote_list_selectors().take(i as int)),
            docs[0] == *old(doc),
            docs.last() == *doc,
        decreases selectors@.len() - i,
    {
        assert(selectors@[i as int]@ == footnote_list_selectors()[i as int]);
        unwrap_by_tag(doc, selectors[i]);
        proof {
            lemma_unwrap_chain_push(docs, footnote_list_selectors().take(i as int), *doc, footnote_list_selectors()[i as int]);
            assert(footnote_list_selectors().take(i as int).push(footnote_list_selectors()[i as int])
                =~= footnote_list_selectors().take(i + 1));
            docs = docs.push(*doc);
        }
        i += 1;
    }
    assert(footnote_list_selectors().take(3) =~= footnote_list_selectors());
}

/// From `before` to `after`: one per-tag behaviour (selector, action)
/// applied.
pub open spec fn tag_behavior_step(before: Html, after: Html, entry: (Seq<char>, Seq<char>)) -> bool {
    match crate::cleanup::tag_action_of(entry.1) {
        TagAction::Drop => detached_by(before, after, entry.0),
        TagAction::Unwrap => unwrapped_by(before, after, entry.0),
        TagAction::Text => replaced_by_text(before, after, entry.0),
        TagAction::Keep => after == before,
    }
}

/// Documents one after another, each made from the one before by the
/// matching per-tag behaviour.
pub open spec fn tag_behavior_chain(docs: Seq<Html>, entries: Seq<(Seq<char>, Seq<char>)>) -> bool {
    &&& docs.len() == entries.len() + 1
    &&& forall|i: int| 0 <= i < entries.len() ==> tag_behavior_step(#[trigger] docs[i], docs[i + 1], entries[i])
}

/// From `before` to `after`: the per-tag behaviours applied in turn.
pub open spec fn tag_behaviors_applied(before: Html, after: Html, o: ConversionOptions) -> bool {
    let entries = crate::options::tag_behavior_entries(o.cleanup.per_tag_behavior);
    &&& (forall|i: int|
        0 <= i < entries.len() ==> ({
            let e = #[trigger] entries[i];
            crate::cleanup::tag_action_of(e.1) is Keep || selector_error_result(e.0) is Some
        })) ==> after == before
    &&& exists|docs: Seq<Html>| #[trigger] tag_behavior_chain(docs, entries) && docs[0] == before && docs.last() == after
}

/// Applies the per-tag behaviours: drop, unwrap, or keep only the text.
pub fn apply_per_tag_behavior(doc: &mut Html, options: &ConversionOptions)
    ensures
        tag_behaviors_applied(*old(doc), *final(doc), *options),
{
    let ghost mut docs: Seq<Html> = seq![*doc];
    let ghost entries_view = crate::options::tag_behavior_entries(options.cleanup.per_tag_behavior);
    let ghost all_kept = forall|i: int|
        0 <= i < entries_view.len() ==> ({
            let e = #[trigger] entries_view[i];
            crate::cleanup::tag_action_of(e.1) is Keep || selector_error_result(e.0) is Some
        });
    let entries = crate::options::tag_behavior_list(&options.cleanup.per_tag_behavior);
    let mut i: usize = 0;
    while i < entries.len()
        invariant
            i <= entries@.len(),
            entries@.map_values(|e: (String, String)| (e.0@, e.1@)) == entries_view,
            all_kept == forall|i: int|
                0 <= i < entries_view.len() ==> ({
                    let e = #[trigger] entries_view[i];
                    crate::cleanup::tag_action_of(e.1) is Keep || selector_error_result(e.0) is Some
                }),
            all_kept ==> *doc == *old(doc),
            tag_behavior_chain(docs, entries_view.take(i as int)),
            docs[0] == *old(doc),
            docs.last() == *doc,
        decreases entries@.len() - i,
    {
        assert(entries_view[i as int] == (entries@[i as int].0@, entries@[i as int].1@));
        let ghost prev = *doc;
        let (tag, action) = (&entries[i].0, &entries[i].1);
        match parse_selector(tag.as_str()) {
            Ok(sel) => match tag_action(action.as_str()) {
                TagAction::Drop => detach_selected(doc, &sel),
                TagAction::Unwrap => unwrap_selected(doc, &sel),
                TagAction::Text => {
                    let ids = select_ids(doc, &sel);
                    replace_each_with_text(doc, &ids);
                },
                TagAction::Keep => {},
            },
            Err(_) => {
                assert(html_parents(*doc) =~= html_parents(*doc).remove_keys(Seq::<NodeId>::empty().to_set()));
            },
        }
        proof {
            let e = entries_view[i as int];
            assert(tag_behavior_step(prev, *doc, e));
            let nd = docs.push(*doc);
            let ne = entries_view.take(i + 1);
            assert forall|k: int| 0 <= k < ne.len() implies tag_behavior_step(#[trigger] nd[k], nd[k + 1], ne[k]) by {
                if k < i {
                    assert(tag_behavior_step(docs[k], docs[k + 1], entries_view.take(i as int)[k]));
                }
            }
            docs = nd;
        }
        i += 1;
    }
    assert(entries_view.take(entries@.len() as int) =~= entries_view);
}

/// From `before` to `after`: headings shifted by the heading offset.
pub open spec fn headings_offset(before: Html, after: Html, o: ConversionOptions) -> bool {
    &&& o.semantic.heading_offset == 0 ==> after == before
    &&& o.semantic.heading_offset != 0 ==> html_elements(after) == headings_shifted(html_elements(before), selected(before, "h1,h2,h3,h4,h5,h6"@), o.semantic.heading_offset as int)
    &&& html_parents(after) == html_parents(before)
}

/// Shifts heading levels by the heading offset, within `h1` ..= `h6`.
pub fn apply_heading_offset(doc: &mut Html, options: &ConversionOptions)
    ensures
        headings_offset(*old(doc), *final(doc), *options),
{
    let offset = options.semantic.heading_offset;
    if offset == 0 {
        return;
    }
    let ids = ids_of(doc, "h1,h2,h3,h4,h5,h6");
    let mut i: usize = 0;
    while i < ids.len()
        invariant
            i <= ids@.len(),
            offset == options.semantic.heading_offset,
            ids@ == selected(*old(doc), "h1,h2,h3,h4,h5,h6"@),
            html_elements(*doc) == headings_shifted(html_elements(*old(doc)), ids@.take(i as int), offset as int),
            html_parents(*doc) == html_parents(*old(doc)),
        decreases ids@.len() - i,
    {
        assert(ids@.take(i + 1).drop_last() =~= ids@.take(i as int));
        match element_parts(doc, ids[i]) {
            Some((tag, _)) => match heading_offset_tag(tag.as_str(), offset) {
                Some(t) => rename(doc, ids[i], t.as_str()),
                None => {},
            },
            None => {},
        }
        i += 1;
    }
    assert(ids@.take(ids@.len() as int) =~= ids@);
}

/// The elements `ids`, in turn, renamed to the heading the offset gives
/// them (where it changes).
pub open spec fn headings_shifted(
    e: Map<NodeId, (Seq<char>, Seq<AttrTriple>)>,
    ids: Seq<NodeId>,
    offset: int,
) -> Map<NodeId, (Seq<char>, Seq<AttrTriple>)>
    decreases ids.len(),
{
    if ids.len() == 0 {
        e
    } else {
        let p = headings_shifted(e, ids.drop_last(), offset);
        let id = ids.last();
        if p.contains_key(id) {
            match crate::cleanup::shifted_heading(p[id].0, offset) {
                Some(t) => p.insert(id, (t, p[id].1)),
                None => p,
            }
        } else {
            p
        }
    }
}

/// Detaches (`drop`) or unwraps the elements of a list of selectors; an
/// invalid selector is a warning, and in strict mode the error.
fn apply_selector_list(
    doc: &mut Html,
    list: &Vec<String>,
    unwrap: bool,
    what: &str,
    options: &ConversionOptions,
    path: Option<&str>,
    diagnostics: &mut Vec<Diagnostic>,
) -> (r: Result<()>)
    ensures
        r is Ok <==> !(options.strict && exists|i: int|
            0 <= i < list@.len() && crate::validation::selector_error_result(#[trigger] list@[i]@) is Some),
        old(diagnostics)@.is_prefix_of(final(diagnostics)@),
        !unwrap && r is Ok ==> detached_in_turn(*old(doc), *final(doc), views(*list)),
        unwrap && r is Ok ==> unwrapped_in_turn(*old(doc), *final(doc), views(*list)),
{
    let ghost mut docs: Seq<Html> = seq![*doc];
    let mut i: usize = 0;
    while i < list.len()
        invariant
            i <= list@.len(),
            !(options.strict && exists|j: int|
                0 <= j < i && crate::validation::selector_error_result(#[trigger] list@[j]@) is Some),
            !unwrap ==> detach_chain(docs, views(*list).take(i as int)),
            unwrap ==> unwrap_chain(docs, views(*list).take(i as int)),
            docs.len() == i + 1,
            old(diagnostics)@.is_prefix_of(diagnostics@),
            docs[0] == *old(doc),
            docs.last() == *doc,
        decreases list@.len() - i,
    {
        let s = list[i].as_str();
        assert(views(*list)[i as int] == s@);
        let ghost prev = *doc;
        match parse_selector(s) {
            Ok(sel) => {
                if unwrap {
                    unwrap_selected(doc, &sel);
                } else {
                    detach_selected(doc, &sel);
                }
            },
            Err(e) => {
                let msg = selector_message(what, s, e.as_str());
                diagnostics.push(warning_at(msg.as_str(), path));
                if options.strict {
                    return Err(Error::Selector(selector_message("invalid selector ", s, e.as_str())));
                }
                assert(html_parents(*doc) =~= html_parents(*doc).remove_keys(Seq::<NodeId>::empty().to_set()));
            },
        }
        proof {
            if !unwrap {
                lemma_chain_push(docs, views(*list).take(i as int), *doc, s@);
            } else {
                lemma_unwrap_chain_push(docs, views(*list).take(i as int), *doc, s@);
            }
            assert(views(*list).take(i as int).push(s@) =~= views(*list).take(i + 1));
            docs = docs.push(*doc);
        }
        i += 1;
    }
    assert(views(*list).take(list@.len() as int) =~= views(*list));
    Ok(())
}

/// The selectors keep-only tries, in order: the extract selector, the main
/// content selector, then the keep-only list.
pub open spec fn keep_selectors(c: CleanupOptions) -> Seq<Seq<char>> {
    (match c.extract_selector {
        Some(s) => seq![s@],
        None => Seq::empty(),
    }) + (match c.main_content_selector {
        Some(s) => seq![s@],
        None => Seq::empty(),
    }) + views(c.keep_only_selectors)
}

/// Every selector of `ss` parses.
pub open spec fn all_selectors_parse(ss: Seq<Seq<char>>) -> bool {
    forall|i: int| 0 <= i < ss.len() ==> selector_error_result(#[trigger] ss[i]) is None
}

/// The element keep-only keeps: the first that the first of `sels` (from
/// `i` on) that selects anything selects.
pub open spec fn keep_choice(doc: Html, sels: Seq<Seq<char>>, i: int) -> Option<NodeId>
    decreases sels.len() - i,
{
    if i < 0 || i >= sels.len() {
        None
    } else if selected(doc, sels[i]).len() > 0 {
        Some(selected(doc, sels[i])[0])
    } else {
        keep_choice(doc, sels, i + 1)
    }
}

/// Keeps only the first element that the first matching keep selector
/// selects, as a document of its own. An invalid selector is a warning, and
/// an error in strict mode.
pub fn apply_keep_only(
    doc: &mut Html,
    options: &ConversionOptions,
    path: Option<&str>,
    diagnostics: &mut Vec<Diagnostic>,
) -> (r: Result<()>)
    ensures
        !options.strict ==> r is Ok,
        all_selectors_parse(keep_selectors(options.cleanup)) ==> r is Ok,
        r is Err ==> options.strict && r matches Err(Error::Selector(_)),
        options.strict && keep_selectors(options.cleanup).len() > 0 && selector_error_result(
            keep_selectors(options.cleanup)[0],
        ) is Some ==> r is Err,
        keep_selectors(options.cleanup).len() == 0 ==> r is Ok && *final(doc) == *old(doc)
            && final(diagnostics)@ == old(diagnostics)@,
        old(diagnostics)@.is_prefix_of(final(diagnostics)@),
        r is Ok ==> *final(doc) == match keep_choice(*old(doc), keep_selectors(options.cleanup), 0) {
            Some(id) => parsed_html(html_outer(*old(doc), id)),
            None => *old(doc),
        },
{
    let ghost c = options.cleanup;
    let ghost head = (match c.extract_selector {
        Some(s) => seq![s@],
        None => Seq::<Seq<char>>::empty(),
    }) + (match c.main_content_selector {
        Some(s) => seq![s@],
        None => Seq::<Seq<char>>::empty(),
    });
    let mut selectors: Vec<String> = Vec::new();
    match &options.cleanup.extract_selector {
        Some(s) => selectors.push(s.clone()),
        None => {},
    }
    match &options.cleanup.main_content_selector {
        Some(s) => selectors.push(s.clone()),
        None => {},
    }
    assert(views(selectors) =~= head);
    let mut k: usize = 0;
    while k < options.cleanup.keep_only_selectors.len()
        invariant
            k <= options.cleanup.keep_only_selectors@.len(),
            views(selectors) == head + views(options.cleanup.keep_only_selectors).take(k as int),
        decreases options.cleanup.keep_only_selectors@.len() - k,
    {
        let ghost before = views(selectors);
        selectors.push(options.cleanup.keep_only_selectors[k].clone());
        assert(views(selectors) =~= before.push(options.cleanup.keep_only_selectors@[k as int]@));
        k += 1;
        assert(views(options.cleanup.keep_only_selectors).take(k as int) =~= views(options.cleanup.keep_only_selectors).take(k - 1).push(options.cleanup.keep_only_selectors@[k - 1]@));
    }
    assert(views(options.cleanup.keep_only_selectors).take(k as int) =~= views(options.cleanup.keep_only_selectors));
    assert(views(selectors) == keep_selectors(options.cleanup));
    if selectors.len() == 0 {
        return Ok(());
    }
    let mut chosen: Option<String> = None;
    let mut i: usize = 0;
    while i < selectors.len()
        invariant_except_break
            chosen is None,
        invariant
            i <= selectors@.len(),
            views(selectors) == keep_selectors(options.cleanup),
            old(diagnostics)@.is_prefix_of(diagnostics@),
            options.strict && selector_error_result(keep_selectors(options.cleanup)[0]) is Some
                ==> i == 0 && chosen is None,
            *doc == *old(doc),
            chosen is None ==> keep_choice(*doc, keep_selectors(options.cleanup), 0) == keep_choice(
                *doc,
                keep_selectors(options.cleanup),
                i as int,
            ),
            chosen matches Some(h) ==> keep_choice(*doc, keep_selectors(options.cleanup), 0) matches Some(id)
                && h@ == html_outer(*doc, id),
        ensures
            i >= selectors@.len() || chosen is Some,
        decreases selectors@.len() - i,
    {
        assert(views(selectors)[i as int] == selectors@[i as int]@);
        let s = selectors[i].as_str();
        match parse_selector(s) {
            Ok(sel) => {
                let ids = select_ids(doc, &sel);
                if ids.len() > 0 {
                    assert(keep_selectors(options.cleanup)[i as int] == s@);
                    assert(selected(*doc, keep_selectors(options.cleanup)[i as int]) == ids@);
                    assert(keep_choice(*doc, keep_selectors(options.cleanup), i as int) == Some(ids@[0]));
                    chosen = Some(outer_html(doc, ids[0]));
                    break;
                }
                assert(selected(*doc, keep_selectors(options.cleanup)[i as int]) == ids@);
            },
            Err(e) => {
                assert(keep_selectors(options.cleanup)[i as int] == s@);
                let msg = selector_message("invalid keep selector ", s, e.as_str());
                diagnostics.push(warning_at(msg.as_str(), path));
                if options.strict {
                    return Err(Error::Selector(selector_message("invalid selector ", s, e.as_str())));
                }
            },
        }
        i += 1;
    }
    match chosen {
        Some(h) => {
            *doc = parse_document(h.as_str());
        },
        None => {},
    }
    Ok(())
}

/// Every selector of every custom rule parses.
pub open spec fn rule_selectors_parse(rules: Seq<CustomRule>) -> bool {
    forall|i: int, j: int|
        0 <= i < rules.len() && 0 <= j < rules[i].selectors@.len()
            ==> selector_error_result(#[trigger] rules[i].selectors@[j]@) is None
}

/// Runs the custom rules that act on the tree (drop, unwrap, text), rules
/// in priority order.
/// The (selector, action) steps of one rule.
pub open spec fn selector_steps(rule: CustomRule) -> Seq<(Seq<char>, CustomRuleAction)> {
    rule.selectors@.map_values(|s: String| (s@, rule.action))
}

/// The (selector, action) steps of the rules taken in `order`.
pub open spec fn rule_steps(rules: Seq<CustomRule>, order: Seq<nat>) -> Seq<(Seq<char>, CustomRuleAction)>
    decreases order.len(),
{
    if order.len() == 0 {
        Seq::empty()
    } else {
        rule_steps(rules, order.drop_last()) + selector_steps(rules[order.last() as int])
    }
}

/// From `before` to `after`: one rule selector's tree action applied
/// (drop, unwrap or text; other actions leave the tree).
pub open spec fn rule_step(before: Html, after: Html, step: (Seq<char>, CustomRuleAction)) -> bool {
    match step.1 {
        CustomRuleAction::Drop => detached_by(before, after, step.0),
        CustomRuleAction::Unwrap => unwrapped_by(before, after, step.0),
        CustomRuleAction::Text => replaced_by_text(before, after, step.0),
        _ => after == before,
    }
}

/// Documents one after another, each made from the one before by the
/// matching rule step.
pub open spec fn rule_chain(docs: Seq<Html>, steps: Seq<(Seq<char>, CustomRuleAction)>) -> bool {
    &&& docs.len() == steps.len() + 1
    &&& forall|i: int| 0 <= i < steps.len() ==> rule_step(#[trigger] docs[i], docs[i + 1], steps[i])
}

proof fn lemma_rule_chain_push(docs: Seq<Html>, steps: Seq<(Seq<char>, CustomRuleAction)>, d: Html, st: (Seq<char>, CustomRuleAction))
    requires
        rule_chain(docs, steps),
        rule_step(docs.last(), d, st),
    ensures
        rule_chain(docs.push(d), steps.push(st)),
        docs.push(d)[0] == docs[0],
        docs.push(d).last() == d,
{
    let nd = docs.push(d);
    let ns = steps.push(st);
    assert forall|k: int| 0 <= k < ns.len() implies rule_step(#[trigger] nd[k], nd[k + 1], ns[k]) by {
        if k < steps.len() {
            assert(rule_step(docs[k], docs[k + 1], steps[k]));
        }
    }
}

/// The (selector, rule index) pairs of the rules taken in `order`.
pub open spec fn indexed_steps(rules: Seq<CustomRule>, order: Seq<nat>) -> Seq<(Seq<char>, nat)>
    decreases order.len(),
{
    if order.len() == 0 {
        Seq::empty()
    } else {
        let o = order.last();
        indexed_steps(rules, order.drop_last()) + rules[o as int].selectors@.map_values(|x: String| (x@, o))
    }
}

/// Of `steps`, those whose selector does not parse.
pub open spec fn invalid_steps(steps: Seq<(Seq<char>, nat)>) -> Seq<(Seq<char>, nat)>
    decreases steps.len(),
{
    if steps.len() == 0 {
        Seq::empty()
    } else {
        invalid_steps(steps.drop_last()) + if selector_error_result(steps.last().0) is Some {
            seq![steps.last()]
        } else {
            Seq::empty()
        }
    }
}

/// The view of an optional path.
pub open spec fn path_view(path: Option<&str>) -> Option<Seq<char>> {
    match path {
        Some(p) => Some(p@),
        None => None,
    }
}

/// `d` warns that selector `s` of rule `index` does not parse.
pub open spec fn rule_selector_warning(d: Diagnostic, s: Seq<char>, index: nat, path: Option<Seq<char>>) -> bool {
    &&& d.kind == crate::diagnostic::DiagnosticKind::Warning
    &&& d.message@ == "invalid custom rule selector "@ + s + ": "@ + selector_error_result(s).unwrap()
    &&& opt_view(d.path) == path
    &&& d.selector is None
    &&& d.rule matches Some(x) && x@ == crate::text::decimal(index)
}

/// `ds` is `before` followed by one warning per invalid step.
pub open spec fn rule_warnings(before: Seq<Diagnostic>, ds: Seq<Diagnostic>, invalid: Seq<(Seq<char>, nat)>, path: Option<Seq<char>>) -> bool {
    &&& ds.len() == before.len() + invalid.len()
    &&& ds.take(before.len() as int) == before
    &&& forall|i: int|
        0 <= i < invalid.len() ==> rule_selector_warning(#[trigger] ds[before.len() + i], invalid[i].0, invalid[i].1, path)
}

/// One more step after `steps`: its warning follows where its selector
/// does not parse.
proof fn lemma_rule_warning_step(
    before: Seq<Diagnostic>,
    ds: Seq<Diagnostic>,
    steps: Seq<(Seq<char>, nat)>,
    path: Option<Seq<char>>,
    st: (Seq<char>, nat),
    ds2: Seq<Diagnostic>,
)
    requires
        rule_warnings(before, ds, invalid_steps(steps), path),
        selector_error_result(st.0) is Some ==> ds2.len() == ds.len() + 1 && ds2.take(ds.len() as int) == ds
            && rule_selector_warning(ds2.last(), st.0, st.1, path),
        selector_error_result(st.0) is None ==> ds2 == ds,
    ensures
        rule_warnings(before, ds2, invalid_steps(steps.push(st)), path),
{
    assert(steps.push(st).drop_last() =~= steps);
    let inv = invalid_steps(steps);
    let inv2 = invalid_steps(steps.push(st));
    if selector_error_result(st.0) is Some {
        assert(inv2 == inv.push(st));
        assert(ds2.take(before.len() as int) =~= ds.take(before.len() as int));
        assert forall|i: int| 0 <= i < inv2.len() implies rule_selector_warning(
            #[trigger] ds2[before.len() + i],
            inv2[i].0,
            inv2[i].1,
            path,
        ) by {
            if i < inv.len() {
                assert(ds2[before.len() + i] == ds2.take(ds.len() as int)[before.len() + i]);
                assert(rule_selector_warning(ds[before.len() + i], inv[i].0, inv[i].1, path));
            }
        }
    } else {
        assert(inv2 =~= inv);
    }
}

#[verifier::rlimit(60)]
pub fn apply_custom_rules(
    doc: &mut Html,
    options: &ConversionOptions,
    path: Option<&str>,
    diagnostics: &mut Vec<Diagnostic>,
) -> (r: Result<()>)
    ensures
        r is Ok <==> !options.strict || rule_selectors_parse(options.extension.custom_rules@),
        r is Err ==> options.strict && r matches Err(Error::Selector(_)),
        old(diagnostics)@.is_prefix_of(final(diagnostics)@),
        !options.strict ==> rule_warnings(
            old(diagnostics)@,
            final(diagnostics)@,
            invalid_steps(
                indexed_steps(
                    options.extension.custom_rules@,
                    crate::rules::claim_order(
                        crate::rules::rule_prios(options.extension.custom_rules@),
                        options.extension.custom_rules@.len(),
                    ),
                ),
            ),
            path_view(path),
        ),
        r is Ok ==> exists|docs: Seq<Html>|
            #[trigger] rule_chain(
                docs,
                rule_steps(
                    options.extension.custom_rules@,
                    crate::rules::claim_order(
                        crate::rules::rule_prios(options.extension.custom_rules@),
                        options.extension.custom_rules@.len(),
                    ),
                ),
            ) && docs[0] == *old(doc) && docs.last() == *final(doc),
{
    let ghost mut docs: Seq<Html> = seq![*doc];
    let rules = &options.extension.custom_rules;
    let ghost co = crate::rules::claim_order(crate::rules::rule_prios(rules@), rules@.len());
    if rules.len() == 0 {
        assert(rule_steps(rules@, co) =~= Seq::<(Seq<char>, CustomRuleAction)>::empty());
        assert(rule_chain(docs, rule_steps(rules@, co)));
        assert(indexed_steps(rules@, co) =~= Seq::<(Seq<char>, nat)>::empty());
        assert(diagnostics@.take(diagnostics@.len() as int) =~= diagnostics@);
        return Ok(());
    }
    assert(diagnostics@.take(diagnostics@.len() as int) =~= diagnostics@);
    assert(indexed_steps(rules@, co.take(0)) =~= Seq::<(Seq<char>, nat)>::empty());
    let order = crate::rules::rules_by_priority(rules);
    let mut m: usize = 0;
    while m < order.len()
        invariant
            m <= order@.len(),
            order@.len() == rules@.len(),
            forall|j: int| 0 <= j < order@.len() ==> #[trigger] order@[j] < rules@.len(),
            rules == &options.extension.custom_rules,
            old(diagnostics)@.is_prefix_of(diagnostics@),
            co == crate::rules::claim_order(crate::rules::rule_prios(rules@), rules@.len()),
            order@.map_values(|x: usize| x as nat) == co,
            rule_chain(docs, rule_steps(rules@, co.take(m as int))),
            docs[0] == *old(doc),
            docs.last() == *doc,
            !options.strict ==> rule_warnings(
                old(diagnostics)@,
                diagnostics@,
                invalid_steps(indexed_steps(rules@, co.take(m as int))),
                path_view(path),
            ),
            options.strict ==> forall|p: int, j: int|
                0 <= p < m && 0 <= j < rules@[order@[p] as int].selectors@.len() ==> selector_error_result(
                    #[trigger] rules@[order@[p] as int].selectors@[j]@) is None,
        decreases order@.len() - m,
    {
        let index = order[m];
        let rule = &rules[index];
        assert(co[m as int] == index as nat);
        let ghost isteps = rule.selectors@.map_values(|x: String| (x@, index as nat));
        assert(indexed_steps(rules@, co.take(m as int)) + isteps.take(0) =~= indexed_steps(rules@, co.take(m as int)));
        let mut s_i: usize = 0;
        while s_i < rule.selectors.len()
            invariant
                s_i <= rule.selectors@.len(),
                index < rules@.len(),
                index == order@[m as int],
                m < order@.len(),
                *rule == rules@[index as int],
                rules == &options.extension.custom_rules,
                old(diagnostics)@.is_prefix_of(diagnostics@),
                rule_chain(docs, rule_steps(rules@, co.take(m as int)) + selector_steps(*rule).take(s_i as int)),
                docs[0] == *old(doc),
                docs.last() == *doc,
                isteps == rule.selectors@.map_values(|x: String| (x@, index as nat)),
                !options.strict ==> rule_warnings(
                    old(diagnostics)@,
                    diagnostics@,
                    invalid_steps(indexed_steps(rules@, co.take(m as int)) + isteps.take(s_i as int)),
                    path_view(path),
                ),
                options.strict ==> forall|p: int, j: int|
                    0 <= p < m && 0 <= j < rules@[order@[p] as int].selectors@.len() ==> selector_error_result(
                        #[trigger] rules@[order@[p] as int].selectors@[j]@) is None,
                options.strict ==> forall|j: int|
                    0 <= j < s_i ==> selector_error_result(#[trigger] rule.selectors@[j]@) is None,
            decreases rule.selectors@.len() - s_i,
        {
            let s = rule.selectors[s_i].as_str();
            assert(s@ == rules@[index as int].selectors@[s_i as int]@);
            let ghost prev = *doc;
            let ghost dprev = diagnostics@;
            match parse_selector(s) {
                Ok(sel) => {
                    match rule.action {
                        CustomRuleAction::Drop => detach_selected(doc, &sel),
                        CustomRuleAction::Unwrap => unwrap_selected(doc, &sel),
                        CustomRuleAction::Text => {
                            let ids = select_ids(doc, &sel);
                            replace_each_with_text(doc, &ids);
                        },
                        _ => {},
                    }
                },
                Err(e) => {
                    let msg = selector_message("invalid custom rule selector ", s, e.as_str());
                    let d = warning_at(msg.as_str(), path).with_rule(usize_to_string(index).as_str());
                    diagnostics.push(d);
                    if options.strict {
                        return Err(Error::Selector(msg));
                    }
                    assert(html_parents(*doc) =~= html_parents(*doc).remove_keys(Seq::<NodeId>::empty().to_set()));
                },
            }
            proof {
                let ist = (s@, index as nat);
                assert(isteps[s_i as int] == ist);
                if !options.strict {
                    if selector_error_result(s@) is Some {
                        assert(diagnostics@.take(dprev.len() as int) =~= dprev);
                    }
                    lemma_rule_warning_step(
                        old(diagnostics)@,
                        dprev,
                        indexed_steps(rules@, co.take(m as int)) + isteps.take(s_i as int),
                        path_view(path),
                        ist,
                        diagnostics@,
                    );
                    assert((indexed_steps(rules@, co.take(m as int)) + isteps.take(s_i as int)).push(ist)
                        =~= indexed_steps(rules@, co.take(m as int)) + isteps.take(s_i + 1));
                }
                let st = (s@, rule.action);
                assert(selector_steps(*rule)[s_i as int] == st);
                assert(rule_step(prev, *doc, st));
                lemma_rule_chain_push(docs, rule_steps(rules@, co.take(m as int)) + selector_steps(*rule).take(s_i as int), *doc, st);
                assert((rule_steps(rules@, co.take(m as int)) + selector_steps(*rule).take(s_i as int)).push(st)
                    =~= rule_steps(rules@, co.take(m as int)) + selector_steps(*rule).take(s_i + 1));
                docs = docs.push(*doc);
            }
            s_i += 1;
        }
        proof {
            assert(selector_steps(*rule).take(s_i as int) =~= selector_steps(*rule));
            assert(co.take(m + 1).drop_last() =~= co.take(m as int));
            assert(co.take(m + 1).last() == index as nat);
            assert(isteps.take(s_i as int) =~= isteps);
            assert(indexed_steps(rules@, co.take(m + 1)) == indexed_steps(rules@, co.take(m as int)) + isteps);
        }
        m += 1;
    }
    assert(co.take(order@.len() as int) =~= co);
    proof {
        if options.strict {
            assert forall|i: int, j: int|
                0 <= i < rules@.len() && 0 <= j < rules@[i].selectors@.len() implies selector_error_result(
                #[trigger] rules@[i].selectors@[j]@) is None by {
                crate::rules::lemma_claim_order_covers(crate::rules::rule_prios(rules@), rules@.len(), i as nat);
                let co = crate::rules::claim_order(crate::rules::rule_prios(rules@), rules@.len());
                let p = choose|p: int| 0 <= p < co.len() && #[trigger] co[p] == i as nat;
                assert(order@.map_values(|x: usize| x as nat)[p] == co[p]);
                assert(order@[p] as int == i);
            }
        }
    }
    Ok(())
}

/// From `before` to `after`: `details` elements handled as the options say.
pub open spec fn details_handled(before: Html, after: Html, o: ConversionOptions) -> bool {
    &&& o.cleanup.details_handling == DetailsHandling::Drop ==> detached_by(before, after, "details"@)
    &&& o.cleanup.details_handling == DetailsHandling::SummaryOnly ==> replaced_by_text(before, after, "details"@)
    &&& o.cleanup.details_handling == DetailsHandling::Expand ==> after == before
}

/// Replaces `details` elements as the details handling says.
pub fn apply_details_handling(doc: &mut Html, options: &ConversionOptions)
    ensures
        details_handled(*old(doc), *final(doc), *options),
{
    match options.cleanup.details_handling {
        DetailsHandling::Drop => detach_by_tag(doc, "details"),
        DetailsHandling::SummaryOnly => {
            let ids = ids_of(doc, "details");
            let mut i: usize = 0;
            while i < ids.len()
                invariant
                    i <= ids@.len(),
                    ids@ == selected(*old(doc), "details"@),
                    texts_replaced(*old(doc), *doc, ids@.take(i as int)),
                decreases ids@.len() - i,
            {
                let ghost before = *doc;
                let d = subtree(doc, ids[i]);
                let t = summary_text(&d);
                replace_with_text(doc, ids[i], t.as_str());
                proof {
                    lemma_text_step(*old(doc), before, *doc, ids@, i as int);
                }
                i += 1;
            }
            assert(ids@.take(ids@.len() as int) =~= ids@);
        },
        DetailsHandling::Expand => {},
    }
}

/// The ancestors of node `id`, innermost first, each as a tree.
fn ancestors_of(doc: &Html, id: NodeId) -> Vec<DomNode> {
    let mut out: Vec<DomNode> = Vec::new();
    let mut current = parent_id(doc, id);
    let mut fuel = arena_size(doc);
    while fuel > 0
        decreases fuel,
    {
        match current {
            Some(p) => {
                out.push(subtree(doc, p));
                current = parent_id(doc, p);
            },
            None => break,
        }
        fuel -= 1;
    }
    out
}

/// From `before` to `after`: forms handled as the options say.
pub open spec fn forms_handled(before: Html, after: Html, o: ConversionOptions) -> bool {
    &&& o.cleanup.form_handling == FormHandling::Drop ==> detached_by(before, after, "form"@)
    &&& o.cleanup.form_handling == FormHandling::Readable ==> replaced_by_text(before, after, "form"@)
    &&& o.cleanup.form_handling == FormHandling::Checklist ==> after == before
}

/// Replaces forms as the form handling says.
pub fn apply_form_handling(doc: &mut Html, options: &ConversionOptions)
    ensures
        forms_handled(*old(doc), *final(doc), *options),
{
    match options.cleanup.form_handling {
        FormHandling::Drop => detach_by_tag(doc, "form"),
        FormHandling::Readable => {
            let ids = ids_of(doc, "form");
            let mut i: usize = 0;
            while i < ids.len()
                invariant
                    i <= ids@.len(),
                    ids@ == selected(*old(doc), "form"@),
                    texts_replaced(*old(doc), *doc, ids@.take(i as int)),
                decreases ids@.len() - i,
            {
                let ghost before = *doc;
                let form = subtree(doc, ids[i]);
                let outer = ancestors_of(doc, ids[i]);
                let mut refs: Vec<&DomNode> = Vec::new();
                let mut k: usize = 0;
                while k < outer.len()
                    invariant
                        k <= outer@.len(),
                    decreases outer@.len() - k,
                {
                    refs.push(&outer[k]);
                    k += 1;
                }
                let t = form_readable_text(&form, &refs);
                replace_with_text(doc, ids[i], t.as_str());
                proof {
                    lemma_text_step(*old(doc), before, *doc, ids@, i as int);
                }
                i += 1;
            }
            assert(ids@.take(ids@.len() as int) =~= ids@);
        },
        FormHandling::Checklist => {},
    }
}

/// The custom elements (hyphenated names) under node `id`, in document
/// order, at most `fuel` levels down.
fn custom_element_ids(doc: &Html, id: NodeId, fuel: usize, out: &mut Vec<NodeId>)
    ensures
        fuel == 0 ==> final(out)@ == old(out)@,
        final(out)@.len() >= old(out)@.len(),
        final(out)@.subrange(0, old(out)@.len() as int) == old(out)@,
        forall|j: int| old(out)@.len() <= j < final(out)@.len() ==> is_custom_node(*doc, #[trigger] final(out)@[j]),
    decreases fuel,
{
    if fuel == 0 {
        return;
    }
    match element_parts(doc, id) {
        Some((tag, _)) => {
            if is_custom_element(tag.as_str()) {
                out.push(id);
            }
        },
        None => {},
    }
    assert(out@.subrange(0, old(out)@.len() as int) =~= old(out)@);
    let kids = child_ids(doc, id);
    let mut i: usize = 0;
    while i < kids.len()
        invariant
            i <= kids@.len(),
            fuel > 0,
            out@.len() >= old(out)@.len(),
            out@.subrange(0, old(out)@.len() as int) == old(out)@,
            forall|j: int| old(out)@.len() <= j < out@.len() ==> is_custom_node(*doc, #[trigger] out@[j]),
        decreases kids@.len() - i,
    {
        let ghost before = out@;
        custom_element_ids(doc, kids[i], fuel - 1, out);
        assert(out@.subrange(0, old(out)@.len() as int) =~= before.subrange(0, old(out)@.len() as int));
        assert forall|j: int| old(out)@.len() <= j < out@.len() implies is_custom_node(*doc, #[trigger] out@[j]) by {
            if j < before.len() {
                assert(out@[j] == out@.subrange(0, before.len() as int)[j]);
            }
        }
        i += 1;
    }
}

/// Is node `id` a custom element of `doc`?
pub open spec fn is_custom_node(doc: Html, id: NodeId) -> bool {
    html_elements(doc).contains_key(id) && crate::cleanup::custom_element(html_elements(doc)[id].0)
}

/// From `before` to `after`: nothing changed where custom elements are
/// preserved; else some custom elements unwrapped or dropped in turn (which
/// of them, all those under the root, is not stated), every element's data
/// kept.
pub open spec fn custom_elements_handled(before: Html, after: Html, o: ConversionOptions) -> bool {
    &&& o.cleanup.custom_element_policy == CustomElementPolicy::PreserveHtml ==> after == before
    &&& o.cleanup.custom_element_policy != CustomElementPolicy::PreserveHtml ==> exists|ids: Seq<NodeId>|
        #[trigger] custom_nodes_handled(before, after, ids, o.cleanup.custom_element_policy)
}

/// From `before` to `after`: the custom elements `ids` unwrapped (under the
/// unwrap policy) or detached in turn, every element's data kept.
pub open spec fn custom_nodes_handled(before: Html, after: Html, ids: Seq<NodeId>, policy: CustomElementPolicy) -> bool {
    &&& forall|j: int| 0 <= j < ids.len() ==> is_custom_node(before, #[trigger] ids[j])
    &&& html_elements(after) == html_elements(before)
    &&& html_parents(after) == if policy == CustomElementPolicy::Unwrap {
        parents_unwrapped_all(html_parents(before), ids)
    } else {
        html_parents(before).remove_keys(ids.to_set())
    }
}

/// Unwraps or drops custom elements.
pub fn apply_custom_elements(doc: &mut Html, options: &ConversionOptions)
    ensures
        custom_elements_handled(*old(doc), *final(doc), *options),
{
    let unwrap = match options.cleanup.custom_element_policy {
        CustomElementPolicy::Unwrap => true,
        CustomElementPolicy::Drop => false,
        CustomElementPolicy::PreserveHtml => return,
    };
    let mut ids: Vec<NodeId> = Vec::new();
    custom_element_ids(doc, root_id(doc), arena_size(doc), &mut ids);
    let mut i: usize = 0;
    while i < ids.len()
        invariant
            i <= ids@.len(),
            unwrap == (options.cleanup.custom_element_policy == CustomElementPolicy::Unwrap),
            options.cleanup.custom_element_policy != CustomElementPolicy::PreserveHtml,
            forall|j: int| 0 <= j < ids@.len() ==> is_custom_node(*old(doc), #[trigger] ids@[j]),
            html_elements(*doc) == html_elements(*old(doc)),
            html_parents(*doc) == if unwrap {
                parents_unwrapped_all(html_parents(*old(doc)), ids@.take(i as int))
            } else {
                html_parents(*old(doc)).remove_keys(ids@.take(i as int).to_set())
            },
        decreases ids@.len() - i,
    {
        assert(ids@.take(i + 1).drop_last() =~= ids@.take(i as int));
        proof {
            lemma_take_to_set(ids@, i as int);
        }
        if unwrap {
            unwrap_node(doc, ids[i]);
        } else {
            detach(doc, ids[i]);
            assert(html_parents(*doc) =~= html_parents(*old(doc)).remove_keys(ids@.take(i + 1).to_set()));
        }
        i += 1;
    }
    assert(ids@.take(ids@.len() as int) =~= ids@);
    assert(custom_nodes_handled(*old(doc), *doc, ids@, options.cleanup.custom_element_policy));
}

/// The elements `ids`, in turn, with attribute `name` set to `value`.
pub open spec fn elements_with_attr(
    e: Map<NodeId, (Seq<char>, Seq<AttrTriple>)>,
    ids: Seq<NodeId>,
    name: Seq<char>,
    value: Seq<char>,
) -> Map<NodeId, (Seq<char>, Seq<AttrTriple>)>
    decreases ids.len(),
{
    if ids.len() == 0 {
        e
    } else {
        element_with_attr(elements_with_attr(e, ids.drop_last(), name, value), ids.last(), name, value)
    }
}

/// The mark a table handling puts on every table, where it is one.
pub open spec fn table_mark(h: TableHandling) -> Option<Seq<char>> {
    match h {
        TableHandling::HtmlFallback => Some("html"@),
        TableHandling::CsvLike => Some("csv"@),
        _ => None,
    }
}

/// From `before` to `after`: tables dropped, or marked for HTML or CSV
/// output, as the table handling says (flattening, and what a difficult
/// table gets, are not stated).
pub open spec fn tables_handled(before: Html, after: Html, o: ConversionOptions) -> bool {
    &&& o.semantic.table_handling == TableHandling::Drop ==> detached_by(before, after, "table"@)
    &&& table_mark(o.semantic.table_handling) matches Some(v) ==> html_parents(after) == html_parents(before) && html_elements(after) == elements_with_attr(html_elements(before), selected(before, "table"@), "data-htmlmd-table"@, v)
}

/// Handles each table as the table handling says: kept, marked for HTML or
/// CSV output, flattened into paragraphs, or dropped.
pub fn apply_table_handling(doc: &mut Html, options: &ConversionOptions)
    ensures
        tables_handled(*old(doc), *final(doc), *options),
{
    let ids = ids_of(doc, "table");
    let mut i: usize = 0;
    while i < ids.len()
        invariant
            i <= ids@.len(),
            ids@ == selected(*old(doc), "table"@),
            options.semantic.table_handling == TableHandling::Drop ==> html_parents(*doc) == html_parents(
                *old(doc),
            ).remove_keys(ids@.take(i as int).to_set()) && html_elements(*doc) == html_elements(*old(doc)),
            table_mark(options.semantic.table_handling) matches Some(v) ==> html_parents(*doc) == html_parents(
                *old(doc),
            ) && html_elements(*doc) == elements_with_attr(
                html_elements(*old(doc)),
                ids@.take(i as int),
                "data-htmlmd-table"@,
                v,
            ),
        decreases ids@.len() - i,
    {
        assert(ids@.take(i + 1).drop_last() =~= ids@.take(i as int));
        proof {
            lemma_take_to_set(ids@, i as int);
        }
        let id = ids[i];
        let t = subtree(doc, id);
        let complex = is_complex_table(&t);
        let handling = table_handling_for(
            options.semantic.table_handling,
            options.semantic.difficult_table_strategy,
            complex,
        );
        match handling {
            TableHandling::Gfm => {},
            TableHandling::HtmlFallback => set_attr(doc, id, "data-htmlmd-table", "html"),
            TableHandling::Flatten => match flatten_table_text(&t) {
                Some(text) => replace_with_text(doc, id, text.as_str()),
                None => detach(doc, id),
            },
            TableHandling::CsvLike => set_attr(doc, id, "data-htmlmd-table", "csv"),
            TableHandling::Drop => detach(doc, id),
        }
        proof {
            if options.semantic.table_handling == TableHandling::Drop {
                assert(html_parents(*doc) =~= html_parents(*old(doc)).remove_keys(ids@.take(i + 1).to_set()));
            }
        }
        i += 1;
    }
    assert(ids@.take(ids@.len() as int) =~= ids@);
}

/// The elements that dropped media takes out, in this order.
pub open spec fn media_drop_selectors() -> Seq<Seq<char>> {
    seq!["video"@, "audio"@, "source"@, "figure"@, "figcaption"@]
}

/// From `before` to `after`: media handled as the media policy says.
pub open spec fn media_handled(before: Html, after: Html, o: ConversionOptions) -> bool {
    &&& o.cleanup.media_policy == MediaPolicy::Drop ==> detached_in_turn(before, after, media_drop_selectors())
    &&& o.cleanup.media_policy == MediaPolicy::Inline || o.cleanup.media_policy == MediaPolicy::Link ==> unwrapped_by(before, after, "figure"@)
    &&& o.cleanup.media_policy == MediaPolicy::Placeholder ==> exists|d1: Html, d2: Html|
        #![trigger replaced_by_text(before, d1, "video"@), unwrapped_by(d2, after, "figure"@)]
        replaced_by_text(before, d1, "video"@) && replaced_by_text(d1, d2, "audio"@) && unwrapped_by(d2, after, "figure"@)
}

/// Drops media, or replaces video and audio with a placeholder; figures
/// are unwrapped unless dropped.
pub fn apply_media_policy(doc: &mut Html, options: &ConversionOptions)
    ensures
        media_handled(*old(doc), *final(doc), *options),
{
    match options.cleanup.media_policy {
        MediaPolicy::Drop => {
            let ghost d0 = *doc;
            detach_by_tag(doc, "video");
            let ghost d1 = *doc;
            detach_by_tag(doc, "audio");
            let ghost d2 = *doc;
            detach_by_tag(doc, "source");
            let ghost d3 = *doc;
            detach_by_tag(doc, "figure");
            let ghost d4 = *doc;
            detach_by_tag(doc, "figcaption");
            proof {
                let docs = seq![d0, d1, d2, d3, d4, *doc];
                let sels = media_drop_selectors();
                assert forall|k: int| 0 <= k < sels.len() implies detached_by(#[trigger] docs[k], docs[k + 1], sels[k]) by {
                    if k == 0 {
                        assert(detached_by(d0, d1, "video"@));
                    } else if k == 1 {
                        assert(detached_by(d1, d2, "audio"@));
                    } else if k == 2 {
                        assert(detached_by(d2, d3, "source"@));
                    } else if k == 3 {
                        assert(detached_by(d3, d4, "figure"@));
                    }
                }
                assert(detach_chain(docs, sels) && docs[0] == d0 && docs.last() == *doc);
            }
        },
        MediaPolicy::Placeholder => {
            let ghost d0 = *doc;
            media_placeholder(doc, "video");
            let ghost d1 = *doc;
            media_placeholder(doc, "audio");
            let ghost d2 = *doc;
            unwrap_by_tag(doc, "figure");
            assert(replaced_by_text(d0, d1, "video"@) && unwrapped_by(d2, *doc, "figure"@));
        },
        MediaPolicy::Inline | MediaPolicy::Link => unwrap_by_tag(doc, "figure"),
    }
}

fn media_placeholder(doc: &mut Html, tag: &str)
    ensures
        selector_error_result(tag@) is Some ==> *final(doc) == *old(doc),
        replaced_by_text(*old(doc), *final(doc), tag@),
{
    let ids = ids_of(doc, tag);
    let mut i: usize = 0;
    while i < ids.len()
        invariant
            i <= ids@.len(),
            ids@.len() == 0 ==> *doc == *old(doc),
            ids@ == selected(*old(doc), tag@),
            texts_replaced(*old(doc), *doc, ids@.take(i as int)),
        decreases ids@.len() - i,
    {
        let ghost before = *doc;
        let attrs = match element_parts(doc, ids[i]) {
            Some((_, a)) => a,
            None => Vec::new(),
        };
        let text = media_placeholder_text(tag, &attrs);
        replace_with_text(doc, ids[i], text.as_str());
        proof {
            lemma_text_step(*old(doc), before, *doc, ids@, i as int);
        }
        i += 1;
    }
    assert(ids@.take(ids@.len() as int) =~= ids@);
}

/// From `before` to `after`: nothing changed where no language pattern is
/// set and detection is off (the marks themselves are not stated).
pub open spec fn code_languages_marked(before: Html, after: Html, o: ConversionOptions) -> bool {
    &&& o.semantic.code_language_patterns@.len() == 0 && !o.semantic.detect_languages ==> after == before
}

/// Marks code blocks with the language their classes (or, when detection
/// is on, their text) give.
pub fn apply_code_language_detection(doc: &mut Html, options: &ConversionOptions)
    ensures
        code_languages_marked(*old(doc), *final(doc), *options),
{
    if options.semantic.code_language_patterns.len() == 0 && !options.semantic.detect_languages {
        return;
    }
    let ids = ids_of(doc, "pre code, code");
    let mut i: usize = 0;
    while i < ids.len()
        invariant
            i <= ids@.len(),
        decreases ids@.len() - i,
    {
        let id = ids[i];
        let pre_class = match parent_id(doc, id) {
            Some(p) => match element_parts(doc, p) {
                Some((ptag, pattrs)) => if exec_eq_ignore_ascii_case(ptag.as_str(), "pre") {
                    get_attr(&pattrs, "class")
                } else {
                    None
                },
                None => None,
            },
            None => None,
        };
        let code_class = attr_of(doc, id, "class");
        let text = subtree_text(doc, id);
        let cc = match &code_class {
            Some(c) => c.as_str(),
            None => "",
        };
        let pc = match &pre_class {
            Some(c) => c.as_str(),
            None => "",
        };
        let lang = crate::language::choose_code_language(
            &options.semantic.code_language_patterns,
            cc,
            pc,
            text.as_str(),
            options.semantic.detect_languages,
        );
        match lang {
            Some(l) => {
                let mut v = String::new();
                push_str(&mut v, "language-");
                push_str(&mut v, l.as_str());
                set_attr(doc, id, "class", v.as_str());
            },
            None => {},
        }
        i += 1;
    }
}

/// From `before` to `after`: images detached in skip mode (the other modes
/// are not stated).
pub open spec fn images_handled(before: Html, after: Html, o: ConversionOptions) -> bool {
    &&& o.cleanup.image_mode == ImageMode::Skip ==> detached_by(before, after, "img"@)
}

/// Lazy and responsive images get a `src`; kept dimensions go into the
/// `alt`; in alt-text mode images become their `alt`; skipped images go.
pub fn apply_image_handling(doc: &mut Html, options: &ConversionOptions)
    ensures
        images_handled(*old(doc), *final(doc), *options),
{
    if options.cleanup.image_mode == ImageMode::Skip {
        detach_by_tag(doc, "img");
        return;
    }
    let ids = ids_of(doc, "img");
    let mut i: usize = 0;
    while i < ids.len()
        invariant
            i <= ids@.len(),
        decreases ids@.len() - i,
    {
        let id = ids[i];
        match element_parts(doc, id) {
            Some((_, attrs)) => match lazy_image_src(&attrs, &options.cleanup.lazy_image_attrs) {
                Some(src) => set_attr(doc, id, "src", src.as_str()),
                None => {},
            },
            None => {},
        }
        match element_parts(doc, id) {
            Some((_, attrs)) => {
                let srcset = get_attr(&attrs, "srcset");
                let keys = match &srcset {
                    Some(v) => {
                        let p = crate::cleanup::split_commas(v.as_str());
                        let mut keys: Vec<u32> = Vec::new();
                        let mut k: usize = 0;
                        while k < p.len()
                            invariant
                                k <= p@.len(),
                                keys@.len() == k,
                            decreases p@.len() - k,
                        {
                            let t = trim_string(p[k].as_str(), TrimSet::UnicodeWs);
                            keys.push(crate::rewrite::size_key(t.as_str()));
                            k += 1;
                        }
                        assert(p@.map_values(|x: String| x@).len() == p@.len());
                        keys
                    },
                    None => Vec::new(),
                };
                match srcset_image_src(&attrs, options.cleanup.responsive_image_policy, &keys) {
                    Some(src) => set_attr(doc, id, "src", src.as_str()),
                    None => {},
                }
            },
            None => {},
        }
        if options.cleanup.preserve_image_metadata {
            match element_parts(doc, id) {
                Some((_, attrs)) => match image_metadata_alt(&attrs) {
                    Some(alt) => set_attr(doc, id, "alt", alt.as_str()),
                    None => {},
                },
                None => {},
            }
        }
        if options.cleanup.image_mode == ImageMode::AltText {
            let attrs = match element_parts(doc, id) {
                Some((_, a)) => a,
                None => Vec::new(),
            };
            let alt = image_alt_text(&attrs);
            replace_with_text(doc, id, alt.as_str());
        }
        i += 1;
    }
}


/// A rule whose action renders the elements it marks: a template, a fenced
/// block, a link or an image.
pub open spec fn marks_elements(a: CustomRuleAction) -> bool {
    a is MarkdownTemplate || a is FencedBlock || a is Link || a is Image
}

/// Every selector of every marking rule parses.
pub open spec fn marker_selectors_parse(rules: Seq<CustomRule>) -> bool {
    forall|i: int, j: int|
        0 <= i < rules.len() && marks_elements(rules[i].action) && 0 <= j < rules[i].selectors@.len()
            ==> selector_error_result(#[trigger] rules[i].selectors@[j]@) is None
}

/// Marks the elements matched by Markdown-producing custom rules (template,
/// fenced block, link, image): renamed `htmlmdrule`, with the index of the
/// first rule (in priority order) that matched them.
/// Element `id` marked for rule `index`, unless a rule marked it already:
/// renamed `htmlmdrule`, with the rule's index in `data-htmlmd-rule`.
pub open spec fn element_marked(
    e: Map<NodeId, (Seq<char>, Seq<AttrTriple>)>,
    id: NodeId,
    index: nat,
) -> Map<NodeId, (Seq<char>, Seq<AttrTriple>)> {
    if e.contains_key(id) && triple_value(e[id].1, "data-htmlmd-rule"@) is None {
        let e1 = element_with_attr(e, id, "data-htmlmd-rule"@, crate::text::decimal(index));
        e1.insert(id, ("htmlmdrule"@, e1[id].1))
    } else {
        e
    }
}

/// The elements `ids`, in turn, marked for rule `index`.
pub open spec fn elements_marked(
    e: Map<NodeId, (Seq<char>, Seq<AttrTriple>)>,
    ids: Seq<NodeId>,
    index: nat,
) -> Map<NodeId, (Seq<char>, Seq<AttrTriple>)>
    decreases ids.len(),
{
    if ids.len() == 0 {
        e
    } else {
        element_marked(elements_marked(e, ids.drop_last(), index), ids.last(), index)
    }
}

/// From `before` to `after`: the elements that `step.0` selects in `before`
/// marked for rule `step.1`, the tree's shape unchanged.
pub open spec fn marker_step(before: Html, after: Html, step: (Seq<char>, nat)) -> bool {
    &&& html_elements(after) == elements_marked(html_elements(before), selected(before, step.0), step.1)
    &&& html_parents(after) == html_parents(before)
}

/// The (selector, rule index) steps of the marking rules taken in `order`.
pub open spec fn marker_steps(rules: Seq<CustomRule>, order: Seq<nat>) -> Seq<(Seq<char>, nat)>
    decreases order.len(),
{
    if order.len() == 0 {
        Seq::empty()
    } else {
        let o = order.last();
        marker_steps(rules, order.drop_last()) + if marks_elements(rules[o as int].action) {
            rules[o as int].selectors@.map_values(|s: String| (s@, o))
        } else {
            Seq::empty()
        }
    }
}

/// Documents one after another, each made from the one before by the
/// matching marker step.
pub open spec fn marker_chain(docs: Seq<Html>, steps: Seq<(Seq<char>, nat)>) -> bool {
    &&& docs.len() == steps.len() + 1
    &&& forall|i: int| 0 <= i < steps.len() ==> marker_step(#[trigger] docs[i], docs[i + 1], steps[i])
}

proof fn lemma_marker_chain_push(docs: Seq<Html>, steps: Seq<(Seq<char>, nat)>, d: Html, st: (Seq<char>, nat))
    requires
        marker_chain(docs, steps),
        marker_step(docs.last(), d, st),
    ensures
        marker_chain(docs.push(d), steps.push(st)),
        docs.push(d)[0] == docs[0],
        docs.push(d).last() == d,
{
    let nd = docs.push(d);
    let ns = steps.push(st);
    assert forall|k: int| 0 <= k < ns.len() implies marker_step(#[trigger] nd[k], nd[k + 1], ns[k]) by {
        if k < steps.len() {
            assert(marker_step(docs[k], docs[k + 1], steps[k]));
        }
    }
}

/// Marks the elements that `sel` selects for rule `index`.
fn mark_selected(doc: &mut Html, sel: &Selector, index: usize)
    ensures
        html_elements(*final(doc)) == elements_marked(html_elements(*old(doc)), html_selection(*old(doc), *sel), index as nat),
        html_parents(*final(doc)) == html_parents(*old(doc)),
{
    let ids = select_ids(doc, sel);
    let mut k: usize = 0;
    while k < ids.len()
        invariant
            k <= ids@.len(),
            ids@ == html_selection(*old(doc), *sel),
            html_elements(*doc) == elements_marked(html_elements(*old(doc)), ids@.take(k as int), index as nat),
            html_parents(*doc) == html_parents(*old(doc)),
        decreases ids@.len() - k,
    {
        assert(ids@.take(k + 1).drop_last() =~= ids@.take(k as int));
        let id = ids[k];
        let ghost e = html_elements(*doc);
        match element_parts(doc, id) {
            Some((_, attrs)) => {
                proof {
                    lemma_triple_value(attrs@, e[id].1, "data-htmlmd-rule"@);
                }
                if get_attr(&attrs, "data-htmlmd-rule").is_none() {
                    set_attr(doc, id, "data-htmlmd-rule", usize_to_string(index).as_str());
                    rename(doc, id, "htmlmdrule");
                }
            },
            None => {},
        }
        k += 1;
    }
    assert(ids@.take(ids@.len() as int) =~= ids@);
}

#[verifier::rlimit(60)]
pub fn apply_custom_rule_markers(
    doc: &mut Html,
    options: &ConversionOptions,
    path: Option<&str>,
    diagnostics: &mut Vec<Diagnostic>,
) -> (r: Result<()>)
    ensures
        r is Ok <==> !options.strict || marker_selectors_parse(options.extension.custom_rules@),
        rule_selectors_parse(options.extension.custom_rules@) ==> r is Ok,
        r is Err ==> options.strict && r matches Err(Error::Selector(_)),
        old(diagnostics)@.is_prefix_of(final(diagnostics)@),
        r is Ok ==> exists|docs: Seq<Html>|
            #[trigger] marker_chain(
                docs,
                marker_steps(
                    options.extension.custom_rules@,
                    crate::rules::claim_order(
                        crate::rules::rule_prios(options.extension.custom_rules@),
                        options.extension.custom_rules@.len(),
                    ),
                ),
            ) && docs[0] == *old(doc) && docs.last() == *final(doc),
{
    let ghost mut docs: Seq<Html> = seq![*doc];
    let rules = &options.extension.custom_rules;
    let ghost co = crate::rules::claim_order(crate::rules::rule_prios(rules@), rules@.len());
    let order = crate::rules::rules_by_priority(rules);
    let mut m: usize = 0;
    while m < order.len()
        invariant
            m <= order@.len(),
            order@.len() == rules@.len(),
            forall|j: int| 0 <= j < order@.len() ==> #[trigger] order@[j] < rules@.len(),
            rules == &options.extension.custom_rules,
            old(diagnostics)@.is_prefix_of(diagnostics@),
            co == crate::rules::claim_order(crate::rules::rule_prios(rules@), rules@.len()),
            order@.map_values(|x: usize| x as nat) == co,
            marker_chain(docs, marker_steps(rules@, co.take(m as int))),
            docs[0] == *old(doc),
            docs.last() == *doc,
            options.strict ==> forall|p: int, j: int|
                0 <= p < m && marks_elements(rules@[order@[p] as int].action) && 0 <= j
                    < rules@[order@[p] as int].selectors@.len() ==> selector_error_result(
                    #[trigger] rules@[order@[p] as int].selectors@[j]@) is None,
        decreases order@.len() - m,
    {
        let index = order[m];
        let rule = &rules[index];
        assert(co[m as int] == index as nat);
        let ghost rule_steps_of = rule.selectors@.map_values(|s: String| (s@, index as nat));
        let marks = match rule.action {
            CustomRuleAction::MarkdownTemplate | CustomRuleAction::FencedBlock
            | CustomRuleAction::Link | CustomRuleAction::Image => true,
            _ => false,
        };
        if marks {
            let mut s_i: usize = 0;
            while s_i < rule.selectors.len()
                invariant
                    s_i <= rule.selectors@.len(),
                    index < rules@.len(),
                    index == order@[m as int],
                    m < order@.len(),
                    *rule == rules@[index as int],
                    marks_elements(rule.action),
                    rules == &options.extension.custom_rules,
                    old(diagnostics)@.is_prefix_of(diagnostics@),
                    options.strict ==> forall|p: int, j: int|
                        0 <= p < m && marks_elements(rules@[order@[p] as int].action) && 0 <= j
                            < rules@[order@[p] as int].selectors@.len() ==> selector_error_result(
                            #[trigger] rules@[order@[p] as int].selectors@[j]@) is None,
                    options.strict ==> forall|j: int|
                        0 <= j < s_i ==> selector_error_result(#[trigger] rule.selectors@[j]@) is None,
                    rule_steps_of == rule.selectors@.map_values(|s: String| (s@, index as nat)),
                    marker_chain(docs, marker_steps(rules@, co.take(m as int)) + rule_steps_of.take(s_i as int)),
                    docs[0] == *old(doc),
                    docs.last() == *doc,
                decreases rule.selectors@.len() - s_i,
            {
                let s = rule.selectors[s_i].as_str();
                assert(s@ == rules@[index as int].selectors@[s_i as int]@);
                let ghost prev = *doc;
                match parse_selector(s) {
                    Ok(sel) => mark_selected(doc, &sel, index),
                    Err(e) => {
                        let msg = selector_message("invalid custom rule selector ", s, e.as_str());
                        let d = warning_at(msg.as_str(), path).with_rule(usize_to_string(index).as_str());
                        diagnostics.push(d);
                        if options.strict {
                            return Err(Error::Selector(msg));
                        }
                    },
                }
                proof {
                    let st = (s@, index as nat);
                    assert(rule_steps_of[s_i as int] == st);
                    assert(marker_step(prev, *doc, st));
                    lemma_marker_chain_push(docs, marker_steps(rules@, co.take(m as int)) + rule_steps_of.take(s_i as int), *doc, st);
                    assert((marker_steps(rules@, co.take(m as int)) + rule_steps_of.take(s_i as int)).push(st)
                        =~= marker_steps(rules@, co.take(m as int)) + rule_steps_of.take(s_i + 1));
                    docs = docs.push(*doc);
                }
                s_i += 1;
            }
            assert(rule_steps_of.take(s_i as int) =~= rule_steps_of);
        } else {
            assert(marker_steps(rules@, co.take(m as int)) + Seq::<(Seq<char>, nat)>::empty() =~= marker_steps(rules@, co.take(m as int)));
        }
        proof {
            assert(co.take(m + 1).drop_last() =~= co.take(m as int));
            assert(co.take(m + 1).last() == index as nat);
        }
        m += 1;
    }
    assert(co.take(order@.len() as int) =~= co);
    proof {
        if options.strict {
            assert forall|i: int, j: int|
                0 <= i < rules@.len() && marks_elements(rules@[i].action) && 0 <= j < rules@[i].selectors@.len()
                    implies selector_error_result(#[trigger] rules@[i].selectors@[j]@) is None by {
                crate::rules::lemma_claim_order_covers(crate::rules::rule_prios(rules@), rules@.len(), i as nat);
                let co = crate::rules::claim_order(crate::rules::rule_prios(rules@), rules@.len());
                let p = choose|p: int| 0 <= p < co.len() && #[trigger] co[p] == i as nat;
                assert(order@.map_values(|x: usize| x as nat)[p] == co[p]);
                assert(order@[p] as int == i);
            }
        }
    }
    Ok(())
}

/// A URL attribute's value rewritten: a `srcset` by the size keys of its
/// candidates, any other as one URL.
pub open spec fn url_attr_rewritten(value: Seq<char>, name: Seq<char>, o: ConversionOptions) -> Seq<char> {
    let base = match o.cleanup.base_url {
        Some(b) => Some(b@),
        None => None,
    };
    if eq_ignore_ascii_case(name, "srcset"@) {
        crate::rewrite::rewritten_srcset(
            value,
            base,
            o,
            crate::rewrite::srcset_list(crate::rewrite::comma_pieces_from(value, 0)).map_values(
                |c: Seq<char>| crate::rewrite::size_key_of(c),
            ),
        )
    } else {
        crate::rewrite::rewritten_url(value, base, o)
    }
}

/// The elements `ids`, in turn, with their attribute `name` rewritten as a
/// URL (where they have it).
pub open spec fn urls_rewritten(
    e: Map<NodeId, (Seq<char>, Seq<AttrTriple>)>,
    ids: Seq<NodeId>,
    name: Seq<char>,
    o: ConversionOptions,
) -> Map<NodeId, (Seq<char>, Seq<AttrTriple>)>
    decreases ids.len(),
{
    if ids.len() == 0 {
        e
    } else {
        let p = urls_rewritten(e, ids.drop_last(), name, o);
        match element_attr(p, ids.last(), name) {
            Some(v) => element_with_attr(p, ids.last(), name, url_attr_rewritten(v, name, o)),
            None => p,
        }
    }
}

/// From `before` to `after`: the `name` attributes of the elements that
/// `[name]` selects rewritten, the tree's shape unchanged.
pub open spec fn url_pass(before: Html, after: Html, name: Seq<char>, o: ConversionOptions) -> bool {
    &&& html_elements(after) == urls_rewritten(
        html_elements(before),
        selected(before, "["@ + name + "]"@),
        name,
        o,
    )
    &&& html_parents(after) == html_parents(before)
}

/// Rewrites the `name` attributes of the elements that carry one.
fn rewrite_url_attrs(doc: &mut Html, name: &str, options: &ConversionOptions)
    ensures
        url_pass(*old(doc), *final(doc), name@, *options),
{
    let base: Option<&str> = match &options.cleanup.base_url {
        Some(b) => Some(b.as_str()),
        None => None,
    };
    let mut selector = String::new();
    push_str(&mut selector, "[");
    push_str(&mut selector, name);
    push_str(&mut selector, "]");
    let ids = ids_of(doc, selector.as_str());
    let mut k: usize = 0;
    while k < ids.len()
        invariant
            k <= ids@.len(),
            ids@ == selected(*old(doc), "["@ + name@ + "]"@),
            html_elements(*doc) == urls_rewritten(html_elements(*old(doc)), ids@.take(k as int), name@, *options),
            html_parents(*doc) == html_parents(*old(doc)),
            match base {
                Some(b) => options.cleanup.base_url matches Some(u) && b@ == u@,
                None => options.cleanup.base_url is None,
            },
        decreases ids@.len() - k,
    {
        assert(ids@.take(k + 1).drop_last() =~= ids@.take(k as int));
        let id = ids[k];
        match attr_of(doc, id, name) {
            Some(original) => {
                let candidates = crate::rewrite::srcset_candidates(original.as_str());
                let ghost cv = candidates@.map_values(|x: String| x@);
                let mut keys: Vec<u32> = Vec::new();
                let mut c: usize = 0;
                while c < candidates.len()
                    invariant
                        c <= candidates@.len(),
                        cv == candidates@.map_values(|x: String| x@),
                        keys@ == cv.take(c as int).map_values(|x: Seq<char>| crate::rewrite::size_key_of(x)),
                    decreases candidates@.len() - c,
                {
                    assert(cv[c as int] == candidates@[c as int]@);
                    keys.push(crate::rewrite::size_key(candidates[c].as_str()));
                    c += 1;
                    assert(keys@ =~= cv.take(c as int).map_values(|x: Seq<char>| crate::rewrite::size_key_of(x)));
                }
                assert(cv.take(cv.len() as int) =~= cv);
                let rewritten = crate::rewrite::rewrite_url_attr(original.as_str(), name, base, options, &keys);
                set_attr(doc, id, name, rewritten.as_str());
            },
            None => {},
        }
        k += 1;
    }
    assert(ids@.take(ids@.len() as int) =~= ids@);
}

/// From `before` to `after`: the URL attributes rewritten.
pub open spec fn urls_rewritten_all(before: Html, after: Html, o: ConversionOptions) -> bool {
    exists|d1: Html, d2: Html|
        #![trigger url_pass(before, d1, "href"@, o), url_pass(d2, after, "srcset"@, o)]
        url_pass(before, d1, "href"@, o) && url_pass(d1, d2, "src"@, o) && url_pass(d2, after, "srcset"@, o)
}

/// Rewrites the `href`, then the `src`, then the `srcset` attributes.
pub fn apply_url_rewriting(doc: &mut Html, options: &ConversionOptions)
    ensures
        urls_rewritten_all(*old(doc), *final(doc), *options),
{
    let ghost d0 = *doc;
    rewrite_url_attrs(doc, "href", options);
    let ghost d1 = *doc;
    rewrite_url_attrs(doc, "src", options);
    let ghost d2 = *doc;
    rewrite_url_attrs(doc, "srcset", options);
    assert(url_pass(d0, d1, "href"@, *options) && url_pass(d2, *doc, "srcset"@, *options));
}

/// Removes every `title` attribute.
pub fn strip_title_attributes(doc: &mut Html)
    ensures
        html_elements(*final(doc)) == elements_without_attr(
            html_elements(*old(doc)),
            selected(*old(doc), "[title]"@),
            "title"@,
        ),
        html_parents(*final(doc)) == html_parents(*old(doc)),
{
    let ids = ids_of(doc, "[title]");
    let mut i: usize = 0;
    while i < ids.len()
        invariant
            i <= ids@.len(),
            ids@ == selected(*old(doc), "[title]"@),
            html_elements(*doc) == elements_without_attr(html_elements(*old(doc)), ids@.take(i as int), "title"@),
            html_parents(*doc) == html_parents(*old(doc)),
        decreases ids@.len() - i,
    {
        assert(ids@.take(i + 1).drop_last() =~= ids@.take(i as int));
        remove_attr(doc, ids[i], "title");
        i += 1;
    }
    assert(ids@.take(ids@.len() as int) =~= ids@);
}

/// The elements `ids`, in turn, without their attributes `name`.
pub open spec fn elements_without_attr(
    e: Map<NodeId, (Seq<char>, Seq<AttrTriple>)>,
    ids: Seq<NodeId>,
    name: Seq<char>,
) -> Map<NodeId, (Seq<char>, Seq<AttrTriple>)>
    decreases ids.len(),
{
    if ids.len() == 0 {
        e
    } else {
        element_without_attr(elements_without_attr(e, ids.drop_last(), name), ids.last(), name)
    }
}

/// The value of attribute `attr` of the first element `selector` matches,
/// trimmed.
/// The value of the first attribute `attr` (no namespace) of the first
/// element that `selector` selects, trimmed.
pub open spec fn meta_value(doc: Html, selector: Seq<char>, attr: Seq<char>) -> Option<Seq<char>> {
    let ids = selected(doc, selector);
    if ids.len() == 0 {
        None
    } else {
        let attrs = html_elements(doc)[ids[0]].1;
        let f = first_plain_attr(attrs, attr);
        if f < attrs.len() {
            Some(crate::text::trim_both(attrs[f].2, TrimSet::UnicodeWs))
        } else {
            None
        }
    }
}

fn select_meta(doc: &Html, selector: &str, attr: &str) -> (r: Option<String>)
    ensures
        opt_view(r) == meta_value(*doc, selector@, attr@),
{
    let ids = ids_of(doc, selector);
    if ids.len() == 0 {
        return None;
    }
    let ghost triples = html_elements(*doc)[ids@[0]].1;
    match element_parts(doc, ids[0]) {
        Some((_, attrs)) => {
            let mut i: usize = 0;
            while i < attrs.len()
                invariant
                    i <= attrs@.len(),
                    attrs@.len() == triples.len(),
                    ids@ == selected(*doc, selector@),
                    ids@.len() > 0,
                    triples == html_elements(*doc)[ids@[0]].1,
                    forall|j: int| 0 <= j < attrs@.len() ==> read_attribute(#[trigger] attrs@[j], triples[j]),
                    forall|j: int| 0 <= j < i ==> !is_plain_attr(#[trigger] triples[j], attr@),
                decreases attrs@.len() - i,
            {
                assert(read_attribute(attrs@[i as int], triples[i as int]));
                if attrs[i].ns == AttrNamespace::NoNamespace && str_eq(attrs[i].name.as_str(), attr) {
                    proof {
                        lemma_first_plain_attr(triples, attr@, i as int);
                    }
                    return Some(trim_string(attrs[i].value.as_str(), TrimSet::UnicodeWs));
                }
                i += 1;
            }
            proof {
                lemma_first_plain_attr(triples, attr@, i as int);
            }
            None
        },
        None => None,
    }
}

/// Detaches every node deeper than `limit` under node `id` (at `depth`).
fn prune_deep(doc: &mut Html, id: NodeId, depth: u32, limit: u32, fuel: usize)
    requires
        depth <= limit,
    ensures
        fuel == 0 ==> *final(doc) == *old(doc),
    decreases fuel,
{
    if fuel == 0 {
        return;
    }
    let kids = child_ids(doc, id);
    let mut i: usize = 0;
    while i < kids.len()
        invariant
            i <= kids@.len(),
            depth <= limit,
            fuel > 0,
        decreases kids@.len() - i,
    {
        if depth == limit {
            detach(doc, kids[i]);
        } else {
            prune_deep(doc, kids[i], depth + 1, limit, fuel - 1);
        }
        i += 1;
    }
}

/// Only the metadata the options ask for is present.
pub open spec fn only_requested(m: MetadataOptions, e: ExtractedMetadata) -> bool {
    &&& !m.title ==> e.title is None
    &&& !m.description ==> e.description is None
    &&& !m.canonical_url ==> e.canonical_url is None
    &&& !m.open_graph_title ==> e.open_graph_title is None
    &&& !m.open_graph_description ==> e.open_graph_description is None
    &&& !m.open_graph_image ==> e.open_graph_image is None
    &&& !m.twitter_title ==> e.twitter_title is None
    &&& !m.twitter_description ==> e.twitter_description is None
}

/// The metadata read from a document: the title present exactly when the
/// document has a `title` element, the other fields the values of their
/// `meta` or `link` elements, each where it is asked for.
pub open spec fn metadata_read(doc: Html, m: MetadataOptions, e: ExtractedMetadata) -> bool {
    &&& m.title ==> (e.title is Some <==> selected(doc, "title"@).len() > 0)
    &&& m.description ==> opt_view(e.description) == meta_value(doc, "meta[name=\"description\"]"@, "content"@)
    &&& m.canonical_url ==> opt_view(e.canonical_url) == meta_value(doc, "link[rel=\"canonical\"]"@, "href"@)
    &&& m.open_graph_title ==> opt_view(e.open_graph_title) == meta_value(doc, "meta[property=\"og:title\"]"@, "content"@)
    &&& m.open_graph_description ==> opt_view(e.open_graph_description) == meta_value(doc, "meta[property=\"og:description\"]"@, "content"@)
    &&& m.open_graph_image ==> opt_view(e.open_graph_image) == meta_value(doc, "meta[property=\"og:image\"]"@, "content"@)
    &&& m.twitter_title ==> opt_view(e.twitter_title) == meta_value(doc, "meta[name=\"twitter:title\"]"@, "content"@)
    &&& m.twitter_description ==> opt_view(e.twitter_description) == meta_value(doc, "meta[name=\"twitter:description\"]"@, "content"@)
}

/// The metadata the options ask for, read from the document.
pub fn extract_metadata(doc: &Html, options: &ConversionOptions) -> (r: ExtractedMetadata)
    ensures
        only_requested(options.cleanup.metadata, r),
        metadata_read(*doc, options.cleanup.metadata, r),
{
    let m = &options.cleanup.metadata;
    let title = if m.title {
        let ids = ids_of(doc, "title");
        if ids.len() > 0 {
            let t = subtree_text(doc, ids[0]);
            Some(trim_string(t.as_str(), TrimSet::UnicodeWs))
        } else {
            None
        }
    } else {
        None
    };
    ExtractedMetadata {
        title,
        description: if m.description { select_meta(doc, "meta[name=\"description\"]", "content") } else { None },
        canonical_url: if m.canonical_url { select_meta(doc, "link[rel=\"canonical\"]", "href") } else { None },
        open_graph_title: if m.open_graph_title { select_meta(doc, "meta[property=\"og:title\"]", "content") } else { None },
        open_graph_description: if m.open_graph_description {
            select_meta(doc, "meta[property=\"og:description\"]", "content")
        } else {
            None
        },
        open_graph_image: if m.open_graph_image { select_meta(doc, "meta[property=\"og:image\"]", "content") } else { None },
        twitter_title: if m.twitter_title { select_meta(doc, "meta[name=\"twitter:title\"]", "content") } else { None },
        twitter_description: if m.twitter_description {
            select_meta(doc, "meta[name=\"twitter:description\"]", "content")
        } else {
            None
        },
    }
}

/// The whole document as a tree for rendering.
pub fn document_tree(doc: &Html, options: &ConversionOptions) -> (r: DomNode)
    ensures
        read_tree(
            *doc,
            html_root(*doc),
            options.render.raw_html_policy == RawHtmlPolicy::Faithful,
            html_arena_len(*doc),
            r,
        ),
        r matches DomNode::Element { tag, html, .. } ==> (tag@ == "table"@ || (options.render.raw_html_policy
            == RawHtmlPolicy::Faithful && crate::blocks::is_block_tag(tag@))) || html@ == Seq::<char>::empty(),
{
    let faithful = options.render.raw_html_policy == RawHtmlPolicy::Faithful;
    to_dom(doc, root_id(doc), faithful, arena_size(doc))
}

/// Does `t` read as the tree of the document parsed from `html`, from its
/// root?
pub open spec fn parsed_tree(html: Seq<char>, t: DomNode) -> bool {
    let d = parsed_html(html);
    read_tree(d, html_root(d), false, html_arena_len(d), t)
}

/// The depth of `t`, saturating at the largest `u32`.
pub open spec fn capped_depth(t: DomNode) -> nat {
    let depth = crate::limits::dom_depth(t);
    if depth > u32::MAX { u32::MAX as nat } else { depth }
}

/// The limit findings on an input of `input` bytes whose tree is `t`.
pub open spec fn tree_findings(l: crate::options::Limits, input: nat, t: DomNode) -> Seq<Seq<char>> {
    let count = crate::limits::node_count(t);
    crate::convert::limit_findings(
        l,
        input,
        if count > u64::MAX { u64::MAX as nat } else { count },
        capped_depth(t),
        crate::limits::cap64(crate::limits::attr_len_under(t, 0)),
    )
}

/// The warning that content deeper than the depth limit was pruned.
pub open spec fn pruned_message(limit: nat) -> Seq<char> {
    "content nested deeper than max-dom-depth "@ + crate::text::decimal(limit) + " was pruned"@
}

/// Do the diagnostics `ds` warn that content deeper than `limit` was pruned?
pub open spec fn pruning_warned(ds: Seq<Diagnostic>, limit: nat) -> bool {
    exists|i: int|
        0 <= i < ds.len() && (#[trigger] ds[i]).kind == crate::diagnostic::DiagnosticKind::Warning
            && ds[i].message@ == pruned_message(limit)
}

/// What the limits make of a conversion of `html`, whose error (if any) is
/// `err` and whose diagnostics are `ds`: in strict mode the first limit
/// finding on the parsed tree is the error; where the tree is deeper than
/// the depth limit and the conversion succeeds, a warning says it was
/// pruned.
pub open spec fn limits_applied(
    html: Seq<char>,
    input: nat,
    o: ConversionOptions,
    err: Option<Error>,
    ds: Seq<Diagnostic>,
) -> bool {
    exists|t: DomNode|
        #[trigger] parsed_tree(html, t) && {
            let f = tree_findings(o.limits, input, t);
            &&& o.strict && f.len() > 0 ==> (err matches Some(Error::LimitExceeded(m)) && m@ == f[0])
            &&& err is None && o.limits.max_dom_depth > 0 && capped_depth(t) > o.limits.max_dom_depth
                ==> pruning_warned(ds, o.limits.max_dom_depth as nat)
        }
}

proof fn lemma_prefix_warned(a: Seq<Diagnostic>, b: Seq<Diagnostic>, limit: nat)
    requires
        a.is_prefix_of(b),
    ensures
        pruning_warned(a, limit) ==> pruning_warned(b, limit),
{
    if pruning_warned(a, limit) {
        let i = choose|i: int|
            0 <= i < a.len() && (#[trigger] a[i]).kind == crate::diagnostic::DiagnosticKind::Warning
                && a[i].message@ == pruned_message(limit);
        assert(b[i] == b.subrange(0, a.len() as int)[i]);
    }
}

/// More diagnostics after a success keep the limits' account.
proof fn lemma_limits_more_diags(html: Seq<char>, input: nat, o: ConversionOptions, ds1: Seq<Diagnostic>, ds2: Seq<Diagnostic>)
    requires
        limits_applied(html, input, o, None, ds1),
        ds1.is_prefix_of(ds2),
    ensures
        limits_applied(html, input, o, None, ds2),
{
    let t = choose|t: DomNode| #[trigger] parsed_tree(html, t) && {
        let f = tree_findings(o.limits, input, t);
        &&& o.strict && f.len() > 0 ==> (None::<Error> matches Some(Error::LimitExceeded(m)) && m@ == f[0])
        &&& o.limits.max_dom_depth > 0 && capped_depth(t) > o.limits.max_dom_depth
            ==> pruning_warned(ds1, o.limits.max_dom_depth as nat)
    };
    lemma_prefix_warned(ds1, ds2, o.limits.max_dom_depth as nat);
    assert(parsed_tree(html, t));
}

/// A later failure, after the limits passed, keeps the limits' account.
proof fn lemma_limits_later_error(html: Seq<char>, input: nat, o: ConversionOptions, ds1: Seq<Diagnostic>, e: Error, ds2: Seq<Diagnostic>)
    requires
        limits_applied(html, input, o, None, ds1),
    ensures
        limits_applied(html, input, o, Some(e), ds2),
{
    let t = choose|t: DomNode| #[trigger] parsed_tree(html, t) && {
        let f = tree_findings(o.limits, input, t);
        &&& o.strict && f.len() > 0 ==> (None::<Error> matches Some(Error::LimitExceeded(m)) && m@ == f[0])
        &&& o.limits.max_dom_depth > 0 && capped_depth(t) > o.limits.max_dom_depth
            ==> pruning_warned(ds1, o.limits.max_dom_depth as nat)
    };
    assert(parsed_tree(html, t));
}

/// The diagnostics of a result, none for an error.
pub open spec fn diagnostics_of(r: Result<ConversionResult>) -> Seq<Diagnostic> {
    match r {
        Ok(res) => res.diagnostics@,
        Err(_) => Seq::empty(),
    }
}

/// The error of a result, if any.
pub open spec fn error_of<T>(r: Result<T>) -> Option<Error> {
    match r {
        Ok(_) => None,
        Err(e) => Some(e),
    }
}

/// From `before` to `after`: unchanged, unless the depth limit is on and the
/// tree of `before` is deeper than it (then over-deep content is pruned).
pub open spec fn pruned_or_same(before: Html, after: Html, o: ConversionOptions) -> bool {
    after == before || (o.limits.max_dom_depth > 0 && exists|t: DomNode|
        #[trigger] read_tree(before, html_root(before), false, html_arena_len(before), t)
            && capped_depth(t) > o.limits.max_dom_depth)
}

/// From `before` to `after`: only the element that keep-only chooses kept,
/// as a document of its own.
pub open spec fn kept_only(before: Html, after: Html, o: ConversionOptions) -> bool {
    after == match keep_choice(before, keep_selectors(o.cleanup), 0) {
        Some(id) => parsed_html(html_outer(before, id)),
        None => before,
    }
}

/// From `before` to `after`: the custom rules' tree actions applied in
/// priority order.
pub open spec fn custom_rules_applied(before: Html, after: Html, o: ConversionOptions) -> bool {
    exists|docs: Seq<Html>|
        #[trigger] rule_chain(
            docs,
            rule_steps(
                o.extension.custom_rules@,
                crate::rules::claim_order(crate::rules::rule_prios(o.extension.custom_rules@), o.extension.custom_rules@.len()),
            ),
        ) && docs[0] == before && docs.last() == after
}

/// From `before` to `after`: the elements of the Markdown-producing rules
/// marked in priority order.
pub open spec fn rule_marks_applied(before: Html, after: Html, o: ConversionOptions) -> bool {
    exists|docs: Seq<Html>|
        #[trigger] marker_chain(
            docs,
            marker_steps(
                o.extension.custom_rules@,
                crate::rules::claim_order(crate::rules::rule_prios(o.extension.custom_rules@), o.extension.custom_rules@.len()),
            ),
        ) && docs[0] == before && docs.last() == after
}

/// From `before` to `after`: `title` attributes stripped when titles are
/// ignored, else nothing changed.
pub open spec fn titles_handled(before: Html, after: Html, o: ConversionOptions) -> bool {
    if o.render.title_attribute == TitleHandling::Ignore {
        html_elements(after) == elements_without_attr(html_elements(before), selected(before, "[title]"@), "title"@)
            && html_parents(after) == html_parents(before)
    } else {
        after == before
    }
}

/// The documents of a cleaning, one per step: the parsed document, then
/// pruning, then each cleanup pass in the order the pipeline runs them.
pub open spec fn cleaning_chain(d: Seq<Html>, o: ConversionOptions) -> bool {
    &&& d.len() == 21
    &&& pruned_or_same(d[0], d[1], o)
    &&& hidden_removed(d[1], d[2], o)
    &&& tags_removed(d[2], d[3], o)
    &&& footnotes_unwrapped(d[3], d[4], o)
    &&& tag_behaviors_applied(d[4], d[5], o)
    &&& headings_offset(d[5], d[6], o)
    &&& detached_in_turn(d[6], d[7], views(o.cleanup.remove_selectors))
    &&& unwrapped_in_turn(d[7], d[8], views(o.cleanup.unwrap_selectors))
    &&& kept_only(d[8], d[9], o)
    &&& custom_rules_applied(d[9], d[10], o)
    &&& details_handled(d[10], d[11], o)
    &&& forms_handled(d[11], d[12], o)
    &&& custom_elements_handled(d[12], d[13], o)
    &&& tables_handled(d[13], d[14], o)
    &&& media_handled(d[14], d[15], o)
    &&& code_languages_marked(d[15], d[16], o)
    &&& images_handled(d[16], d[17], o)
    &&& rule_marks_applied(d[17], d[18], o)
    &&& urls_rewritten_all(d[18], d[19], o)
    &&& titles_handled(d[19], d[20], o)
}

/// Parses and cleans a document: limits checked, metadata read, then the
/// cleanup passes in order. Fails on a broken limit or an invalid selector
/// in strict mode.
pub fn clean_html_to_dom(
    html: &str,
    options: &ConversionOptions,
    path: Option<&str>,
    diagnostics: &mut Vec<Diagnostic>,
) -> (r: Result<(Html, ExtractedMetadata)>)
    ensures
        !options.strict ==> r is Ok,
        r matches Ok(x) ==> only_requested(options.cleanup.metadata, x.1) && metadata_read(
            parsed_html(html@),
            options.cleanup.metadata,
            x.1,
        ),
        r is Err ==> options.strict,
        options.strict && options.limits.max_input_bytes > 0 && html.len() > options.limits.max_input_bytes
            ==> (r matches Err(Error::LimitExceeded(m)) && m@ == limit_message(
                "input size"@,
                html.len() as nat,
                options.limits.max_input_bytes as nat,
            )),
        limits_applied(html@, html.len() as nat, *options, error_of(r), final(diagnostics)@),
        r matches Ok(x) ==> exists|d: Seq<Html>|
            #[trigger] cleaning_chain(d, *options) && d[0] == parsed_html(html@) && d[20] == x.0,
{
    let mut doc = parse_document(html);
    let tree = subtree(&doc, root_id(&doc));
    assert(parsed_tree(html@, tree));
    let ghost f = tree_findings(options.limits, html.len() as nat, tree);
    let input_bytes = html.len() as u64;
    let count = crate::limits::count_nodes(&tree);
    let depth = crate::limits::max_dom_depth(&tree);
    let attr_len = crate::limits::max_attribute_len(&tree);
    match check_limits(input_bytes, count, depth, attr_len, options, diagnostics) {
        Ok(()) => {},
        Err(e) => return Err(e),
    }
    assert(options.strict ==> f.len() == 0);
    let ghost lim = options.limits.max_dom_depth as nat;
    let metadata = extract_metadata(&doc, options);
    let ghost d0 = doc;
    let max_depth = options.limits.max_dom_depth;
    if max_depth > 0 && depth > max_depth {
        let root = root_id(&doc);
        let fuel = arena_size(&doc);
        prune_deep(&mut doc, root, 0, max_depth, fuel);
        let mut msg = String::new();
        push_str(&mut msg, "content nested deeper than max-dom-depth ");
        push_str(&mut msg, crate::text::u32_to_string(max_depth).as_str());
        push_str(&mut msg, " was pruned");
        diagnostics.push(warning_at(msg.as_str(), path));
        assert(pruning_warned(diagnostics@, lim)) by {
            assert(diagnostics@[diagnostics@.len() - 1].message@ == pruned_message(lim));
        }
    }
    let ghost pruned = max_depth > 0 && depth > max_depth;
    assert(pruned ==> pruning_warned(diagnostics@, lim));
    let ghost d1 = doc;
    assert(pruned_or_same(d0, d1, *options));
    remove_hidden(&mut doc, options);
    let ghost d2 = doc;
    apply_remove_tags(&mut doc, options);
    let ghost d3 = doc;
    apply_footnote_cleanup(&mut doc, options);
    let ghost d4 = doc;
    apply_per_tag_behavior(&mut doc, options);
    let ghost d5 = doc;
    apply_heading_offset(&mut doc, options);
    let ghost d6 = doc;
    let ghost before = diagnostics@;
    match apply_selector_list(&mut doc, &options.cleanup.remove_selectors, false, "invalid remove selector ", options, path, diagnostics) {
        Ok(()) => {
            proof {
                lemma_prefix_warned(before, diagnostics@, lim);
            }
        },
        Err(e) => return Err(e),
    }
    let ghost d7 = doc;
    let ghost before = diagnostics@;
    match apply_selector_list(&mut doc, &options.cleanup.unwrap_selectors, true, "invalid unwrap selector ", options, path, diagnostics) {
        Ok(()) => {
            proof {
                lemma_prefix_warned(before, diagnostics@, lim);
            }
        },
        Err(e) => return Err(e),
    }
    let ghost d8 = doc;
    let ghost before = diagnostics@;
    match apply_keep_only(&mut doc, options, path, diagnostics) {
        Ok(()) => {
            proof {
                lemma_prefix_warned(before, diagnostics@, lim);
            }
        },
        Err(e) => return Err(e),
    }
    let ghost d9 = doc;
    let ghost before = diagnostics@;
    match apply_custom_rules(&mut doc, options, path, diagnostics) {
        Ok(()) => {
            proof {
                lemma_prefix_warned(before, diagnostics@, lim);
            }
        },
        Err(e) => return Err(e),
    }
    let ghost d10 = doc;
    apply_details_handling(&mut doc, options);
    let ghost d11 = doc;
    apply_form_handling(&mut doc, options);
    let ghost d12 = doc;
    apply_custom_elements(&mut doc, options);
    let ghost d13 = doc;
    apply_table_handling(&mut doc, options);
    let ghost d14 = doc;
    apply_media_policy(&mut doc, options);
    let ghost d15 = doc;
    apply_code_language_detection(&mut doc, options);
    let ghost d16 = doc;
    apply_image_handling(&mut doc, options);
    let ghost d17 = doc;
    let ghost before = diagnostics@;
    match apply_custom_rule_markers(&mut doc, options, path, diagnostics) {
        Ok(()) => {
            proof {
                lemma_prefix_warned(before, diagnostics@, lim);
            }
        },
        Err(e) => return Err(e),
    }
    let ghost d18 = doc;
    apply_url_rewriting(&mut doc, options);
    let ghost d19 = doc;
    if options.render.title_attribute == TitleHandling::Ignore {
        strip_title_attributes(&mut doc);
    }
    assert(pruned ==> pruning_warned(diagnostics@, lim));
    proof {
        let d = seq![d0, d1, d2, d3, d4, d5, d6, d7, d8, d9, d10, d11, d12, d13, d14, d15, d16, d17, d18, d19, doc];
        assert(cleaning_chain(d, *options));
    }
    Ok((doc, metadata))
}

/// Cleans a document and serializes it back to HTML.
pub fn clean_html(
    html: &str,
    options: &ConversionOptions,
    path: Option<&str>,
    diagnostics: &mut Vec<Diagnostic>,
) -> (r: Result<(String, ExtractedMetadata)>)
    ensures
        !options.strict ==> r is Ok,
        r matches Ok(x) ==> only_requested(options.cleanup.metadata, x.1) && metadata_read(
            parsed_html(html@),
            options.cleanup.metadata,
            x.1,
        ),
        r is Err ==> options.strict,
        options.strict && options.limits.max_input_bytes > 0 && html.len() > options.limits.max_input_bytes
            ==> (r matches Err(Error::LimitExceeded(m)) && m@ == limit_message(
                "input size"@,
                html.len() as nat,
                options.limits.max_input_bytes as nat,
            )),
{
    match clean_html_to_dom(html, options, path, diagnostics) {
        Ok((doc, metadata)) => Ok((document_html(&doc), metadata)),
        Err(e) => Err(e),
    }
}

/// What holds of every converted result: its Markdown is the profile's
/// post-processing of a rendering that went through the render
/// post-processing; in strict mode it holds no error and keeps to the output
/// limit; it carries only the metadata the options ask for, and that as the
/// parsed document gives it.
pub open spec fn converted(res: ConversionResult, o: ConversionOptions, html: Seq<char>) -> bool {
    &&& exists|merged: ConversionResult, md: Seq<char>|
        #![trigger profile_markdown(o.profile, merged), post_processed(md, o.render)]
        merged.markdown@ == post_processed(md, o.render)
            && profile_markdown(o.profile, merged) == res.markdown@
    &&& o.strict ==> !any_error(res.diagnostics@)
    &&& o.strict && o.limits.max_output_bytes > 0 ==> output_bytes(res) <= o.limits.max_output_bytes
    &&& !o.cleanup.metadata.title ==> res.title is None
    &&& !o.cleanup.metadata.description ==> res.description is None
    &&& !o.cleanup.metadata.canonical_url ==> res.canonical_url is None
    &&& o.cleanup.metadata.title ==> (res.title is Some <==> selected(parsed_html(html), "title"@).len() > 0)
    &&& o.cleanup.metadata.description ==> opt_view(res.description) == meta_value(
        parsed_html(html),
        "meta[name=\"description\"]"@,
        "content"@,
    )
    &&& o.cleanup.metadata.canonical_url ==> opt_view(res.canonical_url) == meta_value(
        parsed_html(html),
        "link[rel=\"canonical\"]"@,
        "href"@,
    )
}

/// Converts HTML with a backend: cleaned, rendered, then finished (metadata
/// merged, profile post-processing, output limit, strict errors).
pub fn convert_with_backend(html: &str, options: &ConversionOptions, backend: &NativeBackend) -> (r: Result<ConversionResult>)
    ensures
        !options.strict ==> r is Ok,
        options.strict && options.limits.max_input_bytes > 0 && html.len() > options.limits.max_input_bytes
            ==> (r matches Err(Error::LimitExceeded(m)) && m@ == limit_message(
                "input size"@,
                html.len() as nat,
                options.limits.max_input_bytes as nat,
            )),
        r matches Ok(res) ==> converted(res, *options, html@),
        limits_applied(html@, html.len() as nat, *options, error_of(r), diagnostics_of(r)),
{
    let mut diagnostics: Vec<Diagnostic> = Vec::new();
    let (doc, metadata) = match clean_html_to_dom(html, options, None, &mut diagnostics) {
        Ok(x) => x,
        Err(e) => return Err(e),
    };
    let ghost cd = diagnostics@;
    let tree = document_tree(&doc, options);
    let result = match backend.convert_dom(&tree, options) {
        Ok(r) => r,
        Err(e) => return Err(e),
    };
    let ghost result0 = result;
    let ghost metadata0 = metadata;
    let r = finish_conversion(result, metadata, diagnostics, options);
    proof {
        match &r {
            Ok(res) => {
                let res = *res;
                let pre = choose|pre: ConversionResult| {
                    &&& #[trigger] finished(result0, metadata0, cd, *options, pre)
                    &&& !(options.limits.max_output_bytes > 0 && output_bytes(pre) > options.limits.max_output_bytes && options.strict)
                    &&& res.markdown == pre.markdown && res.title == pre.title
                    &&& res.description == pre.description && res.canonical_url == pre.canonical_url
                    &&& if options.limits.max_output_bytes > 0 && output_bytes(pre) > options.limits.max_output_bytes {
                        &&& res.diagnostics@.len() == pre.diagnostics@.len() + 1
                        &&& res.diagnostics@.take(pre.diagnostics@.len() as int) == pre.diagnostics@
                        &&& res.diagnostics@.last().kind == crate::diagnostic::DiagnosticKind::Warning
                        &&& res.diagnostics@.last().message@ == limit_message("output size"@, output_bytes(pre), options.limits.max_output_bytes as nat)
                    } else {
                        res.diagnostics == pre.diagnostics
                    }
                    &&& !(options.strict && any_error(res.diagnostics@))
                };
                assert(pre.diagnostics@ =~= cd);
                assert(cd.is_prefix_of(res.diagnostics@));
                lemma_limits_more_diags(html@, html.len() as nat, *options, cd, res.diagnostics@);
            },
            Err(e) => {
                lemma_limits_later_error(html@, html.len() as nat, *options, cd, *e, Seq::empty());
            },
        }
    }
    r
}

/// Converts HTML to Markdown with the native renderer.
pub fn convert(html: &str, options: &ConversionOptions) -> (r: Result<ConversionResult>)
    ensures
        !options.strict ==> r is Ok,
        options.strict && options.limits.max_input_bytes > 0 && html.len() > options.limits.max_input_bytes
            ==> (r matches Err(Error::LimitExceeded(m)) && m@ == limit_message(
                "input size"@,
                html.len() as nat,
                options.limits.max_input_bytes as nat,
            )),
        r matches Ok(res) ==> converted(res, *options, html@),
        limits_applied(html@, html.len() as nat, *options, error_of(r), diagnostics_of(r)),
{
    let backend = NativeBackend::new();
    convert_with_backend(html, options, &backend)
}

} // verus!
