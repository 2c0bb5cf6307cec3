//! The document tree the renderer reads: elements with attributes, text and
//! comments, as plain values.

use vstd::prelude::*;
use crate::serialize::Attribute;
use crate::text::{
    char_vec, flat_map, has_char, has_char_exec, join, join_strings, lemma_flat_map_take,
    push_char, push_str, str_eq, trim_both, trim_string, TrimSet,
};

verus! {

/// A node of the document tree.
pub enum DomNode {
    /// The root, holding the top-level nodes.
    Document { children: Vec<DomNode> },
    /// An element: tag name, attributes, children, and its serialized
    /// HTML where rendering may fall back to HTML (else empty).
    Element { tag: String, attrs: Vec<Attribute>, children: Vec<DomNode>, html: String },
    /// Character data.
    Text { text: String },
    /// A comment.
    Comment { text: String },
    /// A doctype or processing instruction, which renders as nothing.
    Other,
}

/// The children of a node (none for text and comments).
pub open spec fn children_of(n: DomNode) -> Seq<DomNode> {
    match n {
        DomNode::Document { children } => children@,
        DomNode::Element { children, .. } => children@,
        _ => Seq::empty(),
    }
}

/// The value of the first attribute called `name`.
pub open spec fn attr_value(attrs: Seq<Attribute>, name: Seq<char>) -> Option<Seq<char>>
    decreases attrs.len(),
{
    if attrs.len() == 0 {
        None
    } else if attrs[0].name@ == name {
        Some(attrs[0].value@)
    } else {
        attr_value(attrs.drop_first(), name)
    }
}

/// The value of the first attribute called `name`.
pub fn get_attr(attrs: &Vec<Attribute>, name: &str) -> (r: Option<String>)
    ensures
        match (r, attr_value(attrs@, name@)) {
            (Some(a), Some(b)) => a@ == b,
            (None, None) => true,
            _ => false,
        },
{
    assert(attrs@.skip(0) == attrs@);
    let mut i: usize = 0;
    while i < attrs.len()
        invariant
            i <= attrs@.len(),
            attr_value(attrs@, name@) == attr_value(attrs@.skip(i as int), name@),
        decreases attrs@.len() - i,
    {
        assert(attrs@.skip(i as int).drop_first() == attrs@.skip(i + 1));
        if str_eq(attrs[i].name.as_str(), name) {
            return Some(attrs[i].value.clone());
        }
        i += 1;
    }
    None
}

// ---------------------------------------------------------------------------
// Text content
// ---------------------------------------------------------------------------

/// All the character data under a node, in document order.
pub open spec fn node_text(n: DomNode) -> Seq<char>
    decreases n,
{
    match n {
        DomNode::Text { text } => text@,
        DomNode::Comment { .. } | DomNode::Other => Seq::empty(),
        DomNode::Document { children } => nodes_text(children@),
        DomNode::Element { children, .. } => nodes_text(children@),
    }
}

/// The character data under a list of nodes.
pub open spec fn nodes_text(cs: Seq<DomNode>) -> Seq<char>
    decreases cs,
{
    if cs.len() == 0 {
        Seq::empty()
    } else {
        nodes_text(cs.drop_last()) + node_text(cs.last())
    }
}

/// Appends all the character data under `node` to `out`.
pub fn collect_text(node: &DomNode, out: &mut String)
    ensures
        final(out)@ == old(out)@ + node_text(*node),
    decreases node,
{
    match node {
        DomNode::Text { text } => push_str(out, text.as_str()),
        DomNode::Comment { .. } | DomNode::Other => {},
        DomNode::Document { children } => collect_children_text(children, out),
        DomNode::Element { children, .. } => collect_children_text(children, out),
    }
}

fn collect_children_text(children: &Vec<DomNode>, out: &mut String)
    ensures
        final(out)@ == old(out)@ + nodes_text(children@),
    decreases children,
{
    let ghost start = out@;
    let mut i: usize = 0;
    while i < children.len()
        invariant
            i <= children@.len(),
            out@ == start + nodes_text(children@.take(i as int)),
        decreases children@.len() - i,
    {
        assert(children@.take(i + 1).drop_last() == children@.take(i as int));
        collect_text(&children[i], out);
        i += 1;
    }
    assert(children@.take(children@.len() as int) == children@);
}

// ---------------------------------------------------------------------------
// Tables as CSV
// ---------------------------------------------------------------------------

/// Doubles each `"` of a CSV field.
pub open spec fn csv_quote_char(c: char) -> Seq<char> {
    if c == '"' {
        seq!['"', '"']
    } else {
        seq![c]
    }
}

/// A CSV field: quoted, with inner quotes doubled, when it holds a comma, a
/// quote or a newline.
pub open spec fn csv_field(t: Seq<char>) -> Seq<char> {
    if has_char(t, ',') || has_char(t, '"') || has_char(t, '\n') {
        seq!['"'] + flat_map(t, |c: char| csv_quote_char(c)) + seq!['"']
    } else {
        t
    }
}

pub fn escape_csv(text: &str) -> (r: String)
    ensures
        r@ == csv_field(text@),
{
    let v = char_vec(text);
    if !(has_char_exec(&v, ',') || has_char_exec(&v, '"') || has_char_exec(&v, '\n')) {
        return text.to_owned();
    }
    let ghost f = |c: char| csv_quote_char(c);
    let mut out = String::new();
    push_char(&mut out, '"');
    let mut i: usize = 0;
    while i < v.len()
        invariant
            i <= v@.len(),
            f == (|c: char| csv_quote_char(c)),
            out@ == seq!['"'] + flat_map(v@.take(i as int), f),
        decreases v@.len() - i,
    {
        if v[i] == '"' {
            push_char(&mut out, '"');
        }
        push_char(&mut out, v[i]);
        proof {
            lemma_flat_map_take(v@, i as int, f);
        }
        i += 1;
    }
    assert(v@.take(v@.len() as int) == v@);
    push_char(&mut out, '"');
    out
}

pub open spec fn is_cell_tag(tag: Seq<char>) -> bool {
    tag == "td"@ || tag == "th"@
}

/// The CSV fields of a row's cells (`td` and `th` children), each its
/// trimmed text.
pub open spec fn row_fields(cs: Seq<DomNode>) -> Seq<Seq<char>>
    decreases cs.len(),
{
    if cs.len() == 0 {
        Seq::empty()
    } else {
        let rest = row_fields(cs.drop_last());
        match cs.last() {
            DomNode::Element { tag, .. } => if is_cell_tag(tag@) {
                rest.push(csv_field(trim_both(node_text(cs.last()), TrimSet::UnicodeWs)))
            } else {
                rest
            },
            _ => rest,
        }
    }
}

/// The CSV lines of the rows (`tr` elements) under a node, in document
/// order; rows without cells give no line, and rows inside rows are not
/// looked for.
pub open spec fn csv_rows(n: DomNode) -> Seq<Seq<char>>
    decreases n,
{
    match n {
        DomNode::Element { tag, children, .. } => if tag@ == "tr"@ {
            let fields = row_fields(children@);
            if fields.len() == 0 {
                Seq::empty()
            } else {
                seq![join(fields, ","@)]
            }
        } else {
            csv_rows_list(children@)
        },
        DomNode::Document { children } => csv_rows_list(children@),
        _ => Seq::empty(),
    }
}

pub open spec fn csv_rows_list(cs: Seq<DomNode>) -> Seq<Seq<char>>
    decreases cs,
{
    if cs.len() == 0 {
        Seq::empty()
    } else {
        csv_rows_list(cs.drop_last()) + csv_rows(cs.last())
    }
}

/// A table as CSV: one line per row.
pub open spec fn table_csv(n: DomNode) -> Seq<char> {
    join(csv_rows(n), "\n"@)
}

fn row_fields_exec(children: &Vec<DomNode>) -> (r: Vec<String>)
    ensures
        r@.map_values(|s: String| s@) == row_fields(children@),
{
    let mut r: Vec<String> = Vec::new();
    let mut i: usize = 0;
    while i < children.len()
        invariant
            i <= children@.len(),
            r@.map_values(|s: String| s@) == row_fields(children@.take(i as int)),
        decreases children@.len() - i,
    {
        assert(children@.take(i + 1).drop_last() == children@.take(i as int));
        assert(children@.take(i + 1).last() == children@[i as int]);
        match &children[i] {
            DomNode::Element { tag, .. } => {
                if str_eq(tag.as_str(), "td") || str_eq(tag.as_str(), "th") {
                    let mut t = String::new();
                    collect_text(&children[i], &mut t);
                    let trimmed = trim_string(t.as_str(), TrimSet::UnicodeWs);
                    let f = escape_csv(trimmed.as_str());
                    let ghost before = r@.map_values(|s: String| s@);
                    r.push(f);
                    assert(r@.map_values(|s: String| s@) =~= before.push(f@));
                }
            },
            _ => {},
        }
        i += 1;
    }
    assert(children@.take(children@.len() as int) == children@);
    r
}

fn collect_rows(node: &DomNode, rows: &mut Vec<String>)
    ensures
        final(rows)@.map_values(|s: String| s@) == old(rows)@.map_values(|s: String| s@) + csv_rows(*node),
    decreases node,
{
    match node {
        DomNode::Element { tag, children, .. } => {
            if str_eq(tag.as_str(), "tr") {
                let fields = row_fields_exec(children);
                if fields.len() > 0 {
                    let line = join_strings(&fields, ",");
                    let ghost before = rows@.map_values(|s: String| s@);
                    rows.push(line);
                    assert(rows@.map_values(|s: String| s@) =~= before + seq![line@]);
                } else {
                    assert(rows@.map_values(|s: String| s@) =~= rows@.map_values(|s: String| s@) + Seq::<Seq<char>>::empty());
                }
            } else {
                collect_rows_list(children, rows);
            }
        },
        DomNode::Document { children } => collect_rows_list(children, rows),
        _ => {
            assert(rows@.map_values(|s: String| s@) =~= rows@.map_values(|s: String| s@) + Seq::<Seq<char>>::empty());
        },
    }
}

fn collect_rows_list(children: &Vec<DomNode>, rows: &mut Vec<String>)
    ensures
        final(rows)@.map_values(|s: String| s@) == old(rows)@.map_values(|s: String| s@) + csv_rows_list(children@),
    decreases children,
{
    let ghost start = rows@.map_values(|s: String| s@);
    let mut i: usize = 0;
    assert(start + csv_rows_list(children@.take(0)) =~= start);
    while i < children.len()
        invariant
            i <= children@.len(),
            rows@.map_values(|s: String| s@) == start + csv_rows_list(children@.take(i as int)),
        decreases children@.len() - i,
    {
        assert(children@.take(i + 1).drop_last() == children@.take(i as int));
        collect_rows(&children[i], rows);
        i += 1;
        assert(rows@.map_values(|s: String| s@) =~= start + csv_rows_list(children@.take(i as int)));
    }
    assert(children@.take(children@.len() as int) == children@);
}

/// A table's rows as CSV lines (each cell's trimmed text, quoted when it
/// must be).
pub fn table_to_csv(node: &DomNode) -> (r: String)
    ensures
        r@ == table_csv(*node),
{
    let mut rows: Vec<String> = Vec::new();
    collect_rows(node, &mut rows);
    assert(rows@.map_values(|s: String| s@) =~= csv_rows(*node));
    join_strings(&rows, "\n")
}

} // verus!
