//! What the cleanup passes decide for each element they visit: whether it
//! is hidden, how a heading shifts, which source an image gets, what text
//! stands in for media, details, forms and tables, and which language a
//! code block is in.

use vstd::prelude::*;
use crate::dom::{attr_value, get_attr, node_text, DomNode};
use crate::options::{DifficultTableStrategy, ResponsiveImagePolicy, TableHandling};
use crate::serialize::Attribute;
use crate::text::{
    char_vec, contains_exec, contains_seq, eq_ignore_ascii_case, exec_eq_ignore_ascii_case,
    push_char, push_str, str_eq, trim_both, trim_string, TrimSet,
};

verus! {

// ---------------------------------------------------------------------------
// Tags
// ---------------------------------------------------------------------------

/// The selector that removes `tag`: with math enabled, `script` keeps the
/// math scripts.
pub open spec fn remove_selector(tag: Seq<char>, math: bool) -> Seq<char> {
    if eq_ignore_ascii_case(tag, "script"@) && math {
        "script:not([type^=\"math/\"]):not([type^=\"text/asciimath\"])"@
    } else {
        tag
    }
}

pub fn remove_tag_selector(tag: &str, math: bool) -> (r: String)
    ensures
        r@ == remove_selector(tag@, math),
{
    if exec_eq_ignore_ascii_case(tag, "script") && math {
        "script:not([type^=\"math/\"]):not([type^=\"text/asciimath\"])".to_owned()
    } else {
        tag.to_owned()
    }
}

/// What a per-tag behaviour does to the elements it selects.
#[derive(Debug, Clone, Copy, PartialEq, Eq, Structural)]
pub enum TagAction {
    Drop,
    Unwrap,
    Text,
    Keep,
}

pub open spec fn tag_action_of(action: Seq<char>) -> TagAction {
    if action == "drop"@ {
        TagAction::Drop
    } else if action == "unwrap"@ {
        TagAction::Unwrap
    } else if action == "text"@ {
        TagAction::Text
    } else {
        TagAction::Keep
    }
}

/// The action a per-tag behaviour names (`drop`, `unwrap`, `text`; anything
/// else keeps the element).
pub fn tag_action(action: &str) -> (r: TagAction)
    ensures
        r == tag_action_of(action@),
{
    if str_eq(action, "drop") {
        TagAction::Drop
    } else if str_eq(action, "unwrap") {
        TagAction::Unwrap
    } else if str_eq(action, "text") {
        TagAction::Text
    } else {
        TagAction::Keep
    }
}

/// A custom element: its name holds a hyphen and is not `annotation-xml`.
pub open spec fn custom_element(tag: Seq<char>) -> bool {
    crate::text::has_char(tag, '-') && !eq_ignore_ascii_case(tag, "annotation-xml"@)
}

pub fn is_custom_element(tag: &str) -> (b: bool)
    ensures
        b == custom_element(tag@),
{
    crate::text::has_char_exec(&char_vec(tag), '-') && !exec_eq_ignore_ascii_case(tag, "annotation-xml")
}

// ---------------------------------------------------------------------------
// Headings
// ---------------------------------------------------------------------------

/// The level of a heading tag `h1` .. `h6`.
pub open spec fn heading_level(tag: Seq<char>) -> Option<int> {
    if tag.len() == 2 && tag[0] == 'h' && '1' <= tag[1] <= '6' {
        Some(tag[1] as int - '0' as int)
    } else {
        None
    }
}

/// A level shifted by `offset` and kept within 1 ..= 6.
pub open spec fn shifted_level(level: int, offset: int) -> int {
    if level + offset < 1 {
        1
    } else if level + offset > 6 {
        6
    } else {
        level + offset
    }
}

/// The digit of a heading level.
pub open spec fn level_digit(n: int) -> char {
    if n == 1 {
        '1'
    } else if n == 2 {
        '2'
    } else if n == 3 {
        '3'
    } else if n == 4 {
        '4'
    } else if n == 5 {
        '5'
    } else {
        '6'
    }
}

fn level_char(n: i32) -> (c: char)
    ensures
        c == level_digit(n as int),
{
    if n == 1 {
        '1'
    } else if n == 2 {
        '2'
    } else if n == 3 {
        '3'
    } else if n == 4 {
        '4'
    } else if n == 5 {
        '5'
    } else {
        '6'
    }
}

/// The new tag of a heading shifted by `offset`, when its level changes.
pub open spec fn shifted_heading(tag: Seq<char>, offset: int) -> Option<Seq<char>> {
    match heading_level(tag) {
        Some(l) => if shifted_level(l, offset) == l {
            None
        } else {
            Some(seq!['h', level_digit(shifted_level(l, offset))])
        },
        None => None,
    }
}

/// The tag a heading gets from the heading offset, if it changes.
pub fn heading_offset_tag(tag: &str, offset: i8) -> (r: Option<String>)
    ensures
        match (r, shifted_heading(tag@, offset as int)) {
            (Some(a), Some(b)) => a@ == b,
            (None, None) => true,
            _ => false,
        },
{
    let v = char_vec(tag);
    if !(v.len() == 2 && v[0] == 'h' && '1' <= v[1] && v[1] <= '6') {
        return None;
    }
    let level: i32 = (v[1] as u32 - '0' as u32) as i32;
    let sum: i32 = level + offset as i32;
    let new_level: i32 = if sum < 1 {
        1
    } else if sum > 6 {
        6
    } else {
        sum
    };
    if new_level == level {
        return None;
    }
    assert(level == heading_level(tag@).unwrap());
    assert(new_level == shifted_level(level as int, offset as int));
    let c = level_char(new_level);
    let mut r = String::new();
    push_char(&mut r, 'h');
    push_char(&mut r, c);
    assert(r@ =~= seq!['h', c]);
    Some(r)
}

// ---------------------------------------------------------------------------
// Images
// ---------------------------------------------------------------------------

/// The value of the first of `names` the element has.
pub open spec fn first_present(attrs: Seq<Attribute>, names: Seq<Seq<char>>) -> Option<Seq<char>>
    decreases names.len(),
{
    if names.len() == 0 {
        None
    } else {
        match attr_value(attrs, names[0]) {
            Some(v) => Some(v),
            None => first_present(attrs, names.drop_first()),
        }
    }
}

/// A lazy image's source: with no `src`, the value of the first lazy
/// attribute it has.
pub open spec fn lazy_source(attrs: Seq<Attribute>, lazy: Seq<Seq<char>>) -> Option<Seq<char>> {
    if attr_value(attrs, "src"@) is Some {
        None
    } else {
        first_present(attrs, lazy)
    }
}

/// The `src` a lazy-loaded image gets, if any.
pub fn lazy_image_src(attrs: &Vec<Attribute>, lazy_attrs: &Vec<String>) -> (r: Option<String>)
    ensures
        match (r, lazy_source(attrs@, crate::options::views(*lazy_attrs))) {
            (Some(a), Some(b)) => a@ == b,
            (None, None) => true,
            _ => false,
        },
{
    if get_attr(attrs, "src").is_some() {
        return None;
    }
    let ghost names = crate::options::views(*lazy_attrs);
    assert(names.skip(0) == names);
    let mut i: usize = 0;
    while i < lazy_attrs.len()
        invariant
            i <= lazy_attrs@.len(),
            names == crate::options::views(*lazy_attrs),
            names.len() == lazy_attrs@.len(),
            attr_value(attrs@, "src"@) is None,
            first_present(attrs@, names) == first_present(attrs@, names.skip(i as int)),
        decreases lazy_attrs@.len() - i,
    {
        assert(names.skip(i as int).drop_first() == names.skip(i + 1));
        assert(names.skip(i as int)[0] == lazy_attrs@[i as int]@);
        match get_attr(attrs, lazy_attrs[i].as_str()) {
            Some(v) => {
                assert(first_present(attrs@, names.skip(i as int)) == Some(v@));
                return Some(v);
            },
            None => {},
        }
        i += 1;
    }
    None
}

/// The new `alt` of an image whose width or height is known: the old `alt`
/// (if any) followed by `(WxH)`, `?` for the unknown one.
pub open spec fn metadata_alt(attrs: Seq<Attribute>) -> Option<Seq<char>> {
    let w = attr_value(attrs, "width"@);
    let h = attr_value(attrs, "height"@);
    if w is None && h is None {
        None
    } else {
        let meta = seq!['('] + match w {
            Some(x) => x,
            None => seq!['?'],
        } + seq!['x'] + match h {
            Some(x) => x,
            None => seq!['?'],
        } + seq![')'];
        let current = match attr_value(attrs, "alt"@) {
            Some(a) => a,
            None => Seq::empty(),
        };
        if current.len() == 0 {
            Some(meta)
        } else {
            Some(current + seq![' '] + meta)
        }
    }
}

/// The `alt` an image gets when its dimensions are kept.
pub fn image_metadata_alt(attrs: &Vec<Attribute>) -> (r: Option<String>)
    ensures
        match (r, metadata_alt(attrs@)) {
            (Some(a), Some(b)) => a@ == b,
            (None, None) => true,
            _ => false,
        },
{
    let w = get_attr(attrs, "width");
    let h = get_attr(attrs, "height");
    if w.is_none() && h.is_none() {
        return None;
    }
    let mut meta = String::new();
    push_char(&mut meta, '(');
    match &w {
        Some(x) => push_str(&mut meta, x.as_str()),
        None => push_char(&mut meta, '?'),
    }
    push_char(&mut meta, 'x');
    match &h {
        Some(x) => push_str(&mut meta, x.as_str()),
        None => push_char(&mut meta, '?'),
    }
    push_char(&mut meta, ')');
    let current = match get_attr(attrs, "alt") {
        Some(a) => a,
        None => String::new(),
    };
    if current.as_str().is_empty() {
        Some(meta)
    } else {
        let mut r = current;
        push_char(&mut r, ' ');
        push_str(&mut r, meta.as_str());
        Some(r)
    }
}

/// The text an image is replaced by in alt-text mode: its `alt`, or nothing.
pub fn image_alt_text(attrs: &Vec<Attribute>) -> (r: String)
    ensures
        r@ == match attr_value(attrs@, "alt"@) {
            Some(a) => a,
            None => Seq::empty(),
        },
{
    match get_attr(attrs, "alt") {
        Some(a) => a,
        None => String::new(),
    }
}

/// The `src` an image without one takes from its `srcset`: the first
/// candidate's URL, or, for the largest policy, the URL of the candidate
/// with the largest size key (`keys`, one per comma-separated piece).
pub open spec fn srcset_source(attrs: Seq<Attribute>, policy: ResponsiveImagePolicy, keys: Seq<u32>) -> Option<Seq<char>> {
    if attr_value(attrs, "src"@) is Some {
        None
    } else {
        match attr_value(attrs, "srcset"@) {
            None => None,
            Some(s) => {
                let pieces = crate::elements::split_from(s, ',', 0);
                let chosen = match policy {
                    ResponsiveImagePolicy::Largest => trim_both(
                        pieces[crate::rewrite::largest_index(keys, keys.len()) as int],
                        TrimSet::UnicodeWs,
                    ),
                    _ => pieces[0],
                };
                let ws = crate::text::words(chosen);
                if ws.len() > 0 {
                    Some(ws[0])
                } else {
                    None
                }
            },
        }
    }
}

/// The comma-separated pieces of `s`, as `str::split(',')` yields them.
pub fn split_commas(s: &str) -> (r: Vec<String>)
    ensures
        r@.map_values(|x: String| x@) == crate::elements::split_from(s@, ',', 0),
        r@.len() >= 1,
{
    split_on_char(s, ',')
}

/// The pieces of `s` between the occurrences of `c`.
pub fn split_on_char(s: &str, c: char) -> (r: Vec<String>)
    ensures
        r@.map_values(|x: String| x@) == crate::elements::split_from(s@, c, 0),
        r@.len() >= 1,
{
    let v = char_vec(s);
    let mut out: Vec<String> = Vec::new();
    let mut p: usize = 0;
    loop
        invariant
            p <= v@.len(),
            v@ == s@,
            out@.map_values(|x: String| x@) + crate::elements::split_from(s@, c, p as int)
                == crate::elements::split_from(s@, c, 0),
        decreases v@.len() - p,
    {
        let mut k = p;
        while k < v.len() && v[k] != c
            invariant
                p <= k <= v@.len(),
                forall|j: int| p <= j < k ==> v@[j] != c,
            decreases v@.len() - k,
        {
            k += 1;
        }
        proof {
            crate::text::lemma_find_from(s@, c, p as int);
        }
        let piece = crate::text::string_of_range(&v, p, k);
        let ghost before = out@.map_values(|x: String| x@);
        out.push(piece);
        assert(out@.map_values(|x: String| x@) == before.push(piece@));
        if k < v.len() {
            assert(crate::text::find_from(s@, c, p as int) == Some(k as int));
            assert(crate::elements::split_from(s@, c, p as int) == seq![piece@] + crate::elements::split_from(s@, c, k + 1));
            assert(before.push(piece@) + crate::elements::split_from(s@, c, k + 1) == before + (seq![piece@] + crate::elements::split_from(s@, c, k + 1)));
            p = k + 1;
        } else {
            assert(crate::text::find_from(s@, c, p as int) == None::<int>);
            assert(crate::elements::split_from(s@, c, p as int) == seq![piece@]);
            assert(out@.map_values(|x: String| x@) =~= crate::elements::split_from(s@, c, 0));
            return out;
        }
    }
}

/// The `src` an image takes from its `srcset`, if it has none; `keys` holds
/// the size key of each comma-separated piece of the `srcset`, trimmed.
pub fn srcset_image_src(attrs: &Vec<Attribute>, policy: ResponsiveImagePolicy, keys: &Vec<u32>) -> (r: Option<String>)
    requires
        match attr_value(attrs@, "srcset"@) {
            Some(s) => keys@.len() == crate::elements::split_from(s, ',', 0).len(),
            None => true,
        },
    ensures
        match (r, srcset_source(attrs@, policy, keys@)) {
            (Some(a), Some(b)) => a@ == b,
            (None, None) => true,
            _ => false,
        },
{
    if get_attr(attrs, "src").is_some() {
        return None;
    }
    let srcset = match get_attr(attrs, "srcset") {
        Some(s) => s,
        None => return None,
    };
    let pieces = split_commas(srcset.as_str());
    let ghost pv = pieces@.map_values(|x: String| x@);
    let chosen = match policy {
        ResponsiveImagePolicy::Largest => {
            let i = crate::rewrite::choose_largest_srcset(keys);
            assert(pv[i as int] == pieces@[i as int]@);
            trim_string(pieces[i].as_str(), TrimSet::UnicodeWs)
        },
        _ => {
            assert(pv[0] == pieces@[0]@);
            pieces[0].clone()
        },
    };
    let ws = crate::text::split_whitespace(chosen.as_str());
    if ws.len() > 0 {
        assert(ws@.map_values(|x: String| x@)[0] == ws@[0]@);
        Some(ws[0].clone())
    } else {
        None
    }
}

// ---------------------------------------------------------------------------
// Media, details
// ---------------------------------------------------------------------------

/// The text that stands for a video or audio element: `(TAG: src)`, or
/// `(TAG)` with no source.
pub open spec fn placeholder_text(tag: Seq<char>, attrs: Seq<Attribute>) -> Seq<char> {
    let label = tag.map_values(|c: char| crate::text::ascii_upper(c));
    match attr_value(attrs, "src"@) {
        Some(s) => if s.len() > 0 {
            seq!['('] + label + ": "@ + s + seq![')']
        } else {
            seq!['('] + label + seq![')']
        },
        None => seq!['('] + label + seq![')'],
    }
}

pub fn media_placeholder_text(tag: &str, attrs: &Vec<Attribute>) -> (r: String)
    ensures
        r@ == placeholder_text(tag@, attrs@),
{
    let label = crate::text::to_ascii_upper_string(tag);
    let mut r = String::new();
    push_char(&mut r, '(');
    push_str(&mut r, label.as_str());
    match get_attr(attrs, "src") {
        Some(s) => {
            if !s.as_str().is_empty() {
                push_str(&mut r, ": ");
                push_str(&mut r, s.as_str());
            }
        },
        None => {},
    }
    push_char(&mut r, ')');
    proof {
        reveal_strlit(": ");
    }
    r
}

/// The text of the first `summary` child of a `details` element, trimmed.
pub open spec fn summary_of(children: Seq<DomNode>) -> Seq<char>
    decreases children.len(),
{
    if children.len() == 0 {
        Seq::empty()
    } else {
        match children[0] {
            DomNode::Element { tag, .. } => if eq_ignore_ascii_case(tag@, "summary"@) {
                trim_both(node_text(children[0]), TrimSet::UnicodeWs)
            } else {
                summary_of(children.drop_first())
            },
            _ => summary_of(children.drop_first()),
        }
    }
}

/// The text a `details` element is replaced by in summary-only mode.
pub fn summary_text(details: &DomNode) -> (r: String)
    ensures
        r@ == summary_of(crate::dom::children_of(*details)),
{
    let children = match details {
        DomNode::Element { children, .. } => children,
        DomNode::Document { children } => children,
        _ => return String::new(),
    };
    assert(children@.skip(0) == children@);
    let mut i: usize = 0;
    while i < children.len()
        invariant
            i <= children@.len(),
            crate::dom::children_of(*details) == children@,
            summary_of(children@) == summary_of(children@.skip(i as int)),
        decreases children@.len() - i,
    {
        assert(children@.skip(i as int).drop_first() == children@.skip(i + 1));
        assert(children@.skip(i as int)[0] == children@[i as int]);
        match &children[i] {
            DomNode::Element { tag, .. } => {
                if exec_eq_ignore_ascii_case(tag.as_str(), "summary") {
                    let mut t = String::new();
                    crate::dom::collect_text(&children[i], &mut t);
                    return trim_string(t.as_str(), TrimSet::UnicodeWs);
                }
            },
            _ => {},
        }
        i += 1;
    }
    String::new()
}

// ---------------------------------------------------------------------------
// Tables
// ---------------------------------------------------------------------------

/// How a table is handled: a complex table under GFM handling falls back to
/// HTML or is flattened, as the difficult-table strategy says.
pub open spec fn handling_for(handling: TableHandling, strategy: DifficultTableStrategy, complex: bool) -> TableHandling {
    match handling {
        TableHandling::Gfm => if complex {
            match strategy {
                DifficultTableStrategy::HtmlFallback => TableHandling::HtmlFallback,
                _ => TableHandling::Flatten,
            }
        } else {
            TableHandling::Gfm
        },
        other => other,
    }
}

pub fn table_handling_for(handling: TableHandling, strategy: DifficultTableStrategy, complex: bool) -> (r: TableHandling)
    ensures
        r == handling_for(handling, strategy, complex),
{
    match handling {
        TableHandling::Gfm => if complex {
            match strategy {
                DifficultTableStrategy::HtmlFallback => TableHandling::HtmlFallback,
                _ => TableHandling::Flatten,
            }
        } else {
            TableHandling::Gfm
        },
        TableHandling::HtmlFallback => TableHandling::HtmlFallback,
        TableHandling::Flatten => TableHandling::Flatten,
        TableHandling::CsvLike => TableHandling::CsvLike,
        TableHandling::Drop => TableHandling::Drop,
    }
}


/// An element with tag `t`.
pub open spec fn is_tag(n: DomNode, t: Seq<char>) -> bool {
    n matches DomNode::Element { tag, .. } && tag@ == t
}

/// A table cell.
pub open spec fn is_cell(n: DomNode) -> bool {
    is_tag(n, "td"@) || is_tag(n, "th"@)
}

/// An element spanning rows or columns.
pub open spec fn spans(n: DomNode) -> bool {
    n matches DomNode::Element { attrs, .. } && (attr_value(attrs@, "rowspan"@) is Some || attr_value(
        attrs@,
        "colspan"@,
    ) is Some)
}

/// The descendants of `n` with tag `t`, in document order.
pub open spec fn tagged_in(n: DomNode, t: Seq<char>) -> Seq<DomNode>
    decreases n,
{
    match n {
        DomNode::Element { children, .. } => tagged_list(children@, t),
        DomNode::Document { children } => tagged_list(children@, t),
        _ => Seq::empty(),
    }
}

pub open spec fn tagged_list(cs: Seq<DomNode>, t: Seq<char>) -> Seq<DomNode>
    decreases cs,
{
    if cs.len() == 0 {
        Seq::empty()
    } else {
        tagged_list(cs.drop_last(), t) + (if is_tag(cs.last(), t) {
            seq![cs.last()]
        } else {
            Seq::empty()
        }) + tagged_in(cs.last(), t)
    }
}

/// The cells (`td`, `th`) among the descendants of `n`, in document order.
pub open spec fn cells_in(n: DomNode) -> Seq<DomNode>
    decreases n,
{
    match n {
        DomNode::Element { children, .. } => cells_list(children@),
        DomNode::Document { children } => cells_list(children@),
        _ => Seq::empty(),
    }
}

pub open spec fn cells_list(cs: Seq<DomNode>) -> Seq<DomNode>
    decreases cs,
{
    if cs.len() == 0 {
        Seq::empty()
    } else {
        cells_list(cs.drop_last()) + (if is_cell(cs.last()) {
            seq![cs.last()]
        } else {
            Seq::empty()
        }) + cells_in(cs.last())
    }
}

/// Some descendant of `n` spans rows or columns.
pub open spec fn span_in(n: DomNode) -> bool
    decreases n,
{
    match n {
        DomNode::Element { children, .. } => span_list(children@),
        DomNode::Document { children } => span_list(children@),
        _ => false,
    }
}

pub open spec fn span_list(cs: Seq<DomNode>) -> bool
    decreases cs,
{
    if cs.len() == 0 {
        false
    } else {
        span_list(cs.drop_last()) || spans(cs.last()) || span_in(cs.last())
    }
}

fn exec_is_tag(n: &DomNode, t: &str) -> (b: bool)
    ensures
        b == is_tag(*n, t@),
{
    match n {
        DomNode::Element { tag, .. } => str_eq(tag.as_str(), t),
        _ => false,
    }
}

proof fn lemma_child_smaller(n: DomNode, i: int)
    requires
        0 <= i < crate::dom::children_of(n).len(),
    ensures
        decreases_to!(n => crate::dom::children_of(n)[i]),
{
    match n {
        DomNode::Document { children } => {
            assert(decreases_to!(n => n->Document_children));
            assert(decreases_to!(children => children@));
            assert(decreases_to!(children@ => children@[i]));
        },
        DomNode::Element { children, .. } => {
            assert(decreases_to!(n => n->Element_children));
            assert(decreases_to!(children => children@));
            assert(decreases_to!(children@ => children@[i]));
        },
        _ => {},
    }
}

/// Appends the descendants of `n` with tag `t` to `out`.
pub fn collect_tagged<'a>(n: &'a DomNode, t: &str, out: &mut Vec<&'a DomNode>)
    ensures
        final(out)@.map_values(|r: &DomNode| *r) == old(out)@.map_values(|r: &DomNode| *r) + tagged_in(*n, t@),
    decreases n, 1nat,
{
    match n {
        DomNode::Element { children, .. } => collect_tagged_list(n, children, t, out),
        DomNode::Document { children } => collect_tagged_list(n, children, t, out),
        _ => {
            assert(final(out)@.map_values(|r: &DomNode| *r) =~= old(out)@.map_values(|r: &DomNode| *r) + Seq::<DomNode>::empty());
        },
    }
}

fn collect_tagged_list<'a>(n: &'a DomNode, children: &'a Vec<DomNode>, t: &str, out: &mut Vec<&'a DomNode>)
    requires
        crate::dom::children_of(*n) == children@,
    ensures
        final(out)@.map_values(|r: &DomNode| *r) == old(out)@.map_values(|r: &DomNode| *r) + tagged_list(children@, t@),
    decreases n, 0nat,
{
    let ghost start = out@.map_values(|r: &DomNode| *r);
    let mut i: usize = 0;
    while i < children.len()
        invariant
            i <= children@.len(),
            crate::dom::children_of(*n) == children@,
            out@.map_values(|r: &DomNode| *r) == start + tagged_list(children@.take(i as int), t@),
        decreases children@.len() - i,
    {
        proof {
            lemma_child_smaller(*n, i as int);
        }
        assert(children@.take(i + 1).drop_last() == children@.take(i as int));
        let c = &children[i];
        let ghost before = out@.map_values(|r: &DomNode| *r);
        let ghost own: Seq<DomNode> = Seq::empty();
        if exec_is_tag(c, t) {
            out.push(c);
            proof {
                own = seq![*c];
            }
        }
        assert(out@.map_values(|r: &DomNode| *r) =~= before + own);
        let ghost mid = out@.map_values(|r: &DomNode| *r);
        collect_tagged(c, t, out);
        proof {
            assert(children@.take(i + 1).last() == *c);
            assert(out@.map_values(|r: &DomNode| *r) == mid + tagged_in(*c, t@));
            assert(start + tagged_list(children@.take(i + 1), t@) =~= (start + tagged_list(children@.take(i as int), t@)) + own + tagged_in(*c, t@));
        }
        i += 1;
    }
    assert(children@.take(children@.len() as int) == children@);
}

/// Appends the cells among the descendants of `n` to `out`.
pub fn collect_cells<'a>(n: &'a DomNode, out: &mut Vec<&'a DomNode>)
    ensures
        final(out)@.map_values(|r: &DomNode| *r) == old(out)@.map_values(|r: &DomNode| *r) + cells_in(*n),
    decreases n, 1nat,
{
    match n {
        DomNode::Element { children, .. } => collect_cells_list(n, children, out),
        DomNode::Document { children } => collect_cells_list(n, children, out),
        _ => {
            assert(final(out)@.map_values(|r: &DomNode| *r) =~= old(out)@.map_values(|r: &DomNode| *r) + Seq::<DomNode>::empty());
        },
    }
}

fn collect_cells_list<'a>(n: &'a DomNode, children: &'a Vec<DomNode>, out: &mut Vec<&'a DomNode>)
    requires
        crate::dom::children_of(*n) == children@,
    ensures
        final(out)@.map_values(|r: &DomNode| *r) == old(out)@.map_values(|r: &DomNode| *r) + cells_list(children@),
    decreases n, 0nat,
{
    let ghost start = out@.map_values(|r: &DomNode| *r);
    let mut i: usize = 0;
    while i < children.len()
        invariant
            i <= children@.len(),
            crate::dom::children_of(*n) == children@,
            out@.map_values(|r: &DomNode| *r) == start + cells_list(children@.take(i as int)),
        decreases children@.len() - i,
    {
        proof {
            lemma_child_smaller(*n, i as int);
        }
        assert(children@.take(i + 1).drop_last() == children@.take(i as int));
        let c = &children[i];
        let ghost before = out@.map_values(|r: &DomNode| *r);
        let ghost own: Seq<DomNode> = Seq::empty();
        if exec_is_tag(c, "td") || exec_is_tag(c, "th") {
            out.push(c);
            proof {
                own = seq![*c];
            }
        }
        assert(out@.map_values(|r: &DomNode| *r) =~= before + own);
        let ghost mid = out@.map_values(|r: &DomNode| *r);
        collect_cells(c, out);
        proof {
            assert(children@.take(i + 1).last() == *c);
            assert(out@.map_values(|r: &DomNode| *r) == mid + cells_in(*c));
            assert(start + cells_list(children@.take(i + 1)) =~= (start + cells_list(children@.take(i as int))) + own + cells_in(*c));
        }
        i += 1;
    }
    assert(children@.take(children@.len() as int) == children@);
}

/// Whether some descendant of `n` spans rows or columns.
pub fn has_span_cells(n: &DomNode) -> (b: bool)
    ensures
        b == span_in(*n),
    decreases n, 1nat,
{
    match n {
        DomNode::Element { children, .. } => span_cells_list(n, children),
        DomNode::Document { children } => span_cells_list(n, children),
        _ => false,
    }
}

fn span_cells_list(n: &DomNode, children: &Vec<DomNode>) -> (b: bool)
    requires
        crate::dom::children_of(*n) == children@,
    ensures
        b == span_list(children@),
    decreases n, 0nat,
{
    let mut found = false;
    let mut i: usize = 0;
    while i < children.len()
        invariant
            i <= children@.len(),
            crate::dom::children_of(*n) == children@,
            found == span_list(children@.take(i as int)),
        decreases children@.len() - i,
    {
        proof {
            lemma_child_smaller(*n, i as int);
        }
        assert(children@.take(i + 1).drop_last() == children@.take(i as int));
        let c = &children[i];
        if !found {
            let own = match c {
                DomNode::Element { attrs, .. } => get_attr(attrs, "rowspan").is_some() || get_attr(attrs, "colspan").is_some(),
                _ => false,
            };
            if own || has_span_cells(c) {
                found = true;
            }
        }
        i += 1;
    }
    assert(children@.take(children@.len() as int) == children@);
    found
}

/// A table is complex: it holds another table, a cell that spans rows or
/// columns, or (with two rows or more) rows of different or zero lengths.
pub open spec fn complex_table(t: DomNode) -> bool {
    let rows = tagged_in(t, "tr"@);
    ||| tagged_in(t, "table"@).len() > 0
    ||| exists|i: int| 0 <= i < rows.len() && span_in(#[trigger] rows[i])
    ||| (rows.len() >= 2 && exists|i: int|
        0 <= i < rows.len() && (cells_in(#[trigger] rows[i]).len() != cells_in(rows[0]).len() || cells_in(
            rows[i],
        ).len() == 0))
}

/// Whether a table is too complex for a pipe table.
pub fn is_complex_table(t: &DomNode) -> (b: bool)
    ensures
        b == complex_table(*t),
{
    let mut tables: Vec<&DomNode> = Vec::new();
    collect_tagged(t, "table", &mut tables);
    assert(tables@.map_values(|r: &DomNode| *r) =~= Seq::<&DomNode>::empty().map_values(|r: &DomNode| *r) + tagged_in(*t, "table"@));
    if tables.len() > 0 {
        return true;
    }
    let mut rows: Vec<&DomNode> = Vec::new();
    collect_tagged(t, "tr", &mut rows);
    let ghost rs = tagged_in(*t, "tr"@);
    assert(rows@.map_values(|r: &DomNode| *r) =~= rs);
    let mut lens: Vec<usize> = Vec::new();
    let mut i: usize = 0;
    while i < rows.len()
        invariant
            i <= rows@.len(),
            rs == rows@.map_values(|r: &DomNode| *r),
            rs == tagged_in(*t, "tr"@),
            lens@.len() == i,
            forall|j: int| 0 <= j < i ==> !span_in(#[trigger] rs[j]),
            forall|j: int| 0 <= j < i ==> #[trigger] lens@[j] == cells_in(rs[j]).len(),
        decreases rows@.len() - i,
    {
        assert(rs[i as int] == *rows@[i as int]);
        if has_span_cells(rows[i]) {
            assert(span_in(rs[i as int]));
            return true;
        }
        let mut cells: Vec<&DomNode> = Vec::new();
        collect_cells(rows[i], &mut cells);
        assert(cells@.map_values(|r: &DomNode| *r) =~= Seq::<&DomNode>::empty().map_values(|r: &DomNode| *r) + cells_in(rs[i as int]));
        lens.push(cells.len());
        i += 1;
    }
    assert(!exists|i: int| 0 <= i < rs.len() && span_in(#[trigger] rs[i]));
    if lens.len() < 2 {
        return false;
    }
    let first = lens[0];
    let mut k: usize = 0;
    while k < lens.len()
        invariant
            k <= lens@.len(),
            lens@.len() == rs.len(),
            rs == tagged_in(*t, "tr"@),
            rs.len() >= 2,
            first == cells_in(rs[0]).len(),
            forall|j: int| 0 <= j < lens@.len() ==> #[trigger] lens@[j] == cells_in(rs[j]).len(),
            forall|j: int| 0 <= j < k ==> !(#[trigger] cells_in(rs[j]).len() != cells_in(rs[0]).len() || cells_in(rs[j]).len() == 0),
        decreases lens@.len() - k,
    {
        assert(lens@[k as int] == cells_in(rs[k as int]).len());
        if lens[k] != first || lens[k] == 0 {
            assert(cells_in(rs[k as int]).len() != cells_in(rs[0]).len() || cells_in(rs[k as int]).len() == 0);
            return true;
        }
        k += 1;
    }
    false
}


/// The non-empty trimmed texts of `cells`.
pub open spec fn cell_texts(cells: Seq<DomNode>) -> Seq<Seq<char>>
    decreases cells.len(),
{
    if cells.len() == 0 {
        Seq::empty()
    } else {
        let rest = cell_texts(cells.drop_last());
        let t = trim_both(node_text(cells.last()), TrimSet::UnicodeWs);
        if t.len() > 0 {
            rest.push(t)
        } else {
            rest
        }
    }
}

/// One line per row with some text: its cell texts separated by ` | `.
pub open spec fn row_lines(rows: Seq<DomNode>) -> Seq<Seq<char>>
    decreases rows.len(),
{
    if rows.len() == 0 {
        Seq::empty()
    } else {
        let rest = row_lines(rows.drop_last());
        let cs = cell_texts(cells_in(rows.last()));
        if cs.len() > 0 {
            rest.push(crate::text::join(cs, " | "@))
        } else {
            rest
        }
    }
}

/// A flattened table: its row lines as paragraphs, or nothing when no cell
/// has text.
pub open spec fn flattened(t: DomNode) -> Option<Seq<char>> {
    let body = crate::text::join(row_lines(tagged_in(t, "tr"@)), "\n\n"@);
    if body.len() == 0 {
        None
    } else {
        Some("\n\n"@ + body + "\n\n"@)
    }
}

fn trimmed_cell_texts(cells: &Vec<&DomNode>) -> (r: Vec<String>)
    ensures
        r@.map_values(|x: String| x@) == cell_texts(cells@.map_values(|c: &DomNode| *c)),
{
    let ghost cv = cells@.map_values(|c: &DomNode| *c);
    let mut out: Vec<String> = Vec::new();
    let mut i: usize = 0;
    while i < cells.len()
        invariant
            i <= cells@.len(),
            cv == cells@.map_values(|c: &DomNode| *c),
            out@.map_values(|x: String| x@) == cell_texts(cv.take(i as int)),
        decreases cells@.len() - i,
    {
        assert(cv.take(i + 1).drop_last() == cv.take(i as int));
        assert(cv.take(i + 1).last() == *cells@[i as int]);
        let mut t = String::new();
        crate::dom::collect_text(cells[i], &mut t);
        let tt = trim_string(t.as_str(), TrimSet::UnicodeWs);
        if !tt.as_str().is_empty() {
            let ghost before = out@.map_values(|x: String| x@);
            out.push(tt);
            assert(out@.map_values(|x: String| x@) =~= before.push(tt@));
        }
        i += 1;
    }
    assert(cv.take(cells@.len() as int) == cv);
    out
}

/// The text a flattened table is replaced by; `None` removes the table.
pub fn flatten_table_text(t: &DomNode) -> (r: Option<String>)
    ensures
        match (r, flattened(*t)) {
            (Some(a), Some(b)) => a@ == b,
            (None, None) => true,
            _ => false,
        },
{
    let mut rows: Vec<&DomNode> = Vec::new();
    collect_tagged(t, "tr", &mut rows);
    let ghost rs = tagged_in(*t, "tr"@);
    assert(rows@.map_values(|r: &DomNode| *r) =~= rs);
    let mut lines: Vec<String> = Vec::new();
    let mut i: usize = 0;
    while i < rows.len()
        invariant
            i <= rows@.len(),
            rs == rows@.map_values(|r: &DomNode| *r),
            lines@.map_values(|x: String| x@) == row_lines(rs.take(i as int)),
        decreases rows@.len() - i,
    {
        assert(rs.take(i + 1).drop_last() == rs.take(i as int));
        assert(rs.take(i + 1).last() == *rows@[i as int]);
        let mut cells: Vec<&DomNode> = Vec::new();
        collect_cells(rows[i], &mut cells);
        assert(cells@.map_values(|r: &DomNode| *r) =~= Seq::<&DomNode>::empty().map_values(|r: &DomNode| *r) + cells_in(*rows@[i as int]));
        let texts = trimmed_cell_texts(&cells);
        if texts.len() > 0 {
            let line = crate::text::join_strings(&texts, " | ");
            let ghost before = lines@.map_values(|x: String| x@);
            lines.push(line);
            assert(lines@.map_values(|x: String| x@) =~= before.push(line@));
        }
        i += 1;
    }
    assert(rs.take(rows@.len() as int) == rs);
    let body = crate::text::join_strings(&lines, "\n\n");
    if body.as_str().is_empty() {
        return None;
    }
    let mut r = String::new();
    push_str(&mut r, "\n\n");
    push_str(&mut r, body.as_str());
    push_str(&mut r, "\n\n");
    proof {
        reveal_strlit("\n\n");
    }
    Some(r)
}

// ---------------------------------------------------------------------------
// Forms
// ---------------------------------------------------------------------------

/// A form field: `input`, `button`, `select` or `textarea`.
pub open spec fn form_field(tag: Seq<char>) -> bool {
    eq_ignore_ascii_case(tag, "input"@) || eq_ignore_ascii_case(tag, "button"@)
        || eq_ignore_ascii_case(tag, "select"@) || eq_ignore_ascii_case(tag, "textarea"@)
}

/// A field's value: its `value`, else its `placeholder`, else nothing.
pub open spec fn field_value(attrs: Seq<Attribute>) -> Seq<char> {
    let v = match attr_value(attrs, "value"@) {
        Some(x) => x,
        None => Seq::empty(),
    };
    if v.len() > 0 {
        v
    } else {
        match attr_value(attrs, "placeholder"@) {
            Some(x) => x,
            None => Seq::empty(),
        }
    }
}

/// The value of a form field.
pub fn input_value(attrs: &Vec<Attribute>) -> (r: String)
    ensures
        r@ == field_value(attrs@),
{
    let v = match get_attr(attrs, "value") {
        Some(x) => x,
        None => String::new(),
    };
    if !v.as_str().is_empty() {
        v
    } else {
        match get_attr(attrs, "placeholder") {
            Some(x) => x,
            None => String::new(),
        }
    }
}

/// A label refers to `id`: by its `for` attribute, or by any attribute
/// value that contains `id`.
pub open spec fn refers_to(attrs: Seq<Attribute>, id: Seq<char>) -> bool {
    exists|i: int|
        0 <= i < attrs.len() && ((#[trigger] attrs[i].name@ == "for"@ && attrs[i].value@ == id)
            || contains_seq(attrs[i].value@, id))
}

fn exec_refers_to(attrs: &Vec<Attribute>, id: &str) -> (b: bool)
    ensures
        b == refers_to(attrs@, id@),
{
    let idv = char_vec(id);
    let mut i: usize = 0;
    while i < attrs.len()
        invariant
            i <= attrs@.len(),
            idv@ == id@,
            forall|j: int| 0 <= j < i ==> !((#[trigger] attrs@[j].name@ == "for"@ && attrs@[j].value@ == id@)
                || contains_seq(attrs@[j].value@, id@)),
        decreases attrs@.len() - i,
    {
        if (str_eq(attrs[i].name.as_str(), "for") && str_eq(attrs[i].value.as_str(), id))
            || contains_exec(&char_vec(attrs[i].value.as_str()), &idv) {
            return true;
        }
        i += 1;
    }
    false
}

/// The text of the first label (in document order, from `n` itself) that
/// refers to `id`, trimmed.
pub open spec fn label_in(n: DomNode, id: Seq<char>) -> Option<Seq<char>>
    decreases n,
{
    match n {
        DomNode::Element { tag, attrs, children, .. } => if eq_ignore_ascii_case(tag@, "label"@)
            && refers_to(attrs@, id) {
            Some(trim_both(node_text(n), TrimSet::UnicodeWs))
        } else {
            label_in_list(children@, id)
        },
        DomNode::Document { children } => label_in_list(children@, id),
        _ => None,
    }
}

pub open spec fn label_in_list(cs: Seq<DomNode>, id: Seq<char>) -> Option<Seq<char>>
    decreases cs,
{
    if cs.len() == 0 {
        None
    } else {
        match label_in_list(cs.drop_last(), id) {
            Some(l) => Some(l),
            None => label_in(cs.last(), id),
        }
    }
}

fn find_label_in(n: &DomNode, id: &str) -> (r: Option<String>)
    ensures
        match (r, label_in(*n, id@)) {
            (Some(a), Some(b)) => a@ == b,
            (None, None) => true,
            _ => false,
        },
    decreases n, 1nat,
{
    match n {
        DomNode::Element { tag, attrs, children, .. } => {
            if exec_eq_ignore_ascii_case(tag.as_str(), "label") && exec_refers_to(attrs, id) {
                let mut t = String::new();
                crate::dom::collect_text(n, &mut t);
                return Some(trim_string(t.as_str(), TrimSet::UnicodeWs));
            }
            find_label_list(n, children, id)
        },
        DomNode::Document { children } => find_label_list(n, children, id),
        _ => None,
    }
}

fn find_label_list(n: &DomNode, children: &Vec<DomNode>, id: &str) -> (r: Option<String>)
    requires
        crate::dom::children_of(*n) == children@,
    ensures
        match (r, label_in_list(children@, id@)) {
            (Some(a), Some(b)) => a@ == b,
            (None, None) => true,
            _ => false,
        },
    decreases n, 0nat,
{
    let mut i: usize = 0;
    while i < children.len()
        invariant
            i <= children@.len(),
            crate::dom::children_of(*n) == children@,
            label_in_list(children@.take(i as int), id@) is None,
        decreases children@.len() - i,
    {
        proof {
            lemma_child_smaller(*n, i as int);
            lemma_label_list_prefix(children@, id@, i as int);
        }
        assert(children@.take(i + 1).drop_last() == children@.take(i as int));
        let r = find_label_in(&children[i], id);
        if r.is_some() {
            return r;
        }
        i += 1;
    }
    assert(children@.take(children@.len() as int) == children@);
    None
}

proof fn lemma_label_list_prefix(cs: Seq<DomNode>, id: Seq<char>, i: int)
    requires
        0 <= i < cs.len(),
        label_in_list(cs.take(i), id) is None,
    ensures
        label_in_list(cs, id) == (match label_in(cs[i], id) {
            Some(l) => Some(l),
            None => label_in_list(cs.take(i + 1), id),
        }) || label_in(cs[i], id) is None,
        label_in(cs[i], id) is Some ==> label_in_list(cs, id) == label_in(cs[i], id),
    decreases cs.len(),
{
    assert(cs.take(i + 1).drop_last() == cs.take(i));
    if i + 1 < cs.len() {
        assert(cs.drop_last().take(i) == cs.take(i));
        assert(cs.drop_last()[i] == cs[i]);
        lemma_label_list_prefix(cs.drop_last(), id, i);
    } else {
        assert(cs.take(i + 1) == cs);
    }
}

/// The label of a field with id `id`: searched in each of `scopes` in turn
/// (the field's parent, then its ancestors up to the document).
pub open spec fn label_among(scopes: Seq<DomNode>, id: Seq<char>) -> Option<Seq<char>>
    decreases scopes.len(),
{
    if scopes.len() == 0 {
        None
    } else {
        match label_in(scopes[0], id) {
            Some(l) => Some(l),
            None => label_among(scopes.drop_first(), id),
        }
    }
}

fn find_label(scopes: &Vec<&DomNode>, id: &str) -> (r: Option<String>)
    ensures
        match (r, label_among(scopes@.map_values(|s: &DomNode| *s), id@)) {
            (Some(a), Some(b)) => a@ == b,
            (None, None) => true,
            _ => false,
        },
{
    let ghost sv = scopes@.map_values(|s: &DomNode| *s);
    assert(sv.skip(0) == sv);
    let mut i: usize = 0;
    while i < scopes.len()
        invariant
            i <= scopes@.len(),
            sv == scopes@.map_values(|s: &DomNode| *s),
            label_among(sv, id@) == label_among(sv.skip(i as int), id@),
        decreases scopes@.len() - i,
    {
        assert(sv.skip(i as int).drop_first() == sv.skip(i + 1));
        assert(sv.skip(i as int)[0] == *scopes@[i as int]);
        let r = find_label_in(scopes[i], id);
        if r.is_some() {
            return r;
        }
        i += 1;
    }
    None
}

/// The line of a form field: `label: value`, trimmed; none when both are
/// empty. Only a field with an `id` has a label.
pub open spec fn field_line(attrs: Seq<Attribute>, scopes: Seq<DomNode>) -> Seq<Seq<char>> {
    let label = match attr_value(attrs, "id"@) {
        Some(id) => match label_among(scopes, id) {
            Some(l) => l,
            None => Seq::empty(),
        },
        None => Seq::empty(),
    };
    let value = field_value(attrs);
    if label.len() > 0 || value.len() > 0 {
        seq![trim_both(label + ": "@ + value, TrimSet::UnicodeWs)]
    } else {
        Seq::empty()
    }
}

/// The lines of the fields under `n`, whose ancestors (innermost first) are
/// `scopes`.
pub open spec fn form_lines(n: DomNode, scopes: Seq<DomNode>) -> Seq<Seq<char>>
    decreases n,
{
    match n {
        DomNode::Element { tag, attrs, children, .. } => if form_field(tag@) {
            field_line(attrs@, scopes)
        } else {
            form_lines_list(children@, seq![n] + scopes)
        },
        DomNode::Document { children } => form_lines_list(children@, seq![n] + scopes),
        _ => Seq::empty(),
    }
}

pub open spec fn form_lines_list(cs: Seq<DomNode>, scopes: Seq<DomNode>) -> Seq<Seq<char>>
    decreases cs,
{
    if cs.len() == 0 {
        Seq::empty()
    } else {
        form_lines_list(cs.drop_last(), scopes) + form_lines(cs.last(), scopes)
    }
}

fn collect_form_lines<'a>(n: &'a DomNode, scopes: &Vec<&'a DomNode>, lines: &mut Vec<String>)
    ensures
        final(lines)@.map_values(|x: String| x@) == old(lines)@.map_values(|x: String| x@) + form_lines(
            *n,
            scopes@.map_values(|s: &DomNode| *s),
        ),
    decreases n, 1nat,
{
    let ghost sv = scopes@.map_values(|s: &DomNode| *s);
    match n {
        DomNode::Element { tag, attrs, children, .. } => {
            if exec_eq_ignore_ascii_case(tag.as_str(), "input") || exec_eq_ignore_ascii_case(tag.as_str(), "button")
                || exec_eq_ignore_ascii_case(tag.as_str(), "select") || exec_eq_ignore_ascii_case(
                tag.as_str(),
                "textarea",
            ) {
                let value = input_value(attrs);
                let label = match get_attr(attrs, "id") {
                    Some(id) => match find_label(scopes, id.as_str()) {
                        Some(l) => l,
                        None => String::new(),
                    },
                    None => String::new(),
                };
                if !label.as_str().is_empty() || !value.as_str().is_empty() {
                    let mut line = label;
                    push_str(&mut line, ": ");
                    push_str(&mut line, value.as_str());
                    let t = trim_string(line.as_str(), TrimSet::UnicodeWs);
                    let ghost before = lines@.map_values(|x: String| x@);
                    lines.push(t);
                    proof {
                        reveal_strlit(": ");
                        assert(lines@.map_values(|x: String| x@) =~= before + field_line(attrs@, sv));
                    }
                } else {
                    assert(lines@.map_values(|x: String| x@) =~= lines@.map_values(|x: String| x@) + field_line(attrs@, sv));
                }
                return;
            }
            collect_form_list(n, children, scopes, lines);
        },
        DomNode::Document { children } => collect_form_list(n, children, scopes, lines),
        _ => {
            assert(lines@.map_values(|x: String| x@) =~= lines@.map_values(|x: String| x@) + Seq::<Seq<char>>::empty());
        },
    }
}

fn collect_form_list<'a>(n: &'a DomNode, children: &'a Vec<DomNode>, scopes: &Vec<&'a DomNode>, lines: &mut Vec<String>)
    requires
        crate::dom::children_of(*n) == children@,
    ensures
        final(lines)@.map_values(|x: String| x@) == old(lines)@.map_values(|x: String| x@) + form_lines_list(
            children@,
            seq![*n] + scopes@.map_values(|s: &DomNode| *s),
        ),
    decreases n, 0nat,
{
    let mut inner: Vec<&DomNode> = Vec::new();
    inner.push(n);
    assert(inner@.map_values(|s: &DomNode| *s) =~= seq![*n] + scopes@.map_values(|s: &DomNode| *s).take(0));
    let mut k: usize = 0;
    while k < scopes.len()
        invariant
            k <= scopes@.len(),
            inner@.map_values(|s: &DomNode| *s) == seq![*n] + scopes@.map_values(|s: &DomNode| *s).take(k as int),
        decreases scopes@.len() - k,
    {
        let ghost before = inner@.map_values(|s: &DomNode| *s);
        inner.push(scopes[k]);
        assert(inner@.map_values(|s: &DomNode| *s) =~= before.push(*scopes@[k as int]));
        assert(scopes@.map_values(|s: &DomNode| *s).take(k + 1) == scopes@.map_values(|s: &DomNode| *s).take(k as int).push(*scopes@[k as int]));
        assert(inner@.map_values(|s: &DomNode| *s) =~= seq![*n] + scopes@.map_values(|s: &DomNode| *s).take(k + 1));
        k += 1;
    }
    let ghost iv = seq![*n] + scopes@.map_values(|s: &DomNode| *s);
    assert(scopes@.map_values(|s: &DomNode| *s).take(scopes@.len() as int) == scopes@.map_values(|s: &DomNode| *s));
    assert(inner@.map_values(|s: &DomNode| *s) == iv);
    let ghost start = lines@.map_values(|x: String| x@);
    let mut i: usize = 0;
    while i < children.len()
        invariant
            i <= children@.len(),
            crate::dom::children_of(*n) == children@,
            inner@.map_values(|s: &DomNode| *s) == iv,
            lines@.map_values(|x: String| x@) == start + form_lines_list(children@.take(i as int), iv),
        decreases children@.len() - i,
    {
        proof {
            lemma_child_smaller(*n, i as int);
        }
        assert(children@.take(i + 1).drop_last() == children@.take(i as int));
        assert(children@.take(i + 1).last() == children@[i as int]);
        let ghost mid = lines@.map_values(|x: String| x@);
        collect_form_lines(&children[i], &inner, lines);
        assert(start + form_lines_list(children@.take(i + 1), iv) =~= mid + form_lines(children@[i as int], iv));
        i += 1;
    }
    assert(children@.take(children@.len() as int) == children@);
}

/// The readable text of a form: one line per field with a label or a value;
/// `outer` holds the form's ancestors, innermost first.
pub open spec fn form_text(form: DomNode, outer: Seq<DomNode>) -> Seq<char> {
    crate::text::join(form_lines(form, outer), "\n"@)
}

/// The text a form is replaced by in readable mode.
pub fn form_readable_text(form: &DomNode, outer: &Vec<&DomNode>) -> (r: String)
    ensures
        r@ == form_text(*form, outer@.map_values(|s: &DomNode| *s)),
{
    let mut lines: Vec<String> = Vec::new();
    collect_form_lines(form, outer, &mut lines);
    assert(lines@.map_values(|x: String| x@) =~= form_lines(*form, outer@.map_values(|s: &DomNode| *s)));
    crate::text::join_strings(&lines, "\n")
}

} // verus!
