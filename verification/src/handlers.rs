//! The element handlers that extend plain Markdown: strike-through and
//! other inline marks, code fences that cannot be closed early, math,
//! footnotes, definition lists, task-list boxes, alerts, wikilinks, and
//! tables kept as HTML or CSV.

use vstd::prelude::*;
use crate::dom::{attr_value, get_attr, node_text, DomNode};
use crate::options::MathOutput;
use crate::serialize::Attribute;
use crate::text::{
    char_vec, contains_exec, contains_seq, eq_ignore_ascii_case, exec_eq_ignore_ascii_case, join,
    join_strings, lines, push_char, push_str, repeat_char, replaced, split_lines, split_whitespace,
    starts_with, starts_with_exec, str_eq, str_replace, strip_prefix, stripped_prefix, to_ascii_upper_string,
    trim_both, trim_start, trim_start_string, trim_string, words, TrimSet,
};

verus! {

/// What a handler decides for an element: render it as the default
/// handler would, or emit this Markdown.
pub enum HandlerOutcome {
    Fallback,
    Markdown(String),
}

pub open spec fn outcome_view(o: HandlerOutcome) -> Option<Seq<char>> {
    match o {
        HandlerOutcome::Fallback => None,
        HandlerOutcome::Markdown(s) => Some(s@),
    }
}

// ---------------------------------------------------------------------------
// Code fences
// ---------------------------------------------------------------------------

pub open spec fn backticks(n: nat) -> Seq<char> {
    Seq::new(n, |_i: int| '`')
}

/// Makes a fence of backticks that `content` cannot close: the shortest run
/// of at least `min_len` backticks that does not occur in `content`.
pub fn make_code_fence(content: &str, min_len: usize) -> (r: String)
    requires
        content@.len() < usize::MAX,
    ensures
        r@ == backticks(r@.len()),
        r@.len() >= min_len,
        !contains_seq(content@, r@),
        forall|m: nat| min_len <= m < r@.len() ==> contains_seq(content@, #[trigger] backticks(m)),
{
    let v = char_vec(content);
    let mut len = min_len;
    loop
        invariant
            v@ == content@,
            v@.len() < usize::MAX,
            min_len <= len,
            len <= min_len || len <= v@.len() + 1,
            forall|m: nat| min_len <= m < len ==> contains_seq(content@, #[trigger] backticks(m)),
        decreases v@.len() + 1 - len,
    {
        let fence = repeat_char('`', len);
        let fv = char_vec(fence.as_str());
        assert(fv@ == backticks(len as nat));
        if !contains_exec(&v, &fv) {
            return fence;
        }
        proof {
            if len > v@.len() {
                let i = choose|i: int| crate::text::occurs_at(v@, fv@, i);
                assert(false);
            }
        }
        len = len + 1;
    }
}

/// A fenced block: the fence, the info string, the text, the fence, between
/// blank lines.
pub open spec fn fenced(fence: Seq<char>, info: Seq<char>, text: Seq<char>) -> Seq<char> {
    "\n\n"@ + fence + info + seq!['\n'] + text + seq!['\n'] + fence + "\n\n"@
}

/// `text` as a fenced block with info string `info`, fenced by the shortest
/// run of at least three backticks that it cannot close.
pub fn fenced_block(text: &str, info: &str) -> (r: String)
    requires
        text@.len() < usize::MAX,
    ensures
        exists|n: nat|
            n >= 3 && !contains_seq(text@, backticks(n)) && (forall|m: nat|
                3 <= m < n ==> contains_seq(text@, #[trigger] backticks(m))) && r@ == fenced(backticks(n), info@, text@),
{
    let fence = make_code_fence(text, 3);
    let mut r = String::new();
    push_str(&mut r, "\n\n");
    push_str(&mut r, fence.as_str());
    push_str(&mut r, info);
    push_char(&mut r, '\n');
    push_str(&mut r, text);
    push_char(&mut r, '\n');
    push_str(&mut r, fence.as_str());
    push_str(&mut r, "\n\n");
    assert(r@ == fenced(backticks(fence@.len()), info@, text@));
    r
}

// ---------------------------------------------------------------------------
// Math
// ---------------------------------------------------------------------------

/// Math text rendered in the configured style.
pub open spec fn math_text(text: Seq<char>, block: bool, mode: MathOutput) -> Seq<char> {
    let t = trim_both(text, TrimSet::UnicodeWs);
    if t.len() == 0 {
        Seq::empty()
    } else {
        match mode {
            MathOutput::PreserveHtml => "\n\n"@ + t + "\n\n"@,
            MathOutput::InlineDollar | MathOutput::BlockDollar => if block {
                "\n\n$$"@ + t + "$$\n\n"@
            } else {
                "$"@ + t + "$"@
            },
            MathOutput::Fenced => if block {
                "\n\n```math\n"@ + t + "\n```\n\n"@
            } else {
                "`"@ + t + "`"@
            },
            MathOutput::Plain => t,
        }
    }
}

/// Renders math text in the configured output style.
pub fn math_output(text: &str, block: bool, mode: MathOutput) -> (r: String)
    ensures
        r@ == math_text(text@, block, mode),
{
    let t = trim_string(text, TrimSet::UnicodeWs);
    if t.as_str().is_empty() {
        return String::new();
    }
    let mut r = String::new();
    match mode {
        MathOutput::PreserveHtml => {
            push_str(&mut r, "\n\n");
            push_str(&mut r, t.as_str());
            push_str(&mut r, "\n\n");
        },
        MathOutput::InlineDollar | MathOutput::BlockDollar => {
            if block {
                push_str(&mut r, "\n\n$$");
                push_str(&mut r, t.as_str());
                push_str(&mut r, "$$\n\n");
            } else {
                push_str(&mut r, "$");
                push_str(&mut r, t.as_str());
                push_str(&mut r, "$");
            }
        },
        MathOutput::Fenced => {
            if block {
                push_str(&mut r, "\n\n```math\n");
                push_str(&mut r, t.as_str());
                push_str(&mut r, "\n```\n\n");
            } else {
                push_str(&mut r, "`");
                push_str(&mut r, t.as_str());
                push_str(&mut r, "`");
            }
        },
        MathOutput::Plain => {
            push_str(&mut r, t.as_str());
        },
    }
    r
}

/// Is a `<script>` of this type math, and is it display math?
pub open spec fn math_script_kind(ty: Seq<char>) -> Option<bool> {
    if starts_with(ty, "math/"@) || starts_with(ty, "text/asciimath"@) {
        Some(contains_seq(ty, "mode=display"@))
    } else {
        None
    }
}

pub fn math_script_type(ty: &str) -> (r: Option<bool>)
    ensures
        r == math_script_kind(ty@),
{
    let v = char_vec(ty);
    let a = char_vec("math/");
    let b = char_vec("text/asciimath");
    if !starts_with_exec(&v, &a) && !starts_with_exec(&v, &b) {
        return None;
    }
    let d = char_vec("mode=display");
    Some(contains_exec(&v, &d))
}

// ---------------------------------------------------------------------------
// Footnotes
// ---------------------------------------------------------------------------

/// A footnote label without its leading `-`, `:` and `_`.
pub open spec fn footnote_label(s: Seq<char>) -> Seq<char> {
    trim_start(s, TrimSet::AnyOf('-', ':', '_'))
}

pub fn normalize_footnote_label(s: &str) -> (r: String)
    ensures
        r@ == footnote_label(s@),
{
    trim_start_string(s, TrimSet::AnyOf('-', ':', '_'))
}

/// The label of a footnote reference: the element's only child is a link to
/// `#fn...`.
pub open spec fn footnote_ref_label(children: Seq<DomNode>) -> Option<Seq<char>> {
    if children.len() != 1 {
        None
    } else {
        match children[0] {
            DomNode::Element { tag, attrs, .. } => if tag@ == "a"@ {
                match attr_value(attrs@, "href"@) {
                    Some(h) => match stripped_prefix(h, "#fn"@) {
                        Some(l) => Some(footnote_label(l)),
                        None => None,
                    },
                    None => None,
                }
            } else {
                None
            },
            _ => None,
        }
    }
}

pub fn footnote_reference_label(children: &Vec<DomNode>) -> (r: Option<String>)
    ensures
        match (r, footnote_ref_label(children@)) {
            (Some(a), Some(b)) => a@ == b,
            (None, None) => true,
            _ => false,
        },
{
    if children.len() != 1 {
        return None;
    }
    match &children[0] {
        DomNode::Element { tag, attrs, .. } => {
            if !str_eq(tag.as_str(), "a") {
                return None;
            }
            match get_attr(attrs, "href") {
                Some(h) => match strip_prefix(h.as_str(), "#fn") {
                    Some(l) => Some(normalize_footnote_label(l.as_str())),
                    None => None,
                },
                None => None,
            }
        },
        _ => None,
    }
}

/// A footnote reference `[^label]`.
pub fn footnote_reference(label: &str) -> (r: String)
    ensures
        r@ == "[^"@ + label@ + "]"@,
{
    let mut r = String::new();
    push_str(&mut r, "[^");
    push_str(&mut r, label);
    push_str(&mut r, "]");
    r
}

/// A footnote definition from the list item's `id` (`fn` and the label) and
/// its rendered content; other items render as usual.
pub open spec fn footnote_definition(id: Option<Seq<char>>, content: Seq<char>) -> Option<Seq<char>> {
    match id {
        Some(i) => match stripped_prefix(i, "fn"@) {
            Some(l) => Some("\n\n[^"@ + footnote_label(l) + "]: "@ + trim_both(content, TrimSet::UnicodeWs) + "\n\n"@),
            None => None,
        },
        None => None,
    }
}

pub fn footnote_definition_output(id: Option<&str>, content: &str) -> (r: HandlerOutcome)
    ensures
        outcome_view(r) == footnote_definition(
            match id {
                Some(i) => Some(i@),
                None => None,
            },
            content@,
        ),
{
    let i = match id {
        Some(i) => i,
        None => return HandlerOutcome::Fallback,
    };
    let l = match strip_prefix(i, "fn") {
        Some(l) => l,
        None => return HandlerOutcome::Fallback,
    };
    let label = normalize_footnote_label(l.as_str());
    let body = trim_string(content, TrimSet::UnicodeWs);
    let mut r = String::new();
    push_str(&mut r, "\n\n[^");
    push_str(&mut r, label.as_str());
    push_str(&mut r, "]: ");
    push_str(&mut r, body.as_str());
    push_str(&mut r, "\n\n");
    HandlerOutcome::Markdown(r)
}

/// Is this node a link back to the footnote reference?
pub open spec fn is_backlink_node(n: DomNode) -> bool {
    match n {
        DomNode::Element { tag, attrs, .. } => tag@ == "a"@ && exists|k: int|
            0 <= k < attrs@.len() && attrs@[k].name@ == "href"@ && starts_with(
                #[trigger] attrs@[k].value@,
                "#fnref"@,
            ),
        _ => false,
    }
}

fn has_backlink_href(attrs: &Vec<Attribute>) -> (b: bool)
    ensures
        b == exists|k: int|
            0 <= k < attrs@.len() && attrs@[k].name@ == "href"@ && starts_with(
                #[trigger] attrs@[k].value@,
                "#fnref"@,
            ),
{
    let p = char_vec("#fnref");
    let mut k: usize = 0;
    while k < attrs.len()
        invariant
            k <= attrs@.len(),
            p@ == "#fnref"@,
            forall|j: int|
                0 <= j < k ==> !(attrs@[j].name@ == "href"@ && starts_with(
                    #[trigger] attrs@[j].value@,
                    "#fnref"@,
                )),
        decreases attrs@.len() - k,
    {
        let v = char_vec(attrs[k].value.as_str());
        if str_eq(attrs[k].name.as_str(), "href") && starts_with_exec(&v, &p) {
            assert(attrs@[k as int].name@ == "href"@ && starts_with(attrs@[k as int].value@, "#fnref"@));
            return true;
        }
        k += 1;
    }
    false
}

pub fn is_backlink(n: &DomNode) -> (b: bool)
    ensures
        b == is_backlink_node(*n),
{
    match n {
        DomNode::Element { tag, attrs, .. } => str_eq(tag.as_str(), "a") && has_backlink_href(attrs),
        _ => false,
    }
}

// ---------------------------------------------------------------------------
// Inline marks
// ---------------------------------------------------------------------------

/// Inline content between markers; empty when the content is blank.
pub open spec fn wrapped(walked: Seq<char>, prefix: Seq<char>, suffix: Seq<char>) -> Seq<char> {
    if trim_both(walked, TrimSet::UnicodeWs).len() == 0 {
        Seq::empty()
    } else {
        prefix + walked + suffix
    }
}

/// Wraps rendered content in markers (`~~`, `==`, `^`...); elements with
/// attributes in faithful mode render as HTML instead.
pub fn inline_wrap(faithful_with_attrs: bool, walked: &str, prefix: &str, suffix: &str) -> (r: HandlerOutcome)
    ensures
        outcome_view(r) == if faithful_with_attrs {
            None
        } else {
            Some(wrapped(walked@, prefix@, suffix@))
        },
{
    if faithful_with_attrs {
        return HandlerOutcome::Fallback;
    }
    let t = trim_string(walked, TrimSet::UnicodeWs);
    if t.as_str().is_empty() {
        return HandlerOutcome::Markdown(String::new());
    }
    let mut r = String::new();
    push_str(&mut r, prefix);
    push_str(&mut r, walked);
    push_str(&mut r, suffix);
    HandlerOutcome::Markdown(r)
}

/// The markers of the semantic inline elements, by tag.
pub open spec fn inline_markers(tag: Seq<char>) -> Option<(Seq<char>, Seq<char>)> {
    if tag == "del"@ || tag == "s"@ || tag == "strike"@ {
        Some(("~~"@, "~~"@))
    } else if tag == "mark"@ {
        Some(("=="@, "=="@))
    } else if tag == "ins"@ {
        Some(("++"@, "++"@))
    } else if tag == "sub"@ {
        Some(("~"@, "~"@))
    } else if tag == "sup"@ {
        Some(("^"@, "^"@))
    } else if tag == "samp"@ || tag == "var"@ {
        Some(("`"@, "`"@))
    } else if tag == "cite"@ {
        Some(("*"@, "*"@))
    } else {
        None
    }
}

pub fn inline_markers_for(tag: &str) -> (r: Option<(&'static str, &'static str)>)
    ensures
        match (r, inline_markers(tag@)) {
            (Some((a, b)), Some((c, d))) => a@ == c && b@ == d,
            (None, None) => true,
            _ => false,
        },
{
    if str_eq(tag, "del") || str_eq(tag, "s") || str_eq(tag, "strike") {
        Some(("~~", "~~"))
    } else if str_eq(tag, "mark") {
        Some(("==", "=="))
    } else if str_eq(tag, "ins") {
        Some(("++", "++"))
    } else if str_eq(tag, "sub") {
        Some(("~", "~"))
    } else if str_eq(tag, "sup") {
        Some(("^", "^"))
    } else if str_eq(tag, "samp") || str_eq(tag, "var") {
        Some(("`", "`"))
    } else if str_eq(tag, "cite") {
        Some(("*", "*"))
    } else {
        None
    }
}

/// `<kbd>` kept as HTML, `<q>` in quotes, `<address>` as its own block.
pub open spec fn special_inline(tag: Seq<char>, walked: Seq<char>) -> Option<Seq<char>> {
    if tag == "kbd"@ {
        Some("<kbd>"@ + walked + "</kbd>"@)
    } else if tag == "q"@ {
        Some("\""@ + walked + "\""@)
    } else if tag == "address"@ {
        let c = trim_both(walked, TrimSet::UnicodeWs);
        Some(if c.len() == 0 {
            Seq::empty()
        } else {
            "\n\n"@ + c + "\n\n"@
        })
    } else if tag == "abbr"@ || tag == "time"@ {
        Some(walked)
    } else {
        None
    }
}

pub fn special_inline_output(tag: &str, walked: &str) -> (r: Option<String>)
    ensures
        match (r, special_inline(tag@, walked@)) {
            (Some(a), Some(b)) => a@ == b,
            (None, None) => true,
            _ => false,
        },
{
    let mut r = String::new();
    if str_eq(tag, "kbd") {
        push_str(&mut r, "<kbd>");
        push_str(&mut r, walked);
        push_str(&mut r, "</kbd>");
        Some(r)
    } else if str_eq(tag, "q") {
        push_str(&mut r, "\"");
        push_str(&mut r, walked);
        push_str(&mut r, "\"");
        Some(r)
    } else if str_eq(tag, "address") {
        let c = trim_string(walked, TrimSet::UnicodeWs);
        if !c.as_str().is_empty() {
            push_str(&mut r, "\n\n");
            push_str(&mut r, c.as_str());
            push_str(&mut r, "\n\n");
        }
        Some(r)
    } else if str_eq(tag, "abbr") || str_eq(tag, "time") {
        push_str(&mut r, walked);
        Some(r)
    } else {
        None
    }
}

// ---------------------------------------------------------------------------
// Definition lists, task lists
// ---------------------------------------------------------------------------

/// A term or a description of a definition list, rendered.
pub struct DefinitionItem {
    pub is_term: bool,
    pub content: String,
}

/// The lines of a definition list: each term, each description after `: `;
/// blank items are left out.
pub open spec fn definition_lines(items: Seq<DefinitionItem>) -> Seq<Seq<char>>
    decreases items.len(),
{
    if items.len() == 0 {
        Seq::empty()
    } else {
        let rest = definition_lines(items.drop_last());
        let c = trim_both(items.last().content@, TrimSet::UnicodeWs);
        if c.len() == 0 {
            rest
        } else if items.last().is_term {
            rest.push(c)
        } else {
            rest.push(": "@ + c)
        }
    }
}

pub open spec fn definition_list(items: Seq<DefinitionItem>) -> Seq<char> {
    let ls = definition_lines(items);
    if ls.len() == 0 {
        Seq::empty()
    } else {
        "\n\n"@ + join(ls, "\n"@) + "\n\n"@
    }
}

/// Renders a definition list from its rendered terms and descriptions.
pub fn definition_list_output(items: &Vec<DefinitionItem>) -> (r: String)
    ensures
        r@ == definition_list(items@),
{
    let mut lines_out: Vec<String> = Vec::new();
    let mut i: usize = 0;
    while i < items.len()
        invariant
            i <= items@.len(),
            lines_out@.map_values(|s: String| s@) == definition_lines(items@.take(i as int)),
        decreases items@.len() - i,
    {
        assert(items@.take(i + 1).drop_last() == items@.take(i as int));
        let c = trim_string(items[i].content.as_str(), TrimSet::UnicodeWs);
        if !c.as_str().is_empty() {
            let line = if items[i].is_term {
                c
            } else {
                let mut l = String::new();
                push_str(&mut l, ": ");
                push_str(&mut l, c.as_str());
                l
            };
            let ghost before = lines_out@.map_values(|s: String| s@);
            lines_out.push(line);
            assert(lines_out@.map_values(|s: String| s@) =~= before.push(line@));
        }
        i += 1;
    }
    assert(items@.take(items@.len() as int) == items@);
    if lines_out.len() == 0 {
        return String::new();
    }
    let body = join_strings(&lines_out, "\n");
    let mut r = String::new();
    push_str(&mut r, "\n\n");
    push_str(&mut r, body.as_str());
    push_str(&mut r, "\n\n");
    r
}

/// Some attribute called `name` satisfies the test on its value.
pub open spec fn has_attr(attrs: Seq<Attribute>, name: Seq<char>) -> bool {
    exists|k: int| 0 <= k < attrs.len() && #[trigger] attrs[k].name@ == name
}

fn has_attr_exec(attrs: &Vec<Attribute>, name: &str) -> (b: bool)
    ensures
        b == has_attr(attrs@, name@),
{
    let mut k: usize = 0;
    while k < attrs.len()
        invariant
            k <= attrs@.len(),
            forall|j: int| 0 <= j < k ==> #[trigger] attrs@[j].name@ != name@,
        decreases attrs@.len() - k,
    {
        if str_eq(attrs[k].name.as_str(), name) {
            return true;
        }
        k += 1;
    }
    false
}

/// A task-list box: an `<input type="checkbox">` renders as `[x] ` when
/// checked and `[ ] ` when not.
pub open spec fn task_box(attrs: Seq<Attribute>) -> Option<Seq<char>> {
    let is_box = exists|k: int|
        0 <= k < attrs.len() && attrs[k].name@ == "type"@ && eq_ignore_ascii_case(
            #[trigger] attrs[k].value@,
            "checkbox"@,
        );
    if !is_box {
        None
    } else if has_attr(attrs, "checked"@) {
        Some("[x] "@)
    } else {
        Some("[ ] "@)
    }
}

fn is_checkbox(attrs: &Vec<Attribute>) -> (b: bool)
    ensures
        b == exists|k: int|
            0 <= k < attrs@.len() && attrs@[k].name@ == "type"@ && eq_ignore_ascii_case(
                #[trigger] attrs@[k].value@,
                "checkbox"@,
            ),
{
    let mut k: usize = 0;
    while k < attrs.len()
        invariant
            k <= attrs@.len(),
            forall|j: int|
                0 <= j < k ==> !(attrs@[j].name@ == "type"@ && eq_ignore_ascii_case(
                    #[trigger] attrs@[j].value@,
                    "checkbox"@,
                )),
        decreases attrs@.len() - k,
    {
        if str_eq(attrs[k].name.as_str(), "type") && exec_eq_ignore_ascii_case(attrs[k].value.as_str(), "checkbox") {
            assert(attrs@[k as int].name@ == "type"@ && eq_ignore_ascii_case(attrs@[k as int].value@, "checkbox"@));
            return true;
        }
        k += 1;
    }
    false
}

pub fn task_list_checkbox(attrs: &Vec<Attribute>) -> (r: HandlerOutcome)
    ensures
        outcome_view(r) == task_box(attrs@),
{
    if !is_checkbox(attrs) {
        return HandlerOutcome::Fallback;
    }
    if has_attr_exec(attrs, "checked") {
        HandlerOutcome::Markdown("[x] ".to_owned())
    } else {
        HandlerOutcome::Markdown("[ ] ".to_owned())
    }
}

// ---------------------------------------------------------------------------
// Classes, diagrams, alerts, wikilinks
// ---------------------------------------------------------------------------

/// Does the element's `class` attribute list `class` among its words?
pub open spec fn has_class(attrs: Seq<Attribute>, class: Seq<char>) -> bool {
    match attr_value(attrs, "class"@) {
        Some(v) => words(v).contains(class),
        None => false,
    }
}

fn words_contain(ws: &Vec<String>, w: &str) -> (b: bool)
    ensures
        b == ws@.map_values(|x: String| x@).contains(w@),
{
    let ghost wv = ws@.map_values(|x: String| x@);
    let mut i: usize = 0;
    while i < ws.len()
        invariant
            i <= ws@.len(),
            wv == ws@.map_values(|x: String| x@),
            forall|j: int| 0 <= j < i ==> wv[j] != w@,
        decreases ws@.len() - i,
    {
        if str_eq(ws[i].as_str(), w) {
            assert(wv[i as int] == w@);
            return true;
        }
        i += 1;
    }
    false
}

pub fn element_has_class(attrs: &Vec<Attribute>, class: &str) -> (b: bool)
    ensures
        b == has_class(attrs@, class@),
{
    match get_attr(attrs, "class") {
        Some(v) => {
            let ws = split_whitespace(v.as_str());
            words_contain(&ws, class)
        },
        None => false,
    }
}

/// A mermaid diagram dropped.
pub fn mermaid_drop(attrs: &Vec<Attribute>) -> (r: HandlerOutcome)
    ensures
        outcome_view(r) == if has_class(attrs@, "mermaid"@) {
            Some(Seq::<char>::empty())
        } else {
            None
        },
{
    if element_has_class(attrs, "mermaid") {
        HandlerOutcome::Markdown(String::new())
    } else {
        HandlerOutcome::Fallback
    }
}

/// A mermaid diagram as a fenced `mermaid` block of its trimmed text.
pub fn mermaid_fenced(attrs: &Vec<Attribute>, walked: &str) -> (r: HandlerOutcome)
    requires
        walked@.len() < usize::MAX,
    ensures
        !has_class(attrs@, "mermaid"@) ==> outcome_view(r) == None::<Seq<char>>,
        has_class(attrs@, "mermaid"@) && trim_both(walked@, TrimSet::UnicodeWs).len() == 0
            ==> outcome_view(r) == Some(Seq::<char>::empty()),
        has_class(attrs@, "mermaid"@) && trim_both(walked@, TrimSet::UnicodeWs).len() > 0
            ==> exists|n: nat|
            n >= 3 && !contains_seq(trim_both(walked@, TrimSet::UnicodeWs), backticks(n))
                && outcome_view(r) == Some(
                fenced(backticks(n), "mermaid"@, trim_both(walked@, TrimSet::UnicodeWs)),
            ),
{
    if !element_has_class(attrs, "mermaid") {
        return HandlerOutcome::Fallback;
    }
    let text = trim_string(walked, TrimSet::UnicodeWs);
    if text.as_str().is_empty() {
        return HandlerOutcome::Markdown(String::new());
    }
    proof {
        crate::text::lemma_trim_both_len(walked@, TrimSet::UnicodeWs);
    }
    HandlerOutcome::Markdown(fenced_block(text.as_str(), "mermaid"))
}

/// The first word with the prefix `p`, without it.
pub open spec fn first_with_prefix(ws: Seq<Seq<char>>, p: Seq<char>) -> Option<Seq<char>>
    decreases ws.len(),
{
    if ws.len() == 0 {
        None
    } else if starts_with(ws[0], p) {
        Some(ws[0].skip(p.len() as int))
    } else {
        first_with_prefix(ws.drop_first(), p)
    }
}

/// The type of a GitHub-style alert: the `markdown-alert-*` class, upper
/// case.
pub open spec fn alert_type(attrs: Seq<Attribute>) -> Option<Seq<char>> {
    let class = match attr_value(attrs, "class"@) {
        Some(v) => v,
        None => Seq::empty(),
    };
    match first_with_prefix(words(class), "markdown-alert-"@) {
        Some(t) => Some(t.map_values(|c: char| crate::text::ascii_upper(c))),
        None => None,
    }
}

pub fn alert_type_of(attrs: &Vec<Attribute>) -> (r: Option<String>)
    ensures
        match (r, alert_type(attrs@)) {
            (Some(a), Some(b)) => a@ == b,
            (None, None) => true,
            _ => false,
        },
{
    let class = match get_attr(attrs, "class") {
        Some(v) => v,
        None => String::new(),
    };
    assert(class@ == match attr_value(attrs@, "class"@) {
        Some(v) => v,
        None => Seq::<char>::empty(),
    });
    let ws = split_whitespace(class.as_str());
    let ghost wv = ws@.map_values(|x: String| x@);
    let p = char_vec("markdown-alert-");
    assert(wv.skip(0) == wv);
    let mut i: usize = 0;
    while i < ws.len()
        invariant
            i <= ws@.len(),
            wv == ws@.map_values(|x: String| x@),
            wv == words(class@),
            class@ == match attr_value(attrs@, "class"@) {
                Some(v) => v,
                None => Seq::<char>::empty(),
            },
            p@ == "markdown-alert-"@,
            first_with_prefix(wv, "markdown-alert-"@) == first_with_prefix(wv.skip(i as int), "markdown-alert-"@),
        decreases ws@.len() - i,
    {
        assert(wv.skip(i as int).drop_first() == wv.skip(i + 1));
        assert(wv.skip(i as int)[0] == ws@[i as int]@);
        let w = char_vec(ws[i].as_str());
        if starts_with_exec(&w, &p) {
            let t = crate::text::string_of_range(&w, p.len(), w.len());
            assert(t@ == wv[i as int].skip(p@.len() as int));
            let u = to_ascii_upper_string(t.as_str());
            assert(u@ =~= t@.map_values(|c: char| crate::text::ascii_upper(c)));
            assert(starts_with(wv.skip(i as int)[0], "markdown-alert-"@));
            assert(first_with_prefix(wv.skip(i as int), "markdown-alert-"@) == Some(wv[i as int].skip(p@.len() as int)));
            assert(wv == words(class@));
            assert(first_with_prefix(words(class@), "markdown-alert-"@) == Some(t@));
            return Some(u);
        }
        i += 1;
    }
    assert(wv.skip(ws@.len() as int) =~= Seq::<Seq<char>>::empty());
    None
}

/// Is this node the title paragraph of an alert?
pub open spec fn is_alert_title_node(n: DomNode) -> bool {
    match n {
        DomNode::Element { tag, attrs, .. } => tag@ == "p"@ && exists|k: int|
            0 <= k < attrs@.len() && attrs@[k].name@ == "class"@ && contains_seq(
                #[trigger] attrs@[k].value@,
                "markdown-alert-title"@,
            ),
        _ => false,
    }
}

fn has_title_class(attrs: &Vec<Attribute>) -> (b: bool)
    ensures
        b == exists|k: int|
            0 <= k < attrs@.len() && attrs@[k].name@ == "class"@ && contains_seq(
                #[trigger] attrs@[k].value@,
                "markdown-alert-title"@,
            ),
{
    let p = char_vec("markdown-alert-title");
    let mut k: usize = 0;
    while k < attrs.len()
        invariant
            k <= attrs@.len(),
            p@ == "markdown-alert-title"@,
            forall|j: int|
                0 <= j < k ==> !(attrs@[j].name@ == "class"@ && contains_seq(
                    #[trigger] attrs@[j].value@,
                    "markdown-alert-title"@,
                )),
        decreases attrs@.len() - k,
    {
        let v = char_vec(attrs[k].value.as_str());
        if str_eq(attrs[k].name.as_str(), "class") && contains_exec(&v, &p) {
            assert(attrs@[k as int].name@ == "class"@ && contains_seq(attrs@[k as int].value@, "markdown-alert-title"@));
            return true;
        }
        k += 1;
    }
    false
}

pub fn is_alert_title(n: &DomNode) -> (b: bool)
    ensures
        b == is_alert_title_node(*n),
{
    match n {
        DomNode::Element { tag, attrs, .. } => str_eq(tag.as_str(), "p") && has_title_class(attrs),
        _ => false,
    }
}

/// A body line of an alert, quoted.
pub open spec fn quote_line(l: Seq<char>) -> Seq<char> {
    if l.len() == 0 {
        ">"@
    } else {
        "> "@ + l
    }
}

/// An alert: `> [!TYPE]` and the body's lines quoted.
pub open spec fn alert_block(kind: Seq<char>, body: Seq<char>) -> Seq<char> {
    let b = trim_both(body, TrimSet::UnicodeWs);
    if b.len() == 0 {
        "\n\n> [!"@ + kind + "]\n\n"@
    } else {
        let ls = lines(b);
        "\n\n> [!"@ + kind + "]\n"@ + join(Seq::new(ls.len(), |i: int| quote_line(ls[i])), "\n"@) + "\n\n"@
    }
}

/// Renders an alert from its type and its rendered body (title paragraph
/// left out).
pub fn alert_output(kind: &str, body: &str) -> (r: String)
    ensures
        r@ == alert_block(kind@, body@),
{
    let b = trim_string(body, TrimSet::UnicodeWs);
    let mut r = String::new();
    push_str(&mut r, "\n\n> [!");
    push_str(&mut r, kind);
    if b.as_str().is_empty() {
        push_str(&mut r, "]\n\n");
        return r;
    }
    push_str(&mut r, "]\n");
    let ls = split_lines(b.as_str());
    let ghost lv = lines(b@);
    let ghost target = Seq::new(lv.len(), |i: int| quote_line(lv[i]));
    let mut q: Vec<String> = Vec::new();
    let mut i: usize = 0;
    while i < ls.len()
        invariant
            i <= ls@.len(),
            ls@.map_values(|x: String| x@) == lv,
            target == Seq::new(lv.len(), |i: int| quote_line(lv[i])),
            q@.map_values(|x: String| x@) == target.take(i as int),
        decreases ls@.len() - i,
    {
        assert(ls@[i as int]@ == lv[i as int]);
        let line = if ls[i].as_str().is_empty() {
            ">".to_owned()
        } else {
            let mut l = String::new();
            push_str(&mut l, "> ");
            push_str(&mut l, ls[i].as_str());
            l
        };
        let ghost before = q@.map_values(|x: String| x@);
        q.push(line);
        assert(q@.map_values(|x: String| x@) =~= before.push(line@));
        i += 1;
        assert(target.take(i as int) =~= target.take(i - 1).push(target[i - 1]));
    }
    assert(target.take(ls@.len() as int) == target);
    let body_q = join_strings(&q, "\n");
    push_str(&mut r, body_q.as_str());
    push_str(&mut r, "\n\n");
    r
}

/// Is the link a wikilink: class word `wikilink`, or `rel="wikilink"`?
pub open spec fn is_wikilink(attrs: Seq<Attribute>) -> bool {
    exists|k: int|
        0 <= k < attrs.len() && ((attrs[k].name@ == "class"@ && words(#[trigger] attrs[k].value@).contains("wikilink"@))
            || (attrs[k].name@ == "rel"@ && attrs[k].value@ == "wikilink"@))
}

/// A wikilink `[[target]]`, or `[[target|text]]` when the text differs.
pub open spec fn wikilink_text(target: Seq<char>, walked: Seq<char>) -> Seq<char> {
    let display = trim_both(walked, TrimSet::UnicodeWs);
    if display.len() == 0 || display == target {
        "[["@ + target + "]]"@
    } else {
        "[["@ + target + seq!['|'] + display + "]]"@
    }
}

pub fn is_wikilink_exec(attrs: &Vec<Attribute>) -> (b: bool)
    ensures
        b == is_wikilink(attrs@),
{
    let mut k: usize = 0;
    while k < attrs.len()
        invariant
            k <= attrs@.len(),
            forall|j: int|
                0 <= j < k ==> !((attrs@[j].name@ == "class"@ && words(#[trigger] attrs@[j].value@).contains("wikilink"@))
                    || (attrs@[j].name@ == "rel"@ && attrs@[j].value@ == "wikilink"@)),
        decreases attrs@.len() - k,
    {
        let a = &attrs[k];
        let hit = (str_eq(a.name.as_str(), "class") && words_contain(&split_whitespace(a.value.as_str()), "wikilink"))
            || (str_eq(a.name.as_str(), "rel") && str_eq(a.value.as_str(), "wikilink"));
        if hit {
            assert((attrs@[k as int].name@ == "class"@ && words(attrs@[k as int].value@).contains("wikilink"@))
                || (attrs@[k as int].name@ == "rel"@ && attrs@[k as int].value@ == "wikilink"@));
            return true;
        }
        k += 1;
    }
    false
}

/// Renders an Obsidian wikilink; other links render as usual.
pub fn wikilink_output(attrs: &Vec<Attribute>, walked: &str) -> (r: HandlerOutcome)
    ensures
        outcome_view(r) == if is_wikilink(attrs@) {
            Some(wikilink_text(
                match attr_value(attrs@, "href"@) {
                    Some(h) => h,
                    None => Seq::empty(),
                },
                walked@,
            ))
        } else {
            None
        },
{
    if !is_wikilink_exec(attrs) {
        return HandlerOutcome::Fallback;
    }
    let target = match get_attr(attrs, "href") {
        Some(h) => h,
        None => String::new(),
    };
    let display = trim_string(walked, TrimSet::UnicodeWs);
    let mut r = String::new();
    push_str(&mut r, "[[");
    push_str(&mut r, target.as_str());
    if !(display.as_str().is_empty() || str_eq(display.as_str(), target.as_str())) {
        push_char(&mut r, '|');
        push_str(&mut r, display.as_str());
    }
    push_str(&mut r, "]]");
    HandlerOutcome::Markdown(r)
}

// ---------------------------------------------------------------------------
// Tables marked for HTML or CSV output
// ---------------------------------------------------------------------------

/// The table's HTML without the markers the cleanup pass put on it.
pub open spec fn unmarked_html(html: Seq<char>) -> Seq<char> {
    replaced(replaced(html, " data-htmlmd-table=\"html\""@, Seq::empty()), " data-htmlmd-table=\"csv\""@, Seq::empty())
}

/// A marked table: `html` renders as a fenced `html` block of its HTML,
/// `csv` as a fenced `csv` block of its rows; empty output for an empty
/// block; unmarked tables render as usual.
pub open spec fn marked_table(marker: Option<Seq<char>>, html: Seq<char>, csv: Seq<char>, r: Option<Seq<char>>) -> bool {
    if marker == Some("html"@) {
        let h = unmarked_html(html);
        if h.len() == 0 {
            r == Some(Seq::<char>::empty())
        } else {
            exists|n: nat| n >= 3 && !contains_seq(h, backticks(n)) && r == Some(fenced(backticks(n), "html"@, h))
        }
    } else if marker == Some("csv"@) {
        if csv.len() == 0 {
            r == Some(Seq::<char>::empty())
        } else {
            exists|n: nat| n >= 3 && !contains_seq(csv, backticks(n)) && r == Some(fenced(backticks(n), "csv"@, csv))
        }
    } else {
        r == None::<Seq<char>>
    }
}

/// Renders a table marked `data-htmlmd-table`, from its HTML (`outer_html`)
/// and its node.
pub fn table_marker_output(attrs: &Vec<Attribute>, outer_html: &str, node: &DomNode) -> (r: HandlerOutcome)
    requires
        outer_html@.len() < usize::MAX,
        crate::dom::table_csv(*node).len() < usize::MAX,
    ensures
        marked_table(attr_value(attrs@, "data-htmlmd-table"@), outer_html@, crate::dom::table_csv(*node), outcome_view(r)),
{
    let marker = get_attr(attrs, "data-htmlmd-table");
    match marker {
        Some(m) => {
            if str_eq(m.as_str(), "html") {
                proof {
                    reveal_strlit(" data-htmlmd-table=\"html\"");
                    reveal_strlit(" data-htmlmd-table=\"csv\"");
                    reveal_strlit("");
                }
                let empty = String::new();
                let a = str_replace(outer_html, " data-htmlmd-table=\"html\"", empty.as_str());
                let h = str_replace(a.as_str(), " data-htmlmd-table=\"csv\"", empty.as_str());
                proof {
                    reveal_strlit(" data-htmlmd-table=\"html\"");
                    reveal_strlit(" data-htmlmd-table=\"csv\"");
                    lemma_replaced_shorter(outer_html@, " data-htmlmd-table=\"html\""@, Seq::empty(), 0);
                    lemma_replaced_shorter(a@, " data-htmlmd-table=\"csv\""@, Seq::empty(), 0);
                }
                assert(a@ == replaced(outer_html@, " data-htmlmd-table=\"html\""@, Seq::<char>::empty()));
                assert(h@ == unmarked_html(outer_html@));
                if h.as_str().is_empty() {
                    return HandlerOutcome::Markdown(String::new());
                }
                HandlerOutcome::Markdown(fenced_block(h.as_str(), "html"))
            } else if str_eq(m.as_str(), "csv") {
                let csv = crate::dom::table_to_csv(node);
                if csv.as_str().is_empty() {
                    return HandlerOutcome::Markdown(String::new());
                }
                HandlerOutcome::Markdown(fenced_block(csv.as_str(), "csv"))
            } else {
                HandlerOutcome::Fallback
            }
        },
        None => HandlerOutcome::Fallback,
    }
}

/// Removing a pattern never lengthens a string.
proof fn lemma_replaced_shorter(s: Seq<char>, p: Seq<char>, r: Seq<char>, i: int)
    requires
        p.len() > 0,
        r.len() == 0,
        0 <= i <= s.len(),
    ensures
        crate::text::replaced_from(s, p, r, i).len() <= s.len() - i,
    decreases s.len() - i,
{
    if i < s.len() {
        if crate::text::occurs_at(s, p, i) {
            lemma_replaced_shorter(s, p, r, i + p.len());
        } else {
            lemma_replaced_shorter(s, p, r, i + 1);
        }
    }
}

} // verus!
