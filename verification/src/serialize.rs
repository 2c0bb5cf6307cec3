//! Falling back to HTML: an element that Markdown cannot express is written
//! out as HTML, inline elements around their rendered children, block
//! elements as an HTML block that no blank line can cut short.

use vstd::prelude::*;
use crate::blocks::{is_block_element, is_block_tag, is_void_element, is_void_tag};
use crate::text::{
    char_vec, flat_map, is_unicode_ws, lemma_flat_map_take, push_char, push_str, string_of_range,
};

verus! {

/// How a character is written in serialized HTML text (`attr_mode` for
/// attribute values).
pub open spec fn html_escape_char(c: char, attr_mode: bool) -> Seq<char> {
    if c == '&' {
        "&amp;"@
    } else if c == '\u{a0}' {
        "&nbsp;"@
    } else if c == '"' && attr_mode {
        "&quot;"@
    } else if c == '<' {
        "&lt;"@
    } else if c == '>' {
        "&gt;"@
    } else {
        seq![c]
    }
}

/// Appends `text` to `out`, escaped as HTML text or attribute value.
pub fn push_escaped(out: &mut String, text: &str, attr_mode: bool)
    ensures
        final(out)@ == old(out)@ + flat_map(text@, |c: char| html_escape_char(c, attr_mode)),
{
    let v = char_vec(text);
    let ghost f = |c: char| html_escape_char(c, attr_mode);
    let ghost start = out@;
    let mut i: usize = 0;
    while i < v.len()
        invariant
            i <= v@.len(),
            f == (|c: char| html_escape_char(c, attr_mode)),
            out@ == start + flat_map(v@.take(i as int), f),
        decreases v@.len() - i,
    {
        let c = v[i];
        proof {
            reveal_strlit("&amp;");
            reveal_strlit("&nbsp;");
            reveal_strlit("&quot;");
            reveal_strlit("&lt;");
            reveal_strlit("&gt;");
            lemma_flat_map_take(v@, i as int, f);
        }
        if c == '&' {
            push_str(out, "&amp;");
        } else if c == '\u{a0}' {
            push_str(out, "&nbsp;");
        } else if c == '"' && attr_mode {
            push_str(out, "&quot;");
        } else if c == '<' {
            push_str(out, "&lt;");
        } else if c == '>' {
            push_str(out, "&gt;");
        } else {
            push_char(out, c);
        }
        assert(out@ =~= start + flat_map(v@.take(i + 1), f));
        i += 1;
    }
    assert(v@.take(v@.len() as int) == v@);
}

/// The namespace of an attribute's name.
#[derive(Debug, Clone, Copy, PartialEq, Eq, Structural)]
pub enum AttrNamespace {
    NoNamespace,
    Xml,
    Xmlns,
    Xlink,
    Other,
}

/// An attribute: namespace, local name and value.
pub struct Attribute {
    pub ns: AttrNamespace,
    pub name: String,
    pub value: String,
}

/// An attribute's name as serialized: the namespace prefix (none for
/// `xmlns` itself) and the local name.
pub open spec fn attr_name_text(ns: AttrNamespace, local: Seq<char>) -> Seq<char> {
    let prefix = match ns {
        AttrNamespace::NoNamespace => Seq::empty(),
        AttrNamespace::Xml => "xml:"@,
        AttrNamespace::Xmlns => if local == "xmlns"@ {
            Seq::empty()
        } else {
            "xmlns:"@
        },
        AttrNamespace::Xlink => "xlink:"@,
        AttrNamespace::Other => "unknown_namespace:"@,
    };
    prefix + local
}

pub fn push_attr_name(out: &mut String, ns: AttrNamespace, local: &str)
    ensures
        final(out)@ == old(out)@ + attr_name_text(ns, local@),
{
    match ns {
        AttrNamespace::NoNamespace => {},
        AttrNamespace::Xml => push_str(out, "xml:"),
        AttrNamespace::Xmlns => {
            if !crate::text::str_eq(local, "xmlns") {
                push_str(out, "xmlns:");
            }
        },
        AttrNamespace::Xlink => push_str(out, "xlink:"),
        AttrNamespace::Other => push_str(out, "unknown_namespace:"),
    }
    push_str(out, local);
}

/// ` name="value"` for each attribute.
pub open spec fn attrs_text(attrs: Seq<Attribute>) -> Seq<char>
    decreases attrs.len(),
{
    if attrs.len() == 0 {
        Seq::empty()
    } else {
        let a = attrs.last();
        attrs_text(attrs.drop_last()) + seq![' '] + attr_name_text(a.ns, a.name@) + "=\""@
            + flat_map(a.value@, |c: char| html_escape_char(c, true)) + seq!['"']
    }
}

/// An inline element written as HTML around its rendered children.
pub open spec fn inline_html(tag: Seq<char>, attrs: Seq<Attribute>, walked: Seq<char>) -> Seq<char> {
    seq!['<'] + tag + attrs_text(attrs) + seq!['>'] + walked + if is_void_tag(tag) {
        Seq::empty()
    } else {
        "</"@ + tag + seq!['>']
    }
}

fn inline_html_exec(tag: &str, attrs: &Vec<Attribute>, walked: &str) -> (r: String)
    ensures
        r@ == inline_html(tag@, attrs@, walked@),
{
    let mut r = String::new();
    push_char(&mut r, '<');
    push_str(&mut r, tag);
    let ghost head = r@;
    let mut i: usize = 0;
    while i < attrs.len()
        invariant
            i <= attrs@.len(),
            r@ == head + attrs_text(attrs@.take(i as int)),
        decreases attrs@.len() - i,
    {
        let a = &attrs[i];
        push_char(&mut r, ' ');
        push_attr_name(&mut r, a.ns, a.name.as_str());
        push_str(&mut r, "=\"");
        push_escaped(&mut r, a.value.as_str(), true);
        push_char(&mut r, '"');
        proof {
            reveal_strlit("=\"");
            assert(attrs@.take(i + 1).drop_last() == attrs@.take(i as int));
        }
        i += 1;
    }
    assert(attrs@.take(attrs@.len() as int) == attrs@);
    push_char(&mut r, '>');
    push_str(&mut r, walked);
    if !is_void_element(tag) {
        push_str(&mut r, "</");
        push_str(&mut r, tag);
        push_char(&mut r, '>');
        proof {
            reveal_strlit("</");
        }
    }
    r
}

// ---------------------------------------------------------------------------
// HTML blocks
// ---------------------------------------------------------------------------

/// White space other than a line break, as `char::is_whitespace` sees it.
pub open spec fn is_inline_ws(c: char) -> bool {
    is_unicode_ws(c) && c != '\r' && c != '\n'
}

/// The length of the run of inline white space at `i`.
pub open spec fn ws_run(s: Seq<char>, i: int) -> nat
    decreases s.len() - i,
{
    if 0 <= i < s.len() && is_inline_ws(s[i]) {
        1 + ws_run(s, i + 1)
    } else {
        0
    }
}

proof fn lemma_ws_run(s: Seq<char>, i: int)
    requires
        0 <= i <= s.len(),
    ensures
        i + ws_run(s, i) <= s.len(),
        forall|j: int| i <= j < i + ws_run(s, i) ==> is_inline_ws(#[trigger] s[j]),
        i + ws_run(s, i) < s.len() ==> !is_inline_ws(s[i + ws_run(s, i)]),
    decreases s.len() - i,
{
    if i < s.len() && is_inline_ws(s[i]) {
        lemma_ws_run(s, i + 1);
    }
}

/// The text of an HTML block from `i` on, with every second line break of a
/// blank line written as a character reference (`&#10;`, or `&#13;&#10;`
/// for CR LF), so that the block has no blank line: a line break and the
/// white space after it are kept; when another line break follows at once
/// it is encoded, and the white space after that is kept too.
pub open spec fn block_newlines_from(s: Seq<char>, i: int) -> Seq<char>
    decreases s.len() - i, 1int,
{
    if i < 0 || i >= s.len() {
        Seq::empty()
    } else {
        let c = s[i];
        if c != '\r' && c != '\n' {
            seq![c] + block_newlines_from(s, i + 1)
        } else if c == '\r' && !(i + 1 < s.len() && s[i + 1] == '\n') {
            seq!['\r'] + block_newlines_from(s, i + 1)
        } else {
            let j = if c == '\r' { i + 2 } else { i + 1 };
            let first = if c == '\r' { "\r\n"@ } else { "\n"@ };
            first + block_newlines_after_break(s, j)
        }
    }
}

/// The block text after a kept line break ending just before `j`.
pub open spec fn block_newlines_after_break(s: Seq<char>, j: int) -> Seq<char>
    decreases s.len() - j, 0int,
{
    if j < 0 || j > s.len() {
        Seq::empty()
    } else {
        let k = j + ws_run(s, j);
        let ws = s.subrange(j, if k <= s.len() { k } else { s.len() as int });
        if k >= s.len() || k < j {
            ws
        } else {
            let c2 = s[k];
            if c2 == '\r' && k + 1 < s.len() && s[k + 1] == '\n' {
                let m = k + 2;
                let p = m + ws_run(s, m);
                if m <= p <= s.len() {
                    ws + "&#13;&#10;"@ + s.subrange(m, p) + block_newlines_from(s, p)
                } else {
                    Seq::empty()
                }
            } else if c2 == '\r' {
                ws + seq!['\r'] + block_newlines_from(s, k + 1)
            } else if c2 == '\n' {
                let m = k + 1;
                let p = m + ws_run(s, m);
                if m <= p <= s.len() {
                    ws + "&#10;"@ + s.subrange(m, p) + block_newlines_from(s, p)
                } else {
                    Seq::empty()
                }
            } else {
                ws + seq![c2] + block_newlines_from(s, k + 1)
            }
        }
    }
}

fn ws_run_exec(v: &Vec<char>, i: usize) -> (k: usize)
    requires
        i <= v@.len(),
    ensures
        k == i + ws_run(v@, i as int),
        k <= v@.len(),
{
    proof {
        lemma_ws_run(v@, i as int);
    }
    let mut k = i;
    while k < v.len() && crate::text::exec_is_unicode_ws(v[k]) && v[k] != '\r' && v[k] != '\n'
        invariant
            i <= k <= v@.len(),
            i + ws_run(v@, i as int) <= v@.len(),
            i + ws_run(v@, i as int) < v@.len() ==> !is_inline_ws(v@[i + ws_run(v@, i as int)]),
            forall|j: int| i <= j < i + ws_run(v@, i as int) ==> is_inline_ws(#[trigger] v@[j]),
            forall|j: int| i <= j < k ==> is_inline_ws(#[trigger] v@[j]),
            k <= i + ws_run(v@, i as int),
        decreases v@.len() - k,
    {
        proof {
            if k == i + ws_run(v@, i as int) {
                assert(!is_inline_ws(v@[k as int]));
            }
        }
        k += 1;
    }
    proof {
        if k < i + ws_run(v@, i as int) {
            assert(is_inline_ws(v@[k as int]));
        }
    }
    k
}

fn after_break(v: &Vec<char>, j: usize, out: &mut String) -> (next: usize)
    requires
        j <= v@.len(),
    ensures
        next <= v@.len(),
        next > j || next == v@.len(),
        final(out)@ + block_newlines_from(v@, next as int) == old(out)@ + block_newlines_after_break(v@, j as int),
{
    let k = ws_run_exec(v, j);
    let ws = string_of_range(v, j, k);
    push_str(out, ws.as_str());
    if k >= v.len() {
        return k;
    }
    let c2 = v[k];
    if c2 == '\r' && k + 1 < v.len() && v[k + 1] == '\n' {
        push_str(out, "&#13;&#10;");
        let p = ws_run_exec(v, k + 2);
        let ws2 = string_of_range(v, k + 2, p);
        push_str(out, ws2.as_str());
        proof {
            reveal_strlit("&#13;&#10;");
        }
        p
    } else if c2 == '\r' {
        push_char(out, '\r');
        k + 1
    } else if c2 == '\n' {
        push_str(out, "&#10;");
        let p = ws_run_exec(v, k + 1);
        let ws2 = string_of_range(v, k + 1, p);
        push_str(out, ws2.as_str());
        proof {
            reveal_strlit("&#10;");
        }
        p
    } else {
        push_char(out, c2);
        k + 1
    }
}

/// Escapes the line breaks of an HTML block that would leave a blank line.
pub fn escape_block_newlines(text: &str) -> (r: String)
    ensures
        r@ == block_newlines_from(text@, 0),
{
    let v = char_vec(text);
    let mut out = String::new();
    let mut i: usize = 0;
    while i < v.len()
        invariant
            i <= v@.len(),
            v@ == text@,
            out@ + block_newlines_from(v@, i as int) == block_newlines_from(v@, 0),
        decreases v@.len() - i,
    {
        let c = v[i];
        if c != '\r' && c != '\n' {
            push_char(&mut out, c);
            i += 1;
        } else if c == '\r' && !(i + 1 < v.len() && v[i + 1] == '\n') {
            push_char(&mut out, '\r');
            i += 1;
        } else {
            let j = if c == '\r' {
                push_str(&mut out, "\r\n");
                i + 2
            } else {
                push_char(&mut out, '\n');
                i + 1
            };
            proof {
                reveal_strlit("\r\n");
                reveal_strlit("\n");
            }
            i = after_break(&v, j, &mut out);
        }
    }
    assert(out@ + Seq::<char>::empty() == out@);
    out
}

/// An element written back as HTML. An inline element wraps its rendered
/// children (CommonMark reads Markdown inside raw inline HTML); a block
/// element is its serialized HTML `outer_html`, between blank lines, with
/// no blank line inside.
pub open spec fn serialized_element(tag: Seq<char>, attrs: Seq<Attribute>, walked: Seq<char>, outer_html: Seq<char>) -> Seq<char> {
    if !is_block_tag(tag) {
        inline_html(tag, attrs, walked)
    } else {
        "\n\n"@ + block_newlines_from(outer_html, 0) + "\n\n"@
    }
}

/// Writes an element back as HTML, from its rendered children (`walked`)
/// and, for a block element, its serialized HTML (`outer_html`).
pub fn serialize_element(tag: &str, attrs: &Vec<Attribute>, walked: &str, outer_html: &str) -> (r: String)
    ensures
        r@ == serialized_element(tag@, attrs@, walked@, outer_html@),
{
    if !is_block_element(tag) {
        inline_html_exec(tag, attrs, walked)
    } else {
        let body = escape_block_newlines(outer_html);
        let mut r = String::new();
        push_str(&mut r, "\n\n");
        push_str(&mut r, body.as_str());
        push_str(&mut r, "\n\n");
        r
    }
}

} // verus!
