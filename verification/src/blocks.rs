//! How rendered pieces are glued together: newline collapsing between
//! blocks, trimming of the output's end, joining of list items, indentation
//! of continuation lines, and the tag classes the renderer relies on.

use vstd::prelude::*;
use crate::text::{
    char_vec, flat_map, join, join_strings, lead_len, lemma_flat_map_take, lines, member,
    push_char, push_str, skip_leading, skip_trailing, split_lines, str_views, string_of_range,
    trail_len, trim_both, trim_end, trim_end_string, trim_start, trim_string, TrimSet,
};

verus! {

// ---------------------------------------------------------------------------
// Tag classes
// ---------------------------------------------------------------------------

/// The block-level tags of CommonMark's HTML-block rule.
pub open spec fn block_tags() -> Seq<Seq<char>> {
    seq![
        "address"@, "article"@, "aside"@, "base"@, "basefont"@, "blockquote"@, "body"@,
        "caption"@, "center"@, "col"@, "colgroup"@, "dd"@, "details"@, "dialog"@, "dir"@,
        "div"@, "dl"@, "dt"@, "fieldset"@, "figcaption"@, "figure"@, "footer"@, "form"@,
        "frame"@, "frameset"@, "h1"@, "h2"@, "h3"@, "h4"@, "h5"@, "h6"@, "head"@, "header"@,
        "hr"@, "html"@, "iframe"@, "legend"@, "li"@, "link"@, "main"@, "menu"@, "menuitem"@,
        "nav"@, "noframes"@, "ol"@, "optgroup"@, "option"@, "p"@, "param"@, "pre"@,
        "script"@, "search"@, "section"@, "style"@, "summary"@, "table"@, "tbody"@, "td"@,
        "textarea"@, "tfoot"@, "th"@, "thead"@, "title"@, "tr"@, "track"@, "ul"@
    ]
}

/// The void elements, whose end tag a serializer omits.
pub open spec fn void_tags() -> Seq<Seq<char>> {
    seq![
        "area"@, "base"@, "basefont"@, "bgsound"@, "br"@, "col"@, "embed"@, "frame"@, "hr"@,
        "img"@, "input"@, "keygen"@, "link"@, "meta"@, "param"@, "source"@, "track"@, "wbr"@
    ]
}

pub open spec fn is_block_tag(tag: Seq<char>) -> bool {
    block_tags().contains(tag)
}

pub open spec fn is_void_tag(tag: Seq<char>) -> bool {
    void_tags().contains(tag)
}

/// Is `tag` a block-level element?
pub fn is_block_element(tag: &str) -> (b: bool)
    ensures
        b == is_block_tag(tag@),
{
    let list: Vec<&str> = vec![
        "address", "article", "aside", "base", "basefont", "blockquote", "body", "caption",
        "center", "col", "colgroup", "dd", "details", "dialog", "dir", "div", "dl", "dt",
        "fieldset", "figcaption", "figure", "footer", "form", "frame", "frameset", "h1", "h2",
        "h3", "h4", "h5", "h6", "head", "header", "hr", "html", "iframe", "legend", "li", "link",
        "main", "menu", "menuitem", "nav", "noframes", "ol", "optgroup", "option", "p", "param",
        "pre", "script", "search", "section", "style", "summary", "table", "tbody", "td",
        "textarea", "tfoot", "th", "thead", "title", "tr", "track", "ul"
    ];
    assert(str_views(list@) =~= block_tags());
    member(tag, &list)
}

/// Is `tag` a void element?
pub fn is_void_element(tag: &str) -> (b: bool)
    ensures
        b == is_void_tag(tag@),
{
    let list: Vec<&str> = vec![
        "area", "base", "basefont", "bgsound", "br", "col", "embed", "frame", "hr", "img",
        "input", "keygen", "link", "meta", "param", "source", "track", "wbr"
    ];
    assert(str_views(list@) =~= void_tags());
    member(tag, &list)
}

// ---------------------------------------------------------------------------
// Appending rendered content
// ---------------------------------------------------------------------------

pub open spec fn newlines(n: nat) -> Seq<char> {
    Seq::new(n, |_i: int| '\n')
}

/// `out` followed by `content`, with at most two newlines where they meet
/// and, outside `<pre>`, no doubled space between inline pieces.
pub open spec fn appended(out: Seq<char>, content: Seq<char>, is_pre: bool) -> Seq<char> {
    if out.len() == 0 {
        content
    } else {
        let ln = trail_len(out, TrimSet::Only('\n'));
        let cn = lead_len(content, TrimSet::Only('\n'));
        let total = ln + cn;
        let c1 = if total > 2 {
            content.skip(if total - 2 < cn { total - 2 } else { cn as int })
        } else {
            content
        };
        let c2 = if !is_pre && ln == 0 && cn == 0 && out.last() == ' ' && c1.len() > 0 && c1[0]
            == ' ' {
            c1.drop_first()
        } else {
            c1
        };
        out + c2
    }
}

/// Appends rendered `content` to `output`, collapsing excessive newlines
/// (at most two in a row) and, outside `<pre>`, a space doubled across the
/// join.
pub fn append_normalized_content(output: &mut String, content: String, is_pre: bool)
    ensures
        final(output)@ == appended(old(output)@, content@, is_pre),
{
    let ov = char_vec(output.as_str());
    if ov.len() == 0 {
        push_str(output, content.as_str());
        return;
    }
    let cv = char_vec(content.as_str());
    let ln = ov.len() - skip_trailing(&ov, ov.len(), TrimSet::Only('\n'));
    let cn = skip_leading(&cv, 0, TrimSet::Only('\n'));
    proof {
        assert(ov@.take(ov@.len() as int) == ov@);
        assert(cv@.skip(0) == cv@);
    }
    let mut start: usize = 0;
    if ln > 2 || cn > 2 - ln {
        start = if ln < 2 { cn - (2 - ln) } else { cn };
    }
    if !is_pre && ln == 0 && cn == 0 && ov[ov.len() - 1] == ' ' && start < cv.len() && cv[start]
        == ' ' {
        start = start + 1;
    }
    let piece = string_of_range(&cv, start, cv.len());
    proof {
        let c1 = if ln + cn > 2 {
            cv@.skip(if ln + cn - 2 < cn { ln + cn - 2 } else { cn as int })
        } else {
            cv@
        };
        if !is_pre && ln == 0 && cn == 0 && ov@.last() == ' ' && c1.len() > 0 && c1[0] == ' ' {
            assert(piece@ == c1.drop_first());
        } else {
            assert(piece@ == c1);
        }
    }
    push_str(output, piece.as_str());
}

/// Drops trailing document white space from `output`.
pub fn trim_output_end(output: &mut String)
    ensures
        final(output)@ == trim_end(old(output)@, TrimSet::DocWs),
{
    let t = trim_end_string(output.as_str(), TrimSet::DocWs);
    *output = t;
}

/// Drops trailing spaces from `output`.
pub fn trim_output_end_spaces(output: &mut String)
    ensures
        final(output)@ == trim_end(old(output)@, TrimSet::Only(' ')),
{
    let t = trim_end_string(output.as_str(), TrimSet::Only(' '));
    *output = t;
}

/// Drops leading and trailing newlines of `content`.
pub fn trim_newlines(content: &mut String)
    ensures
        final(content)@ == trim_both(old(content)@, TrimSet::Only('\n')),
{
    let t = trim_string(content.as_str(), TrimSet::Only('\n'));
    *content = t;
}

// ---------------------------------------------------------------------------
// Joining blocks
// ---------------------------------------------------------------------------

/// `acc` followed by block `c`: the newlines where they meet are replaced by
/// as many as the larger side had, at most two; an empty block adds nothing.
pub open spec fn join_step(acc: Seq<char>, c: Seq<char>) -> Seq<char> {
    if c.len() == 0 {
        acc
    } else {
        let tl = trail_len(acc, TrimSet::Only('\n'));
        let ll = lead_len(c, TrimSet::Only('\n'));
        let m = if tl > ll { tl } else { ll };
        let sep = if m > 2 { 2 } else { m };
        trim_end(acc, TrimSet::Only('\n')) + newlines(sep) + trim_start(c, TrimSet::Only('\n'))
    }
}

/// Blocks joined one after another with `join_step`.
pub open spec fn joined_blocks(parts: Seq<Seq<char>>) -> Seq<char>
    decreases parts.len(),
{
    if parts.len() == 0 {
        Seq::empty()
    } else {
        join_step(joined_blocks(parts.drop_last()), parts.last())
    }
}

fn join_step_exec(acc: &String, c: &String) -> (r: String)
    ensures
        r@ == join_step(acc@, c@),
{
    let cv = char_vec(c.as_str());
    if cv.len() == 0 {
        return acc.clone();
    }
    let av = char_vec(acc.as_str());
    let left = skip_trailing(&av, av.len(), TrimSet::Only('\n'));
    let right = skip_leading(&cv, 0, TrimSet::Only('\n'));
    proof {
        assert(av@.take(av@.len() as int) == av@);
        assert(cv@.skip(0) == cv@);
    }
    let tl = av.len() - left;
    let ll = right;
    let m = if tl > ll { tl } else { ll };
    let sep = if m > 2 { 2 } else { m };
    let mut r = string_of_range(&av, 0, left);
    let mut k: usize = 0;
    while k < sep
        invariant
            k <= sep,
            r@ == av@.subrange(0, left as int) + newlines(k as nat),
        decreases sep - k,
    {
        push_char(&mut r, '\n');
        k += 1;
        assert(r@ =~= av@.subrange(0, left as int) + newlines(k as nat));
    }
    let tail = string_of_range(&cv, right, cv.len());
    push_str(&mut r, tail.as_str());
    assert(av@.subrange(0, left as int) == trim_end(acc@, TrimSet::Only('\n')));
    assert(cv@.subrange(right as int, cv@.len() as int) == trim_start(c@, TrimSet::Only('\n')));
    r
}

/// Joins rendered blocks: between two blocks stand as many newlines as the
/// larger side had, at most two.
pub fn join_blocks(contents: &Vec<String>) -> (r: String)
    ensures
        r@ == joined_blocks(contents@.map_values(|s: String| s@)),
{
    let ghost views = contents@.map_values(|s: String| s@);
    let mut result = String::new();
    let mut i: usize = 0;
    while i < contents.len()
        invariant
            i <= contents@.len(),
            views == contents@.map_values(|s: String| s@),
            result@ == joined_blocks(views.take(i as int)),
        decreases contents@.len() - i,
    {
        result = join_step_exec(&result, &contents[i]);
        proof {
            assert(views.take(i + 1).drop_last() == views.take(i as int));
        }
        i += 1;
    }
    assert(views.take(contents@.len() as int) == views);
    result
}

// ---------------------------------------------------------------------------
// Indentation and titles
// ---------------------------------------------------------------------------

pub open spec fn spaces(n: nat) -> Seq<char> {
    Seq::new(n, |_i: int| ' ')
}

/// Line `idx` of an indented text: trimmed at its end when asked, and, but
/// for the first line and empty lines, prefixed by `indent` spaces.
pub open spec fn indent_line(line: Seq<char>, idx: int, indent: nat, trim: bool) -> Seq<char> {
    let l = if trim {
        trim_end(line, TrimSet::DocWs)
    } else {
        line
    };
    if idx == 0 || l.len() == 0 {
        l
    } else {
        spaces(indent) + l
    }
}

/// `text` with every line but the first indented by `indent` spaces.
pub open spec fn indented(text: Seq<char>, indent: nat, trim: bool) -> Seq<char> {
    if indent == 0 {
        text
    } else {
        let ls = lines(text);
        join(Seq::new(ls.len(), |i: int| indent_line(ls[i], i, indent, trim)), "\n"@)
    }
}

/// Indents every line of `text` but the first by `indent` spaces, dropping
/// trailing document white space of each line when `trim_line_end`.
pub fn indent_text_except_first_line(text: &str, indent: usize, trim_line_end: bool) -> (r: String)
    ensures
        r@ == indented(text@, indent as nat, trim_line_end),
{
    if indent == 0 {
        return text.to_owned();
    }
    let ls = split_lines(text);
    let ghost lv = lines(text@);
    let ghost target = Seq::new(lv.len(), |i: int| indent_line(lv[i], i, indent as nat, trim_line_end));
    let mut pad = String::new();
    let mut k: usize = 0;
    while k < indent
        invariant
            k <= indent,
            pad@ == spaces(k as nat),
        decreases indent - k,
    {
        push_char(&mut pad, ' ');
        k += 1;
        assert(pad@ =~= spaces(k as nat));
    }
    let mut out: Vec<String> = Vec::new();
    let mut i: usize = 0;
    while i < ls.len()
        invariant
            i <= ls@.len(),
            lv == lines(text@),
            ls@.map_values(|x: String| x@) == lv,
            target == Seq::new(lv.len(), |i: int| indent_line(lv[i], i, indent as nat, trim_line_end)),
            pad@ == spaces(indent as nat),
            out@.map_values(|x: String| x@) == target.take(i as int),
        decreases ls@.len() - i,
    {
        assert(ls@[i as int]@ == lv[i as int]);
        let l = if trim_line_end {
            trim_end_string(ls[i].as_str(), TrimSet::DocWs)
        } else {
            ls[i].clone()
        };
        let piece = if i == 0 || l.as_str().is_empty() {
            l
        } else {
            let mut p = pad.clone();
            push_str(&mut p, l.as_str());
            p
        };
        assert(piece@ == target[i as int]);
        let ghost before = out@.map_values(|x: String| x@);
        out.push(piece);
        assert(out@.map_values(|x: String| x@) =~= before.push(piece@));
        i += 1;
        assert(target.take(i as int) =~= target.take(i - 1).push(target[i - 1]));
    }
    assert(target.take(ls@.len() as int) == target);
    join_strings(&out, "\n")
}

/// A title line with `"` escaped.
pub open spec fn quote_escape(c: char) -> Seq<char> {
    if c == '"' {
        seq!['\\', '"']
    } else {
        seq![c]
    }
}

/// The non-empty lines of a title, each trimmed of document white space.
pub open spec fn title_lines(ls: Seq<Seq<char>>) -> Seq<Seq<char>>
    decreases ls.len(),
{
    if ls.len() == 0 {
        Seq::empty()
    } else {
        let rest = title_lines(ls.drop_last());
        let l = trim_both(ls.last(), TrimSet::DocWs);
        if l.len() == 0 {
            rest
        } else {
            rest.push(flat_map(l, |c: char| quote_escape(c)))
        }
    }
}

/// A link title: its non-empty lines, trimmed, with `"` escaped, one per line.
pub open spec fn processed_title(text: Seq<char>) -> Seq<char> {
    join(title_lines(lines(text)), "\n"@)
}

fn quote_escaped(s: &str) -> (r: String)
    ensures
        r@ == flat_map(s@, |c: char| quote_escape(c)),
{
    let v = char_vec(s);
    let ghost f = |c: char| quote_escape(c);
    let mut out = String::new();
    let mut i: usize = 0;
    while i < v.len()
        invariant
            i <= v@.len(),
            f == (|c: char| quote_escape(c)),
            out@ == flat_map(v@.take(i as int), f),
        decreases v@.len() - i,
    {
        if v[i] == '"' {
            push_char(&mut out, '\\');
        }
        push_char(&mut out, v[i]);
        proof {
            lemma_flat_map_take(v@, i as int, f);
        }
        i += 1;
    }
    assert(v@.take(v@.len() as int) == v@);
    out
}

/// Prepares a link title: blank lines are dropped, each line is trimmed and
/// its `"` escaped.
pub fn process_title(text: &str) -> (r: String)
    ensures
        r@ == processed_title(text@),
{
    let ls = split_lines(text);
    let ghost lv = lines(text@);
    let mut out: Vec<String> = Vec::new();
    let mut i: usize = 0;
    while i < ls.len()
        invariant
            i <= ls@.len(),
            lv == lines(text@),
            ls@.map_values(|x: String| x@) == lv,
            out@.map_values(|x: String| x@) == title_lines(lv.take(i as int)),
        decreases ls@.len() - i,
    {
        assert(ls@[i as int]@ == lv[i as int]);
        assert(lv.take(i + 1).drop_last() == lv.take(i as int));
        let l = trim_string(ls[i].as_str(), TrimSet::DocWs);
        if !l.as_str().is_empty() {
            let e = quote_escaped(l.as_str());
            let ghost before = out@.map_values(|x: String| x@);
            out.push(e);
            assert(out@.map_values(|x: String| x@) =~= before.push(e@));
        }
        i += 1;
    }
    assert(lv.take(ls@.len() as int) == lv);
    join_strings(&out, "\n")
}

/// `(` and `)` of a link destination, escaped.
pub open spec fn paren_escape(c: char) -> Seq<char> {
    if c == '(' || c == ')' {
        seq!['\\', c]
    } else {
        seq![c]
    }
}

/// Escapes the parentheses of a link destination.
pub fn escape_link_destination(link: &str) -> (r: String)
    ensures
        r@ == flat_map(link@, |c: char| paren_escape(c)),
{
    let v = char_vec(link);
    let ghost f = |c: char| paren_escape(c);
    let mut out = String::new();
    let mut i: usize = 0;
    while i < v.len()
        invariant
            i <= v@.len(),
            f == (|c: char| paren_escape(c)),
            out@ == flat_map(v@.take(i as int), f),
        decreases v@.len() - i,
    {
        if v[i] == '(' || v[i] == ')' {
            push_char(&mut out, '\\');
        }
        push_char(&mut out, v[i]);
        proof {
            lemma_flat_map_take(v@, i as int, f);
        }
        i += 1;
    }
    assert(v@.take(v@.len() as int) == v@);
    out
}

} // verus!
