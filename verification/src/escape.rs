//! Escaping of text nodes, so that Markdown reads them as literal text and
//! not as syntax (headings, list markers, emphasis, raw HTML).

use vstd::prelude::*;
use crate::text::{
    char_vec, concat_map, flat_map, is_ascii_alpha, is_ascii_digit, is_ascii_ws, lemma_flat_map_take,
    occurs_at, occurs_at_exec, push_char, push_str, starts_with, string_of_chars,
};

verus! {

// ---------------------------------------------------------------------------
// Raw-HTML look-alikes
// ---------------------------------------------------------------------------

/// Does the `<` at `i` start something Markdown would read as raw HTML (a
/// tag, closing tag, comment, declaration or processing instruction, but not
/// a CDATA section)?
pub open spec fn html_like_at(s: Seq<char>, i: int) -> bool {
    &&& 0 <= i
    &&& i + 1 < s.len()
    &&& s[i] == '<'
    &&& {
        let next = s[i + 1];
        ||| (next == '!' && !(starts_with(s.skip(i + 2), "[CDATA["@) || starts_with(
            s.skip(i + 2),
            "\\[CDATA\\["@,
        )))
        ||| next == '?'
        ||| (next == '/' && i + 2 < s.len() && is_ascii_alpha(s[i + 2]))
        ||| is_ascii_alpha(next)
    }
}

pub open spec fn html_piece(s: Seq<char>, i: int) -> Seq<char> {
    if html_like_at(s, i) {
        seq!['\\', '<']
    } else {
        seq![s[i]]
    }
}

/// `s` with a backslash before every `<` that starts an HTML look-alike.
pub open spec fn escaped_html(s: Seq<char>) -> Seq<char> {
    concat_map(s.len(), |i: int| html_piece(s, i))
}

proof fn lemma_occurs_starts(s: Seq<char>, p: Seq<char>, j: int)
    requires
        0 <= j <= s.len(),
    ensures
        occurs_at(s, p, j) == starts_with(s.skip(j), p),
{
    if p.len() <= s.len() - j {
        assert(s.skip(j).take(p.len() as int) == s.subrange(j, j + p.len()));
    }
}

fn html_like_at_exec(v: &Vec<char>, i: usize) -> (b: bool)
    requires
        i < v@.len(),
    ensures
        b == html_like_at(v@, i as int),
{
    if v[i] != '<' || i >= v.len() - 1 {
        return false;
    }
    let next = v[i + 1];
    if next == '!' {
        let a = char_vec("[CDATA[");
        let b = char_vec("\\[CDATA\\[");
        let r = occurs_at_exec(v, &a, i + 2) || occurs_at_exec(v, &b, i + 2);
        proof {
            lemma_occurs_starts(v@, "[CDATA["@, i + 2);
            lemma_occurs_starts(v@, "\\[CDATA\\["@, i + 2);
        }
        !r
    } else if next == '?' {
        true
    } else if next == '/' {
        i + 2 < v.len() && crate::text::exec_is_ascii_alpha(v[i + 2])
    } else {
        crate::text::exec_is_ascii_alpha(next)
    }
}

/// Escapes sequences that Markdown would read as raw HTML, so that they stay
/// literal text.
pub fn escape_html(text: &str) -> (r: String)
    ensures
        r@ == escaped_html(text@),
{
    let v = char_vec(text);
    let ghost f = |i: int| html_piece(text@, i);
    let mut out = String::new();
    let mut i: usize = 0;
    while i < v.len()
        invariant
            v@ == text@,
            i <= v@.len(),
            f == (|i: int| html_piece(text@, i)),
            out@ == concat_map(i as nat, f),
        decreases v@.len() - i,
    {
        if html_like_at_exec(&v, i) {
            push_char(&mut out, '\\');
            push_char(&mut out, '<');
            assert(out@ == concat_map(i as nat, f) + seq!['\\', '<']);
        } else {
            push_char(&mut out, v[i]);
            assert(out@ == concat_map(i as nat, f) + seq![v@[i as int]]);
        }
        i += 1;
    }
    out
}

// ---------------------------------------------------------------------------
// Markdown escapes
// ---------------------------------------------------------------------------

/// Characters with inline meaning in Markdown.
pub open spec fn is_md_special(c: char) -> bool {
    c == '\\' || c == '*' || c == '_' || c == '`' || c == '[' || c == ']'
}

/// Characters that start a block construct at the beginning of a line.
pub open spec fn is_line_start_marker(c: char) -> bool {
    c == '=' || c == '~' || c == '>' || c == '-' || c == '+' || c == '#' || is_ascii_digit(c)
}

pub open spec fn md_escape_char(c: char) -> Seq<char> {
    if is_md_special(c) {
        seq!['\\', c]
    } else {
        seq![c]
    }
}

/// Does `s` begin like an ATX heading: one or more `#`, then a space?
pub open spec fn is_atx_heading(s: Seq<char>) -> bool {
    exists|k: int|
        1 <= k < s.len() && s[k] == ' ' && (forall|j: int| 0 <= j < k ==> #[trigger] s[j] == '#')
}

/// `char::is_numeric`: the character has one of Unicode's general categories
/// for numbers.
pub uninterp spec fn numeric_char(c: char) -> bool;

/// `char::is_numeric`, whose result is named `numeric_char`; the ASCII
/// digits are numeric, and `.` and the space are not (std's documentation of
/// the general categories Nd, Nl and No).
#[verifier::external_body]
fn is_numeric(c: char) -> (b: bool)
    ensures
        b == numeric_char(c),
        is_ascii_digit(c) ==> b,
        c == '.' ==> !b,
        c == ' ' ==> !b,
{
    c.is_numeric()
}

/// The scan that finds the dot of an ordered-list marker (`12. `), from
/// position `i`, having seen a number (`num`) and dots (`dot`, the last at
/// `at`).
pub open spec fn ordered_dot_scan(s: Seq<char>, i: int, num: bool, dot: bool, at: int) -> Option<int>
    decreases s.len() - i,
{
    if i < 0 || i >= s.len() {
        None
    } else if numeric_char(s[i]) {
        if dot {
            None
        } else {
            ordered_dot_scan(s, i + 1, true, dot, at)
        }
    } else if s[i] == '.' {
        if !num {
            None
        } else {
            ordered_dot_scan(s, i + 1, num, true, i)
        }
    } else if s[i] == ' ' && dot {
        Some(at)
    } else {
        None
    }
}

/// Position of the dot when `s` begins like an ordered list item: numerals,
/// dots, then a space.
pub open spec fn ordered_item_dot(s: Seq<char>) -> Option<int> {
    ordered_dot_scan(s, 0, false, false, 0)
}

proof fn lemma_dot_scan_bounds(s: Seq<char>, i: int, num: bool, dot: bool, at: int)
    requires
        0 <= i,
        dot ==> 0 <= at < i && s[at] == '.',
    ensures
        ordered_dot_scan(s, i, num, dot, at) matches Some(k) ==> 0 <= k < s.len() && s[k] == '.',
    decreases s.len() - i,
{
    if 0 <= i < s.len() {
        if numeric_char(s[i]) {
            if !dot {
                lemma_dot_scan_bounds(s, i + 1, true, dot, at);
            }
        } else if s[i] == '.' {
            if num {
                lemma_dot_scan_bounds(s, i + 1, num, true, i);
            }
        }
    }
}

fn ordered_item_dot_exec(v: &Vec<char>) -> (r: Option<usize>)
    ensures
        match (r, ordered_item_dot(v@)) {
            (Some(a), Some(b)) => a == b,
            (None, None) => true,
            _ => false,
        },
{
    let mut num = false;
    let mut dot = false;
    let mut at: usize = 0;
    let mut i: usize = 0;
    while i < v.len()
        invariant
            i <= v@.len(),
            at <= i,
            ordered_item_dot(v@) == ordered_dot_scan(v@, i as int, num, dot, at as int),
        decreases v@.len() - i,
    {
        let c = v[i];
        if is_numeric(c) {
            if dot {
                return None;
            }
            num = true;
        } else if c == '.' {
            if !num {
                return None;
            }
            at = i;
            dot = true;
        } else if c == ' ' {
            if dot {
                return Some(at);
            }
            return None;
        } else {
            return None;
        }
        i += 1;
    }
    None
}

fn is_atx_heading_exec(v: &Vec<char>) -> (b: bool)
    ensures
        b == is_atx_heading(v@),
{
    let mut i: usize = 0;
    while i < v.len()
        invariant
            i <= v@.len(),
            forall|j: int| 0 <= j < i ==> #[trigger] v@[j] == '#',
        decreases v@.len() - i,
    {
        if v[i] == '#' {
            i += 1;
        } else if v[i] == ' ' {
            proof {
                if i == 0 {
                    assert forall|k: int|
                        1 <= k < v@.len() && v@[k] == ' ' implies !(forall|j: int|
                        0 <= j < k ==> #[trigger] v@[j] == '#') by {
                        assert(v@[0] != '#');
                    }
                } else {
                    assert(v@[i as int] == ' ');
                }
            }
            return i > 0;
        } else {
            proof {
                assert forall|k: int|
                    1 <= k < v@.len() && v@[k] == ' ' implies !(forall|j: int|
                    0 <= j < k ==> #[trigger] v@[j] == '#') by {
                    if k > i {
                        assert(v@[i as int] != '#');
                    } else {
                        assert(v@[k] == '#');
                    }
                }
            }
            return false;
        }
    }
    proof {
        assert forall|k: int|
            1 <= k < v@.len() && v@[k] == ' ' implies !(forall|j: int|
            0 <= j < k ==> #[trigger] v@[j] == '#') by {
            assert(v@[k] == '#');
        }
    }
    false
}

/// Does `s` need Markdown escaping: it starts with a block marker, or
/// contains a character with inline meaning?
pub open spec fn needs_md_escape(s: Seq<char>) -> bool {
    s.len() > 0 && (is_line_start_marker(s[0]) || exists|i: int|
        0 <= i < s.len() && is_md_special(#[trigger] s[i]))
}

/// The line-start fix for escaped text `e` whose first character was `first`.
pub open spec fn fix_line_start(e: Seq<char>, first: char) -> Seq<char> {
    if first == '=' || first == '~' || first == '>' {
        seq!['\\'] + e
    } else if first == '-' || first == '+' {
        if e.len() > 1 && e[1] == ' ' {
            seq!['\\'] + e
        } else {
            e
        }
    } else if first == '#' {
        if is_atx_heading(e) {
            seq!['\\'] + e
        } else {
            e
        }
    } else if is_ascii_digit(first) {
        match ordered_item_dot(e) {
            Some(k) => e.take(k) + seq!['\\', '.'] + e.skip(k + 1),
            None => e,
        }
    } else {
        e
    }
}

/// How a text node is escaped for Markdown.
pub open spec fn escape_text_spec(s: Seq<char>) -> Seq<char> {
    if !needs_md_escape(s) {
        escaped_html(s)
    } else {
        escaped_html(fix_line_start(flat_map(s, |c: char| md_escape_char(c)), s[0]))
    }
}

/// Is `t` Markdown text in which none of `\ * _ ` [ ]` keeps its inline
/// meaning: each of them stands right after a backslash that escapes it,
/// and every backslash escapes one of them?
pub open spec fn inline_inert(t: Seq<char>) -> bool
    decreases t.len(),
{
    if t.len() == 0 {
        true
    } else if t[0] == '\\' {
        t.len() >= 2 && (t[1] == '\\' || t[1] == '*' || t[1] == '_' || t[1] == '`' || t[1] == '[' || t[1] == ']')
            && inline_inert(t.skip(2))
    } else {
        !(t[0] == '*' || t[0] == '_' || t[0] == '`' || t[0] == '[' || t[0] == ']') && inline_inert(t.skip(1))
    }
}

/// What Markdown reads from text with backslash escapes: each backslash
/// dropped and the character after it taken literally.
pub open spec fn unescaped(t: Seq<char>) -> Seq<char>
    decreases t.len(),
{
    if t.len() == 0 {
        Seq::empty()
    } else if t[0] == '\\' && t.len() >= 2 {
        seq![t[1]] + unescaped(t.skip(2))
    } else {
        seq![t[0]] + unescaped(t.skip(1))
    }
}

/// Escaping the inline markers of a text leaves none of `\ * _ ` [ ]` with
/// its inline meaning (an asterisk cannot start emphasis, a bracket cannot
/// open a link), and Markdown reads the escaped text back as the original
/// characters.
pub proof fn law_inline_markers_escaped(s: Seq<char>)
    ensures
        inline_inert(flat_map(s, |c: char| md_escape_char(c))),
        unescaped(flat_map(s, |c: char| md_escape_char(c))) == s,
    decreases s.len(),
{
    let f = |c: char| md_escape_char(c);
    if s.len() > 0 {
        let rest = s.drop_first();
        law_inline_markers_escaped(rest);
        assert(s == seq![s[0]] + rest);
        crate::text::lemma_flat_map_cons(s[0], rest, f);
        let r = flat_map(rest, f);
        let t = f(s[0]) + r;
        assert(flat_map(s, f) == t);
        if is_md_special(s[0]) {
            assert(t.skip(2) =~= r);
        } else {
            assert(t.skip(1) =~= r);
        }
    }
}

/// Is every `* _ ` [ ]` of `t` right after a backslash?
pub open spec fn markers_backslashed(t: Seq<char>) -> bool {
    forall|p: int|
        #![trigger t[p]]
        0 <= p < t.len() && (t[p] == '*' || t[p] == '_' || t[p] == '`' || t[p] == '[' || t[p] == ']') ==> p >= 1
            && t[p - 1] == '\\'
}

proof fn lemma_inert_backslashed(t: Seq<char>)
    requires
        inline_inert(t),
    ensures
        markers_backslashed(t),
    decreases t.len(),
{
    if t.len() > 0 {
        if t[0] == '\\' {
            let rest = t.skip(2);
            lemma_inert_backslashed(rest);
            assert forall|p: int|
                #![trigger t[p]]
                0 <= p < t.len() && (t[p] == '*' || t[p] == '_' || t[p] == '`' || t[p] == '[' || t[p] == ']') implies p
                >= 1 && t[p - 1] == '\\' by {
                if p >= 2 {
                    assert(t[p] == rest[p - 2]);
                    if p >= 3 {
                        assert(t[p - 1] == rest[p - 3]);
                    }
                }
            }
        } else {
            let rest = t.skip(1);
            lemma_inert_backslashed(rest);
            assert forall|p: int|
                #![trigger t[p]]
                0 <= p < t.len() && (t[p] == '*' || t[p] == '_' || t[p] == '`' || t[p] == '[' || t[p] == ']') implies p
                >= 1 && t[p - 1] == '\\' by {
                if p >= 1 {
                    assert(t[p] == rest[p - 1]);
                    if p >= 2 {
                        assert(t[p - 1] == rest[p - 2]);
                    }
                }
            }
        }
    }
}

/// Without a `<`, no HTML look-alike is escaped.
proof fn lemma_no_angle_unchanged(x: Seq<char>, n: nat)
    requires
        n <= x.len(),
        !crate::text::has_char(x, '<'),
    ensures
        crate::text::concat_map(n, |i: int| html_piece(x, i)) == x.take(n as int),
    decreases n,
{
    if n > 0 {
        lemma_no_angle_unchanged(x, (n - 1) as nat);
        assert(x[n - 1] != '<');
        assert(html_piece(x, n - 1) == seq![x[n - 1]]);
        assert(x.take(n as int) =~= x.take(n - 1).push(x[n - 1]));
    }
}

/// In escaped text (with no `<` in it), every `* _ ` [ ]` stands right
/// after a backslash: none of them can open emphasis, code or a link.
pub proof fn law_escaped_text_keeps_markers_literal(s: Seq<char>)
    requires
        !crate::text::has_char(s, '<'),
    ensures
        markers_backslashed(escape_text_spec(s)),
{
    let f = |c: char| md_escape_char(c);
    if !needs_md_escape(s) {
        lemma_no_angle_unchanged(s, s.len());
        assert(s.take(s.len() as int) =~= s);
        assert forall|p: int|
            #![trigger s[p]]
            0 <= p < s.len() && (s[p] == '*' || s[p] == '_' || s[p] == '`' || s[p] == '[' || s[p] == ']') implies p >= 1
            && s[p - 1] == '\\' by {
            assert(is_md_special(s[p]));
        }
    } else {
        let e = flat_map(s, f);
        law_inline_markers_escaped(s);
        lemma_inert_backslashed(e);
        lemma_escape_adds_no_angle(s);
        let x = fix_line_start(e, s[0]);
        lemma_fixed_backslashed(e, s[0]);
        lemma_no_angle_unchanged(x, x.len());
        assert(x.take(x.len() as int) =~= x);
    }
}

/// A text (with no `<`) that would start a block construct — a setext
/// underline or fence (`=`, `~`), a block quote (`>`), a bullet (`-` or `+`
/// and a space) or a heading (`#` and a space) — gets a backslash before its
/// first character, and keeps that character after it.
pub proof fn law_line_start_markers_escaped(s: Seq<char>)
    requires
        !crate::text::has_char(s, '<'),
        s.len() >= 1,
        s[0] == '=' || s[0] == '~' || s[0] == '>' || (s.len() >= 2 && s[1] == ' ' && (s[0] == '-' || s[0] == '+'
            || s[0] == '#')),
    ensures
        escape_text_spec(s).len() >= 2,
        escape_text_spec(s)[0] == '\\',
        escape_text_spec(s)[1] == s[0],
{
    let f = |c: char| md_escape_char(c);
    assert(is_line_start_marker(s[0]));
    assert(needs_md_escape(s));
    let e = flat_map(s, f);
    crate::text::lemma_flat_map_cons(s[0], s.drop_first(), f);
    assert(s == seq![s[0]] + s.drop_first());
    assert(!is_md_special(s[0]));
    assert(e == seq![s[0]] + flat_map(s.drop_first(), f));
    if s.len() >= 2 && s[1] == ' ' {
        let r = s.drop_first();
        crate::text::lemma_flat_map_cons(r[0], r.drop_first(), f);
        assert(r == seq![r[0]] + r.drop_first());
        assert(flat_map(r, f)[0] == ' ');
        assert(e[1] == ' ');
        if s[0] == '#' {
            assert(is_atx_heading(e)) by {
                assert(e[0] == '#');
            }
        }
    }
    lemma_escape_adds_no_angle(s);
    let x = fix_line_start(e, s[0]);
    assert(x == seq!['\\'] + e);
    assert forall|p: int| 0 <= p < x.len() implies x[p] != '<' by {
        if p >= 1 {
            assert(x[p] == e[p - 1]);
        }
    }
    lemma_no_angle_unchanged(x, x.len());
    assert(x.take(x.len() as int) =~= x);
}

/// Is every `<` of `t` that an ASCII letter follows (the start of a tag)
/// right after a backslash?
pub open spec fn tag_openers_backslashed(t: Seq<char>) -> bool {
    forall|p: int|
        #![trigger t[p]]
        0 <= p && p + 1 < t.len() && t[p] == '<' && is_ascii_alpha(t[p + 1]) ==> p >= 1 && t[p - 1] == '\\'
}

proof fn lemma_html_prefix(s: Seq<char>, n: nat)
    requires
        n <= s.len(),
    ensures
        ({
            let t = crate::text::concat_map(n, |i: int| html_piece(s, i));
            &&& n >= 1 ==> t.len() >= 1 && t.last() == s[n - 1]
            &&& forall|p: int|
                #![trigger t[p]]
                0 <= p < t.len() && t[p] == '<' && ((p + 1 < t.len() && is_ascii_alpha(t[p + 1])) || (p + 1 == t.len()
                    && n < s.len() && is_ascii_alpha(s[n as int]))) ==> p >= 1 && t[p - 1] == '\\'
        }),
    decreases n,
{
    if n > 0 {
        let m = (n - 1) as nat;
        lemma_html_prefix(s, m);
        let g = |i: int| html_piece(s, i);
        let a = crate::text::concat_map(m, g);
        let b = html_piece(s, m as int);
        let t = crate::text::concat_map(n, g);
        assert(t == a + b);
        assert forall|p: int|
            #![trigger t[p]]
            0 <= p < t.len() && t[p] == '<' && ((p + 1 < t.len() && is_ascii_alpha(t[p + 1])) || (p + 1 == t.len()
                && n < s.len() && is_ascii_alpha(s[n as int]))) implies p >= 1 && t[p - 1] == '\\' by {
            if p + 1 < a.len() {
                assert(t[p] == a[p]);
                assert(t[p + 1] == a[p + 1]);
                if p >= 1 {
                    assert(t[p - 1] == a[p - 1]);
                }
            } else if p + 1 == a.len() {
                assert(t[p] == a[p]);
                assert(t[p + 1] == b[0]);
                if html_like_at(s, m as int) {
                    assert(b[0] == '\\');
                } else {
                    assert(b[0] == s[m as int]);
                }
                if p >= 1 {
                    assert(t[p - 1] == a[p - 1]);
                }
            } else {
                let q = p - a.len();
                assert(t[p] == b[q]);
                if html_like_at(s, m as int) {
                    if q == 1 {
                        assert(t[p - 1] == b[0]);
                    }
                } else {
                    assert(q == 0);
                    assert(s[m as int] == '<');
                    assert(!html_like_at(s, m as int));
                }
            }
        }
    }
}

/// In the escaped text, every `<` that would open a tag stands right after a
/// backslash, so Markdown does not read it as raw HTML.
pub proof fn law_tag_openers_escaped(s: Seq<char>)
    ensures
        tag_openers_backslashed(escaped_html(s)),
{
    lemma_html_prefix(s, s.len());
}

/// An escaped text node holds no `<` that would open a tag unescaped.
pub proof fn law_escaped_text_opens_no_tag(s: Seq<char>)
    ensures
        tag_openers_backslashed(escape_text_spec(s)),
{
    if !needs_md_escape(s) {
        law_tag_openers_escaped(s);
    } else {
        law_tag_openers_escaped(fix_line_start(flat_map(s, |c: char| md_escape_char(c)), s[0]));
    }
}

/// Escaping the inline markers of a text without `<` adds none.
proof fn lemma_escape_adds_no_angle(s: Seq<char>)
    requires
        !crate::text::has_char(s, '<'),
    ensures
        !crate::text::has_char(flat_map(s, |c: char| md_escape_char(c)), '<'),
    decreases s.len(),
{
    if s.len() > 0 {
        let d = s.drop_last();
        assert forall|i: int| 0 <= i < d.len() implies d[i] != '<' by {
            assert(d[i] == s[i]);
        }
        lemma_escape_adds_no_angle(d);
        let a = flat_map(d, |c: char| md_escape_char(c));
        let b = md_escape_char(s.last());
        assert(s.last() != '<');
        assert(flat_map(s, |c: char| md_escape_char(c)) == a + b);
        assert forall|i: int| 0 <= i < (a + b).len() implies (a + b)[i] != '<' by {
            if i < a.len() {
                assert((a + b)[i] == a[i]);
            } else {
                assert((a + b)[i] == b[i - a.len()]);
            }
        }
    }
}

/// Fixing a line start keeps every marker after a backslash, and adds no
/// `<`.
proof fn lemma_fixed_backslashed(e: Seq<char>, first: char)
    requires
        markers_backslashed(e),
        !crate::text::has_char(e, '<'),
    ensures
        markers_backslashed(fix_line_start(e, first)),
        !crate::text::has_char(fix_line_start(e, first), '<'),
{
    let x = fix_line_start(e, first);
    let pre = seq!['\\'] + e;
    assert forall|p: int|
        #![trigger pre[p]]
        0 <= p < pre.len() && (pre[p] == '*' || pre[p] == '_' || pre[p] == '`' || pre[p] == '[' || pre[p] == ']') implies p
        >= 1 && pre[p - 1] == '\\' by {
        assert(pre[p] == e[p - 1]);
        if p >= 2 {
            assert(pre[p - 1] == e[p - 2]);
        }
    }
    assert forall|p: int| 0 <= p < pre.len() implies pre[p] != '<' by {
        if p >= 1 {
            assert(pre[p] == e[p - 1]);
        }
    }
    if is_ascii_digit(first) {
        match ordered_item_dot(e) {
            Some(k) => {
                lemma_dot_scan_bounds(e, 0, false, false, 0);
                let y = e.take(k) + seq!['\\', '.'] + e.skip(k + 1);
                assert(x == y);
                assert forall|p: int|
                    #![trigger y[p]]
                    0 <= p < y.len() && (y[p] == '*' || y[p] == '_' || y[p] == '`' || y[p] == '[' || y[p] == ']') implies p
                    >= 1 && y[p - 1] == '\\' by {
                    if p < k {
                        assert(y[p] == e[p]);
                        if p >= 1 {
                            assert(y[p - 1] == e[p - 1]);
                        }
                    } else if p >= k + 2 {
                        assert(y[p] == e[p - 1]);
                        if p == k + 2 {
                            assert(e[k] == '.');
                        } else {
                            assert(y[p - 1] == e[p - 2]);
                        }
                    }
                }
                assert forall|p: int| 0 <= p < y.len() implies y[p] != '<' by {
                    if p < k {
                        assert(y[p] == e[p]);
                    } else if p >= k + 2 {
                        assert(y[p] == e[p - 1]);
                    }
                }
            },
            None => {},
        }
    }
}

fn md_escape_all(v: &Vec<char>) -> (r: Vec<char>)
    ensures
        r@ == flat_map(v@, |c: char| md_escape_char(c)),
{
    let ghost f = |c: char| md_escape_char(c);
    let mut out: Vec<char> = Vec::new();
    let mut i: usize = 0;
    while i < v.len()
        invariant
            i <= v@.len(),
            f == (|c: char| md_escape_char(c)),
            out@ == flat_map(v@.take(i as int), f),
        decreases v@.len() - i,
    {
        let c = v[i];
        if c == '\\' || c == '*' || c == '_' || c == '`' || c == '[' || c == ']' {
            out.push('\\');
        }
        out.push(c);
        proof {
            lemma_flat_map_take(v@, i as int, f);
        }
        i += 1;
    }
    assert(v@.take(v@.len() as int) == v@);
    out
}

fn has_md_special(v: &Vec<char>) -> (b: bool)
    ensures
        b == exists|i: int| 0 <= i < v@.len() && is_md_special(#[trigger] v@[i]),
{
    let mut i: usize = 0;
    while i < v.len()
        invariant
            i <= v@.len(),
            forall|j: int| 0 <= j < i ==> !is_md_special(#[trigger] v@[j]),
        decreases v@.len() - i,
    {
        let c = v[i];
        if c == '\\' || c == '*' || c == '_' || c == '`' || c == '[' || c == ']' {
            assert(is_md_special(v@[i as int]));
            return true;
        }
        i += 1;
    }
    false
}

/// Escapes a text node so that Markdown does not read it as syntax:
/// backslashes before characters with inline meaning, before a leading
/// `=`, `~`, `>`, before a list marker or heading marker, before the dot of
/// an ordered-list marker, and before HTML look-alikes.
pub fn escape_if_needed(text: &str) -> (r: String)
    ensures
        r@ == escape_text_spec(text@),
{
    let v = char_vec(text);
    if v.len() == 0 {
        return escape_html(text);
    }
    let first = v[0];
    let mut need = first == '=' || first == '~' || first == '>' || first == '-' || first == '+'
        || first == '#' || ('0' <= first && first <= '9');
    if !need {
        need = has_md_special(&v);
    }
    if !need {
        return escape_html(text);
    }
    assert(needs_md_escape(text@));
    let e = md_escape_all(&v);
    let mut fixed: Vec<char> = Vec::new();
    if first == '=' || first == '~' || first == '>' {
        fixed.push('\\');
        let mut i: usize = 0;
        while i < e.len()
            invariant
                i <= e@.len(),
                fixed@ == seq!['\\'] + e@.take(i as int),
            decreases e@.len() - i,
        {
            fixed.push(e[i]);
            i += 1;
            assert(fixed@ == seq!['\\'] + e@.take(i as int));
        }
        assert(e@.take(e@.len() as int) == e@);
    } else if (first == '-' || first == '+') && e.len() > 1 && e[1] == ' ' {
        fixed.push('\\');
        let mut i: usize = 0;
        while i < e.len()
            invariant
                i <= e@.len(),
                fixed@ == seq!['\\'] + e@.take(i as int),
            decreases e@.len() - i,
        {
            fixed.push(e[i]);
            i += 1;
            assert(fixed@ == seq!['\\'] + e@.take(i as int));
        }
        assert(e@.take(e@.len() as int) == e@);
    } else if first == '#' && is_atx_heading_exec(&e) {
        fixed.push('\\');
        let mut i: usize = 0;
        while i < e.len()
            invariant
                i <= e@.len(),
                fixed@ == seq!['\\'] + e@.take(i as int),
            decreases e@.len() - i,
        {
            fixed.push(e[i]);
            i += 1;
            assert(fixed@ == seq!['\\'] + e@.take(i as int));
        }
        assert(e@.take(e@.len() as int) == e@);
    } else {
        let dot = if '0' <= first && first <= '9' {
            ordered_item_dot_exec(&e)
        } else {
            None
        };
        proof {
            lemma_dot_scan_bounds(e@, 0, false, false, 0);
        }
        let mut i: usize = 0;
        while i < e.len()
            invariant
                i <= e@.len(),
                dot matches Some(k) ==> k < e@.len(),
                fixed@ == (match dot {
                    Some(k) => if i <= k {
                        e@.take(i as int)
                    } else {
                        e@.take(k as int) + seq!['\\', '.'] + e@.subrange(k + 1, i as int)
                    },
                    None => e@.take(i as int),
                }),
            decreases e@.len() - i,
        {
            match dot {
                Some(k) => {
                    if i == k {
                        fixed.push('\\');
                        fixed.push('.');
                        assert(e@.subrange(k + 1, i + 1) =~= Seq::<char>::empty());
                        assert(fixed@ =~= e@.take(k as int) + seq!['\\', '.'] + e@.subrange(k + 1, i + 1));
                    } else {
                        fixed.push(e[i]);
                        if i > k {
                            assert(e@.subrange(k + 1, i + 1) =~= e@.subrange(k + 1, i as int).push(e@[i as int]));
                        }
                    }
                },
                None => {
                    fixed.push(e[i]);
                },
            }
            i += 1;
        }
        proof {
            assert(e@.take(e@.len() as int) == e@);
            assert(e@.subrange(0, e@.len() as int) == e@);
            if let Some(k) = dot {
                assert(e@.subrange(k + 1, e@.len() as int) == e@.skip(k + 1));
            }
        }
    }
    assert(fixed@ == fix_line_start(e@, first));
    let s = string_of_chars(&fixed);
    escape_html(s.as_str())
}

/// Escapes text inside `<pre>` so that it cannot open or close a code fence.
pub open spec fn escape_pre_spec(s: Seq<char>) -> Seq<char> {
    if s.len() > 0 && (s[0] == '`' || s[0] == '~') {
        seq!['\\'] + s
    } else {
        s
    }
}

pub fn escape_pre_text_if_needed(text: &str) -> (r: String)
    ensures
        r@ == escape_pre_spec(text@),
{
    let v = char_vec(text);
    let mut out = String::new();
    if v.len() > 0 && (v[0] == '`' || v[0] == '~') {
        push_char(&mut out, '\\');
    }
    push_str(&mut out, text);
    out
}

// ---------------------------------------------------------------------------
// Plain text and white space
// ---------------------------------------------------------------------------

/// Characters that keep a text node from being copied verbatim.
pub open spec fn is_plain_breaker(c: char) -> bool {
    c == '\\' || c == '*' || c == '_' || c == '`' || c == '[' || c == ']' || c == '<' || c == '\t'
        || c == '\n' || c == '\r' || c == '\u{c}' || c == '\u{b}'
}

/// Text that needs neither escaping nor white-space compression: no block
/// marker at its start, no character with inline meaning or control white
/// space, and no two spaces in a row.
pub open spec fn plain_text(s: Seq<char>) -> bool {
    s.len() == 0 || {
        &&& !is_line_start_marker(s[0])
        &&& forall|i: int| 0 <= i < s.len() ==> !is_plain_breaker(#[trigger] s[i])
        &&& forall|i: int| 0 <= i < s.len() - 1 ==> !(#[trigger] s[i] == ' ' && s[i + 1] == ' ')
    }
}

pub fn is_plain_text(text: &str) -> (b: bool)
    ensures
        b == plain_text(text@),
{
    let v = char_vec(text);
    if v.len() == 0 {
        return true;
    }
    let first = v[0];
    if first == '=' || first == '~' || first == '>' || first == '-' || first == '+' || first == '#'
        || ('0' <= first && first <= '9') {
        return false;
    }
    let mut previous_space = false;
    let mut i: usize = 0;
    while i < v.len()
        invariant
            i <= v@.len(),
            v@ == text@,
            forall|j: int| 0 <= j < i ==> !is_plain_breaker(#[trigger] v@[j]),
            forall|j: int| 0 <= j < i - 1 ==> !(#[trigger] v@[j] == ' ' && v@[j + 1] == ' '),
            previous_space == (i > 0 && v@[i - 1] == ' '),
        decreases v@.len() - i,
    {
        let c = v[i];
        if c == '\\' || c == '*' || c == '_' || c == '`' || c == '[' || c == ']' || c == '<' || c
            == '\t' || c == '\n' || c == '\r' || c == '\u{c}' || c == '\u{b}' {
            assert(is_plain_breaker(v@[i as int]));
            return false;
        }
        if c == ' ' {
            if previous_space {
                assert(v@[i - 1] == ' ' && v@[i - 1 + 1] == ' ');
                return false;
            }
            previous_space = true;
        } else {
            previous_space = false;
        }
        i += 1;
    }
    true
}

pub open spec fn compress_piece(s: Seq<char>, i: int) -> Seq<char> {
    if is_ascii_ws(s[i]) {
        if i > 0 && is_ascii_ws(s[i - 1]) {
            Seq::empty()
        } else {
            seq![' ']
        }
    } else {
        seq![s[i]]
    }
}

/// `s` with every run of ASCII white space replaced by one space.
pub open spec fn compressed(s: Seq<char>) -> Seq<char> {
    concat_map(s.len(), |i: int| compress_piece(s, i))
}

pub fn compress_whitespace(text: &str) -> (r: String)
    ensures
        r@ == compressed(text@),
{
    let v = char_vec(text);
    let ghost f = |i: int| compress_piece(text@, i);
    let mut out = String::new();
    let mut in_ws = false;
    let mut i: usize = 0;
    while i < v.len()
        invariant
            v@ == text@,
            i <= v@.len(),
            f == (|i: int| compress_piece(text@, i)),
            out@ == concat_map(i as nat, f),
            in_ws == (i > 0 && is_ascii_ws(v@[i - 1])),
        decreases v@.len() - i,
    {
        let c = v[i];
        if crate::text::exec_is_ascii_ws(c) {
            if !in_ws {
                push_char(&mut out, ' ');
            }
            assert(out@ == concat_map(i as nat, f) + f(i as int));
            in_ws = true;
        } else {
            push_char(&mut out, c);
            assert(out@ == concat_map(i as nat, f) + f(i as int));
            in_ws = false;
        }
        i += 1;
    }
    out
}

} // verus!
