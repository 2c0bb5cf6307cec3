//! The Markdown of single elements, from the Markdown of their children:
//! blocks, emphasis, headings, quotes, lists, breaks and rules, code and
//! images.

use vstd::prelude::*;
use crate::native::{BrStyle, RenderHrStyle};
use crate::text::{
    join, lines, push_char, push_str, repeat_char, split_lines, trim_both, trim_end,
    trim_end_string, trim_start, trim_start_string, trim_string, TrimSet,
};

verus! {

/// A block: its content between blank lines, without the content's own
/// leading and trailing newlines.
pub open spec fn block_md(content: Seq<char>) -> Seq<char> {
    "\n\n"@ + trim_both(content, TrimSet::Only('\n')) + "\n\n"@
}

/// The Markdown of a block element whose children rendered as `content`.
pub fn block_markdown(content: &str) -> (r: String)
    ensures
        r@ == block_md(content@),
{
    let t = trim_string(content, TrimSet::Only('\n'));
    let mut r = String::new();
    push_str(&mut r, "\n\n");
    push_str(&mut r, t.as_str());
    push_str(&mut r, "\n\n");
    proof {
        reveal_strlit("\n\n");
    }
    r
}

/// Emphasis: `marker` around the content, with the content's surrounding
/// white space kept outside the markers; nothing when the content is only
/// white space.
pub open spec fn emphasis_md(content: Seq<char>, marker: Seq<char>) -> Option<Seq<char>> {
    let inner = trim_both(content, TrimSet::UnicodeWs);
    if inner.len() == 0 {
        None
    } else {
        let lead = content.take(crate::text::lead_len(content, TrimSet::UnicodeWs) as int);
        let rest = trim_start(content, TrimSet::UnicodeWs);
        let trail = rest.skip(rest.len() - crate::text::trail_len(rest, TrimSet::UnicodeWs));
        Some(lead + marker + inner + marker + trail)
    }
}

/// The Markdown of `<strong>`/`<b>` (`**`) or `<em>`/`<i>` (`*`).
pub fn emphasis_markdown(content: &str, marker: &str) -> (r: Option<String>)
    ensures
        match (r, emphasis_md(content@, marker@)) {
            (Some(a), Some(b)) => a@ == b,
            (None, None) => true,
            _ => false,
        },
{
    let rest = trim_start_string(content, TrimSet::UnicodeWs);
    let inner = trim_end_string(rest.as_str(), TrimSet::UnicodeWs);
    if inner.as_str().is_empty() {
        return None;
    }
    proof {
        crate::text::lemma_lead_len(content@, TrimSet::UnicodeWs);
        crate::text::lemma_trail_len(rest@, TrimSet::UnicodeWs);
    }
    let v = crate::text::char_vec(content);
    let rv = crate::text::char_vec(rest.as_str());
    let lead = crate::text::string_of_range(&v, 0, v.len() - rv.len());
    let iv = crate::text::char_vec(inner.as_str());
    let trail = crate::text::string_of_range(&rv, iv.len(), rv.len());
    assert(trail@ =~= rest@.skip(rest@.len() - crate::text::trail_len(rest@, TrimSet::UnicodeWs)));
    assert(lead@ =~= content@.take(crate::text::lead_len(content@, TrimSet::UnicodeWs) as int));
    let mut r = String::new();
    push_str(&mut r, lead.as_str());
    push_str(&mut r, marker);
    push_str(&mut r, inner.as_str());
    push_str(&mut r, marker);
    push_str(&mut r, trail.as_str());
    Some(r)
}

/// A heading of level `level` (1 to 6): setext underlines for the first two
/// levels when asked, else `#` marks.
pub open spec fn heading_md(level: nat, content: Seq<char>, setext: bool) -> Seq<char> {
    let c = trim_both(trim_both(content, TrimSet::DocWs), TrimSet::Only('\n'));
    if (level == 1 || level == 2) && setext {
        "\n\n"@ + c + seq!['\n'] + Seq::new(c.len(), |_i: int| if level == 1 {
            '='
        } else {
            '-'
        }) + "\n\n"@
    } else {
        "\n\n"@ + Seq::new(level, |_i: int| '#') + seq![' '] + c + "\n\n"@
    }
}

/// The Markdown of a heading element.
pub fn heading_markdown(level: usize, content: &str, setext: bool) -> (r: String)
    ensures
        r@ == heading_md(level as nat, content@, setext),
{
    let c1 = trim_string(content, TrimSet::DocWs);
    let c = trim_string(c1.as_str(), TrimSet::Only('\n'));
    let mut r = String::new();
    push_str(&mut r, "\n\n");
    if (level == 1 || level == 2) && setext {
        push_str(&mut r, c.as_str());
        push_char(&mut r, '\n');
        let n = crate::text::char_vec(c.as_str()).len();
        let line = repeat_char(if level == 1 { '=' } else { '-' }, n);
        push_str(&mut r, line.as_str());
    } else {
        let marks = repeat_char('#', level);
        push_str(&mut r, marks.as_str());
        push_char(&mut r, ' ');
        push_str(&mut r, c.as_str());
    }
    push_str(&mut r, "\n\n");
    proof {
        reveal_strlit("\n\n");
        if (level == 1 || level == 2) && setext {
            let ch = if level == 1 { '=' } else { '-' };
            assert(Seq::new(c@.len(), |_i: int| ch) =~= Seq::new(c@.len(), |_i: int| if level == 1 {
                '='
            } else {
                '-'
            }));
        }
    }
    r
}

/// Each line of `ls` behind `> `.
pub open spec fn quoted_lines(ls: Seq<Seq<char>>) -> Seq<Seq<char>> {
    ls.map_values(|l: Seq<char>| "> "@ + l)
}

/// A block quote: each line of the content quoted, between blank lines.
pub open spec fn blockquote_md(content: Seq<char>) -> Seq<char> {
    let c = trim_end(trim_start(content, TrimSet::Only('\n')), TrimSet::DocWs);
    "\n\n"@ + join(quoted_lines(lines(c)), "\n"@) + "\n\n"@
}

/// Lines without line breaks, all but the first beginning with `p`, joined
/// by line breaks: after every line break stands `p`.
proof fn lemma_join_prefixed(parts: Seq<Seq<char>>, p: Seq<char>)
    requires
        forall|k: int, j: int| 0 <= k < parts.len() && 0 <= j < parts[k].len() ==> #[trigger] parts[k][j] != '\n',
        forall|k: int| 1 <= k < parts.len() ==> p.len() <= (#[trigger] parts[k]).len() && parts[k].take(p.len() as int) == p,
    ensures
        ({
            let x = join(parts, "\n"@);
            forall|j: int|
                #![trigger x[j]]
                0 <= j < x.len() && x[j] == '\n' ==> j + 1 + p.len() <= x.len() && x.subrange(j + 1, j + 1 + p.len()) == p
        }),
    decreases parts.len(),
{
    reveal_strlit("\n");
    let x = join(parts, "\n"@);
    if parts.len() == 1 {
        assert forall|j: int| #![trigger x[j]] 0 <= j < x.len() && x[j] == '\n' implies j + 1 + p.len() <= x.len()
            && x.subrange(j + 1, j + 1 + p.len()) == p by {
            assert(parts[0][j] != '\n');
        }
    } else if parts.len() >= 2 {
        let init = parts.drop_last();
        lemma_join_prefixed(init, p);
        let a = join(init, "\n"@);
        let b = parts.last();
        assert(x == a + seq!['\n'] + b);
        assert(b == parts[parts.len() - 1]);
        assert forall|j: int| #![trigger x[j]] 0 <= j < x.len() && x[j] == '\n' implies j + 1 + p.len() <= x.len()
            && x.subrange(j + 1, j + 1 + p.len()) == p by {
            if j < a.len() {
                assert(x[j] == a[j]);
                assert(a.subrange(j + 1, j + 1 + p.len()) == p);
                assert(x.subrange(j + 1, j + 1 + p.len()) =~= a.subrange(j + 1, j + 1 + p.len()));
            } else if j == a.len() {
                assert(x.subrange(j + 1, j + 1 + p.len()) =~= b.take(p.len() as int));
            } else {
                assert(x[j] == b[j - a.len() - 1]);
                assert(parts[parts.len() - 1][j - a.len() - 1] != '\n');
            }
        }
    }
}

/// Every line of a block quote's body begins with `> `: the first, and the
/// one after every line break inside it, so that no line of the content
/// falls out of the quote.
pub proof fn law_every_quoted_line_marked(content: Seq<char>)
    ensures
        ({
            let out = blockquote_md(content);
            let body_end = out.len() - 2;
            &&& out.len() >= 4
            &&& (out.len() > 4 ==> out.subrange(2, 4) == "> "@)
            &&& forall|j: int|
                #![trigger out[j]]
                2 <= j < body_end && out[j] == '\n' ==> j + 3 <= out.len() && out.subrange(j + 1, j + 3) == "> "@
        }),
{
    reveal_strlit("> ");
    reveal_strlit("\n\n");
    let c = trim_end(trim_start(content, TrimSet::Only('\n')), TrimSet::DocWs);
    let ls = lines(c);
    let parts = quoted_lines(ls);
    crate::postprocess::lemma_lines_have_no_newline(c, 0);
    assert forall|k: int, j: int| 0 <= k < parts.len() && 0 <= j < parts[k].len() implies #[trigger] parts[k][j]
        != '\n' by {
        assert(parts[k] == "> "@ + ls[k]);
        if j >= 2 {
            assert(parts[k][j] == ls[k][j - 2]);
        }
    }
    assert forall|k: int| 1 <= k < parts.len() implies "> "@.len() <= (#[trigger] parts[k]).len() && parts[k].take(
        2,
    ) == "> "@ by {
        assert(parts[k] == "> "@ + ls[k]);
        assert(parts[k].take(2) =~= "> "@);
    }
    lemma_join_prefixed(parts, "> "@);
    let body = join(parts, "\n"@);
    let out = blockquote_md(content);
    assert(out == "\n\n"@ + body + "\n\n"@);
    assert forall|j: int| #![trigger out[j]] 2 <= j < out.len() - 2 && out[j] == '\n' implies j + 3 <= out.len()
        && out.subrange(j + 1, j + 3) == "> "@ by {
        assert(out[j] == body[j - 2]);
        assert(body.subrange(j - 1, j + 1) == "> "@);
        assert(out.subrange(j + 1, j + 3) =~= body.subrange(j - 1, j + 1));
    }
    if out.len() > 4 {
        assert(parts.len() >= 1);
        assert(parts[0] == "> "@ + ls[0]);
        if parts.len() == 1 {
            assert(body == parts[0]);
        } else {
            lemma_join_head(parts);
        }
        assert(out.subrange(2, 4) =~= body.take(2));
    }
}

/// A join of lines begins with its first line.
proof fn lemma_join_head(parts: Seq<Seq<char>>)
    requires
        parts.len() >= 1,
    ensures
        join(parts, "\n"@).len() >= parts[0].len(),
        join(parts, "\n"@).take(parts[0].len() as int) == parts[0],
    decreases parts.len(),
{
    if parts.len() >= 2 {
        lemma_join_head(parts.drop_last());
        let a = join(parts.drop_last(), "\n"@);
        assert(join(parts, "\n"@) == a + "\n"@ + parts.last());
        assert((a + "\n"@ + parts.last()).take(parts[0].len() as int) =~= a.take(parts[0].len() as int));
    }
}

/// The Markdown of `<blockquote>`.
pub fn blockquote_markdown(content: &str) -> (r: String)
    ensures
        r@ == blockquote_md(content@),
{
    let c1 = trim_start_string(content, TrimSet::Only('\n'));
    let c = trim_end_string(c1.as_str(), TrimSet::DocWs);
    let ls = split_lines(c.as_str());
    let mut quoted: Vec<String> = Vec::new();
    let mut i: usize = 0;
    while i < ls.len()
        invariant
            i <= ls@.len(),
            quoted@.len() == i,
            forall|j: int| 0 <= j < i ==> #[trigger] quoted@[j]@ == "> "@ + ls@[j]@,
        decreases ls@.len() - i,
    {
        let mut q = String::new();
        push_str(&mut q, "> ");
        push_str(&mut q, ls[i].as_str());
        quoted.push(q);
        i += 1;
    }
    let body = crate::text::join_strings(&quoted, "\n");
    let mut r = String::new();
    push_str(&mut r, "\n\n");
    push_str(&mut r, body.as_str());
    push_str(&mut r, "\n\n");
    proof {
        assert(quoted@.map_values(|s: String| s@) =~= quoted_lines(ls@.map_values(|x: String| x@)));
    }
    r
}

/// A list from its rendered items: nothing when empty; set off by single
/// newlines inside a list item, else by blank lines.
pub open spec fn list_md(content: Seq<char>, in_li: bool) -> Option<Seq<char>> {
    let t = trim_both(content, TrimSet::Only('\n'));
    if t.len() == 0 {
        None
    } else if in_li {
        Some(seq!['\n'] + t + seq!['\n'])
    } else {
        Some("\n\n"@ + t + "\n\n"@)
    }
}

/// The Markdown of `<ul>` or `<ol>` whose items rendered as `content`.
pub fn list_markdown(content: &str, in_li: bool) -> (r: Option<String>)
    ensures
        match (r, list_md(content@, in_li)) {
            (Some(a), Some(b)) => a@ == b,
            (None, None) => true,
            _ => false,
        },
{
    let t = trim_string(content, TrimSet::Only('\n'));
    if t.as_str().is_empty() {
        return None;
    }
    let mut r = String::new();
    if in_li {
        push_char(&mut r, '\n');
        push_str(&mut r, t.as_str());
        push_char(&mut r, '\n');
    } else {
        push_str(&mut r, "\n\n");
        push_str(&mut r, t.as_str());
        push_str(&mut r, "\n\n");
    }
    proof {
        reveal_strlit("\n\n");
    }
    Some(r)
}

/// A hard line break.
pub open spec fn br_md(style: BrStyle) -> Seq<char> {
    match style {
        BrStyle::TwoSpaces => "  \n"@,
        BrStyle::Backslash => "\\\n"@,
    }
}

pub fn br_markdown(style: BrStyle) -> (r: String)
    ensures
        r@ == br_md(style),
{
    match style {
        BrStyle::TwoSpaces => "  \n".to_owned(),
        BrStyle::Backslash => "\\\n".to_owned(),
    }
}

/// A thematic break.
pub open spec fn hr_md(style: RenderHrStyle) -> Seq<char> {
    match style {
        RenderHrStyle::Dashes => "\n\n- - -\n\n"@,
        RenderHrStyle::Asterisks => "\n\n* * *\n\n"@,
        RenderHrStyle::Underscores => "\n\n_ _ _\n\n"@,
    }
}

pub fn hr_markdown(style: RenderHrStyle) -> (r: String)
    ensures
        r@ == hr_md(style),
{
    match style {
        RenderHrStyle::Dashes => "\n\n- - -\n\n".to_owned(),
        RenderHrStyle::Asterisks => "\n\n* * *\n\n".to_owned(),
        RenderHrStyle::Underscores => "\n\n_ _ _\n\n".to_owned(),
    }
}


// ---------------------------------------------------------------------------
// Code
// ---------------------------------------------------------------------------

/// Length of the run of `c` that ends just before position `i`.
pub open spec fn run_before(s: Seq<char>, c: char, i: int) -> nat
    decreases i,
{
    if i <= 0 || i > s.len() || s[i - 1] != c {
        0
    } else {
        1 + run_before(s, c, i - 1)
    }
}

/// Length of the longest run of `c` within the first `i` characters.
pub open spec fn longest_run_upto(s: Seq<char>, c: char, i: int) -> nat
    decreases i,
{
    if i <= 0 {
        0
    } else {
        let a = longest_run_upto(s, c, i - 1);
        let b = run_before(s, c, i);
        if a >= b {
            a
        } else {
            b
        }
    }
}

/// Length of the longest run of `c` in `s`.
pub open spec fn longest_run(s: Seq<char>, c: char) -> nat {
    longest_run_upto(s, c, s.len() as int)
}

proof fn lemma_run_before_le(s: Seq<char>, c: char, i: int)
    ensures
        run_before(s, c, i) <= if i < 0 { 0 } else { i },
    decreases i,
{
    if i > 0 && i <= s.len() && s[i - 1] == c {
        lemma_run_before_le(s, c, i - 1);
    }
}

proof fn lemma_longest_upto_le(s: Seq<char>, c: char, i: int)
    ensures
        longest_run_upto(s, c, i) <= if i < 0 { 0 } else { i },
    decreases i,
{
    if i > 0 {
        lemma_longest_upto_le(s, c, i - 1);
        lemma_run_before_le(s, c, i);
    }
}

/// The length of the longest run of `c` in `v`.
pub fn longest_run_exec(v: &Vec<char>, c: char) -> (n: usize)
    ensures
        n == longest_run(v@, c),
{
    let mut cur: usize = 0;
    let mut best: usize = 0;
    let mut i: usize = 0;
    while i < v.len()
        invariant
            i <= v@.len(),
            cur == run_before(v@, c, i as int),
            best == longest_run_upto(v@, c, i as int),
        decreases v@.len() - i,
    {
        proof {
            lemma_run_before_le(v@, c, i as int);
        }
        if v[i] == c {
            cur = cur + 1;
        } else {
            cur = 0;
        }
        if cur > best {
            best = cur;
        }
        i += 1;
    }
    best
}

/// A code fence of `symbol`: three of them, or one more than the longest
/// run of them in the content.
pub open spec fn fence_md(symbol: char, content: Seq<char>) -> Seq<char> {
    let n = if longest_run(content, symbol) + 1 > 3 {
        longest_run(content, symbol) + 1
    } else {
        3
    };
    Seq::new(n as nat, |_i: int| symbol)
}

pub fn code_fence_marker(symbol: char, content: &str) -> (r: String)
    requires
        content@.len() < usize::MAX,
    ensures
        r@ == fence_md(symbol, content@),
{
    let v = crate::text::char_vec(content);
    let longest = longest_run_exec(&v, symbol);
    proof {
        lemma_longest_upto_le(v@, symbol, v@.len() as int);
    }
    let n: usize = if longest + 1 > 3 {
        longest + 1
    } else {
        3
    };
    let r = repeat_char(symbol, n);
    assert(r@ =~= fence_md(symbol, content@));
    r
}

/// The pieces of `s` between the separators `c`, from position `p` on
/// (`str::split`).
pub open spec fn split_from(s: Seq<char>, c: char, p: int) -> Seq<Seq<char>>
    decreases s.len() - p,
{
    if p < 0 || p > s.len() {
        Seq::empty()
    } else {
        match crate::text::find_from(s, c, p) {
            Some(k) => {
                proof {
                    crate::text::lemma_find_from(s, c, p);
                }
                seq![s.subrange(p, k)] + split_from(s, c, k + 1)
            },
            None => seq![s.subrange(p, s.len() as int)],
        }
    }
}

/// The first piece of `pieces` that starts with `language-`, without that
/// prefix.
pub open spec fn language_in(pieces: Seq<Seq<char>>) -> Option<Seq<char>>
    decreases pieces.len(),
{
    if pieces.len() == 0 {
        None
    } else if crate::text::starts_with(pieces[0], "language-"@) {
        Some(pieces[0].skip(9))
    } else {
        language_in(pieces.drop_first())
    }
}

/// The language a `class` value names with a `language-` class.
pub open spec fn class_language(class: Seq<char>) -> Option<Seq<char>> {
    language_in(split_from(class, ' ', 0))
}

/// The language named by a `class` attribute value.
pub fn language_of_class(class: &str) -> (r: Option<String>)
    ensures
        match (r, class_language(class@)) {
            (Some(a), Some(b)) => a@ == b,
            (None, None) => true,
            _ => false,
        },
{
    let v = crate::text::char_vec(class);
    let prefix = crate::text::char_vec("language-");
    proof {
        reveal_strlit("language-");
    }
    let mut p: usize = 0;
    loop
        invariant
            p <= v@.len(),
            v@ == class@,
            prefix@ == "language-"@,
            class_language(class@) == language_in(split_from(class@, ' ', p as int)),
        decreases v@.len() + 1 - p,
    {
        let mut k = p;
        while k < v.len() && v[k] != ' '
            invariant
                p <= k <= v@.len(),
                forall|j: int| p <= j < k ==> v@[j] != ' ',
            decreases v@.len() - k,
        {
            k += 1;
        }
        proof {
            crate::text::lemma_find_from(class@, ' ', p as int);
            if k < v@.len() {
                assert(crate::text::find_from(class@, ' ', p as int) == Some(k as int));
            } else {
                assert(crate::text::find_from(class@, ' ', p as int) == None::<int>);
            }
        }
        let piece = crate::text::string_of_range(&v, p, k);
        let pv = crate::text::char_vec(piece.as_str());
        let ghost rest = split_from(class@, ' ', k + 1);
        assert(split_from(class@, ' ', p as int)[0] == piece@);
        if crate::text::starts_with_exec(&pv, &prefix) {
            proof {
                reveal_strlit("language-");
            }
            assert(prefix@.len() == 9);
            let lang = crate::text::string_of_range(&pv, 9, pv.len());
            return Some(lang);
        }
        proof {
            if k < v@.len() {
                assert(split_from(class@, ' ', p as int).drop_first() == rest);
            } else {
                assert(split_from(class@, ' ', p as int).drop_first() =~= Seq::<Seq<char>>::empty());
                assert(split_from(class@, ' ', k + 1) == Seq::<Seq<char>>::empty());
            }
        }
        proof {
            assert(!crate::text::starts_with(split_from(class@, ' ', p as int)[0], "language-"@));
            assert(language_in(split_from(class@, ' ', p as int)) == language_in(
                split_from(class@, ' ', p as int).drop_first(),
            ));
        }
        if k >= v.len() {
            assert(language_in(Seq::<Seq<char>>::empty()) == None::<Seq<char>>);
            return None;
        }
        p = k + 1;
    }
}

/// A fenced code block: the fence, the language, the code without one final
/// newline, and the fence again.
pub open spec fn code_block_md(content: Seq<char>, symbol: char, language: Option<Seq<char>>) -> Seq<char> {
    let c = if content.len() > 0 && content.last() == '\n' {
        content.drop_last()
    } else {
        content
    };
    let f = fence_md(symbol, c);
    f + match language {
        Some(l) => l,
        None => Seq::empty(),
    } + seq!['\n'] + c + seq!['\n'] + f
}

/// The Markdown of `<pre><code>` whose text rendered as `content`.
pub fn code_block_markdown(content: &str, symbol: char, language: Option<&str>) -> (r: String)
    requires
        content@.len() < usize::MAX,
    ensures
        r@ == code_block_md(
            content@,
            symbol,
            match language {
                Some(l) => Some(l@),
                None => None,
            },
        ),
{
    let v = crate::text::char_vec(content);
    let c = if v.len() > 0 && v[v.len() - 1] == '\n' {
        crate::text::string_of_range(&v, 0, v.len() - 1)
    } else {
        content.to_owned()
    };
    let fence = code_fence_marker(symbol, c.as_str());
    let mut r = String::new();
    push_str(&mut r, fence.as_str());
    match language {
        Some(l) => push_str(&mut r, l),
        None => {},
    }
    push_char(&mut r, '\n');
    push_str(&mut r, c.as_str());
    push_char(&mut r, '\n');
    push_str(&mut r, fence.as_str());
    r
}


/// A maximal run of backticks ends just before position `i`.
pub open spec fn run_ends_at(s: Seq<char>, i: int) -> bool {
    0 < i <= s.len() && s[i - 1] == '`' && (i == s.len() || s[i] != '`')
}

/// Some maximal run of backticks in `s` has length `k`.
pub open spec fn has_run(s: Seq<char>, k: nat) -> bool {
    exists|i: int| run_ends_at(s, i) && #[trigger] run_before(s, '`', i) == k
}

/// `n` backticks delimit inline code `s`: one more than its longest run when
/// it starts or ends with a backtick, else the shortest length that no run
/// of backticks in it has.
pub open spec fn delimiter_fits(s: Seq<char>, n: nat) -> bool {
    if (s.len() > 0 && s[0] == '`') || (s.len() > 0 && s.last() == '`') {
        n == longest_run(s, '`') + 1
    } else {
        n >= 1 && !has_run(s, n) && forall|j: nat| 1 <= j < n ==> #[trigger] has_run(s, j)
    }
}

/// Only one delimiter length fits a code span's text, so the inline code
/// that `inline_code_markdown` writes is determined by its input.
pub proof fn law_inline_code_delimiter_unique(s: Seq<char>, n: nat, m: nat)
    requires
        delimiter_fits(s, n),
        delimiter_fits(s, m),
    ensures
        n == m,
{
    if !((s.len() > 0 && s[0] == '`') || (s.len() > 0 && s.last() == '`')) {
        if n < m {
            assert(has_run(s, n));
        } else if m < n {
            assert(has_run(s, m));
        }
    }
}

fn has_run_exec(v: &Vec<char>, k: usize) -> (b: bool)
    ensures
        b == has_run(v@, k as nat),
{
    let mut cur: usize = 0;
    let mut i: usize = 0;
    while i < v.len()
        invariant
            i <= v@.len(),
            cur == run_before(v@, '`', i as int),
            forall|j: int| 0 < j <= i ==> !(run_ends_at(v@, j) && #[trigger] run_before(v@, '`', j) == k),
        decreases v@.len() - i,
    {
        proof {
            lemma_run_before_le(v@, '`', i as int);
        }
        if v[i] == '`' {
            cur = cur + 1;
        } else {
            cur = 0;
        }
        let ends = v[i] == '`' && (i + 1 == v.len() || v[i + 1] != '`');
        if ends && cur == k {
            assert(run_ends_at(v@, i + 1) && run_before(v@, '`', i + 1) == k);
            return true;
        }
        i += 1;
    }
    false
}

/// Text of inline code in preformatted mode: each newline becomes a space,
/// and a space goes before the first character after leading newlines.
pub open spec fn pre_code_from(s: Seq<char>, i: int, prev_nl: bool, mid: bool) -> Seq<char>
    decreases s.len() - i,
{
    if i < 0 || i >= s.len() {
        if prev_nl {
            seq![' ']
        } else {
            Seq::empty()
        }
    } else if s[i] == '\n' {
        seq![' '] + pre_code_from(s, i + 1, true, mid)
    } else {
        (if prev_nl && !mid {
            seq![' ']
        } else {
            Seq::empty()
        }) + seq![s[i]] + pre_code_from(s, i + 1, false, true)
    }
}

fn preformatted_code(code: &str) -> (r: String)
    ensures
        r@ == pre_code_from(code@, 0, false, false),
{
    let v = crate::text::char_vec(code);
    let mut r = String::new();
    let mut prev = false;
    let mut mid = false;
    let mut i: usize = 0;
    while i < v.len()
        invariant
            i <= v@.len(),
            v@ == code@,
            r@ + pre_code_from(code@, i as int, prev, mid) == pre_code_from(code@, 0, false, false),
        decreases v@.len() - i,
    {
        let ghost before = r@;
        if v[i] == '\n' {
            push_char(&mut r, ' ');
            proof {
                assert(before + pre_code_from(code@, i as int, prev, mid) == r@ + pre_code_from(
                    code@,
                    i + 1,
                    true,
                    mid,
                ));
            }
            prev = true;
        } else {
            if prev && !mid {
                push_char(&mut r, ' ');
            }
            push_char(&mut r, v[i]);
            proof {
                assert(before + pre_code_from(code@, i as int, prev, mid) =~= r@ + pre_code_from(
                    code@,
                    i + 1,
                    false,
                    true,
                ));
            }
            prev = false;
            mid = true;
        }
        i += 1;
    }
    if prev {
        push_char(&mut r, ' ');
    }
    assert(r@ =~= pre_code_from(code@, 0, false, false));
    r
}

/// The text inline code shows: preformatted, or trimmed of document white
/// space.
pub open spec fn inline_code_text(content: Seq<char>, preformatted: bool) -> Seq<char> {
    if preformatted {
        pre_code_from(content, 0, false, false)
    } else {
        trim_both(content, TrimSet::DocWs)
    }
}

/// Inline code with `n` backticks around it, padded by spaces when it
/// starts or ends with a backtick or keeps its boundary spaces.
pub open spec fn inline_code_md(content: Seq<char>, preformatted: bool, n: nat) -> Seq<char> {
    let c = inline_code_text(content, preformatted);
    let keep_spaces = preformatted && content.len() > 0 && content[0] == ' ' && content.last() == ' '
        && trim_both(content, TrimSet::Only(' ')).len() > 0;
    let pad = (c.len() > 0 && c[0] == '`') || (c.len() > 0 && c.last() == '`') || keep_spaces;
    let d = Seq::new(n, |_i: int| '`');
    if pad {
        d + seq![' '] + c + seq![' '] + d
    } else {
        d + c + d
    }
}

/// The Markdown of inline `<code>` whose text rendered as `content`.
pub fn inline_code_markdown(content: &str, preformatted: bool) -> (r: String)
    requires
        content@.len() < usize::MAX / 2,
    ensures
        exists|n: nat|
            delimiter_fits(inline_code_text(content@, preformatted), n) && r@ == inline_code_md(
                content@,
                preformatted,
                n,
            ),
{
    let cv = crate::text::char_vec(content);
    let keep_spaces = preformatted && cv.len() > 0 && cv[0] == ' ' && cv[cv.len() - 1] == ' '
        && !trim_string(content, TrimSet::Only(' ')).as_str().is_empty();
    let c = if preformatted {
        preformatted_code(content)
    } else {
        trim_string(content, TrimSet::DocWs)
    };
    let v = crate::text::char_vec(c.as_str());
    proof {
        if preformatted {
            lemma_pre_code_len(content@, 0, false, false);
        } else {
            crate::text::lemma_trim_both_len(content@, TrimSet::DocWs);
        }
    }
    let edge = (v.len() > 0 && v[0] == '`') || (v.len() > 0 && v[v.len() - 1] == '`');
    let n: usize = if edge {
        let l = longest_run_exec(&v, '`');
        proof {
            lemma_longest_upto_le(v@, '`', v@.len() as int);
        }
        l + 1
    } else {
        let mut k: usize = 1;
        while has_run_exec(&v, k)
            invariant
                v@.len() < usize::MAX - 1,
                1 <= k <= v@.len() + 1,
                forall|j: nat| 1 <= j < k ==> #[trigger] has_run(v@, j),
            decreases v@.len() + 1 - k,
        {
            proof {
                let i = choose|i: int| run_ends_at(v@, i) && #[trigger] run_before(v@, '`', i) == k;
                lemma_run_before_le(v@, '`', i);
            }
            k = k + 1;
        }
        k
    };
    assert(delimiter_fits(v@, n as nat));
    let d = repeat_char('`', n);
    let mut r = String::new();
    push_str(&mut r, d.as_str());
    if edge || keep_spaces {
        push_char(&mut r, ' ');
        push_str(&mut r, c.as_str());
        push_char(&mut r, ' ');
    } else {
        push_str(&mut r, c.as_str());
    }
    push_str(&mut r, d.as_str());
    assert(r@ =~= inline_code_md(content@, preformatted, n as nat));
    r
}

proof fn lemma_pre_code_len(s: Seq<char>, i: int, prev: bool, mid: bool)
    requires
        0 <= i <= s.len(),
    ensures
        pre_code_from(s, i, prev, mid).len() <= 2 * (s.len() - i) + 1,
    decreases s.len() - i,
{
    if i < s.len() {
        if s[i] == '\n' {
            lemma_pre_code_len(s, i + 1, true, mid);
        } else {
            lemma_pre_code_len(s, i + 1, false, true);
        }
    }
}

// ---------------------------------------------------------------------------
// Images
// ---------------------------------------------------------------------------

/// The value of the last attribute called `a` or `b`.
pub open spec fn last_attr(attrs: Seq<crate::serialize::Attribute>, a: Seq<char>, b: Seq<char>) -> Option<Seq<char>>
    decreases attrs.len(),
{
    if attrs.len() == 0 {
        None
    } else if attrs.last().name@ == a || attrs.last().name@ == b {
        Some(attrs.last().value@)
    } else {
        last_attr(attrs.drop_last(), a, b)
    }
}

/// The value of the last attribute called `a` or `b`.
pub fn last_attr_exec(attrs: &Vec<crate::serialize::Attribute>, a: &str, b: &str) -> (r: Option<String>)
    ensures
        match (r, last_attr(attrs@, a@, b@)) {
            (Some(x), Some(y)) => x@ == y,
            (None, None) => true,
            _ => false,
        },
{
    let mut i: usize = attrs.len();
    assert(attrs@.take(i as int) == attrs@);
    while i > 0
        invariant
            i <= attrs@.len(),
            last_attr(attrs@, a@, b@) == last_attr(attrs@.take(i as int), a@, b@),
        decreases i,
    {
        assert(attrs@.take(i as int).drop_last() == attrs@.take(i - 1));
        let n = attrs[i - 1].name.as_str();
        if crate::text::str_eq(n, a) || crate::text::str_eq(n, b) {
            return Some(attrs[i - 1].value.clone());
        }
        i -= 1;
    }
    None
}

/// An image: `![alt](link "title")`, the link between `<` and `>` when it
/// holds a space.
pub open spec fn image_md(link: Seq<char>, alt: Option<Seq<char>>, title: Option<Seq<char>>) -> Seq<char> {
    let l = crate::text::flat_map(link, |c: char| crate::blocks::paren_escape(c));
    let spaced = crate::text::has_char(l, ' ');
    "!["@ + match alt {
        Some(a) => crate::blocks::processed_title(a),
        None => Seq::empty(),
    } + "]("@ + (if spaced {
        seq!['<']
    } else {
        Seq::empty()
    }) + l + (if spaced {
        seq!['>']
    } else {
        Seq::empty()
    }) + match title {
        Some(t) => " \""@ + crate::blocks::processed_title(t) + seq!['"'],
        None => Seq::empty(),
    } + seq![')']
}

proof fn lemma_paren_escape_keeps_space(link: Seq<char>)
    requires
        crate::text::has_char(link, ' '),
    ensures
        crate::text::has_char(crate::text::flat_map(link, |c: char| crate::blocks::paren_escape(c)), ' '),
    decreases link.len(),
{
    let f = |c: char| crate::blocks::paren_escape(c);
    let d = link.drop_last();
    let a = crate::text::flat_map(d, f);
    let b = f(link.last());
    assert(crate::text::flat_map(link, f) == a + b);
    if link.last() == ' ' {
        assert(b == seq![' ']);
        assert((a + b)[a.len() as int] == ' ');
    } else {
        let i = choose|i: int| 0 <= i < link.len() && link[i] == ' ';
        assert(d[i] == ' ');
        lemma_paren_escape_keeps_space(d);
        let k = choose|k: int| 0 <= k < a.len() && a[k] == ' ';
        assert((a + b)[k] == ' ');
    }
}

/// An image whose destination holds a space has it between angle
/// brackets right after the opening parenthesis, so that CommonMark still
/// reads it as one destination.
pub proof fn law_spaced_image_destinations_bracketed(link: Seq<char>, alt: Option<Seq<char>>, title: Option<Seq<char>>)
    requires
        crate::text::has_char(link, ' '),
    ensures
        ({
            let out = image_md(link, alt, title);
            exists|k: int, e: Seq<char>|
                0 <= k && k + e.len() + 3 <= out.len() && #[trigger] out.subrange(k, k + e.len() + 3) == seq!['(', '<'] + e
                    + seq!['>'] && crate::text::has_char(e, ' ')
        }),
{
    reveal_strlit("![");
    reveal_strlit("](");
    lemma_paren_escape_keeps_space(link);
    let l = crate::text::flat_map(link, |c: char| crate::blocks::paren_escape(c));
    let a = match alt {
        Some(x) => crate::blocks::processed_title(x),
        None => Seq::empty(),
    };
    let t = match title {
        Some(x) => " \""@ + crate::blocks::processed_title(x) + seq!['"'],
        None => Seq::empty(),
    };
    let out = image_md(link, alt, title);
    assert(out == "!["@ + a + "]("@ + seq!['<'] + l + seq!['>'] + t + seq![')']);
    let k: int = a.len() as int + 3;
    assert(out.subrange(k, k + l.len() + 3) =~= seq!['(', '<'] + l + seq!['>']);
    assert(0 <= k && k + l.len() + 3 <= out.len() && out.subrange(k, k + l.len() + 3) == seq!['(', '<'] + l
        + seq!['>'] && crate::text::has_char(l, ' '));
}

/// The Markdown of `<img>` from its `src` (or `href`), `alt` and `title`.
pub fn image_markdown(link: &str, alt: Option<&str>, title: Option<&str>) -> (r: String)
    ensures
        r@ == image_md(
            link@,
            match alt {
                Some(a) => Some(a@),
                None => None,
            },
            match title {
                Some(t) => Some(t@),
                None => None,
            },
        ),
{
    let l = crate::blocks::escape_link_destination(link);
    let lv = crate::text::char_vec(l.as_str());
    let spaced = crate::text::has_char_exec(&lv, ' ');
    let mut r = String::new();
    push_str(&mut r, "![");
    match alt {
        Some(a) => {
            let p = crate::blocks::process_title(a);
            push_str(&mut r, p.as_str());
        },
        None => {},
    }
    push_str(&mut r, "](");
    if spaced {
        push_char(&mut r, '<');
    }
    push_str(&mut r, l.as_str());
    if spaced {
        push_char(&mut r, '>');
    }
    match title {
        Some(t) => {
            let p = crate::blocks::process_title(t);
            push_str(&mut r, " \"");
            push_str(&mut r, p.as_str());
            push_char(&mut r, '"');
        },
        None => {},
    }
    push_char(&mut r, ')');
    proof {
        reveal_strlit("![");
        reveal_strlit("](");
        reveal_strlit(" \"");
    }
    assert(r@ =~= image_md(
        link@,
        match alt {
            Some(a) => Some(a@),
            None => None,
        },
        match title {
            Some(t) => Some(t@),
            None => None,
        },
    ));
    r
}


/// Each line of `ls` indented by four spaces.
pub open spec fn indented_lines(ls: Seq<Seq<char>>) -> Seq<Seq<char>> {
    ls.map_values(|l: Seq<char>| "    "@ + l)
}

/// An indented code block: the code without one final newline, each line
/// indented by four spaces.
pub open spec fn indented_code_md(content: Seq<char>) -> Seq<char> {
    let c = if content.len() > 0 && content.last() == '\n' {
        content.drop_last()
    } else {
        content
    };
    join(indented_lines(lines(c)), "\n"@)
}

/// The Markdown of `<pre><code>` as an indented code block.
pub fn indented_code_markdown(content: &str) -> (r: String)
    ensures
        r@ == indented_code_md(content@),
{
    let v = crate::text::char_vec(content);
    let c = if v.len() > 0 && v[v.len() - 1] == '\n' {
        crate::text::string_of_range(&v, 0, v.len() - 1)
    } else {
        content.to_owned()
    };
    let ls = split_lines(c.as_str());
    let mut out: Vec<String> = Vec::new();
    let mut i: usize = 0;
    while i < ls.len()
        invariant
            i <= ls@.len(),
            out@.len() == i,
            forall|j: int| 0 <= j < i ==> #[trigger] out@[j]@ == "    "@ + ls@[j]@,
        decreases ls@.len() - i,
    {
        let mut q = String::new();
        push_str(&mut q, "    ");
        push_str(&mut q, ls[i].as_str());
        out.push(q);
        i += 1;
    }
    assert(out@.map_values(|s: String| s@) =~= indented_lines(ls@.map_values(|x: String| x@)));
    crate::text::join_strings(&out, "\n")
}

} // verus!
