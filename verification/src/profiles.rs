//! Profile-specific post-processing of rendered Markdown: Obsidian
//! frontmatter, MDX-safe escaping and plain-text stripping.

use vstd::prelude::*;
use crate::options::{ConversionOptions, OutputProfile};
use crate::regex_support::{replace_rule, replace_with_pattern};
use crate::result::ConversionResult;
use crate::text::{char_from_u32, exec_is_ascii_alpha, exec_is_ascii_punct, is_ascii_alpha, is_ascii_punct, trim_both, trim_string, TrimSet, char_vec, flat_map, has_char, join, join_strings, lemma_flat_map_avoids, lemma_flat_map_cons, lemma_flat_map_take, push_char, push_str};

verus! {

// ---------------------------------------------------------------------------
// YAML quoting
// ---------------------------------------------------------------------------

/// How one character is written inside a double-quoted YAML scalar.
pub open spec fn yaml_escape_char(c: char) -> Seq<char> {
    if c == '"' {
        seq!['\\', '"']
    } else if c == '\\' {
        seq!['\\', '\\']
    } else if c == '\n' {
        seq!['\\', 'n']
    } else if c == '\r' {
        seq!['\\', 'r']
    } else if c == '\t' {
        seq!['\\', 't']
    } else {
        seq![c]
    }
}

/// `s` as a double-quoted YAML scalar.
pub open spec fn yaml_quoted(s: Seq<char>) -> Seq<char> {
    seq!['"'] + flat_map(s, |c: char| yaml_escape_char(c)) + seq!['"']
}

/// Quote a string as a double-quoted YAML scalar so metadata containing
/// `:`, `#`, quotes, or newlines cannot break the frontmatter.
pub fn yaml_quote(s: &str) -> (r: String)
    ensures
        r@ == yaml_quoted(s@),
{
    let v = char_vec(s);
    let ghost f = |c: char| yaml_escape_char(c);
    let mut out = String::new();
    push_char(&mut out, '"');
    let mut i: usize = 0;
    while i < v.len()
        invariant
            i <= v@.len(),
            v@ == s@,
            f == (|c: char| yaml_escape_char(c)),
            out@ == seq!['"'] + flat_map(v@.take(i as int), f),
        decreases v@.len() - i,
    {
        let c = v[i];
        if c == '"' {
            push_str(&mut out, "\\\"");
        } else if c == '\\' {
            push_str(&mut out, "\\\\");
        } else if c == '\n' {
            push_str(&mut out, "\\n");
        } else if c == '\r' {
            push_str(&mut out, "\\r");
        } else if c == '\t' {
            push_str(&mut out, "\\t");
        } else {
            push_char(&mut out, c);
        }
        proof {
            reveal_strlit("\\\"");
            reveal_strlit("\\\\");
            reveal_strlit("\\n");
            reveal_strlit("\\r");
            reveal_strlit("\\t");
            lemma_flat_map_take(v@, i as int, f);
            assert(out@ == seq!['"'] + flat_map(v@.take(i as int), f) + f(c));
        }
        i += 1;
    }
    push_char(&mut out, '"');
    assert(v@.take(v@.len() as int) == v@);
    out
}

/// Reading back an escape sequence `\x` of a double-quoted YAML scalar.
pub open spec fn yaml_unescape_char(c: char) -> char {
    if c == 'n' {
        '\n'
    } else if c == 'r' {
        '\r'
    } else if c == 't' {
        '\t'
    } else {
        c
    }
}

/// Reading back the body of a double-quoted YAML scalar.
pub open spec fn yaml_unescape(t: Seq<char>) -> Seq<char>
    decreases t.len(),
{
    if t.len() == 0 {
        Seq::empty()
    } else if t[0] == '\\' && t.len() >= 2 {
        seq![yaml_unescape_char(t[1])] + yaml_unescape(t.skip(2))
    } else {
        seq![t[0]] + yaml_unescape(t.skip(1))
    }
}

/// A quoted scalar reads back as the original string, and its body holds no
/// raw line break, so a metadata value cannot end a frontmatter line early.
pub proof fn law_yaml_quote_round_trip(s: Seq<char>)
    ensures
        ({
            let q = yaml_quoted(s);
            let body = q.subrange(1, q.len() - 1);
            &&& q[0] == '"'
            &&& q.last() == '"'
            &&& yaml_unescape(body) == s
            &&& !has_char(body, '\n')
            &&& !has_char(body, '\r')
        }),
{
    let f = |c: char| yaml_escape_char(c);
    let body = flat_map(s, f);
    let q = yaml_quoted(s);
    assert(q.subrange(1, q.len() - 1) == body);
    lemma_yaml_unescape_escape(s);
    assert forall|c: char| !has_char(#[trigger] f(c), '\n') by {}
    assert forall|c: char| !has_char(#[trigger] f(c), '\r') by {}
    lemma_flat_map_avoids(s, f, '\n');
    lemma_flat_map_avoids(s, f, '\r');
}

proof fn lemma_yaml_unescape_escape(s: Seq<char>)
    ensures
        yaml_unescape(flat_map(s, |c: char| yaml_escape_char(c))) == s,
    decreases s.len(),
{
    let f = |c: char| yaml_escape_char(c);
    if s.len() > 0 {
        let rest = s.skip(1);
        assert(s == seq![s[0]] + rest);
        lemma_flat_map_cons(s[0], rest, f);
        lemma_yaml_unescape_escape(rest);
        let e = f(s[0]);
        let t = e + flat_map(rest, f);
        if e.len() == 2 {
            assert(t.skip(2) == flat_map(rest, f));
        } else {
            assert(t.skip(1) == flat_map(rest, f));
        }
        assert(seq![s[0]] + rest == s);
    } else {
        assert(flat_map(s, f) == Seq::<char>::empty());
    }
}

// ---------------------------------------------------------------------------
// Obsidian frontmatter
// ---------------------------------------------------------------------------

/// One frontmatter line `key: "value"`, if the value is present.
pub open spec fn frontmatter_line(key: Seq<char>, value: Option<Seq<char>>) -> Seq<Seq<char>> {
    match value {
        Some(v) => seq![key + ": "@ + yaml_quoted(v)],
        None => Seq::empty(),
    }
}

/// The frontmatter lines of a result: title, description, canonical URL.
pub open spec fn frontmatter_lines(r: ConversionResult) -> Seq<Seq<char>> {
    frontmatter_line("title"@, crate::options::opt_view(r.title)) + frontmatter_line(
        "description"@,
        crate::options::opt_view(r.description),
    ) + frontmatter_line("canonical_url"@, crate::options::opt_view(r.canonical_url))
}

/// The YAML frontmatter block of a result, if it has any metadata.
pub open spec fn spec_frontmatter(r: ConversionResult) -> Option<Seq<char>> {
    let lines = frontmatter_lines(r);
    if lines.len() == 0 {
        None
    } else {
        Some("---\n"@ + join(lines, "\n"@) + "\n---"@)
    }
}

fn push_frontmatter_line(lines: &mut Vec<String>, key: &str, value: &Option<String>)
    ensures
        final(lines)@.map_values(|s: String| s@) == old(lines)@.map_values(|s: String| s@)
            + frontmatter_line(key@, crate::options::opt_view(*value)),
{
    if let Some(v) = value {
        let mut line = key.to_owned();
        push_str(&mut line, ": ");
        let q = yaml_quote(v.as_str());
        push_str(&mut line, q.as_str());
        lines.push(line);
        assert(final(lines)@.map_values(|s: String| s@) =~= old(lines)@.map_values(|s: String| s@)
            + frontmatter_line(key@, crate::options::opt_view(*value)));
    } else {
        assert(old(lines)@.map_values(|s: String| s@) + Seq::<Seq<char>>::empty()
            =~= old(lines)@.map_values(|s: String| s@));
    }
}

/// Build the YAML frontmatter block for the Obsidian profile.
pub fn build_obsidian_frontmatter(result: &ConversionResult) -> (r: Option<String>)
    ensures
        match (r, spec_frontmatter(*result)) {
            (Some(s), Some(t)) => s@ == t,
            (None, None) => true,
            _ => false,
        },
{
    let mut lines: Vec<String> = Vec::new();
    assert(lines@.map_values(|s: String| s@) =~= Seq::<Seq<char>>::empty());
    push_frontmatter_line(&mut lines, "title", &result.title);
    push_frontmatter_line(&mut lines, "description", &result.description);
    push_frontmatter_line(&mut lines, "canonical_url", &result.canonical_url);
    assert(lines@.map_values(|s: String| s@) =~= frontmatter_lines(*result));
    if lines.len() == 0 {
        return None;
    }
    let mut out = "---\n".to_owned();
    let body = join_strings(&lines, "\n");
    push_str(&mut out, body.as_str());
    push_str(&mut out, "\n---");
    Some(out)
}

// ---------------------------------------------------------------------------
// MDX-safe escaping
// ---------------------------------------------------------------------------

/// A `<` at `i` opens a JSX element or fragment: a letter, `/` or `>` follows.
pub open spec fn mdx_opens_tag(s: Seq<char>, i: int) -> bool {
    i + 1 < s.len() && (is_ascii_alpha(s[i + 1]) || s[i + 1] == '/' || s[i + 1] == '>')
}

/// How the character at `i` is written in MDX-safe output.
pub open spec fn mdx_piece(s: Seq<char>, i: int) -> Seq<char> {
    if s[i] == '{' {
        seq!['\\', '{']
    } else if s[i] == '}' {
        seq!['\\', '}']
    } else if s[i] == '<' && mdx_opens_tag(s, i) {
        seq!['\\', '<']
    } else {
        seq![s[i]]
    }
}

/// The MDX-safe form of the first `n` characters of `s`.
pub open spec fn mdx_prefix(s: Seq<char>, n: nat) -> Seq<char>
    decreases n,
{
    if n == 0 {
        Seq::empty()
    } else {
        mdx_prefix(s, (n - 1) as nat) + mdx_piece(s, n - 1)
    }
}

/// Escape curly braces (JSX expressions) and a `<` that could open a JSX
/// element or fragment; a bare `<` followed by anything else stays text.
pub fn escape_mdx(text: &str) -> (r: String)
    ensures
        r@ == mdx_prefix(text@, text@.len()),
{
    let v = char_vec(text);
    let mut out = String::new();
    let mut i: usize = 0;
    while i < v.len()
        invariant
            i <= v@.len(),
            v@ == text@,
            out@ == mdx_prefix(v@, i as nat),
        decreases v@.len() - i,
    {
        let c = v[i];
        if c == '{' {
            push_str(&mut out, "\\{");
        } else if c == '}' {
            push_str(&mut out, "\\}");
        } else if c == '<' {
            let opens = i + 1 < v.len() && (exec_is_ascii_alpha(v[i + 1]) || v[i + 1] == '/'
                || v[i + 1] == '>');
            if opens {
                push_str(&mut out, "\\<");
            } else {
                push_char(&mut out, '<');
            }
        } else {
            push_char(&mut out, c);
        }
        proof {
            reveal_strlit("\\{");
            reveal_strlit("\\}");
            reveal_strlit("\\<");
        }
        i += 1;
    }
    out
}

/// After MDX-safe escaping no brace is left bare: every `{` and `}` in the
/// output comes right after an inserted backslash.
pub proof fn law_escape_mdx_braces(s: Seq<char>)
    ensures
        forall|j: int|
            0 <= j < mdx_prefix(s, s.len()).len() && (#[trigger] mdx_prefix(s, s.len())[j] == '{'
                || mdx_prefix(s, s.len())[j] == '}') ==> j > 0 && mdx_prefix(s, s.len())[j - 1]
                == '\\',
{
    lemma_mdx_braces(s, s.len());
}

proof fn lemma_mdx_braces(s: Seq<char>, n: nat)
    requires
        n <= s.len(),
    ensures
        forall|j: int|
            0 <= j < mdx_prefix(s, n).len() && (#[trigger] mdx_prefix(s, n)[j] == '{' || mdx_prefix(s, n)[j]
                == '}') ==> j > 0 && mdx_prefix(s, n)[j - 1] == '\\',
    decreases n,
{
    if n > 0 {
        lemma_mdx_braces(s, (n - 1) as nat);
        let a = mdx_prefix(s, (n - 1) as nat);
        let b = mdx_piece(s, n - 1);
        assert(mdx_prefix(s, n) == a + b);
        assert forall|j: int|
            0 <= j < (a + b).len() && (#[trigger] (a + b)[j] == '{' || (a + b)[j] == '}') implies j > 0 && (a
            + b)[j - 1] == '\\' by {
            if j < a.len() {
                assert((a + b)[j] == a[j]);
                assert((a + b)[j - 1] == a[j - 1]);
            } else {
                assert((a + b)[j] == b[j - a.len()]);
                assert(j - a.len() == 1);
                assert((a + b)[j - 1] == b[0]);
            }
        }
    }
}

// ---------------------------------------------------------------------------
// Plain-text stripping
// ---------------------------------------------------------------------------

pub const FENCED_BACKTICK: &'static str = r"```[^\n]*\n?([\s\S]*?)```";
pub const FENCED_TILDE: &'static str = r"~~~[^\n]*\n?([\s\S]*?)~~~";
pub const INLINE_CODE: &'static str = r"`([^`]+)`";
pub const IMAGES: &'static str = r"!\[([^\]]*)\]\([^)]*\)";
pub const LINKS: &'static str = r"\[([^\]]+)\]\([^)]*\)";
pub const BOLD_STARS: &'static str = r"\*\*([^*]+)\*\*";
pub const BOLD_UNDERS: &'static str = r"__([^_]+)__";
pub const EM_STAR: &'static str = r"\*([^*\n]+)\*";
pub const EM_UNDER: &'static str = r"_([^_\n]+)_";
pub const STRIKE: &'static str = r"~~([^~]+)~~";
pub const HIGHLIGHT: &'static str = r"==([^=\n]+)==";
pub const INSERT: &'static str = r"\+\+([^+\n]+)\+\+";
pub const SUPERSCRIPT: &'static str = r"\^([^^\s]+)\^";
pub const SUBSCRIPT: &'static str = r"~([^~\s]+)~";
pub const HEADINGS: &'static str = r"(?m)^#{1,6}\s+";
pub const BLOCKQUOTES: &'static str = r"(?m)^>\s?";
pub const BULLETS: &'static str = r"(?m)^[-*+]\s+";
pub const ORDERED: &'static str = r"(?m)^\d+\.\s+";
pub const HRULES: &'static str = r"(?m)^---+\s*$";
pub const BLANK_LINES: &'static str = r"\n{3,}";

/// First code point of the private-use block that protects escaped
/// punctuation while markers are stripped.
pub const PUA_BASE: u32 = 0xE100;

/// The private-use stand-in of an escaped ASCII punctuation character.
pub open spec fn protect_char(c: char) -> char {
    ((PUA_BASE + c as u32) as u32) as char
}

/// A stand-in back to the character it protects; other characters stay.
pub open spec fn unprotect_char(c: char) -> char {
    if PUA_BASE <= c as u32 && (c as u32) < PUA_BASE + 0x80 {
        ((c as u32 - PUA_BASE) as u32) as char
    } else {
        c
    }
}

/// `s` with every backslash-escaped ASCII punctuation character replaced by
/// its stand-in (the backslash is dropped).
pub open spec fn protect_escapes(s: Seq<char>) -> Seq<char>
    decreases s.len(),
{
    if s.len() == 0 {
        Seq::empty()
    } else if s.len() >= 2 && s[0] == '\\' && is_ascii_punct(s[1]) {
        seq![protect_char(s[1])] + protect_escapes(s.skip(2))
    } else {
        seq![s[0]] + protect_escapes(s.skip(1))
    }
}

/// The inline and block markers stripped from text, in order.
pub open spec fn strip_markers(s: Seq<char>) -> Seq<char> {
    let s = replace_rule(FENCED_BACKTICK@, "$1"@, s);
    let s = replace_rule(FENCED_TILDE@, "$1"@, s);
    let s = replace_rule(INLINE_CODE@, "$1"@, s);
    let s = replace_rule(IMAGES@, "$1"@, s);
    let s = replace_rule(LINKS@, "$1"@, s);
    let s = replace_rule(BOLD_STARS@, "$1"@, s);
    let s = replace_rule(BOLD_UNDERS@, "$1"@, s);
    let s = replace_rule(EM_STAR@, "$1"@, s);
    let s = replace_rule(EM_UNDER@, "$1"@, s);
    let s = replace_rule(STRIKE@, "$1"@, s);
    let s = replace_rule(HIGHLIGHT@, "$1"@, s);
    let s = replace_rule(INSERT@, "$1"@, s);
    let s = replace_rule(SUPERSCRIPT@, "$1"@, s);
    let s = replace_rule(SUBSCRIPT@, "$1"@, s);
    let s = replace_rule(HEADINGS@, ""@, s);
    let s = replace_rule(BLOCKQUOTES@, ""@, s);
    let s = replace_rule(BULLETS@, ""@, s);
    let s = replace_rule(ORDERED@, ""@, s);
    replace_rule(HRULES@, ""@, s)
}

/// Markdown reduced to readable text.
pub open spec fn spec_strip_markdown(s: Seq<char>) -> Seq<char> {
    let stripped = strip_markers(protect_escapes(s)).map_values(|c: char| unprotect_char(c));
    replace_rule(BLANK_LINES@, "\n\n"@, trim_both(stripped, TrimSet::UnicodeWs))
}

fn protect(c: char) -> (r: char)
    requires
        is_ascii_punct(c),
    ensures
        r == protect_char(c),
{
    let x = PUA_BASE + (c as u32);
    match char_from_u32(x) {
        Some(p) => {
            proof {
                lemma_char_cast(p, x);
            }
            p
        },
        None => c,
    }
}

fn unprotect(c: char) -> (r: char)
    ensures
        r == unprotect_char(c),
{
    let cp = c as u32;
    if PUA_BASE <= cp && cp < PUA_BASE + 0x80 {
        match char_from_u32(cp - PUA_BASE) {
            Some(p) => {
                proof {
                    lemma_char_cast(p, (cp - PUA_BASE) as u32);
                }
                p
            },
            None => c,
        }
    } else {
        c
    }
}

proof fn lemma_char_cast(p: char, x: u32)
    requires
        p as u32 == x,
    ensures
        p == (x as char),
{
}

fn protect_escapes_exec(v: &Vec<char>) -> (r: String)
    ensures
        r@ == protect_escapes(v@),
{
    let mut out = String::new();
    let mut i: usize = 0;
    assert(v@.skip(0) == v@);
    while i < v.len()
        invariant
            i <= v@.len(),
            out@ + protect_escapes(v@.skip(i as int)) == protect_escapes(v@),
        decreases v@.len() - i,
    {
        let ghost rest = v@.skip(i as int);
        if v[i] == '\\' && i + 1 < v.len() && exec_is_ascii_punct(v[i + 1]) {
            push_char(&mut out, protect(v[i + 1]));
            assert(rest.skip(2) == v@.skip(i + 2));
            assert(out@ + protect_escapes(v@.skip(i + 2)) == protect_escapes(v@));
            i += 2;
        } else {
            push_char(&mut out, v[i]);
            assert(rest.skip(1) == v@.skip(i + 1));
            assert(out@ + protect_escapes(v@.skip(i + 1)) == protect_escapes(v@));
            i += 1;
        }
    }
    assert(v@.skip(v@.len() as int) == Seq::<char>::empty());
    assert(out@ + Seq::<char>::empty() == out@);
    out
}

fn unprotect_all(s: &str) -> (r: String)
    ensures
        r@ == s@.map_values(|c: char| unprotect_char(c)),
{
    let v = char_vec(s);
    let mut out = String::new();
    let mut i: usize = 0;
    while i < v.len()
        invariant
            i <= v@.len(),
            v@ == s@,
            out@ == v@.take(i as int).map_values(|c: char| unprotect_char(c)),
        decreases v@.len() - i,
    {
        push_char(&mut out, unprotect(v[i]));
        i += 1;
        assert(out@ == v@.take(i as int).map_values(|c: char| unprotect_char(c)));
    }
    assert(v@.take(v@.len() as int) == v@);
    out
}

/// Reduce Markdown to readable text: backslash escapes are kept as literal
/// characters, fenced and inline code keep their content, images become
/// their alt text and links their text, paired emphasis-family markers and
/// block markers are dropped, and runs of blank lines collapse to one.
pub fn strip_markdown(text: &str) -> (r: String)
    ensures
        r@ == spec_strip_markdown(text@),
{
    let v = char_vec(text);
    let s = protect_escapes_exec(&v);
    let s = replace_with_pattern(FENCED_BACKTICK, "$1", s.as_str());
    let s = replace_with_pattern(FENCED_TILDE, "$1", s.as_str());
    let s = replace_with_pattern(INLINE_CODE, "$1", s.as_str());
    let s = replace_with_pattern(IMAGES, "$1", s.as_str());
    let s = replace_with_pattern(LINKS, "$1", s.as_str());
    let s = replace_with_pattern(BOLD_STARS, "$1", s.as_str());
    let s = replace_with_pattern(BOLD_UNDERS, "$1", s.as_str());
    let s = replace_with_pattern(EM_STAR, "$1", s.as_str());
    let s = replace_with_pattern(EM_UNDER, "$1", s.as_str());
    let s = replace_with_pattern(STRIKE, "$1", s.as_str());
    let s = replace_with_pattern(HIGHLIGHT, "$1", s.as_str());
    let s = replace_with_pattern(INSERT, "$1", s.as_str());
    let s = replace_with_pattern(SUPERSCRIPT, "$1", s.as_str());
    let s = replace_with_pattern(SUBSCRIPT, "$1", s.as_str());
    let s = replace_with_pattern(HEADINGS, "", s.as_str());
    let s = replace_with_pattern(BLOCKQUOTES, "", s.as_str());
    let s = replace_with_pattern(BULLETS, "", s.as_str());
    let s = replace_with_pattern(ORDERED, "", s.as_str());
    let s = replace_with_pattern(HRULES, "", s.as_str());
    let s = unprotect_all(s.as_str());
    let t = trim_string(s.as_str(), TrimSet::UnicodeWs);
    replace_with_pattern(BLANK_LINES, "\n\n", t.as_str())
}

// ---------------------------------------------------------------------------
// Per-profile post-processing
// ---------------------------------------------------------------------------

/// The Markdown after the profile's post-processing.
pub open spec fn profile_markdown(p: OutputProfile, r: ConversionResult) -> Seq<char> {
    match p {
        OutputProfile::Obsidian => match spec_frontmatter(r) {
            Some(fm) => fm + "\n"@ + r.markdown@,
            None => r.markdown@,
        },
        OutputProfile::PlainText => spec_strip_markdown(r.markdown@),
        OutputProfile::MdxSafe => mdx_prefix(r.markdown@, r.markdown@.len()),
        _ => r.markdown@,
    }
}

/// Apply the output profile's post-processing to a rendered result:
/// Obsidian prepends YAML frontmatter, plain text strips Markdown, MDX-safe
/// escapes JSX openers.
pub fn apply_profile_post_processing(result: &mut ConversionResult, options: &ConversionOptions)
    ensures
        final(result).markdown@ == profile_markdown(options.profile, *old(result)),
        final(result).title == old(result).title,
        final(result).description == old(result).description,
        final(result).canonical_url == old(result).canonical_url,
        final(result).diagnostics == old(result).diagnostics,
{
    match options.profile {
        OutputProfile::Obsidian => {
            if let Some(frontmatter) = build_obsidian_frontmatter(result) {
                let mut md = frontmatter;
                push_str(&mut md, "\n");
                push_str(&mut md, result.markdown.as_str());
                result.markdown = md;
            }
        },
        OutputProfile::PlainText => {
            result.markdown = strip_markdown(result.markdown.as_str());
        },
        OutputProfile::MdxSafe => {
            result.markdown = escape_mdx(result.markdown.as_str());
        },
        _ => {},
    }
}

} // verus!
