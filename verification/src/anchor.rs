//! Links: inline `[text](url "title")`, autolinks, and reference links whose
//! definitions are collected and appended after the document.

use vstd::prelude::*;
use crate::native::LinkReferenceStyle;
use crate::text::{
    char_vec, decimal, has_char, has_char_exec, join, push_char, push_str, skip_leading,
    skip_trailing, str_eq, string_of_range, trim_end, trim_start, usize_to_string, TrimSet,
};

verus! {

/// ` "title"` when there is a title.
pub open spec fn title_part(title: Option<Seq<char>>) -> Seq<char> {
    match title {
        Some(t) => " \""@ + t + "\""@,
        None => Seq::empty(),
    }
}

/// An inline link. With autolinks preferred and the text equal to the
/// destination it is `<url>`; otherwise `[text](url "title")`, the text
/// trimmed of document white space (its trailing white space moved after
/// the link) and a destination with spaces wrapped in `<>`.
pub open spec fn inlined_anchor(content: Seq<char>, link: Seq<char>, title: Option<Seq<char>>, prefer_autolinks: bool) -> Seq<char> {
    if prefer_autolinks && content == link {
        seq!['<'] + link + seq!['>']
    } else {
        let c1 = trim_start(content, TrimSet::DocWs);
        let c2 = trim_end(c1, TrimSet::DocWs);
        let trailing = c1.skip(c2.len() as int);
        let dest = if has_char(link, ' ') {
            seq!['<'] + link + seq!['>']
        } else {
            link
        };
        seq!['['] + c2 + "]("@ + dest + title_part(title) + seq![')'] + trailing
    }
}

/// A destination holding a space stands between angle brackets, right
/// after the opening parenthesis of the link (or as the whole autolink), so
/// that CommonMark still reads it as one destination.
pub proof fn law_spaced_destinations_bracketed(
    content: Seq<char>,
    link: Seq<char>,
    title: Option<Seq<char>>,
    prefer_autolinks: bool,
)
    requires
        has_char(link, ' '),
    ensures
        ({
            let out = inlined_anchor(content, link, title, prefer_autolinks);
            exists|k: int|
                0 <= k && k + link.len() + 2 <= out.len() && #[trigger] out.subrange(k, k + link.len() + 2) == seq!['<']
                    + link + seq!['>'] && (k == 0 || out[k - 1] == '(')
        }),
{
    let out = inlined_anchor(content, link, title, prefer_autolinks);
    if prefer_autolinks && content == link {
        assert(out.subrange(0, link.len() + 2 as int) =~= seq!['<'] + link + seq!['>']);
        let k: int = 0;
        assert(0 <= k && k + link.len() + 2 <= out.len() && out.subrange(k, k + link.len() + 2) == seq!['<'] + link
            + seq!['>'] && (k == 0 || out[k - 1] == '('));
    } else {
        reveal_strlit("](");
        let c1 = trim_start(content, TrimSet::DocWs);
        let c2 = trim_end(c1, TrimSet::DocWs);
        let k: int = c2.len() as int + 3;
        let dest = seq!['<'] + link + seq!['>'];
        assert(out == seq!['['] + c2 + "]("@ + dest + title_part(title) + seq![')'] + c1.skip(c2.len() as int));
        assert(out.subrange(k, k + link.len() + 2 as int) =~= dest);
        assert(out[k - 1] == '(');
        assert(0 <= k && k + link.len() + 2 <= out.len() && out.subrange(k, k + link.len() + 2) == seq!['<'] + link
            + seq!['>'] && (k == 0 || out[k - 1] == '('));
    }
}

/// What a reference link renders in place, and the definition it adds.
pub open spec fn referenced_anchor(
    content: Seq<char>,
    link: Seq<char>,
    title: Option<Seq<char>>,
    style: LinkReferenceStyle,
    count: nat,
) -> (Seq<char>, Seq<char>) {
    match style {
        LinkReferenceStyle::Full => {
            let index = decimal(count + 1);
            (seq!['['] + content + "]["@ + index + seq![']'], seq!['['] + index + "]: "@ + link + title_part(title))
        },
        LinkReferenceStyle::Collapsed => (
            seq!['['] + content + "][]"@,
            seq!['['] + content + "]: "@ + link + title_part(title),
        ),
        LinkReferenceStyle::Shortcut => (
            seq!['['] + content + seq![']'],
            seq!['['] + content + "]: "@ + link + title_part(title),
        ),
    }
}

/// The definitions block appended after the document.
pub open spec fn definitions_block(links: Seq<Seq<char>>) -> Option<Seq<char>> {
    if links.len() == 0 {
        None
    } else {
        Some("\n\n"@ + join(links, "\n"@) + "\n\n"@)
    }
}

/// Renders links and keeps the definitions of reference links until the end
/// of the document.
pub struct AnchorElementHandler {
    pub links: Vec<String>,
}

impl AnchorElementHandler {
    pub open spec fn pending(&self) -> Seq<Seq<char>> {
        self.links@.map_values(|s: String| s@)
    }

    pub fn new() -> (r: Self)
        ensures
            r.pending() == Seq::<Seq<char>>::empty(),
    {
        let r = AnchorElementHandler { links: Vec::new() };
        assert(r.pending() =~= Seq::<Seq<char>>::empty());
        r
    }

    pub fn build_inlined_anchor(&self, content: &str, link: &str, title: Option<&str>, prefer_autolinks: bool) -> (r: String)
        ensures
            r@ == inlined_anchor(
                content@,
                link@,
                match title {
                    Some(t) => Some(t@),
                    None => None,
                },
                prefer_autolinks,
            ),
    {
        if prefer_autolinks && str_eq(content, link) {
            let mut r = String::new();
            push_char(&mut r, '<');
            push_str(&mut r, link);
            push_char(&mut r, '>');
            return r;
        }
        let lv = char_vec(link);
        let spaced = has_char_exec(&lv, ' ');
        let cv = char_vec(content);
        let a = skip_leading(&cv, 0, TrimSet::DocWs);
        let ghost c1 = trim_start(content@, TrimSet::DocWs);
        proof {
            assert(cv@.skip(0) == cv@);
            assert(cv@.take(cv@.len() as int) == cv@);
            assert(c1 == cv@.subrange(a as int, cv@.len() as int));
        }
        let b2 = skip_trailing(&cv, cv.len(), TrimSet::DocWs);
        let end = if b2 < a { a } else { b2 };
        proof {
            lemma_trim_end_of_skip(cv@, a as int);
        }
        let core = string_of_range(&cv, a, end);
        let trailing = string_of_range(&cv, end, cv.len());
        let mut r = String::new();
        push_char(&mut r, '[');
        push_str(&mut r, core.as_str());
        push_str(&mut r, "](");
        if spaced {
            push_char(&mut r, '<');
        }
        push_str(&mut r, link);
        if spaced {
            push_char(&mut r, '>');
        }
        match title {
            Some(t) => {
                push_str(&mut r, " \"");
                push_str(&mut r, t);
                push_char(&mut r, '"');
            },
            None => {},
        }
        push_char(&mut r, ')');
        push_str(&mut r, trailing.as_str());
        proof {
            reveal_strlit("](");
            reveal_strlit(" \"");
            reveal_strlit("\"");
        }
        r
    }

    pub fn build_referenced_anchor(&mut self, content: &str, link: String, title: Option<String>, style: &LinkReferenceStyle) -> (r: String)
        requires
            old(self).links@.len() < usize::MAX,
        ensures
            (r@, final(self).pending().last()) == referenced_anchor(
                content@,
                link@,
                match title {
                    Some(t) => Some(t@),
                    None => None,
                },
                *style,
                old(self).pending().len(),
            ),
            final(self).pending() == old(self).pending().push(final(self).pending().last()),
    {
        let mut tp = String::new();
        match &title {
            Some(t) => {
                push_str(&mut tp, " \"");
                push_str(&mut tp, t.as_str());
                push_char(&mut tp, '"');
            },
            None => {},
        }
        proof {
            reveal_strlit(" \"");
            reveal_strlit("\"");
        }
        let mut current = String::new();
        let mut append = String::new();
        match style {
            LinkReferenceStyle::Full => {
                let index = usize_to_string(self.links.len() + 1);
                push_char(&mut current, '[');
                push_str(&mut current, content);
                push_str(&mut current, "][");
                push_str(&mut current, index.as_str());
                push_char(&mut current, ']');
                push_char(&mut append, '[');
                push_str(&mut append, index.as_str());
                push_str(&mut append, "]: ");
            },
            LinkReferenceStyle::Collapsed => {
                push_char(&mut current, '[');
                push_str(&mut current, content);
                push_str(&mut current, "][]");
                push_char(&mut append, '[');
                push_str(&mut append, content);
                push_str(&mut append, "]: ");
            },
            LinkReferenceStyle::Shortcut => {
                push_char(&mut current, '[');
                push_str(&mut current, content);
                push_char(&mut current, ']');
                push_char(&mut append, '[');
                push_str(&mut append, content);
                push_str(&mut append, "]: ");
            },
        }
        push_str(&mut append, link.as_str());
        push_str(&mut append, tp.as_str());
        let ghost before = self.pending();
        let ghost a = append@;
        self.links.push(append);
        proof {
            reveal_strlit("][");
            reveal_strlit("][]");
            reveal_strlit("]: ");
            assert(self.pending() =~= before.push(a));
        }
        current
    }

    /// The definitions block, if any definition is pending; clears them.
    pub fn append(&mut self) -> (r: Option<String>)
        ensures
            match (r, definitions_block(old(self).pending())) {
                (Some(a), Some(b)) => a@ == b,
                (None, None) => true,
                _ => false,
            },
            final(self).pending() == Seq::<Seq<char>>::empty(),
    {
        if self.links.len() == 0 {
            return None;
        }
        let body = crate::text::join_strings(&self.links, "\n");
        let mut r = String::new();
        push_str(&mut r, "\n\n");
        push_str(&mut r, body.as_str());
        push_str(&mut r, "\n\n");
        self.links = Vec::new();
        assert(self.pending() =~= Seq::<Seq<char>>::empty());
        Some(r)
    }
}

proof fn lemma_trim_end_of_skip(s: Seq<char>, a: int)
    requires
        0 <= a <= s.len(),
        a == crate::text::lead_len(s, TrimSet::DocWs),
    ensures
        ({
            let c1 = trim_start(s, TrimSet::DocWs);
            let c2 = trim_end(c1, TrimSet::DocWs);
            let t = crate::text::trail_len(s, TrimSet::DocWs);
            let end = if s.len() - t < a { a } else { s.len() - t };
            &&& c2 == s.subrange(a, end)
            &&& c1.skip(c2.len() as int) == s.subrange(end, s.len() as int)
        }),
{
    let c1 = trim_start(s, TrimSet::DocWs);
    crate::text::lemma_trail_len(s, TrimSet::DocWs);
    let t = crate::text::trail_len(s, TrimSet::DocWs);
    let end = if s.len() - t < a { a } else { s.len() - t };
    let k = s.len() - end;
    assert forall|i: int| c1.len() - k <= i < c1.len() implies crate::text::in_set(TrimSet::DocWs, #[trigger] c1[i]) by {
        assert(c1[i] == s[a + i]);
    }
    if k < c1.len() {
        assert(c1[c1.len() - k - 1] == s[end - 1]);
    }
    crate::text::lemma_trail_len_unique(c1, TrimSet::DocWs, k);
    assert(trim_end(c1, TrimSet::DocWs) =~= s.subrange(a, end));
    assert(c1.skip(end - a) =~= s.subrange(end, s.len() as int));
}

} // verus!
