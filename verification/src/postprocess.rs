//! The last pass over rendered Markdown, shared by every backend: trailing
//! white space, the final newline, and Unicode normalization.

use vstd::prelude::*;
use crate::options::{ConversionOptions, FinalNewlinePolicy, RenderOptions, UnicodeNormalization, WhitespacePolicy};
use crate::text::{
    char_vec, join, join_strings, lines, lines_from, push_char, split_lines, trim_end, trim_end_string,
    TrimSet,
};
use unicode_normalization::UnicodeNormalization as _;

verus! {

/// `s.nfc()`: the canonical composition (Normalization Form C) of `s`.
pub uninterp spec fn nfc_result(s: Seq<char>) -> Seq<char>;

/// `s.nfkc()`: the compatibility composition (Normalization Form KC) of `s`.
pub uninterp spec fn nfkc_result(s: Seq<char>) -> Seq<char>;

/// `UnicodeNormalization::nfc`, collected into a string.
#[verifier::external_body]
fn nfc(s: &str) -> (r: String)
    ensures
        r@ == nfc_result(s@),
{
    s.nfc().collect()
}

/// `UnicodeNormalization::nfkc`, collected into a string.
#[verifier::external_body]
fn nfkc(s: &str) -> (r: String)
    ensures
        r@ == nfkc_result(s@),
{
    s.nfkc().collect()
}

/// Every line of `s` without trailing white space, lines joined by `\n`.
pub open spec fn trimmed_lines(s: Seq<char>) -> Seq<char> {
    let ls = lines(s);
    join(Seq::new(ls.len(), |i: int| trim_end(ls[i], TrimSet::UnicodeWs)), "\n"@)
}

/// What the post-processing makes of `markdown`.
pub open spec fn post_processed(markdown: Seq<char>, r: RenderOptions) -> Seq<char> {
    let s1 = if r.trailing_whitespace == WhitespacePolicy::Trim {
        trimmed_lines(markdown)
    } else {
        markdown
    };
    let s2 = match r.final_newline {
        FinalNewlinePolicy::Ensure => trim_end(s1, TrimSet::Only('\n')).push('\n'),
        FinalNewlinePolicy::Suppress => trim_end(s1, TrimSet::Only('\n')),
        FinalNewlinePolicy::Preserve => s1,
    };
    match r.unicode_normalization {
        UnicodeNormalization::Nfc => nfc_result(s2),
        UnicodeNormalization::Nfkc => nfkc_result(s2),
        UnicodeNormalization::Off => s2,
    }
}

fn trim_line_ends(s: &str) -> (r: String)
    ensures
        r@ == trimmed_lines(s@),
{
    let ls = split_lines(s);
    let ghost lv = lines(s@);
    let ghost target = Seq::new(lv.len(), |i: int| trim_end(lv[i], TrimSet::UnicodeWs));
    let mut out: Vec<String> = Vec::new();
    let mut i: usize = 0;
    while i < ls.len()
        invariant
            i <= ls@.len(),
            ls@.map_values(|x: String| x@) == lv,
            target == Seq::new(lv.len(), |i: int| trim_end(lv[i], TrimSet::UnicodeWs)),
            out@.map_values(|x: String| x@) == target.take(i as int),
        decreases ls@.len() - i,
    {
        assert(ls@[i as int]@ == lv[i as int]);
        let t = trim_end_string(ls[i].as_str(), TrimSet::UnicodeWs);
        let ghost before = out@.map_values(|x: String| x@);
        out.push(t);
        assert(out@.map_values(|x: String| x@) =~= before.push(t@));
        i += 1;
        assert(target.take(i as int) =~= target.take(i - 1).push(target[i - 1]));
    }
    assert(target.take(ls@.len() as int) == target);
    join_strings(&out, "\n")
}

/// Applies the trailing-white-space, final-newline and Unicode
/// normalization policies to rendered Markdown.
pub fn post_process(markdown: &str, options: &ConversionOptions) -> (r: String)
    ensures
        r@ == post_processed(markdown@, options.render),
{
    let mut s = if options.render.trailing_whitespace == WhitespacePolicy::Trim {
        trim_line_ends(markdown)
    } else {
        markdown.to_owned()
    };
    match options.render.final_newline {
        FinalNewlinePolicy::Ensure => {
            s = trim_end_string(s.as_str(), TrimSet::Only('\n'));
            push_char(&mut s, '\n');
        },
        FinalNewlinePolicy::Suppress => {
            s = trim_end_string(s.as_str(), TrimSet::Only('\n'));
        },
        FinalNewlinePolicy::Preserve => {},
    }
    match options.render.unicode_normalization {
        UnicodeNormalization::Nfc => nfc(s.as_str()),
        UnicodeNormalization::Nfkc => nfkc(s.as_str()),
        UnicodeNormalization::Off => s,
    }
}

/// With the final newline ensured (and no Unicode normalization), the
/// post-processed Markdown ends with exactly one newline.
pub proof fn law_final_newline_ensured(markdown: Seq<char>, r: RenderOptions)
    requires
        r.final_newline == FinalNewlinePolicy::Ensure,
        r.unicode_normalization == UnicodeNormalization::Off,
    ensures
        post_processed(markdown, r).len() > 0,
        post_processed(markdown, r).last() == '\n',
        post_processed(markdown, r).len() == 1 || post_processed(markdown, r)[post_processed(markdown, r).len() - 2]
            != '\n',
{
    let s1 = if r.trailing_whitespace == WhitespacePolicy::Trim {
        trimmed_lines(markdown)
    } else {
        markdown
    };
    crate::text::lemma_trail_len(s1, TrimSet::Only('\n'));
    let t = trim_end(s1, TrimSet::Only('\n'));
    if t.len() > 0 {
        assert(t.last() == s1[s1.len() - crate::text::trail_len(s1, TrimSet::Only('\n')) - 1]);
    }
    assert(post_processed(markdown, r) == t.push('\n'));
}

/// With the final newline suppressed (and no Unicode normalization), the
/// post-processed Markdown does not end with a newline.
pub proof fn law_final_newline_suppressed(markdown: Seq<char>, r: RenderOptions)
    requires
        r.final_newline == FinalNewlinePolicy::Suppress,
        r.unicode_normalization == UnicodeNormalization::Off,
    ensures
        post_processed(markdown, r).len() == 0 || post_processed(markdown, r).last() != '\n',
{
    let s1 = if r.trailing_whitespace == WhitespacePolicy::Trim {
        trimmed_lines(markdown)
    } else {
        markdown
    };
    crate::text::lemma_trail_len(s1, TrimSet::Only('\n'));
    let out = trim_end(s1, TrimSet::Only('\n'));
    if out.len() > 0 {
        assert(out.last() == s1[s1.len() - crate::text::trail_len(s1, TrimSet::Only('\n')) - 1]);
    }
}

/// No white space other than a newline stands at the end of a line of `t`:
/// each such character is followed by another character that is not a
/// newline.
pub open spec fn no_trailing_ws(t: Seq<char>) -> bool {
    forall|i: int|
        0 <= i < t.len() && #[trigger] crate::text::is_unicode_ws(t[i]) && t[i] != '\n'
            ==> i + 1 < t.len() && t[i + 1] != '\n'
}

/// A line as the trailing-whitespace pass leaves it: no newline inside, no
/// white space at its end.
spec fn clean_line(p: Seq<char>) -> bool {
    &&& forall|j: int| 0 <= j < p.len() ==> #[trigger] p[j] != '\n'
    &&& p.len() > 0 ==> !crate::text::is_unicode_ws(p.last())
}

pub(crate) proof fn lemma_lines_have_no_newline(s: Seq<char>, p: int)
    ensures
        forall|k: int, j: int|
            0 <= k < lines_from(s, p).len() && 0 <= j < lines_from(s, p)[k].len()
                ==> #[trigger] lines_from(s, p)[k][j] != '\n',
    decreases s.len() - p,
{
    if p >= 0 && p < s.len() {
        crate::text::lemma_find_from(s, '\n', p);
        match crate::text::find_from(s, '\n', p) {
            Some(k) => {
                lemma_lines_have_no_newline(s, k + 1);
                let head = crate::text::strip_cr(s.subrange(p, k), true);
                let rest = lines_from(s, k + 1);
                assert(lines_from(s, p) == seq![head] + rest);
                assert forall|a: int, j: int|
                    0 <= a < lines_from(s, p).len() && 0 <= j < lines_from(s, p)[a].len()
                        implies #[trigger] lines_from(s, p)[a][j] != '\n' by {
                    if a == 0 {
                        assert(lines_from(s, p)[0] == head);
                        assert(head[j] == s[p + j]);
                    } else {
                        assert(lines_from(s, p)[a] == rest[a - 1]);
                    }
                }
            },
            None => {
                assert forall|a: int, j: int|
                    0 <= a < lines_from(s, p).len() && 0 <= j < lines_from(s, p)[a].len()
                        implies #[trigger] lines_from(s, p)[a][j] != '\n' by {
                    assert(lines_from(s, p)[a][j] == s[p + j]);
                }
            },
        }
    }
}

proof fn lemma_join_clean(parts: Seq<Seq<char>>)
    requires
        forall|k: int| 0 <= k < parts.len() ==> clean_line(#[trigger] parts[k]),
    ensures
        no_trailing_ws(join(parts, "\n"@)),
    decreases parts.len(),
{
    reveal_strlit("\n");
    if parts.len() == 1 {
        let t = join(parts, "\n"@);
        assert(t == parts[0]);
        assert(clean_line(parts[0]));
    } else if parts.len() > 1 {
        let init = parts.drop_last();
        assert forall|k: int| 0 <= k < init.len() implies clean_line(#[trigger] init[k]) by {
            assert(init[k] == parts[k]);
        }
        lemma_join_clean(init);
        let a = join(init, "\n"@);
        let last = parts.last();
        assert(clean_line(parts[parts.len() - 1]));
        let t = join(parts, "\n"@);
        assert(t == a + "\n"@ + last);
        assert forall|i: int|
            0 <= i < t.len() && #[trigger] crate::text::is_unicode_ws(t[i]) && t[i] != '\n'
                implies i + 1 < t.len() && t[i + 1] != '\n' by {
            if i < a.len() {
                assert(t[i] == a[i]);
                if i + 1 < a.len() {
                    assert(t[i + 1] == a[i + 1]);
                } else {
                    assert(crate::text::is_unicode_ws(a[i]));
                }
            } else if i == a.len() {
                assert(t[i] == '\n');
            } else {
                let j = i - a.len() - 1;
                assert(t[i] == last[j]);
                if j + 1 < last.len() {
                    assert(t[i + 1] == last[j + 1]);
                } else {
                    assert(last.last() == last[j]);
                }
            }
        }
    }
}

/// With trailing white space trimmed (and no Unicode normalization), no line
/// of the post-processed Markdown ends with white space.
pub proof fn law_trailing_whitespace_trimmed(markdown: Seq<char>, r: RenderOptions)
    requires
        r.trailing_whitespace == WhitespacePolicy::Trim,
        r.unicode_normalization == UnicodeNormalization::Off,
    ensures
        no_trailing_ws(post_processed(markdown, r)),
{
    let ls = lines(markdown);
    lemma_lines_have_no_newline(markdown, 0);
    let parts = Seq::new(ls.len(), |i: int| trim_end(ls[i], TrimSet::UnicodeWs));
    assert forall|k: int| 0 <= k < parts.len() implies clean_line(#[trigger] parts[k]) by {
        let l = ls[k];
        crate::text::lemma_trail_len(l, TrimSet::UnicodeWs);
        let p = parts[k];
        assert forall|j: int| 0 <= j < p.len() implies #[trigger] p[j] != '\n' by {
            assert(p[j] == l[j]);
            assert(lines_from(markdown, 0)[k][j] != '\n');
        }
        if p.len() > 0 {
            assert(p.last() == l[l.len() - crate::text::trail_len(l, TrimSet::UnicodeWs) - 1]);
        }
    }
    lemma_join_clean(parts);
    let s1 = trimmed_lines(markdown);
    assert(s1 == join(parts, "\n"@));
    if r.final_newline == FinalNewlinePolicy::Suppress || r.final_newline == FinalNewlinePolicy::Ensure {
        let out = trim_end(s1, TrimSet::Only('\n'));
        crate::text::lemma_trail_len(s1, TrimSet::Only('\n'));
        assert forall|i: int|
            0 <= i < out.len() && #[trigger] crate::text::is_unicode_ws(out[i]) && out[i] != '\n'
                implies i + 1 < out.len() && out[i + 1] != '\n' by {
            assert(out[i] == s1[i]);
            assert(crate::text::is_unicode_ws(s1[i]));
            if i + 1 >= out.len() {
                assert(s1[i + 1] == '\n');
            } else {
                assert(out[i + 1] == s1[i + 1]);
            }
        }
        if r.final_newline == FinalNewlinePolicy::Ensure {
            let e = out.push('\n');
            assert forall|i: int|
                0 <= i < e.len() && #[trigger] crate::text::is_unicode_ws(e[i]) && e[i] != '\n'
                    implies i + 1 < e.len() && e[i + 1] != '\n' by {
                assert(e[i] == out[i]);
                assert(crate::text::is_unicode_ws(out[i]));
                assert(e[i + 1] == out[i + 1]);
            }
        }
    }
}

} // verus!
