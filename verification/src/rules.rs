//! Custom rendering rules: which elements a simple selector (`tag`,
//! `tag.class#id`) picks, and what a matching rule renders.

use vstd::prelude::*;
use crate::dom::{attr_value, get_attr};
use crate::handlers::{backticks, fenced, fenced_block, has_class, outcome_view, HandlerOutcome};
use crate::options::{CustomRule, CustomRuleAction};
use crate::regex_support::{compile_regex, regex_captures_iter, regex_captures_iter_result, regex_valid};
use crate::serialize::Attribute;
use crate::text::{
    ascii_lower, char_vec, contains_seq, eq_ignore_ascii_case, exec_eq_ignore_ascii_case,
    is_ascii_alpha, is_ascii_digit, push_char, push_str, replaced, split_whitespace, str_eq,
    str_replace, string_of_range, to_ascii_lower_string, trim_both, trim_string, words, TrimSet,
};

verus! {

/// Characters that end the tag, class or id part of a selector.
pub open spec fn is_sel_delim(c: char) -> bool {
    c == '.' || c == '#' || c == '[' || c == ':' || c == ' ' || c == '>' || c == '+' || c == '~'
}

/// The first delimiter at or after `from`, or the end.
pub open spec fn first_delim(s: Seq<char>, from: int) -> int
    decreases s.len() - from,
{
    if from < 0 || from >= s.len() {
        s.len() as int
    } else if is_sel_delim(s[from]) {
        from
    } else {
        first_delim(s, from + 1)
    }
}

pub proof fn lemma_first_delim(s: Seq<char>, from: int)
    requires
        0 <= from <= s.len(),
    ensures
        from <= first_delim(s, from) <= s.len(),
    decreases s.len() - from,
{
    if from < s.len() && !is_sel_delim(s[from]) {
        lemma_first_delim(s, from + 1);
    }
}

fn first_delim_exec(v: &Vec<char>, from: usize) -> (r: usize)
    requires
        from <= v@.len(),
    ensures
        r == first_delim(v@, from as int),
        from <= r <= v@.len(),
{
    proof {
        lemma_first_delim(v@, from as int);
    }
    let mut i = from;
    while i < v.len()
        invariant
            from <= i <= v@.len(),
            first_delim(v@, from as int) == first_delim(v@, i as int),
        decreases v@.len() - i,
    {
        let c = v[i];
        if c == '.' || c == '#' || c == '[' || c == ':' || c == ' ' || c == '>' || c == '+' || c
            == '~' {
            return i;
        }
        i += 1;
    }
    i
}

pub open spec fn is_tag_char(c: char) -> bool {
    is_ascii_alpha(c) || is_ascii_digit(c) || c == '-'
}

/// The tag a simple selector names, lower case: what precedes its first
/// class, id, attribute or combinator, when it is made of ASCII letters,
/// digits and `-`. Selectors that start with `.`, `#`, `[` or `*` name none.
pub open spec fn selector_tag(selector: Seq<char>) -> Option<Seq<char>> {
    let t = trim_both(selector, TrimSet::UnicodeWs);
    if t.len() == 0 {
        None
    } else if t[0] == '.' || t[0] == '#' || t[0] == '[' || t[0] == '*' {
        None
    } else {
        let tag = t.take(first_delim(t, 0));
        if forall|i: int| 0 <= i < tag.len() ==> is_tag_char(#[trigger] tag[i]) {
            Some(tag.map_values(|c: char| ascii_lower(c)))
        } else {
            None
        }
    }
}

#[verifier::loop_isolation(false)]
pub fn simple_selector_tag(selector: &str) -> (r: Option<String>)
    ensures
        match (r, selector_tag(selector@)) {
            (Some(a), Some(b)) => a@ == b,
            (None, None) => true,
            _ => false,
        },
{
    let trimmed = trim_string(selector, TrimSet::UnicodeWs);
    let v = char_vec(trimmed.as_str());
    if v.len() == 0 {
        return None;
    }
    let first = v[0];
    if first == '.' || first == '#' || first == '[' || first == '*' {
        return None;
    }
    let end = first_delim_exec(&v, 0);
    let mut i: usize = 0;
    while i < end
        invariant
            i <= end <= v@.len(),
            forall|k: int| 0 <= k < i ==> is_tag_char(#[trigger] v@[k]),
        decreases end - i,
    {
        let c = v[i];
        if !(('a' <= c && c <= 'z') || ('A' <= c && c <= 'Z') || ('0' <= c && c <= '9') || c == '-') {
            assert(!is_tag_char(v@.take(end as int)[i as int]));
            return None;
        }
        i += 1;
    }
    let tag = string_of_range(&v, 0, end);
    assert(tag@ == v@.take(end as int));
    let lower = to_ascii_lower_string(tag.as_str());
    assert(lower@ =~= tag@.map_values(|c: char| ascii_lower(c)));
    Some(lower)
}

/// The classes and the id a selector requires, from position `i`: `.name`
/// adds a class, `#name` sets the id (the last one counts); anything else
/// ends the list.
pub open spec fn selector_parts(t: Seq<char>, i: int) -> (Seq<Seq<char>>, Option<Seq<char>>)
    decreases t.len() - i,
{
    if i < 0 || i >= t.len() {
        (Seq::empty(), None)
    } else if t[i] == '.' || t[i] == '#' {
        let end = first_delim(t, i + 1);
        let part = t.subrange(i + 1, end);
        proof {
            lemma_first_delim(t, i + 1);
        }
        let rest = selector_parts(t, end);
        if t[i] == '.' {
            (seq![part] + rest.0, rest.1)
        } else {
            (rest.0, if rest.1.is_some() {
                rest.1
            } else {
                Some(part)
            })
        }
    } else {
        (Seq::empty(), None)
    }
}

/// Where the class and id list of a selector starts, when its tag part
/// (if any) matches `tag`.
pub open spec fn selector_rest(t: Seq<char>, tag: Seq<char>) -> Option<int> {
    if is_ascii_alpha(t[0]) {
        let end = first_delim(t, 0);
        if eq_ignore_ascii_case(tag, t.take(end)) {
            Some(end)
        } else {
            None
        }
    } else {
        Some(0)
    }
}

/// Does the element match the simple selector: its tag (ignoring ASCII
/// case), every class, and the id?
pub open spec fn matches_selector(tag: Seq<char>, attrs: Seq<Attribute>, selector: Seq<char>) -> bool {
    let t = trim_both(selector, TrimSet::UnicodeWs);
    if t.len() == 0 {
        false
    } else {
        match selector_rest(t, tag) {
            None => false,
            Some(start) => {
                let parts = selector_parts(t, start);
                let class_attr = match attr_value(attrs, "class"@) {
                    Some(v) => v,
                    None => Seq::empty(),
                };
                &&& forall|k: int| 0 <= k < parts.0.len() ==> words(class_attr).contains(#[trigger] parts.0[k])
                &&& match parts.1 {
                    Some(id) => attr_value(attrs, "id"@) == Some(id),
                    None => true,
                }
            },
        }
    }
}

fn selector_parts_exec(v: &Vec<char>, start: usize) -> (r: (Vec<String>, Option<String>))
    requires
        start <= v@.len(),
    ensures
        r.0@.map_values(|s: String| s@) == selector_parts(v@, start as int).0,
        match (r.1, selector_parts(v@, start as int).1) {
            (Some(a), Some(b)) => a@ == b,
            (None, None) => true,
            _ => false,
        },
    decreases v@.len() - start,
{
    if start >= v.len() || !(v[start] == '.' || v[start] == '#') {
        let r: (Vec<String>, Option<String>) = (Vec::new(), None);
        assert(r.0@.map_values(|s: String| s@) =~= Seq::<Seq<char>>::empty());
        return r;
    }
    let end = first_delim_exec(v, start + 1);
    let part = string_of_range(v, start + 1, end);
    let (mut classes, id) = selector_parts_exec(v, end);
    if v[start] == '.' {
        let ghost rest = classes@.map_values(|s: String| s@);
        classes.insert(0, part);
        assert(classes@.map_values(|s: String| s@) =~= seq![part@] + rest);
        (classes, id)
    } else {
        let id2 = if id.is_some() {
            id
        } else {
            Some(part)
        };
        (classes, id2)
    }
}

fn words_contain(ws: &Vec<String>, w: &str) -> (b: bool)
    ensures
        b == ws@.map_values(|x: String| x@).contains(w@),
{
    let ghost wv = ws@.map_values(|x: String| x@);
    let mut i: usize = 0;
    while i < ws.len()
        invariant
            i <= ws@.len(),
            wv == ws@.map_values(|x: String| x@),
            forall|j: int| 0 <= j < i ==> wv[j] != w@,
        decreases ws@.len() - i,
    {
        if str_eq(ws[i].as_str(), w) {
            assert(wv[i as int] == w@);
            return true;
        }
        i += 1;
    }
    false
}

/// Does the element (`tag`, `attrs`) match the simple selector?
#[verifier::loop_isolation(false)]
pub fn element_matches_simple_selector(tag: &str, attrs: &Vec<Attribute>, selector: &str) -> (b: bool)
    ensures
        b == matches_selector(tag@, attrs@, selector@),
{
    let trimmed = trim_string(selector, TrimSet::UnicodeWs);
    let v = char_vec(trimmed.as_str());
    if v.len() == 0 {
        return false;
    }
    let mut start: usize = 0;
    if crate::text::exec_is_ascii_alpha(v[0]) {
        let end = first_delim_exec(&v, 0);
        let part = string_of_range(&v, 0, end);
        assert(part@ == v@.take(end as int));
        if !exec_eq_ignore_ascii_case(tag, part.as_str()) {
            return false;
        }
        start = end;
    }
    assert(selector_rest(v@, tag@) == Some(start as int));
    let (classes, id) = selector_parts_exec(&v, start);
    let class_attr = match get_attr(attrs, "class") {
        Some(c) => c,
        None => String::new(),
    };
    assert(class_attr@ == match attr_value(attrs@, "class"@) {
        Some(v) => v,
        None => Seq::<char>::empty(),
    });
    let ws = split_whitespace(class_attr.as_str());
    let ghost cv = classes@.map_values(|s: String| s@);
    let mut k: usize = 0;
    while k < classes.len()
        invariant
            k <= classes@.len(),
            cv == classes@.map_values(|s: String| s@),
            ws@.map_values(|x: String| x@) == words(class_attr@),
            forall|j: int| 0 <= j < k ==> words(class_attr@).contains(#[trigger] cv[j]),
        decreases classes@.len() - k,
    {
        if !words_contain(&ws, classes[k].as_str()) {
            assert(!words(class_attr@).contains(cv[k as int]));
            return false;
        }
        k += 1;
    }
    match id {
        Some(want) => match get_attr(attrs, "id") {
            Some(have) => str_eq(have.as_str(), want.as_str()),
            None => false,
        },
        None => true,
    }
}

// ---------------------------------------------------------------------------
// What a rule renders
// ---------------------------------------------------------------------------

/// The pattern of attribute placeholders in a template: `{attr:name}`.
pub open spec fn attr_placeholder_pattern() -> Seq<char> {
    "\\{attr:(\\w+)\\}"@
}

/// The group `i` of a match, or empty.
pub open spec fn group_or_empty(caps: Seq<Option<Seq<char>>>, i: int) -> Seq<char> {
    if 0 <= i < caps.len() {
        match caps[i] {
            Some(g) => g,
            None => Seq::empty(),
        }
    } else {
        Seq::empty()
    }
}

/// `result` with each placeholder match replaced by the named attribute's
/// value (empty when the element lacks it).
pub open spec fn fill_attrs(result: Seq<char>, matches: Seq<Seq<Option<Seq<char>>>>, attrs: Seq<Attribute>) -> Seq<char>
    decreases matches.len(),
{
    if matches.len() == 0 {
        result
    } else {
        let r = fill_attrs(result, matches.drop_last(), attrs);
        let ph = group_or_empty(matches.last(), 0);
        let name = group_or_empty(matches.last(), 1);
        let value = match attr_value(attrs, name) {
            Some(v) => v,
            None => Seq::empty(),
        };
        if ph.len() == 0 {
            r
        } else {
            replaced(r, ph, value)
        }
    }
}

/// A template filled: `{text}` by the text, each placeholder that
/// `pattern` matches by the attribute its first group names.
pub open spec fn template_output_with(pattern: Seq<char>, template: Seq<char>, text: Seq<char>, attrs: Seq<Attribute>) -> Seq<char> {
    let r = replaced(template, "{text}"@, text);
    if regex_valid(pattern) {
        fill_attrs(r, regex_captures_iter_result(pattern, template), attrs)
    } else {
        r
    }
}

/// `(` and `)` escaped.
pub open spec fn parens_escaped(s: Seq<char>) -> Seq<char> {
    replaced(replaced(s, "("@, "\\("@), ")"@, "\\)"@)
}

/// `[text](dest)`: the destination is `href`, or the text when it has
/// none.
pub open spec fn rule_link(href: Seq<char>, walked: Seq<char>) -> Seq<char> {
    let text = trim_both(walked, TrimSet::UnicodeWs);
    let dest = if href.len() == 0 {
        text
    } else {
        href
    };
    seq!['['] + replaced(text, "]"@, "\\]"@) + "]("@ + parens_escaped(dest) + seq![')']
}

/// `![alt](src)`: the alt text is the `alt` attribute, or the content; no
/// image without a source.
pub open spec fn rule_image(src: Seq<char>, alt: Option<Seq<char>>, walked: Seq<char>) -> Seq<char> {
    let a = match alt {
        Some(a) => a,
        None => trim_both(walked, TrimSet::UnicodeWs),
    };
    if src.len() == 0 {
        Seq::empty()
    } else {
        "!["@ + replaced(a, "]"@, "\\]"@) + "]("@ + parens_escaped(src) + seq![')']
    }
}

fn fill_attrs_exec(result: String, pattern: &str, template: &str, attrs: &Vec<Attribute>) -> (r: String)
    ensures
        r@ == if regex_valid(pattern@) {
            fill_attrs(result@, regex_captures_iter_result(pattern@, template@), attrs@)
        } else {
            result@
        },
{
    let re = match compile_regex(pattern) {
        Ok(re) => re,
        Err(_) => return result,
    };
    let all = regex_captures_iter(&re, template);
    let ghost ms = regex_captures_iter_result(pattern@, template@);
    let mut r = result;
    let ghost r0 = r@;
    let mut m: usize = 0;
    while m < all.len()
        invariant
            m <= all@.len(),
            all@.len() == ms.len(),
            forall|j: int|
                0 <= j < all@.len() ==> (#[trigger] all@[j])@.len() == ms[j].len() && forall|i: int|
                    0 <= i < all@[j]@.len() ==> match (#[trigger] all@[j]@[i], ms[j][i]) {
                        (None, None) => true,
                        (Some(s), Some(t)) => s@ == t,
                        _ => false,
                    },
            r@ == fill_attrs(r0, ms.take(m as int), attrs@),
        decreases all@.len() - m,
    {
        assert(ms.take(m + 1).drop_last() == ms.take(m as int));
        assert(ms.take(m + 1).last() == ms[m as int]);
        let caps = &all[m];
        let ph = if caps.len() > 0 {
            match &caps[0] {
                Some(g) => g.clone(),
                None => String::new(),
            }
        } else {
            String::new()
        };
        let name = if caps.len() > 1 {
            match &caps[1] {
                Some(g) => g.clone(),
                None => String::new(),
            }
        } else {
            String::new()
        };
        assert(ph@ == group_or_empty(ms[m as int], 0));
        assert(name@ == group_or_empty(ms[m as int], 1));
        let value = match get_attr(attrs, name.as_str()) {
            Some(v) => v,
            None => String::new(),
        };
        if !ph.as_str().is_empty() {
            r = str_replace(r.as_str(), ph.as_str(), value.as_str());
        }
        m += 1;
    }
    assert(ms.take(all@.len() as int) == ms);
    r
}

fn escape_parens(s: &str) -> (r: String)
    ensures
        r@ == parens_escaped(s@),
{
    proof {
        reveal_strlit("(");
        reveal_strlit(")");
    }
    let a = str_replace(s, "(", "\\(");
    str_replace(a.as_str(), ")", "\\)")
}

/// What a custom rule renders for an element it applies to, given the
/// element's rendered content; actions without a Markdown form (drop,
/// unwrap, text, html) are the cleanup pass's and render as usual here.
/// A template rule without a template renders nothing.
pub open spec fn rule_output(rule: CustomRule, attrs: Seq<Attribute>, walked: Seq<char>, r: Option<Seq<char>>) -> bool {
    rule_output_with(attr_placeholder_pattern(), rule, attrs, walked, r)
}

/// What a custom rule renders, its template placeholders found by
/// `pattern`.
pub open spec fn rule_output_with(pattern: Seq<char>, rule: CustomRule, attrs: Seq<Attribute>, walked: Seq<char>, r: Option<Seq<char>>) -> bool {
    let text = trim_both(walked, TrimSet::UnicodeWs);
    match rule.action {
        CustomRuleAction::MarkdownTemplate => r == Some(match rule.template {
            Some(t) => template_output_with(pattern, t@, text, attrs),
            None => Seq::empty(),
        }),
        CustomRuleAction::FencedBlock => if text.len() == 0 {
            r == Some(Seq::<char>::empty())
        } else {
            exists|n: nat|
                n >= 3 && !contains_seq(text, backticks(n)) && (forall|m: nat|
                    3 <= m < n ==> contains_seq(text, #[trigger] backticks(m))) && r == Some(
                    fenced(
                        backticks(n),
                        match rule.template {
                            Some(t) => t@,
                            None => Seq::empty(),
                        },
                        text,
                    ),
                )
        },
        CustomRuleAction::Link => r == Some(rule_link(
            match attr_value(attrs, "href"@) {
                Some(h) => h,
                None => Seq::empty(),
            },
            walked,
        )),
        CustomRuleAction::Image => r == Some(rule_image(
            match attr_value(attrs, "src"@) {
                Some(s) => s,
                None => Seq::empty(),
            },
            attr_value(attrs, "alt"@),
            walked,
        )),
        _ => r == None::<Seq<char>>,
    }
}

/// Renders an element with the custom rule registered for `selector`:
/// elements the selector does not match render as usual.
pub fn custom_rule_output(rule: &CustomRule, selector: &str, tag: &str, attrs: &Vec<Attribute>, walked: &str) -> (r: HandlerOutcome)
    requires
        walked@.len() < usize::MAX,
    ensures
        !matches_selector(tag@, attrs@, selector@) ==> outcome_view(r) == None::<Seq<char>>,
        matches_selector(tag@, attrs@, selector@) ==> rule_output(*rule, attrs@, walked@, outcome_view(r)),
{
    if !element_matches_simple_selector(tag, attrs, selector) {
        return HandlerOutcome::Fallback;
    }
    proof {
        reveal_strlit("\\{attr:(\\w+)\\}");
    }
    rule_markdown(rule, "\\{attr:(\\w+)\\}", attrs, walked)
}

/// What a custom rule renders for an element, its template placeholders
/// found by `pattern`.
pub fn rule_markdown(rule: &CustomRule, pattern: &str, attrs: &Vec<Attribute>, walked: &str) -> (r: HandlerOutcome)
    requires
        walked@.len() < usize::MAX,
    ensures
        rule_output_with(pattern@, *rule, attrs@, walked@, outcome_view(r)),
{
    let text = trim_string(walked, TrimSet::UnicodeWs);
    proof {
        crate::text::lemma_trim_both_len(walked@, TrimSet::UnicodeWs);
    }
    match rule.action {
        CustomRuleAction::MarkdownTemplate => {
            let template = match &rule.template {
                Some(t) => t,
                None => return HandlerOutcome::Markdown(String::new()),
            };
            proof {
                reveal_strlit("{text}");
            }
            let r0 = str_replace(template.as_str(), "{text}", text.as_str());
            let r = fill_attrs_exec(r0, pattern, template.as_str(), attrs);
            HandlerOutcome::Markdown(r)
        },
        CustomRuleAction::FencedBlock => {
            if text.as_str().is_empty() {
                return HandlerOutcome::Markdown(String::new());
            }
            let empty = String::new();
            let lang = match &rule.template {
                Some(t) => t.as_str(),
                None => empty.as_str(),
            };
            HandlerOutcome::Markdown(fenced_block(text.as_str(), lang))
        },
        CustomRuleAction::Link => {
            let href = match get_attr(attrs, "href") {
                Some(h) => h,
                None => String::new(),
            };
            let dest = if href.as_str().is_empty() {
                text.clone()
            } else {
                href
            };
            proof {
                reveal_strlit("]");
            }
            let label = str_replace(text.as_str(), "]", "\\]");
            let d = escape_parens(dest.as_str());
            let mut r = String::new();
            push_char(&mut r, '[');
            push_str(&mut r, label.as_str());
            push_str(&mut r, "](");
            push_str(&mut r, d.as_str());
            push_char(&mut r, ')');
            assert(label@ == replaced(text@, "]"@, "\\]"@));
            assert(dest@ == (if href@.len() == 0 { text@ } else { href@ }));
            assert(r@ == rule_link(href@, walked@));
            assert(href@ == match attr_value(attrs@, "href"@) {
                Some(h) => h,
                None => Seq::<char>::empty(),
            });
            HandlerOutcome::Markdown(r)
        },
        CustomRuleAction::Image => {
            let src = match get_attr(attrs, "src") {
                Some(s) => s,
                None => String::new(),
            };
            let alt = match get_attr(attrs, "alt") {
                Some(a) => a,
                None => text.clone(),
            };
            if src.as_str().is_empty() {
                return HandlerOutcome::Markdown(String::new());
            }
            proof {
                reveal_strlit("]");
            }
            let a = str_replace(alt.as_str(), "]", "\\]");
            let s = escape_parens(src.as_str());
            let mut r = String::new();
            push_str(&mut r, "![");
            push_str(&mut r, a.as_str());
            push_str(&mut r, "](");
            push_str(&mut r, s.as_str());
            push_char(&mut r, ')');
            assert(src@ == match attr_value(attrs@, "src"@) {
                Some(h) => h,
                None => Seq::<char>::empty(),
            });
            assert(alt@ == match attr_value(attrs@, "alt"@) {
                Some(h) => h,
                None => text@,
            });
            assert(a@ == replaced(alt@, "]"@, "\\]"@));
            assert(r@ == rule_image(src@, attr_value(attrs@, "alt"@), walked@));
            HandlerOutcome::Markdown(r)
        },
        _ => HandlerOutcome::Fallback,
    }
}

// ---------------------------------------------------------------------------
// Registration order
// ---------------------------------------------------------------------------

/// Where index `i` goes in `order`: after every index whose priority is not
/// above its own.
pub open spec fn insert_pos(order: Seq<nat>, prios: Seq<i32>, i: nat) -> int
    decreases order.len(),
{
    if order.len() == 0 {
        0
    } else if prios[order.last() as int] <= prios[i as int] {
        order.len() as int
    } else {
        insert_pos(order.drop_last(), prios, i)
    }
}

/// The rule indices `0..n` ordered by priority, lowest first; equal
/// priorities keep their order (a stable sort).
pub open spec fn priority_order(prios: Seq<i32>, n: nat) -> Seq<nat>
    decreases n,
{
    if n == 0 {
        Seq::empty()
    } else {
        let o = priority_order(prios, (n - 1) as nat);
        let k = insert_pos(o, prios, (n - 1) as nat);
        o.take(k) + seq![(n - 1) as nat] + o.skip(k)
    }
}

pub open spec fn rule_prios(rules: Seq<CustomRule>) -> Seq<i32> {
    rules.map_values(|r: CustomRule| r.priority)
}

proof fn lemma_insert_pos(order: Seq<nat>, prios: Seq<i32>, i: nat)
    ensures
        0 <= insert_pos(order, prios, i) <= order.len(),
    decreases order.len(),
{
    if order.len() > 0 {
        lemma_insert_pos(order.drop_last(), prios, i);
    }
}

proof fn lemma_priority_order(prios: Seq<i32>, n: nat)
    ensures
        priority_order(prios, n).len() == n,
        forall|j: int| 0 <= j < n ==> #[trigger] priority_order(prios, n)[j] < n,
    decreases n,
{
    if n > 0 {
        let o = priority_order(prios, (n - 1) as nat);
        lemma_priority_order(prios, (n - 1) as nat);
        lemma_insert_pos(o, prios, (n - 1) as nat);
        let k = insert_pos(o, prios, (n - 1) as nat);
        let r = o.take(k) + seq![(n - 1) as nat] + o.skip(k);
        assert forall|j: int| 0 <= j < n implies #[trigger] r[j] < n by {
            if j < k {
                assert(r[j] == o[j]);
            } else if j > k {
                assert(r[j] == o[j - 1]);
            }
        }
    }
}

fn insert_pos_exec(order: &Vec<usize>, rules: &Vec<CustomRule>, i: usize) -> (k: usize)
    requires
        i < rules@.len(),
        forall|j: int| 0 <= j < order@.len() ==> #[trigger] order@[j] < rules@.len(),
    ensures
        k == insert_pos(order@.map_values(|x: usize| x as nat), rule_prios(rules@), i as nat),
{
    let ghost ov = order@.map_values(|x: usize| x as nat);
    assert(ov.take(order@.len() as int) =~= ov);
    let mut k = order.len();
    while k > 0 && rules[order[k - 1]].priority > rules[i].priority
        invariant
            k <= order@.len(),
            i < rules@.len(),
            ov == order@.map_values(|x: usize| x as nat),
            forall|j: int| 0 <= j < order@.len() ==> #[trigger] order@[j] < rules@.len(),
            insert_pos(ov, rule_prios(rules@), i as nat) == insert_pos(ov.take(k as int), rule_prios(rules@), i as nat),
        decreases k,
    {
        assert(ov.take(k as int).drop_last() == ov.take(k - 1));
        k -= 1;
    }
    k
}

/// A custom-rule handler registration: the tag it handles, the rule, and
/// the selector it was registered for.
pub struct RuleRegistration {
    pub tag: String,
    pub rule_index: usize,
    pub selector: String,
}

/// The registrations of one rule: one per selector that names a tag.
pub open spec fn rule_regs(rule: CustomRule, idx: nat) -> Seq<(Seq<char>, nat, Seq<char>)>
    decreases rule.selectors@.len(),
{
    rule_regs_upto(rule.selectors@, idx, rule.selectors@.len())
}

pub open spec fn rule_regs_upto(sels: Seq<String>, idx: nat, n: nat) -> Seq<(Seq<char>, nat, Seq<char>)>
    decreases n,
{
    if n == 0 {
        Seq::empty()
    } else {
        let rest = rule_regs_upto(sels, idx, (n - 1) as nat);
        match selector_tag(sels[n - 1]@) {
            Some(t) => rest.push((t, idx, sels[n - 1]@)),
            None => rest,
        }
    }
}

/// All registrations: rules by priority, lowest first (handlers consulted
/// last win, so the highest priority wins).
pub open spec fn registrations(rules: Seq<CustomRule>, order: Seq<nat>, n: nat) -> Seq<(Seq<char>, nat, Seq<char>)>
    decreases n,
{
    if n == 0 {
        Seq::empty()
    } else {
        registrations(rules, order, (n - 1) as nat) + rule_regs(rules[order[n - 1] as int], order[n - 1])
    }
}

pub open spec fn reg_view(r: RuleRegistration) -> (Seq<char>, nat, Seq<char>) {
    (r.tag@, r.rule_index as nat, r.selector@)
}

/// The handler registrations for the custom rules.
pub fn custom_rule_registrations(rules: &Vec<CustomRule>) -> (regs: Vec<RuleRegistration>)
    ensures
        regs@.map_values(|r: RuleRegistration| reg_view(r)) == registrations(
            rules@,
            priority_order(rule_prios(rules@), rules@.len()),
            rules@.len(),
        ),
{
    let ghost prios = rule_prios(rules@);
    let mut order: Vec<usize> = Vec::new();
    let mut i: usize = 0;
    while i < rules.len()
        invariant
            i <= rules@.len(),
            prios == rule_prios(rules@),
            order@.map_values(|x: usize| x as nat) == priority_order(prios, i as nat),
            forall|j: int| 0 <= j < order@.len() ==> #[trigger] order@[j] < i,
            order@.len() == i,
        decreases rules@.len() - i,
    {
        let ghost ov = order@.map_values(|x: usize| x as nat);
        let k = insert_pos_exec(&order, rules, i);
        proof {
            lemma_insert_pos(ov, prios, i as nat);
        }
        order.insert(k, i);
        proof {
            assert(order@.map_values(|x: usize| x as nat) =~= ov.take(k as int) + seq![i as nat] + ov.skip(k as int));
            assert forall|j: int| 0 <= j < order@.len() implies #[trigger] order@[j] < i + 1 by {
                if j < k {
                    assert(order@[j] == ov[j]);
                } else if j > k {
                    assert(order@[j] == ov[j - 1]);
                }
            }
        }
        i += 1;
    }
    let ghost ord = priority_order(prios, rules@.len());
    let mut regs: Vec<RuleRegistration> = Vec::new();
    let mut m: usize = 0;
    while m < order.len()
        invariant
            m <= order@.len(),
            order@.len() == rules@.len(),
            order@.map_values(|x: usize| x as nat) == ord,
            ord == priority_order(prios, rules@.len()),
            prios == rule_prios(rules@),
            forall|j: int| 0 <= j < order@.len() ==> #[trigger] order@[j] < rules@.len(),
            regs@.map_values(|r: RuleRegistration| reg_view(r)) == registrations(rules@, ord, m as nat),
        decreases order@.len() - m,
    {
        let idx = order[m];
        assert(ord[m as int] == idx as nat);
        let rule = &rules[idx];
        let ghost base = regs@.map_values(|r: RuleRegistration| reg_view(r));
        let mut s: usize = 0;
        while s < rule.selectors.len()
            invariant
                s <= rule.selectors@.len(),
                regs@.map_values(|r: RuleRegistration| reg_view(r)) == base + rule_regs_upto(rule.selectors@, idx as nat, s as nat),
            decreases rule.selectors@.len() - s,
        {
            match simple_selector_tag(rule.selectors[s].as_str()) {
                Some(tag) => {
                    let reg = RuleRegistration { tag, rule_index: idx, selector: rule.selectors[s].clone() };
                    let ghost before = regs@.map_values(|r: RuleRegistration| reg_view(r));
                    regs.push(reg);
                    assert(regs@.map_values(|r: RuleRegistration| reg_view(r)) =~= before.push(reg_view(reg)));
                },
                None => {},
            }
            s += 1;
        }
        m += 1;
    }
    regs
}


/// Where index `i` goes among the rules claiming elements: after every
/// index whose priority is at least its own.
pub open spec fn claim_pos(order: Seq<nat>, prios: Seq<i32>, i: nat) -> int
    decreases order.len(),
{
    if order.len() == 0 {
        0
    } else if prios[order.last() as int] >= prios[i as int] {
        order.len() as int
    } else {
        claim_pos(order.drop_last(), prios, i)
    }
}

/// The rule indices `0..n` in the order they claim elements: highest
/// priority first, equal priorities in declaration order.
pub open spec fn claim_order(prios: Seq<i32>, n: nat) -> Seq<nat>
    decreases n,
{
    if n == 0 {
        Seq::empty()
    } else {
        let o = claim_order(prios, (n - 1) as nat);
        let k = claim_pos(o, prios, (n - 1) as nat);
        o.take(k) + seq![(n - 1) as nat] + o.skip(k)
    }
}

proof fn lemma_claim_pos(order: Seq<nat>, prios: Seq<i32>, i: nat)
    ensures
        0 <= claim_pos(order, prios, i) <= order.len(),
    decreases order.len(),
{
    if order.len() > 0 {
        lemma_claim_pos(order.drop_last(), prios, i);
    }
}

/// Every index below `n` has its place in the claiming order.
pub proof fn lemma_claim_order_covers(prios: Seq<i32>, n: nat, x: nat)
    requires
        x < n,
    ensures
        exists|p: int| 0 <= p < claim_order(prios, n).len() && #[trigger] claim_order(prios, n)[p] == x,
    decreases n,
{
    let o = claim_order(prios, (n - 1) as nat);
    let k = claim_pos(o, prios, (n - 1) as nat);
    lemma_claim_pos(o, prios, (n - 1) as nat);
    let r = o.take(k) + seq![(n - 1) as nat] + o.skip(k);
    assert(claim_order(prios, n) == r);
    if x == n - 1 {
        assert(r[k] == x);
    } else {
        lemma_claim_order_covers(prios, (n - 1) as nat, x);
        let p = choose|p: int| 0 <= p < o.len() && #[trigger] o[p] == x;
        if p < k {
            assert(r[p] == x);
        } else {
            assert(r[p + 1] == x);
        }
    }
}

/// The indices of `rules` in the order they claim elements.
pub fn rules_by_priority(rules: &Vec<CustomRule>) -> (order: Vec<usize>)
    ensures
        order@.map_values(|x: usize| x as nat) == claim_order(rule_prios(rules@), rules@.len()),
        order@.len() == rules@.len(),
        forall|j: int| 0 <= j < order@.len() ==> #[trigger] order@[j] < rules@.len(),
{
    let ghost prios = rule_prios(rules@);
    let mut order: Vec<usize> = Vec::new();
    let mut i: usize = 0;
    while i < rules.len()
        invariant
            i <= rules@.len(),
            prios == rule_prios(rules@),
            order@.map_values(|x: usize| x as nat) == claim_order(prios, i as nat),
            forall|j: int| 0 <= j < order@.len() ==> #[trigger] order@[j] < i,
            order@.len() == i,
        decreases rules@.len() - i,
    {
        let ghost ov = order@.map_values(|x: usize| x as nat);
        assert(ov.take(order@.len() as int) =~= ov);
        let mut k = order.len();
        while k > 0 && rules[order[k - 1]].priority < rules[i].priority
            invariant
                k <= order@.len(),
                i < rules@.len(),
                ov == order@.map_values(|x: usize| x as nat),
                prios == rule_prios(rules@),
                forall|j: int| 0 <= j < order@.len() ==> #[trigger] order@[j] < i,
                claim_pos(ov, prios, i as nat) == claim_pos(ov.take(k as int), prios, i as nat),
            decreases k,
        {
            assert(ov.take(k as int).drop_last() == ov.take(k - 1));
            k -= 1;
        }
        proof {
            lemma_claim_pos(ov, prios, i as nat);
            if k > 0 {
                assert(ov.take(k as int).last() == order@[k - 1] as nat);
            }
        }
        order.insert(k, i);
        proof {
            assert(order@.map_values(|x: usize| x as nat) =~= ov.take(k as int) + seq![i as nat] + ov.skip(k as int));
            assert forall|j: int| 0 <= j < order@.len() implies #[trigger] order@[j] < i + 1 by {
                if j < k {
                    assert(order@[j] == ov[j]);
                } else if j > k {
                    assert(order@[j] == ov[j - 1]);
                }
            }
        }
        i += 1;
    }
    order
}


/// The placeholder pattern of templates rendered for marked elements.
pub open spec fn marked_placeholder_pattern() -> Seq<char> {
    "\\{attr:([\\w-]+)\\}"@
}

/// The rule a marked element names by its `data-htmlmd-rule` index.
pub open spec fn marked_rule(rules: Seq<CustomRule>, attrs: Seq<Attribute>) -> Option<CustomRule> {
    match attr_value(attrs, "data-htmlmd-rule"@) {
        Some(v) => match crate::rewrite::parsed_u32(v) {
            Some(i) => if i < rules.len() {
                Some(rules[i as int])
            } else {
                None
            },
            None => None,
        },
        None => None,
    }
}

/// The rule index an element marked by the cleanup pass carries.
pub fn marked_rule_index(rules: &Vec<CustomRule>, attrs: &Vec<Attribute>) -> (r: Option<usize>)
    ensures
        match r {
            Some(i) => i < rules@.len() && marked_rule(rules@, attrs@) == Some(rules@[i as int]),
            None => marked_rule(rules@, attrs@) is None,
        },
{
    match get_attr(attrs, "data-htmlmd-rule") {
        Some(v) => match crate::rewrite::parse_u32(v.as_str()) {
            Some(i) => if (i as usize) < rules.len() {
                Some(i as usize)
            } else {
                None
            },
            None => None,
        },
        None => None,
    }
}

/// Renders an element marked for a custom rule; an element whose mark
/// names no rule renders as usual.
pub fn marked_rule_output(rules: &Vec<CustomRule>, attrs: &Vec<Attribute>, walked: &str) -> (r: HandlerOutcome)
    requires
        walked@.len() < usize::MAX,
    ensures
        match marked_rule(rules@, attrs@) {
            Some(rule) => rule_output_with(marked_placeholder_pattern(), rule, attrs@, walked@, outcome_view(r)),
            None => outcome_view(r) == None::<Seq<char>>,
        },
{
    match marked_rule_index(rules, attrs) {
        Some(i) => {
            proof {
                reveal_strlit("\\{attr:([\\w-]+)\\}");
            }
            rule_markdown(&rules[i], "\\{attr:([\\w-]+)\\}", attrs, walked)
        },
        None => HandlerOutcome::Fallback,
    }
}

} // verus!
