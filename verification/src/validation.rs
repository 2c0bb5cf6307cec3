//! Validation of `ConversionOptions` before any document is converted:
//! every configured selector must parse, the base URL must be a URL, and
//! every configured regex must compile.

use vstd::prelude::*;
use crate::error::Error;
use crate::options::{views, ConversionOptions, UrlRewriteRule};
use crate::regex_support::{compile_regex, regex_error_result, regex_valid};
use crate::text::{decimal, push_str, usize_to_string};

verus! {

/// The message of the error `scraper::Selector::parse(s)` fails with, or
/// `None` when `s` parses.
pub uninterp spec fn selector_error_result(s: Seq<char>) -> Option<Seq<char>>;

/// The message of the error `url::Url::parse(s)` fails with, or `None`
/// when `s` parses.
pub uninterp spec fn url_error_result(s: Seq<char>) -> Option<Seq<char>>;

/// The selectors that validation checks, each beside the key it was
/// configured under, in the order they are checked.
pub open spec fn selector_entries(o: ConversionOptions) -> Seq<(Seq<char>, Seq<char>)> {
    let c = o.cleanup;
    views(c.remove_selectors).map_values(|s: Seq<char>| ("cleanup.remove-selectors"@, s))
        + views(c.unwrap_selectors).map_values(|s: Seq<char>| ("cleanup.unwrap-selectors"@, s))
        + views(c.keep_only_selectors).map_values(|s: Seq<char>| ("cleanup.keep-only-selectors"@, s))
        + opt_entry("cleanup.extract-selector"@, c.extract_selector)
        + opt_entry("cleanup.main-content-selector"@, c.main_content_selector)
}

/// The entry of an optional selector: none, or one under `key`.
pub open spec fn opt_entry(key: Seq<char>, s: Option<String>) -> Seq<(Seq<char>, Seq<char>)> {
    match s {
        Some(x) => seq![(key, x@)],
        None => Seq::empty(),
    }
}

/// The message of the first entry whose selector does not parse.
pub open spec fn first_selector_error(entries: Seq<(Seq<char>, Seq<char>)>) -> Option<Seq<char>>
    decreases entries.len(),
{
    if entries.len() == 0 {
        None
    } else {
        match selector_error_result(entries[0].1) {
            Some(e) => Some("invalid selector in "@ + entries[0].0 + " ('"@ + entries[0].1 + "'): "@ + e),
            None => first_selector_error(entries.drop_first()),
        }
    }
}

/// The message of the first pattern, from position `i` on, that does not
/// compile; `key[i]` names it.
pub open spec fn first_regex_error(key: Seq<char>, pats: Seq<Seq<char>>, i: nat) -> Option<Seq<char>>
    decreases pats.len() - i,
{
    if i >= pats.len() {
        None
    } else {
        match regex_error_result(pats[i as int]) {
            Some(e) => Some(
                "invalid regex in "@ + key + "["@ + decimal(i) + "] ('"@ + pats[i as int] + "'): "@ + e,
            ),
            None => first_regex_error(key, pats, i + 1),
        }
    }
}

/// The patterns of the URL rewrite rules.
pub open spec fn rule_patterns(rules: Seq<UrlRewriteRule>) -> Seq<Seq<char>> {
    rules.map_values(|r: UrlRewriteRule| r.pattern@)
}

/// The first problem validation reports: a selector that does not parse, a
/// base URL that is not a URL, then a regex that does not compile.
pub open spec fn validation_error(o: ConversionOptions) -> Option<Seq<char>> {
    match first_selector_error(selector_entries(o)) {
        Some(m) => Some(m),
        None => {
            let base = match o.cleanup.base_url {
                Some(b) => match url_error_result(b@) {
                    Some(e) => Some("invalid base-url '"@ + b@ + "': "@ + e),
                    None => None,
                },
                None => None,
            };
            match base {
                Some(m) => Some(m),
                None => match first_regex_error("url-rewrite-rules"@, rule_patterns(o.cleanup.url_rewrite_rules@), 0) {
                    Some(m) => Some(m),
                    None => first_regex_error("code-language-patterns"@, views(o.semantic.code_language_patterns), 0),
                },
            }
        },
    }
}

/// The message `scraper::Selector::parse` fails with, or `None`.
fn selector_error(s: &str) -> (r: Option<String>)
    ensures
        match (r, selector_error_result(s@)) {
            (Some(a), Some(b)) => a@ == b,
            (None, None) => true,
            _ => false,
        },
{
    match crate::document::parse_selector(s) {
        Ok(_) => None,
        Err(e) => Some(e),
    }
}

/// `url::Url::parse`, keeping only the error's message.
#[verifier::external_body]
fn url_error(s: &str) -> (r: Option<String>)
    ensures
        match (r, url_error_result(s@)) {
            (Some(a), Some(b)) => a@ == b,
            (None, None) => true,
            _ => false,
        },
{
    match url::Url::parse(s) {
        Ok(_) => None,
        Err(e) => Some(format!("{e}")),
    }
}

/// The message `regex::Regex::new` fails with, or `None`.
fn regex_error(s: &str) -> (r: Option<String>)
    ensures
        match (r, regex_error_result(s@)) {
            (Some(a), Some(b)) => a@ == b,
            (None, None) => true,
            _ => false,
        },
{
    match compile_regex(s) {
        Ok(_) => None,
        Err(e) => Some(e),
    }
}

fn check_selector(key: &str, selector: &str) -> (r: Option<String>)
    ensures
        match (r, selector_error_result(selector@)) {
            (Some(a), Some(e)) => a@ == "invalid selector in "@ + key@ + " ('"@ + selector@ + "'): "@ + e,
            (None, None) => true,
            _ => false,
        },
{
    match selector_error(selector) {
        Some(e) => {
            let mut m = String::new();
            push_str(&mut m, "invalid selector in ");
            push_str(&mut m, key);
            push_str(&mut m, " ('");
            push_str(&mut m, selector);
            push_str(&mut m, "'): ");
            push_str(&mut m, e.as_str());
            Some(m)
        },
        None => None,
    }
}

fn check_selector_list(key: &str, list: &Vec<String>) -> (r: Option<String>)
    ensures
        match (r, first_selector_error(views(*list).map_values(|s: Seq<char>| (key@, s)))) {
            (Some(a), Some(b)) => a@ == b,
            (None, None) => true,
            _ => false,
        },
{
    let ghost entries = views(*list).map_values(|s: Seq<char>| (key@, s));
    assert(entries.skip(0) == entries);
    let mut i: usize = 0;
    while i < list.len()
        invariant
            i <= list@.len(),
            entries == views(*list).map_values(|s: Seq<char>| (key@, s)),
            first_selector_error(entries) == first_selector_error(entries.skip(i as int)),
        decreases list@.len() - i,
    {
        assert(entries.skip(i as int).drop_first() == entries.skip(i + 1));
        assert(entries.skip(i as int)[0] == (key@, list@[i as int]@));
        let r = check_selector(key, list[i].as_str());
        if r.is_some() {
            return r;
        }
        i += 1;
    }
    assert(entries.skip(list@.len() as int) =~= Seq::<(Seq<char>, Seq<char>)>::empty());
    None
}

proof fn lemma_first_selector_error_append(a: Seq<(Seq<char>, Seq<char>)>, b: Seq<(Seq<char>, Seq<char>)>)
    ensures
        first_selector_error(a + b) == match first_selector_error(a) {
            Some(m) => Some(m),
            None => first_selector_error(b),
        },
    decreases a.len(),
{
    if a.len() > 0 {
        assert((a + b).drop_first() =~= a.drop_first() + b);
        assert((a + b)[0] == a[0]);
        lemma_first_selector_error_append(a.drop_first(), b);
    } else {
        assert(a + b =~= b);
    }
}

fn check_optional_selector(key: &str, s: &Option<String>) -> (r: Option<String>)
    ensures
        match (r, first_selector_error(opt_entry(key@, *s))) {
            (Some(a), Some(b)) => a@ == b,
            (None, None) => true,
            _ => false,
        },
{
    match s {
        Some(x) => {
            assert(seq![(key@, x@)].drop_first() =~= Seq::<(Seq<char>, Seq<char>)>::empty());
            assert(opt_entry(key@, *s) == seq![(key@, x@)]);
            assert(first_selector_error(Seq::<(Seq<char>, Seq<char>)>::empty()) == None::<Seq<char>>);
            check_selector(key, x.as_str())
        },
        None => None,
    }
}

fn check_regex_list(key: &str, pats: &Vec<String>) -> (r: Option<String>)
    ensures
        match (r, first_regex_error(key@, views(*pats), 0)) {
            (Some(a), Some(b)) => a@ == b,
            (None, None) => true,
            _ => false,
        },
{
    let ghost pv = views(*pats);
    let mut i: usize = 0;
    while i < pats.len()
        invariant
            i <= pats@.len(),
            pv == views(*pats),
            first_regex_error(key@, pv, 0) == first_regex_error(key@, pv, i as nat),
        decreases pats@.len() - i,
    {
        assert(pv[i as int] == pats@[i as int]@);
        match regex_error(pats[i].as_str()) {
            Some(e) => {
                let mut m = String::new();
                push_str(&mut m, "invalid regex in ");
                push_str(&mut m, key);
                push_str(&mut m, "[");
                let n = usize_to_string(i);
                push_str(&mut m, n.as_str());
                push_str(&mut m, "] ('");
                push_str(&mut m, pats[i].as_str());
                push_str(&mut m, "'): ");
                push_str(&mut m, e.as_str());
                proof {
                    reveal_strlit("[");
                }
                return Some(m);
            },
            None => {},
        }
        i += 1;
    }
    None
}

fn rule_pattern_list(rules: &Vec<UrlRewriteRule>) -> (r: Vec<String>)
    ensures
        views(r) == rule_patterns(rules@),
{
    let mut out: Vec<String> = Vec::new();
    let mut i: usize = 0;
    while i < rules.len()
        invariant
            i <= rules@.len(),
            views(out) == rule_patterns(rules@).take(i as int),
        decreases rules@.len() - i,
    {
        let ghost before = views(out);
        out.push(rules[i].pattern.clone());
        assert(views(out) =~= before.push(rules@[i as int].pattern@));
        i += 1;
        assert(rule_patterns(rules@).take(i as int) =~= rule_patterns(rules@).take(i - 1).push(rule_patterns(rules@)[i - 1]));
    }
    assert(rule_patterns(rules@).take(rules@.len() as int) =~= rule_patterns(rules@));
    out
}

/// Validates the options, failing with a configuration error on the first
/// problem: a selector that does not parse, a base URL that is not a URL,
/// a regex that does not compile.
pub fn validate(options: &ConversionOptions) -> (r: Result<(), Error>)
    ensures
        match r {
            Ok(()) => validation_error(*options).is_none(),
            Err(Error::Config(m)) => validation_error(*options) == Some(m@),
            _ => false,
        },
{
    let c = &options.cleanup;
    proof {
        let a = views(c.remove_selectors).map_values(|s: Seq<char>| ("cleanup.remove-selectors"@, s));
        let b = views(c.unwrap_selectors).map_values(|s: Seq<char>| ("cleanup.unwrap-selectors"@, s));
        let k = views(c.keep_only_selectors).map_values(|s: Seq<char>| ("cleanup.keep-only-selectors"@, s));
        let e = opt_entry("cleanup.extract-selector"@, c.extract_selector);
        let m = opt_entry("cleanup.main-content-selector"@, c.main_content_selector);
        lemma_first_selector_error_append(a, b + k + e + m);
        lemma_first_selector_error_append(b, k + e + m);
        lemma_first_selector_error_append(k, e + m);
        lemma_first_selector_error_append(e, m);
        assert(selector_entries(*options) =~= a + (b + (k + (e + m))));
        assert(b + k + e + m =~= b + (k + (e + m)));
        assert(k + e + m =~= k + (e + m));
    }
    if let Some(m) = check_selector_list("cleanup.remove-selectors", &c.remove_selectors) {
        return Err(Error::Config(m));
    }
    if let Some(m) = check_selector_list("cleanup.unwrap-selectors", &c.unwrap_selectors) {
        return Err(Error::Config(m));
    }
    if let Some(m) = check_selector_list("cleanup.keep-only-selectors", &c.keep_only_selectors) {
        return Err(Error::Config(m));
    }
    if let Some(m) = check_optional_selector("cleanup.extract-selector", &c.extract_selector) {
        return Err(Error::Config(m));
    }
    if let Some(m) = check_optional_selector("cleanup.main-content-selector", &c.main_content_selector) {
        return Err(Error::Config(m));
    }
    if let Some(b) = &c.base_url {
        if let Some(e) = url_error(b.as_str()) {
            let mut m = String::new();
            push_str(&mut m, "invalid base-url '");
            push_str(&mut m, b.as_str());
            push_str(&mut m, "': ");
            push_str(&mut m, e.as_str());
            return Err(Error::Config(m));
        }
    }
    let pats = rule_pattern_list(&c.url_rewrite_rules);
    if let Some(m) = check_regex_list("url-rewrite-rules", &pats) {
        return Err(Error::Config(m));
    }
    if let Some(m) = check_regex_list("code-language-patterns", &options.semantic.code_language_patterns) {
        return Err(Error::Config(m));
    }
    Ok(())
}

impl ConversionOptions {
    /// Validates these options (see [`validate`]).
    pub fn validate(&self) -> (r: Result<(), Error>)
        ensures
            match r {
                Ok(()) => validation_error(*self).is_none(),
                Err(Error::Config(m)) => validation_error(*self) == Some(m@),
                _ => false,
            },
    {
        validate(self)
    }
}

} // verus!
