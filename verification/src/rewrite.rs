//! URL rewriting for links and images: blocked schemes, resolution against
//! the base URL, the configured rewrite rules, tracking parameters, and the
//! choice of one candidate from a `srcset`.

use vstd::prelude::*;
use crate::options::{views, ConversionOptions, ResponsiveImagePolicy, UrlRewriteRule};
use crate::regex_support::{replace_rule, replace_with_pattern};
use crate::text::{
    eq_ignore_ascii_case, exec_eq_ignore_ascii_case, char_vec, is_ascii_digit, parsed_int, push_char, split_whitespace, str_eq, string_of_range,
    trim_both, trim_string, words, TrimSet,
};

verus! {

// ---------------------------------------------------------------------------
// What only the outside crates compute
// ---------------------------------------------------------------------------

/// `str::to_lowercase`: the Unicode lower-case mapping of `s`.
pub uninterp spec fn lowercase_result(s: Seq<char>) -> Seq<char>;

/// What one chain of three calls gives: `url::Url::parse(base)`, then
/// `Url::join(rel)`, then the joined URL serialized (`Url::as_str`): `rel`
/// resolved against `base`, or `None` when parsing or joining fails.
pub uninterp spec fn url_join_result(base: Seq<char>, rel: Seq<char>) -> Option<Seq<char>>;

/// `url::Url::parse(s)` then `Url::query_pairs`: the decoded key/value
/// pairs of the query, or `None` when `s` does not parse.
pub uninterp spec fn url_query_pairs_result(s: Seq<char>) -> Option<Seq<(Seq<char>, Seq<char>)>>;

/// `url::Url::parse(s)`, `Url::set_query(q)`, serialized; `None` when `s`
/// does not parse.
pub uninterp spec fn url_with_query_result(s: Seq<char>, q: Option<Seq<char>>) -> Option<Seq<char>>;

/// `form_urlencoded::Serializer` with each pair appended in order:
/// `application/x-www-form-urlencoded` text.
pub uninterp spec fn form_urlencoded_result(pairs: Seq<(Seq<char>, Seq<char>)>) -> Seq<char>;

/// `str::to_lowercase`.
#[verifier::external_body]
fn to_lowercase(s: &str) -> (r: String)
    ensures
        r@ == lowercase_result(s@),
{
    s.to_lowercase()
}

/// `rel` resolved against `base` (`Url::parse`, `Url::join`, serialized).
#[verifier::external_body]
fn url_join(base: &str, rel: &str) -> (r: Option<String>)
    ensures
        match (r, url_join_result(base@, rel@)) {
            (Some(a), Some(b)) => a@ == b,
            (None, None) => true,
            _ => false,
        },
{
    match url::Url::parse(base) {
        Ok(b) => match b.join(rel) {
            Ok(u) => Some(u.to_string()),
            Err(_) => None,
        },
        Err(_) => None,
    }
}

/// The query pairs of `s` (`Url::parse`, `Url::query_pairs`), owned.
#[verifier::external_body]
fn url_query_pairs(s: &str) -> (r: Option<Vec<(String, String)>>)
    ensures
        match (r, url_query_pairs_result(s@)) {
            (Some(v), Some(p)) => v@.len() == p.len() && forall|i: int|
                0 <= i < p.len() ==> (#[trigger] v@[i]).0@ == p[i].0 && v@[i].1@ == p[i].1,
            (None, None) => true,
            _ => false,
        },
{
    match url::Url::parse(s) {
        Ok(u) => Some(u.query_pairs().map(|(k, v)| (k.into_owned(), v.into_owned())).collect()),
        Err(_) => None,
    }
}

/// `s` with its query replaced (`Url::parse`, `Url::set_query`,
/// serialized).
#[verifier::external_body]
fn url_with_query(s: &str, q: Option<&str>) -> (r: Option<String>)
    ensures
        match (r, url_with_query_result(s@, match q { Some(x) => Some(x@), None => None })) {
            (Some(a), Some(b)) => a@ == b,
            (None, None) => true,
            _ => false,
        },
{
    match url::Url::parse(s) {
        Ok(mut u) => {
            u.set_query(q);
            Some(u.to_string())
        },
        Err(_) => None,
    }
}

/// The pairs as `application/x-www-form-urlencoded` text
/// (`form_urlencoded::Serializer::append_pair` for each, then `finish`).
#[verifier::external_body]
fn form_urlencode(pairs: &Vec<(String, String)>) -> (r: String)
    ensures
        r@ == form_urlencoded_result(pairs@.map_values(|p: (String, String)| (p.0@, p.1@))),
{
    let mut serializer = url::form_urlencoded::Serializer::new(String::new());
    for (k, v) in pairs {
        serializer.append_pair(k, v);
    }
    serializer.finish()
}

// ---------------------------------------------------------------------------
// Tracking parameters
// ---------------------------------------------------------------------------

/// The query keys that are always tracking parameters.
pub open spec fn default_tracking() -> Seq<Seq<char>> {
    seq!["utm_source"@, "utm_medium"@, "utm_campaign"@, "utm_term"@, "utm_content"@, "fbclid"@, "gclid"@]
}

/// The query pairs kept: those whose key is no tracking parameter.
pub open spec fn kept_pairs(pairs: Seq<(Seq<char>, Seq<char>)>, custom: Seq<Seq<char>>) -> Seq<(Seq<char>, Seq<char>)>
    decreases pairs.len(),
{
    if pairs.len() == 0 {
        Seq::empty()
    } else {
        let rest = kept_pairs(pairs.drop_last(), custom);
        let k = pairs.last().0;
        if default_tracking().contains(k) || custom.contains(k) {
            rest
        } else {
            rest.push(pairs.last())
        }
    }
}

/// Is `key` a tracking parameter: one of the `utm_*` keys, `fbclid`,
/// `gclid`, or one of the configured `custom` keys?
pub open spec fn is_tracking_key(key: Seq<char>, custom: Seq<Seq<char>>) -> bool {
    key == "utm_source"@ || key == "utm_medium"@ || key == "utm_campaign"@ || key == "utm_term"@
        || key == "utm_content"@ || key == "fbclid"@ || key == "gclid"@ || custom.contains(key)
}

/// Stripping tracking parameters keeps exactly the query pairs whose key is
/// no tracking parameter, in their order: every other pair stays, none is
/// added, and every tracking pair goes.
pub proof fn law_only_tracking_pairs_go(pairs: Seq<(Seq<char>, Seq<char>)>, custom: Seq<Seq<char>>)
    ensures
        kept_pairs(pairs, custom) == pairs.filter(|p: (Seq<char>, Seq<char>)| !is_tracking_key(p.0, custom)),
        forall|i: int|
            0 <= i < pairs.len() && !is_tracking_key(pairs[i].0, custom) ==> kept_pairs(pairs, custom).contains(
                #[trigger] pairs[i],
            ),
        forall|p: (Seq<char>, Seq<char>)|
            #[trigger] kept_pairs(pairs, custom).contains(p) ==> pairs.contains(p) && !is_tracking_key(p.0, custom),
    decreases pairs.len(),
{
    let pred = |p: (Seq<char>, Seq<char>)| !is_tracking_key(p.0, custom);
    if pairs.len() > 0 {
        law_only_tracking_pairs_go(pairs.drop_last(), custom);
        let k = pairs.last().0;
        assert(default_tracking().contains(k) <==> (k == "utm_source"@ || k == "utm_medium"@ || k == "utm_campaign"@
            || k == "utm_term"@ || k == "utm_content"@ || k == "fbclid"@ || k == "gclid"@)) by {
            if default_tracking().contains(k) {
                let j = choose|j: int| 0 <= j < default_tracking().len() && default_tracking()[j] == k;
            }
            if k == "utm_source"@ { assert(default_tracking()[0] == k); }
            if k == "utm_medium"@ { assert(default_tracking()[1] == k); }
            if k == "utm_campaign"@ { assert(default_tracking()[2] == k); }
            if k == "utm_term"@ { assert(default_tracking()[3] == k); }
            if k == "utm_content"@ { assert(default_tracking()[4] == k); }
            if k == "fbclid"@ { assert(default_tracking()[5] == k); }
            if k == "gclid"@ { assert(default_tracking()[6] == k); }
        }
        assert(pairs.filter(pred) == if pred(pairs.last()) {
            pairs.drop_last().filter(pred).push(pairs.last())
        } else {
            pairs.drop_last().filter(pred)
        }) by {
            reveal(Seq::filter);
        }
    }
    assert forall|i: int|
        0 <= i < pairs.len() && !is_tracking_key(pairs[i].0, custom) implies kept_pairs(pairs, custom).contains(
            #[trigger] pairs[i],
        ) by {
        pairs.lemma_filter_contains(pred, i);
    }
    assert forall|p: (Seq<char>, Seq<char>)|
        #[trigger] kept_pairs(pairs, custom).contains(p) implies pairs.contains(p) && !is_tracking_key(p.0, custom) by {
        pairs.lemma_filter_contains_rev(pred, p);
        let j = choose|j: int| 0 <= j < pairs.filter(pred).len() && pairs.filter(pred)[j] == p;
        pairs.filter_lemma(pred);
    }
}

/// `url` without tracking parameters in its query (a URL that does not
/// parse is left as it is).
pub open spec fn stripped_tracking(url: Seq<char>, custom: Seq<Seq<char>>) -> Seq<char> {
    match url_query_pairs_result(url) {
        None => url,
        Some(pairs) => {
            let kept = kept_pairs(pairs, custom);
            let q = if kept.len() == 0 {
                None
            } else {
                Some(form_urlencoded_result(kept))
            };
            match url_with_query_result(url, q) {
                Some(u) => u,
                None => url,
            }
        },
    }
}

/// Is `s` one of `list`?
pub fn contains_string(list: &Vec<String>, s: &str) -> (b: bool)
    ensures
        b == views(*list).contains(s@),
{
    let mut i: usize = 0;
    while i < list.len()
        invariant
            i <= list@.len(),
            forall|j: int| 0 <= j < i ==> list@[j]@ != s@,
        decreases list@.len() - i,
    {
        if str_eq(list[i].as_str(), s) {
            assert(views(*list)[i as int] == s@);
            return true;
        }
        i += 1;
    }
    false
}

/// Drops tracking parameters (`utm_*`, `fbclid`, `gclid` and the
/// configured ones) from the query of `url`.
pub fn strip_tracking_params(url: &str, options: &ConversionOptions) -> (r: String)
    ensures
        r@ == stripped_tracking(url@, views(options.cleanup.tracking_params)),
{
    let pairs = match url_query_pairs(url) {
        Some(p) => p,
        None => return url.to_owned(),
    };
    let ghost pv = url_query_pairs_result(url@)->0;
    let ghost custom = views(options.cleanup.tracking_params);
    let defaults: Vec<String> = vec![
        "utm_source".to_owned(), "utm_medium".to_owned(), "utm_campaign".to_owned(),
        "utm_term".to_owned(), "utm_content".to_owned(), "fbclid".to_owned(), "gclid".to_owned()
    ];
    assert(views(defaults) =~= default_tracking());
    let mut kept: Vec<(String, String)> = Vec::new();
    let mut i: usize = 0;
    while i < pairs.len()
        invariant
            i <= pairs@.len(),
            pairs@.len() == pv.len(),
            forall|j: int| 0 <= j < pv.len() ==> (#[trigger] pairs@[j]).0@ == pv[j].0 && pairs@[j].1@ == pv[j].1,
            views(defaults) == default_tracking(),
            custom == views(options.cleanup.tracking_params),
            kept@.map_values(|p: (String, String)| (p.0@, p.1@)) == kept_pairs(pv.take(i as int), custom),
        decreases pairs@.len() - i,
    {
        assert(pv.take(i + 1).drop_last() == pv.take(i as int));
        assert(pv.take(i + 1).last() == pv[i as int]);
        let k = pairs[i].0.as_str();
        if !contains_string(&defaults, k) && !contains_string(&options.cleanup.tracking_params, k) {
            let ghost before = kept@.map_values(|p: (String, String)| (p.0@, p.1@));
            let pair = (pairs[i].0.clone(), pairs[i].1.clone());
            kept.push(pair);
            assert(kept@.map_values(|p: (String, String)| (p.0@, p.1@)) =~= before.push(pv[i as int]));
        }
        i += 1;
    }
    assert(pv.take(pairs@.len() as int) == pv);
    let r = if kept.len() == 0 {
        url_with_query(url, None)
    } else {
        let q = form_urlencode(&kept);
        url_with_query(url, Some(q.as_str()))
    };
    match r {
        Some(u) => u,
        None => url.to_owned(),
    }
}

// ---------------------------------------------------------------------------
// One URL
// ---------------------------------------------------------------------------

/// The part of `url` before its first `:` (all of it when there is none).
pub open spec fn scheme_prefix(url: Seq<char>) -> Seq<char> {
    match crate::text::find_from(url, ':', 0) {
        Some(k) => url.take(k),
        None => url,
    }
}

/// `s` after each rewrite rule in turn (rules whose pattern does not
/// compile are skipped).
pub open spec fn apply_rules(s: Seq<char>, rules: Seq<UrlRewriteRule>) -> Seq<char>
    decreases rules.len(),
{
    if rules.len() == 0 {
        s
    } else {
        let r = rules.last();
        replace_rule(r.pattern@, r.replacement@, apply_rules(s, rules.drop_last()))
    }
}

/// What a URL attribute becomes: nothing when its scheme is blocked and not
/// allowed; otherwise resolved against the base (when that works),
/// rewritten by the rules, and stripped of tracking parameters when asked.
pub open spec fn rewritten_url(url: Seq<char>, base: Option<Seq<char>>, o: ConversionOptions) -> Seq<char> {
    let scheme = lowercase_result(scheme_prefix(url));
    if views(o.cleanup.blocked_url_schemes).contains(scheme) && !views(o.cleanup.allowed_url_schemes).contains(scheme) {
        Seq::empty()
    } else {
        let resolved = match base {
            Some(b) => match url_join_result(b, url) {
                Some(j) => j,
                None => url,
            },
            None => url,
        };
        let rewritten = apply_rules(resolved, o.cleanup.url_rewrite_rules@);
        if o.cleanup.remove_tracking_params {
            stripped_tracking(rewritten, views(o.cleanup.tracking_params))
        } else {
            rewritten
        }
    }
}

fn scheme_of(url: &str) -> (r: String)
    ensures
        r@ == scheme_prefix(url@),
{
    let v = char_vec(url);
    proof {
        crate::text::lemma_find_from(v@, ':', 0);
    }
    let mut i: usize = 0;
    while i < v.len() && v[i] != ':'
        invariant
            i <= v@.len(),
            forall|j: int| 0 <= j < i ==> v@[j] != ':',
            crate::text::find_from(v@, ':', 0) == crate::text::find_from(v@, ':', i as int),
        decreases v@.len() - i,
    {
        i += 1;
    }
    if i < v.len() {
        string_of_range(&v, 0, i)
    } else {
        assert(v@.subrange(0, v@.len() as int) == v@);
        string_of_range(&v, 0, i)
    }
}

/// Rewrites one URL: blocked schemes, base resolution, rewrite rules,
/// tracking parameters.
pub fn rewrite_single_url(url: &str, base: Option<&str>, options: &ConversionOptions) -> (r: String)
    ensures
        r@ == rewritten_url(
            url@,
            match base {
                Some(b) => Some(b@),
                None => None,
            },
            *options,
        ),
{
    let prefix = scheme_of(url);
    let scheme = to_lowercase(prefix.as_str());
    if contains_string(&options.cleanup.blocked_url_schemes, scheme.as_str())
        && !contains_string(&options.cleanup.allowed_url_schemes, scheme.as_str()) {
        return String::new();
    }
    let resolved = match base {
        Some(b) => match url_join(b, url) {
            Some(j) => j,
            None => url.to_owned(),
        },
        None => url.to_owned(),
    };
    let rules = &options.cleanup.url_rewrite_rules;
    let mut rewritten = resolved;
    let ghost start = rewritten@;
    let mut i: usize = 0;
    while i < rules.len()
        invariant
            i <= rules@.len(),
            rewritten@ == apply_rules(start, rules@.take(i as int)),
        decreases rules@.len() - i,
    {
        assert(rules@.take(i + 1).drop_last() == rules@.take(i as int));
        rewritten = replace_with_pattern(rules[i].pattern.as_str(), rules[i].replacement.as_str(), rewritten.as_str());
        i += 1;
    }
    assert(rules@.take(rules@.len() as int) == rules@);
    if options.cleanup.remove_tracking_params {
        rewritten = strip_tracking_params(rewritten.as_str(), options);
    }
    rewritten
}

// ---------------------------------------------------------------------------
// srcset
// ---------------------------------------------------------------------------

/// The pieces of `s` between the commas, from position `p` (`str::split`).
pub open spec fn comma_pieces_from(s: Seq<char>, p: int) -> Seq<Seq<char>>
    decreases s.len() - p,
{
    if p < 0 || p > s.len() {
        Seq::empty()
    } else {
        match crate::text::find_from(s, ',', p) {
            Some(k) => {
                proof {
                    crate::text::lemma_find_from(s, ',', p);
                }
                seq![s.subrange(p, k)] + comma_pieces_from(s, k + 1)
            },
            None => seq![s.subrange(p, s.len() as int)],
        }
    }
}

/// The candidates of a `srcset`: its comma-separated pieces, trimmed, the
/// empty ones left out.
pub open spec fn srcset_list(pieces: Seq<Seq<char>>) -> Seq<Seq<char>>
    decreases pieces.len(),
{
    if pieces.len() == 0 {
        Seq::empty()
    } else {
        let rest = srcset_list(pieces.drop_last());
        let t = trim_both(pieces.last(), TrimSet::UnicodeWs);
        if t.len() == 0 {
            rest
        } else {
            rest.push(t)
        }
    }
}

/// The candidates of a `srcset` value.
pub fn srcset_candidates(value: &str) -> (r: Vec<String>)
    ensures
        r@.map_values(|x: String| x@) == srcset_list(comma_pieces_from(value@, 0)),
{
    let v = char_vec(value);
    let ghost pieces = comma_pieces_from(v@, 0);
    let mut out: Vec<String> = Vec::new();
    let mut p: usize = 0;
    let mut done = false;
    let ghost taken: int = 0;
    while !done
        invariant
            v@ == value@,
            p <= v@.len(),
            0 <= taken <= pieces.len(),
            pieces == comma_pieces_from(v@, 0),
            !done ==> pieces.skip(taken) == comma_pieces_from(v@, p as int),
            done ==> taken == pieces.len(),
            out@.map_values(|x: String| x@) == srcset_list(pieces.take(taken)),
        decreases v@.len() - p + if done { 0int } else { 1int },
    {
        proof {
            crate::text::lemma_find_from(v@, ',', p as int);
        }
        let mut k = p;
        while k < v.len() && v[k] != ','
            invariant
                p <= k <= v@.len(),
                forall|j: int| p <= j < k ==> v@[j] != ',',
            decreases v@.len() - k,
        {
            k += 1;
        }
        let piece = string_of_range(&v, p, k);
        proof {
            assert(comma_pieces_from(v@, p as int).len() >= 1);
            assert(pieces.skip(taken).len() >= 1);
            assert(taken < pieces.len());
            assert(pieces.skip(taken)[0] == piece@);
            assert(pieces.take(taken + 1).drop_last() == pieces.take(taken));
            assert(pieces.take(taken + 1).last() == piece@);
        }
        let t = trim_string(piece.as_str(), TrimSet::UnicodeWs);
        if !t.as_str().is_empty() {
            let ghost before = out@.map_values(|x: String| x@);
            out.push(t);
            assert(out@.map_values(|x: String| x@) =~= before.push(t@));
        }
        let ghost old_skip = pieces.skip(taken);
        proof {
            taken = taken + 1;
            assert(pieces.skip(taken) =~= old_skip.drop_first());
        }
        if k < v.len() {
            assert(crate::text::find_from(v@, ',', p as int) == Some(k as int));
            assert(old_skip == seq![piece@] + comma_pieces_from(v@, k + 1));
            assert(pieces.skip(taken) =~= comma_pieces_from(v@, k + 1));
            p = k + 1;
        } else {
            assert(pieces.skip(taken).len() == 0);
            done = true;
        }
    }
    assert(pieces.take(pieces.len() as int) == pieces);
    out
}

/// What the descriptor of a candidate says of its size: a width (`480w`),
/// a pixel density given as its number text (`2x`), or nothing usable.
pub enum SrcsetDescriptor {
    Width(u32),
    Density(String),
    NoSize,
}

/// `s.parse::<u32>()`: an optionally `+`-signed decimal number in range.
pub open spec fn parsed_u32(s: Seq<char>) -> Option<u32> {
    if s.len() > 0 && s[0] == '-' {
        None
    } else {
        match parsed_int(s) {
            Some(v) => if 0 <= v <= u32::MAX {
                Some(v as u32)
            } else {
                None
            },
            None => None,
        }
    }
}

/// `s.parse::<u32>().ok()`.
pub fn parse_u32(s: &str) -> (r: Option<u32>)
    ensures
        r == parsed_u32(s@),
{
    crate::text::parse_u32_digits(s)
}

/// The descriptor of a candidate (its second word).
pub open spec fn descriptor_of(candidate: Seq<char>) -> Option<Seq<char>> {
    let ws = words(candidate);
    if ws.len() > 1 {
        Some(ws[1])
    } else {
        None
    }
}

pub fn srcset_descriptor(candidate: &str) -> (r: SrcsetDescriptor)
    ensures
        match descriptor_of(candidate@) {
            None => r is NoSize,
            Some(d) => if d.len() > 0 && d.last() == 'w' {
                match parsed_u32(d.drop_last()) {
                    Some(n) => r == SrcsetDescriptor::Width(n),
                    None => r is NoSize,
                }
            } else if d.len() > 0 && d.last() == 'x' {
                r matches SrcsetDescriptor::Density(t) && t@ == d.drop_last()
            } else {
                r is NoSize
            },
        },
{
    let ws = split_whitespace(candidate);
    if ws.len() < 2 {
        return SrcsetDescriptor::NoSize;
    }
    assert(descriptor_of(candidate@) == Some(ws@[1]@));
    let d = char_vec(ws[1].as_str());
    if d.len() > 0 && d[d.len() - 1] == 'w' {
        let n = string_of_range(&d, 0, d.len() - 1);
        assert(n@ == d@.drop_last());
        match parse_u32(n.as_str()) {
            Some(x) => SrcsetDescriptor::Width(x),
            None => SrcsetDescriptor::NoSize,
        }
    } else if d.len() > 0 && d[d.len() - 1] == 'x' {
        let n = string_of_range(&d, 0, d.len() - 1);
        assert(n@ == d@.drop_last());
        SrcsetDescriptor::Density(n)
    } else {
        SrcsetDescriptor::NoSize
    }
}

/// Index of the largest candidate by key; of equal keys the last wins (as
/// `Iterator::max_by_key` picks).
pub open spec fn largest_index(keys: Seq<u32>, n: nat) -> nat
    decreases n,
{
    if n <= 1 {
        0
    } else {
        let m = largest_index(keys, (n - 1) as nat);
        if keys[n - 1] >= keys[m as int] {
            (n - 1) as nat
        } else {
            m
        }
    }
}

/// Picks the candidate with the largest size key (widths as given,
/// densities times a thousand), the last of equals.
pub fn choose_largest_srcset(keys: &Vec<u32>) -> (r: usize)
    requires
        keys@.len() > 0,
    ensures
        r == largest_index(keys@, keys@.len()),
        r < keys@.len(),
        forall|i: int| 0 <= i < keys@.len() ==> keys@[i] <= keys@[r as int],
{
    let mut best: usize = 0;
    let mut i: usize = 1;
    while i < keys.len()
        invariant
            1 <= i <= keys@.len(),
            best < i,
            best == largest_index(keys@, i as nat),
            forall|j: int| 0 <= j < i ==> keys@[j] <= keys@[best as int],
        decreases keys@.len() - i,
    {
        if keys[i] >= keys[best] {
            best = i;
        }
        i += 1;
    }
    best
}

/// The URL of a chosen candidate: its first word.
pub fn srcset_url(candidate: &str) -> (r: String)
    ensures
        r@ == if words(candidate@).len() > 0 {
            words(candidate@)[0]
        } else {
            candidate@
        },
{
    let ws = split_whitespace(candidate);
    if ws.len() > 0 {
        ws[0].clone()
    } else {
        candidate.to_owned()
    }
}

/// Which candidate a policy picks, given each candidate's size key.
pub open spec fn srcset_pick(policy: ResponsiveImagePolicy, keys: Seq<u32>) -> nat {
    match policy {
        ResponsiveImagePolicy::Largest => largest_index(keys, keys.len()),
        _ => 0,
    }
}


/// The URL part of a `srcset` candidate: its first word, or the whole
/// candidate when it has none.
pub open spec fn candidate_url(c: Seq<char>) -> Seq<char> {
    if words(c).len() > 0 {
        words(c)[0]
    } else {
        c
    }
}

/// A `srcset` rewritten: the candidate the policy picks (by the size keys
/// `keys`, one per candidate), reduced to its URL and rewritten; the value
/// unchanged when it has no candidate or the policy preserves the `srcset`.
pub open spec fn rewritten_srcset(value: Seq<char>, base: Option<Seq<char>>, o: ConversionOptions, keys: Seq<u32>) -> Seq<char> {
    let cs = srcset_list(comma_pieces_from(value, 0));
    if cs.len() == 0 || o.cleanup.responsive_image_policy == ResponsiveImagePolicy::PreserveSrcset {
        value
    } else {
        rewritten_url(candidate_url(cs[srcset_pick(o.cleanup.responsive_image_policy, keys) as int]), base, o)
    }
}

/// Rewrites a `srcset` value; `keys` holds the size key of each candidate
/// of `srcset_candidates(value)`.
pub fn rewrite_srcset(value: &str, base: Option<&str>, options: &ConversionOptions, keys: &Vec<u32>) -> (r: String)
    requires
        keys@.len() == srcset_list(comma_pieces_from(value@, 0)).len(),
    ensures
        r@ == rewritten_srcset(
            value@,
            match base {
                Some(b) => Some(b@),
                None => None,
            },
            *options,
            keys@,
        ),
{
    let candidates = srcset_candidates(value);
    if candidates.len() == 0 || options.cleanup.responsive_image_policy == ResponsiveImagePolicy::PreserveSrcset {
        return value.to_owned();
    }
    let ghost cs = srcset_list(comma_pieces_from(value@, 0));
    let idx: usize = match options.cleanup.responsive_image_policy {
        ResponsiveImagePolicy::Largest => choose_largest_srcset(keys),
        _ => 0,
    };
    assert(candidates@.map_values(|x: String| x@)[idx as int] == candidates@[idx as int]@);
    let url = srcset_url(candidates[idx].as_str());
    rewrite_single_url(url.as_str(), base, options)
}

/// A URL attribute rewritten: `srcset` (any case) as a list of candidates,
/// other attributes as one URL.
pub fn rewrite_url_attr(value: &str, attr_name: &str, base: Option<&str>, options: &ConversionOptions, keys: &Vec<u32>) -> (r: String)
    requires
        eq_ignore_ascii_case(attr_name@, "srcset"@) ==> keys@.len() == srcset_list(comma_pieces_from(value@, 0)).len(),
    ensures
        r@ == if eq_ignore_ascii_case(attr_name@, "srcset"@) {
            rewritten_srcset(
                value@,
                match base {
                    Some(b) => Some(b@),
                    None => None,
                },
                *options,
                keys@,
            )
        } else {
            rewritten_url(
                value@,
                match base {
                    Some(b) => Some(b@),
                    None => None,
                },
                *options,
            )
        },
{
    if exec_eq_ignore_ascii_case(attr_name, "srcset") {
        rewrite_srcset(value, base, options, keys)
    } else {
        rewrite_single_url(value, base, options)
    }
}


/// Ten to the power `k`.
pub open spec fn pow10(k: nat) -> int
    decreases k,
{
    if k == 0 {
        1
    } else {
        10 * pow10((k - 1) as nat)
    }
}

/// The integer part of the number whose digits are `d`, read with the
/// decimal point after the first `n` of them (zeros appended where `d` is
/// shorter).
pub open spec fn scaled_value(d: Seq<char>, n: int) -> int {
    if n <= 0 {
        0
    } else if n <= d.len() {
        crate::text::digits_value(d.take(n))
    } else {
        crate::text::digits_value(d) * pow10((n - d.len()) as nat)
    }
}

/// `x` held to the range of `u32`.
pub open spec fn capped_u32(x: int) -> u32 {
    if x > u32::MAX {
        u32::MAX
    } else if x < 0 {
        0
    } else {
        x as u32
    }
}

/// The first exponent mark (`e` or `E`) of `s` at or after `i`.
pub open spec fn exp_mark_from(s: Seq<char>, i: int) -> Option<int>
    decreases s.len() - i,
{
    if i < 0 || i >= s.len() {
        None
    } else if s[i] == 'e' || s[i] == 'E' {
        Some(i)
    } else {
        exp_mark_from(s, i + 1)
    }
}

/// The integer and fraction digits of an unsigned decimal `digits[.digits]`
/// with at least one digit.
pub open spec fn mantissa_parts(m: Seq<char>) -> Option<(Seq<char>, Seq<char>)> {
    let (ip, fr) = match crate::text::find_from(m, '.', 0) {
        Some(k) => (m.take(k), m.skip(k + 1)),
        None => (m, Seq::<char>::empty()),
    };
    if ip.len() + fr.len() > 0 && crate::text::all_digits(ip) && crate::text::all_digits(fr) {
        Some((ip, fr))
    } else {
        None
    }
}

/// An unsigned decimal with an optional exponent (`e` or `E`, an optional
/// sign, digits): its integer digits, fraction digits and exponent.
pub open spec fn float_parts(body: Seq<char>) -> Option<(Seq<char>, Seq<char>, int)> {
    let (m, e) = match exp_mark_from(body, 0) {
        Some(k) => (body.take(k), parsed_int(body.skip(k + 1))),
        None => (body, Some(0int)),
    };
    match (mantissa_parts(m), e) {
        (Some((ip, fr)), Some(x)) => Some((ip, fr, x)),
        _ => None,
    }
}

/// The size key of a density `t`, read as std reads an `f32` (an optional
/// sign, then `inf` or `infinity` in any case, or a decimal with an optional
/// exponent): its value times a thousand, truncated toward zero and held to
/// the range of `u32`, so that a negative value gives zero and infinity the
/// largest `u32`; zero when `t` is no such number (`nan` among them). The
/// value is taken exactly, without the rounding of an `f32`.
pub open spec fn density_key(t: Seq<char>) -> u32 {
    if t.len() > 0 && t[0] == '-' {
        0
    } else {
        let body = if t.len() > 0 && t[0] == '+' {
            t.drop_first()
        } else {
            t
        };
        if eq_ignore_ascii_case(body, "inf"@) || eq_ignore_ascii_case(body, "infinity"@) {
            u32::MAX
        } else {
            match float_parts(body) {
                Some((ip, fr, e)) => capped_u32(scaled_value(ip + fr, ip.len() + e + 3)),
                None => 0,
            }
        }
    }
}

proof fn lemma_digits_nonneg(s: Seq<char>)
    requires
        crate::text::all_digits(s),
    ensures
        crate::text::digits_value(s) >= 0,
    decreases s.len(),
{
    if s.len() > 0 {
        lemma_digits_nonneg(s.drop_last());
    }
}

proof fn lemma_pow10_grows(k: nat)
    ensures
        pow10(k) >= 1,
        k >= 10 ==> pow10(k) >= 10_000_000_000,
    decreases k,
{
    if k > 0 {
        lemma_pow10_grows((k - 1) as nat);
    }
    if k == 10 {
        reveal_with_fuel(pow10, 11);
    }
}

/// Past ten appended zeros, a non-zero number is beyond `u32`.
proof fn lemma_far_shift(d: Seq<char>, a: int, b: int)
    requires
        crate::text::all_digits(d),
        a >= d.len() + 10,
        b >= d.len() + 10,
    ensures
        capped_u32(scaled_value(d, a)) == capped_u32(scaled_value(d, b)),
{
    lemma_digits_nonneg(d);
    lemma_pow10_grows((a - d.len()) as nat);
    lemma_pow10_grows((b - d.len()) as nat);
    let x = crate::text::digits_value(d);
    if x == 0 {
        assert(x * pow10((a - d.len()) as nat) == 0);
        assert(x * pow10((b - d.len()) as nat) == 0);
    }
    if x > 0 {
        assert(x * pow10((a - d.len()) as nat) >= pow10((a - d.len()) as nat)) by (nonlinear_arith)
            requires x >= 1, pow10((a - d.len()) as nat) >= 1;
        assert(x * pow10((b - d.len()) as nat) >= pow10((b - d.len()) as nat)) by (nonlinear_arith)
            requires x >= 1, pow10((b - d.len()) as nat) >= 1;
    }
}

proof fn lemma_exp_mark_bound(s: Seq<char>, i: int)
    ensures
        exp_mark_from(s, i) matches Some(q) ==> i <= q < s.len(),
    decreases s.len() - i,
{
    if i >= 0 && i < s.len() && !(s[i] == 'e' || s[i] == 'E') {
        lemma_exp_mark_bound(s, i + 1);
    }
}

/// The first exponent mark of `v` at or after `lo`, or the end.
fn find_exp_mark(v: &Vec<char>, lo: usize) -> (k: usize)
    requires
        lo <= v@.len(),
    ensures
        lo <= k <= v@.len(),
        match exp_mark_from(v@.skip(lo as int), 0) {
            Some(q) => k == lo + q,
            None => k == v@.len(),
        },
{
    let ghost s = v@.skip(lo as int);
    let mut k = lo;
    while k < v.len() && v[k] != 'e' && v[k] != 'E'
        invariant
            lo <= k <= v@.len(),
            s == v@.skip(lo as int),
            exp_mark_from(s, 0) == exp_mark_from(s, k - lo),
        decreases v@.len() - k,
    {
        assert(s[k - lo] == v@[k as int]);
        k += 1;
    }
    proof {
        if k < v@.len() {
            assert(s[k - lo] == v@[k as int]);
        }
    }
    k
}

/// `sat(x)`: `x` held at most to `2^32`.
spec fn sat(x: int) -> int {
    if x > 0x1_0000_0000 {
        0x1_0000_0000
    } else {
        x
    }
}

/// The saturated value of the digits `v[lo..hi]`, all of them digits.
fn saturated_digits(v: &Vec<char>, lo: usize, hi: usize) -> (r: u64)
    requires
        lo <= hi <= v@.len(),
        crate::text::all_digits(v@.subrange(lo as int, hi as int)),
    ensures
        r == sat(crate::text::digits_value(v@.subrange(lo as int, hi as int))),
{
    let mut n: u64 = 0;
    let mut i = lo;
    while i < hi
        invariant
            lo <= i <= hi <= v@.len(),
            crate::text::all_digits(v@.subrange(lo as int, hi as int)),
            n == sat(crate::text::digits_value(v@.subrange(lo as int, i as int))),
        decreases hi - i,
    {
        let ghost pre = v@.subrange(lo as int, i as int);
        assert(v@.subrange(lo as int, i + 1).drop_last() == pre);
        assert(v@.subrange(lo as int, hi as int)[i - lo] == v@[i as int]);
        assert(crate::text::all_digits(pre)) by {
            assert forall|q: int| 0 <= q < pre.len() implies crate::text::is_ascii_digit(#[trigger] pre[q]) by {
                assert(pre[q] == v@.subrange(lo as int, hi as int)[q]);
            }
        }
        proof {
            lemma_digits_nonneg(pre);
        }
        let d = (v[i] as u32 - '0' as u32) as u64;
        let m = n * 10 + d;
        n = if m > 0x1_0000_0000 { 0x1_0000_0000 } else { m };
        i += 1;
    }
    n
}

/// `x` (saturated) with `extra` zeros appended, saturated.
fn saturated_shift(x: u64, extra: u128, Ghost(exact): Ghost<int>) -> (r: u64)
    requires
        exact >= 0,
        x == sat(exact),
    ensures
        r == sat(exact * pow10(extra as nat)),
{
    let mut val = x;
    let mut k: u128 = 0;
    while k < extra && 0 < val && val < 0x1_0000_0000
        invariant
            k <= extra,
            exact >= 0,
            val == sat(exact * pow10(k as nat)),
        decreases extra - k,
    {
        proof {
            lemma_pow10_grows(k as nat);
            assert(exact * pow10((k + 1) as nat) == 10 * (exact * pow10(k as nat))) by (nonlinear_arith)
                requires pow10((k + 1) as nat) == 10 * pow10(k as nat);
        }
        val = if val * 10 > 0x1_0000_0000 { 0x1_0000_0000 } else { val * 10 };
        k += 1;
    }
    proof {
        lemma_pow10_grows(k as nat);
        lemma_pow10_grows((extra - k) as nat);
        lemma_pow10_mul(k as nat, (extra - k) as nat);
        assert((k as nat + (extra - k) as nat) as nat == extra as nat);
        let y = exact * pow10(k as nat);
        assert(exact * pow10(extra as nat) == y * pow10((extra - k) as nat)) by (nonlinear_arith)
            requires
                pow10(extra as nat) == pow10(k as nat) * pow10((extra - k) as nat),
                y == exact * pow10(k as nat);
        assert(y >= 0) by (nonlinear_arith)
            requires exact >= 0, pow10(k as nat) >= 1, y == exact * pow10(k as nat);
        if val == 0 {
            assert(y * pow10((extra - k) as nat) == 0) by (nonlinear_arith)
                requires y == 0;
        } else if val >= 0x1_0000_0000 {
            assert(y * pow10((extra - k) as nat) >= y) by (nonlinear_arith)
                requires y >= 0, pow10((extra - k) as nat) >= 1;
        }
    }
    val
}

proof fn lemma_pow10_mul(a: nat, b: nat)
    ensures
        pow10(a + b) == pow10(a) * pow10(b),
    decreases b,
{
    if b > 0 {
        lemma_pow10_mul(a, (b - 1) as nat);
        assert(pow10(a + b) == 10 * pow10((a + b - 1) as nat));
        assert(pow10(a) * pow10(b) == 10 * (pow10(a) * pow10((b - 1) as nat))) by (nonlinear_arith)
            requires pow10(b) == 10 * pow10((b - 1) as nat);
    }
}

/// `e` held to `-2^80 ..= 2^80`.
spec fn clamp_exp(e: int) -> int {
    if e > 0x1_0000_0000_0000_0000_0000 {
        0x1_0000_0000_0000_0000_0000
    } else if e < -0x1_0000_0000_0000_0000_0000 {
        -0x1_0000_0000_0000_0000_0000
    } else {
        e
    }
}

/// Are `v[lo..hi]` all digits?
fn digits_in(v: &Vec<char>, lo: usize, hi: usize) -> (b: bool)
    requires
        lo <= hi <= v@.len(),
    ensures
        b == crate::text::all_digits(v@.subrange(lo as int, hi as int)),
{
    let mut i = lo;
    while i < hi
        invariant
            lo <= i <= hi <= v@.len(),
            crate::text::all_digits(v@.subrange(lo as int, i as int)),
        decreases hi - i,
    {
        if !('0' <= v[i] && v[i] <= '9') {
            assert(v@.subrange(lo as int, hi as int)[i - lo] == v@[i as int]);
            return false;
        }
        assert forall|q: int| 0 <= q < i + 1 - lo implies crate::text::is_ascii_digit(
            #[trigger] v@.subrange(lo as int, i + 1)[q],
        ) by {
            if q < i - lo {
                assert(v@.subrange(lo as int, i + 1)[q] == v@.subrange(lo as int, i as int)[q]);
            }
        }
        i += 1;
    }
    true
}

/// The first `c` in `v[lo..hi]`, or `hi`.
fn find_in(v: &Vec<char>, lo: usize, hi: usize, c: char) -> (k: usize)
    requires
        lo <= hi <= v@.len(),
    ensures
        lo <= k <= hi,
        match crate::text::find_from(v@.subrange(lo as int, hi as int), c, 0) {
            Some(q) => k == lo + q,
            None => k == hi,
        },
{
    let ghost s = v@.subrange(lo as int, hi as int);
    let mut k = lo;
    while k < hi && v[k] != c
        invariant
            lo <= k <= hi <= v@.len(),
            s == v@.subrange(lo as int, hi as int),
            crate::text::find_from(s, c, 0) == crate::text::find_from(s, c, k - lo),
        decreases hi - k,
    {
        assert(s[k - lo] == v@[k as int]);
        k += 1;
    }
    proof {
        if k < hi {
            assert(s[k - lo] == v@[k as int]);
        }
    }
    k
}

/// The exponent `v[lo..]` (an optional sign, then digits), held to
/// `-2^80 ..= 2^80`.
fn clamped_exponent(v: &Vec<char>, lo: usize) -> (r: Option<i128>)
    requires
        lo <= v@.len(),
    ensures
        match (r, parsed_int(v@.skip(lo as int))) {
            (Some(a), Some(b)) => a == clamp_exp(b),
            (None, None) => true,
            _ => false,
        },
{
    let ghost x = v@.skip(lo as int);
    let signed = lo < v.len() && (v[lo] == '+' || v[lo] == '-');
    let neg = signed && v[lo] == '-';
    let s: usize = if signed { lo + 1 } else { lo };
    assert(x.len() > 0 ==> x[0] == v@[lo as int]);
    let ghost digits = if signed { x.drop_first() } else { x };
    assert(digits =~= v@.subrange(s as int, v@.len() as int));
    if s == v.len() || !digits_in(v, s, v.len()) {
        return None;
    }
    let cap: u128 = 0x1_0000_0000_0000_0000_0000;
    let mut n: u128 = 0;
    let mut i = s;
    while i < v.len()
        invariant
            s <= i <= v@.len(),
            cap == 0x1_0000_0000_0000_0000_0000,
            crate::text::all_digits(v@.subrange(s as int, v@.len() as int)),
            n == (if crate::text::digits_value(v@.subrange(s as int, i as int)) > cap {
                cap as int
            } else {
                crate::text::digits_value(v@.subrange(s as int, i as int))
            }),
        decreases v@.len() - i,
    {
        let ghost pre = v@.subrange(s as int, i as int);
        assert(v@.subrange(s as int, i + 1).drop_last() == pre);
        assert(v@.subrange(s as int, v@.len() as int)[i - s] == v@[i as int]);
        assert(crate::text::all_digits(pre)) by {
            assert forall|q: int| 0 <= q < pre.len() implies crate::text::is_ascii_digit(#[trigger] pre[q]) by {
                assert(pre[q] == v@.subrange(s as int, v@.len() as int)[q]);
            }
        }
        proof {
            lemma_digits_nonneg(pre);
        }
        let d = (v[i] as u32 - '0' as u32) as u128;
        let m = n * 10 + d;
        n = if m > cap { cap } else { m };
        i += 1;
    }
    assert(v@.subrange(s as int, i as int) == digits);
    let mag = n as i128;
    if neg {
        Some(-mag)
    } else {
        Some(mag)
    }
}

/// The size key of a density descriptor's number.
pub fn density_key_exec(t: &str) -> (r: u32)
    ensures
        r == density_key(t@),
{
    let v = char_vec(t);
    if v.len() > 0 && v[0] == '-' {
        return 0;
    }
    let start: usize = if v.len() > 0 && v[0] == '+' { 1 } else { 0 };
    let ghost body = if t@.len() > 0 && t@[0] == '+' { t@.drop_first() } else { t@ };
    assert(body =~= v@.skip(start as int));
    let b = string_of_range(&v, start, v.len());
    assert(b@ =~= body);
    if exec_eq_ignore_ascii_case(b.as_str(), "inf") || exec_eq_ignore_ascii_case(b.as_str(), "infinity") {
        return 0xFFFF_FFFF;
    }
    let k = find_exp_mark(&v, start);
    let ghost m = v@.subrange(start as int, k as int);
    let ghost ex = if k < v@.len() { parsed_int(v@.skip(k + 1)) } else { Some(0int) };
    proof {
        if k < v@.len() {
            assert(exp_mark_from(body, 0) == Some(k - start));
            assert(m =~= body.take(k - start));
            assert(body.skip(k - start + 1) =~= v@.skip(k + 1));
        } else {
            lemma_exp_mark_bound(body, 0);
            assert(exp_mark_from(body, 0) is None);
            assert(m =~= body);
        }
        assert(float_parts(body) == match (mantissa_parts(m), ex) {
            (Some((ip, fr)), Some(x)) => Some((ip, fr, x)),
            _ => None,
        });
    }
    let e: i128 = if k < v.len() {
        assert(body.skip(k - start + 1) =~= v@.skip(k + 1));
        match clamped_exponent(&v, k + 1) {
            Some(x) => x,
            None => return 0,
        }
    } else {
        0
    };
    assert(ex is Some && e == clamp_exp(ex.unwrap()));
    let r = decimal_key(&v, start, k, e);
    proof {
        match mantissa_parts(m) {
            Some((ip, fr)) => {
                let true_e = ex.unwrap();
                assert(float_parts(body) == Some((ip, fr, true_e)));
                lemma_mantissa_digits(m);
                if true_e > e {
                    lemma_far_shift(ip + fr, ip.len() + e + 3, ip.len() + true_e + 3);
                }
            },
            None => {},
        }
    }
    r
}

/// The digits of a mantissa are digits, and fewer than its length.
proof fn lemma_mantissa_digits(m: Seq<char>)
    requires
        mantissa_parts(m) is Some,
    ensures
        ({
            let (ip, fr) = mantissa_parts(m).unwrap();
            crate::text::all_digits(ip + fr) && ip.len() + fr.len() <= m.len()
        }),
{
    let (ip, fr) = mantissa_parts(m).unwrap();
    crate::text::lemma_find_from(m, '.', 0);
    let dd = ip + fr;
    assert forall|q: int| 0 <= q < dd.len() implies crate::text::is_ascii_digit(#[trigger] dd[q]) by {
        if q < ip.len() {
            assert(dd[q] == ip[q]);
        } else {
            assert(dd[q] == fr[q - ip.len()]);
        }
    }
}

/// The size key of the mantissa `v[lo..hi]` with exponent `e`.
fn decimal_key(v: &Vec<char>, lo: usize, hi: usize, e: i128) -> (r: u32)
    requires
        lo <= hi <= v@.len(),
        -0x1_0000_0000_0000_0000_0000 <= e <= 0x1_0000_0000_0000_0000_0000,
    ensures
        r == match mantissa_parts(v@.subrange(lo as int, hi as int)) {
            Some((ip, fr)) => capped_u32(scaled_value(ip + fr, ip.len() + e + 3)),
            None => 0,
        },
{
    let start = lo;
    let k = hi;
    let ghost m = v@.subrange(lo as int, hi as int);
    let p = find_in(&v, start, k, '.');
    let frac_start: usize = if p < k { p + 1 } else { k };
    let ghost ip = v@.subrange(start as int, p as int);
    let ghost fr = v@.subrange(frac_start as int, k as int);
    proof {
        if p < k {
            assert(m.take(p - start) =~= ip);
            assert(m.skip(p - start + 1) =~= fr);
            assert(crate::text::find_from(m, '.', 0) == Some(p - start));
        } else {
            assert(m =~= ip);
            assert(fr =~= Seq::<char>::empty());
            crate::text::lemma_find_from(m, '.', 0);
            assert(crate::text::find_from(m, '.', 0) is None);
        }
        assert(mantissa_parts(m) == if ip.len() + fr.len() > 0 && crate::text::all_digits(ip) && crate::text::all_digits(fr) {
            Some((ip, fr))
        } else {
            None
        });
    }
    if (p - start) + (k - frac_start) == 0 || !digits_in(&v, start, p) || !digits_in(&v, frac_start, k) {
        return 0;
    }
    let mut d: Vec<char> = Vec::new();
    let mut i = start;
    while i < p
        invariant
            start <= i <= p <= k <= v@.len(),
            d@ == v@.subrange(start as int, i as int),
        decreases p - i,
    {
        d.push(v[i]);
        i += 1;
        assert(d@ =~= v@.subrange(start as int, i as int));
    }
    let mut j = frac_start;
    while j < k
        invariant
            frac_start <= j <= k <= v@.len(),
            d@ == ip + v@.subrange(frac_start as int, j as int),
            start <= p <= k,
            ip == v@.subrange(start as int, p as int),
        decreases k - j,
    {
        d.push(v[j]);
        j += 1;
        assert(d@ =~= ip + v@.subrange(frac_start as int, j as int));
    }
    let ghost dd = ip + fr;
    assert(d@ == dd);
    assert(crate::text::all_digits(dd)) by {
        assert forall|q: int| 0 <= q < dd.len() implies crate::text::is_ascii_digit(#[trigger] dd[q]) by {
            if q < ip.len() {
                assert(dd[q] == ip[q]);
            } else {
                assert(dd[q] == fr[q - ip.len()]);
            }
        }
    }
    proof {
        lemma_digits_nonneg(dd);
    }
    let n: i128 = (p - start) as i128 + e + 3;
    let val: u64 = if n <= 0 {
        0
    } else if n <= d.len() as i128 {
        assert(d@.subrange(0, n as int) == dd.take(n as int));
        assert(crate::text::all_digits(dd.take(n as int)));
        proof {
            lemma_digits_nonneg(dd.take(n as int));
        }
        saturated_digits(&d, 0, n as usize)
    } else {
        assert(d@.subrange(0, d@.len() as int) == dd);
        let x = saturated_digits(&d, 0, d.len());
        proof {
            let dv = crate::text::digits_value(dd);
            let pk = pow10((n - d@.len()) as nat);
            lemma_pow10_grows((n - d@.len()) as nat);
            assert(dv * pk >= 0) by (nonlinear_arith)
                requires dv >= 0, pk >= 1;
        }
        saturated_shift(x, (n - d.len() as i128) as u128, Ghost(crate::text::digits_value(dd)))
    };
    if val > 0xFFFF_FFFF {
        0xFFFF_FFFF
    } else {
        val as u32
    }
}

/// The size key of a `srcset` candidate: its width, its density times a
/// thousand, or zero without a usable descriptor.
pub open spec fn size_key_of(candidate: Seq<char>) -> u32 {
    match descriptor_of(candidate) {
        None => 0,
        Some(d) => if d.len() > 0 && d.last() == 'w' {
            match parsed_u32(d.drop_last()) {
                Some(n) => n,
                None => 0,
            }
        } else if d.len() > 0 && d.last() == 'x' {
            density_key(d.drop_last())
        } else {
            0
        },
    }
}

pub fn size_key(candidate: &str) -> (r: u32)
    ensures
        r == size_key_of(candidate@),
{
    match srcset_descriptor(candidate) {
        SrcsetDescriptor::Width(n) => n,
        SrcsetDescriptor::Density(t) => density_key_exec(t.as_str()),
        SrcsetDescriptor::NoSize => 0,
    }
}

} // verus!
