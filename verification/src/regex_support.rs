//! The `regex` crate, as the library uses it: compile a pattern, test it,
//! replace all its matches, read capture groups.

use vstd::prelude::*;
use regex::Regex;

verus! {

/// `regex::Regex`, a compiled pattern.
#[verifier::external_type_specification]
#[verifier::external_body]
pub struct ExRegex(Regex);

/// The message of the error `Regex::new(pattern)` fails with, or `None`
/// when `pattern` compiles.
pub uninterp spec fn regex_error_result(pattern: Seq<char>) -> Option<Seq<char>>;

/// Does `pattern` compile (`Regex::new(pattern)` is `Ok`)?
pub open spec fn regex_valid(pattern: Seq<char>) -> bool {
    regex_error_result(pattern) is None
}

/// A compiled regex beside the pattern it was compiled from.
pub struct CompiledRegex {
    re: Regex,
    source: Ghost<Seq<char>>,
}

impl CompiledRegex {
    /// The pattern the regex was compiled from.
    pub closed spec fn source(&self) -> Seq<char> {
        self.source@
    }
}

/// `Regex::is_match`: does `pattern` match somewhere in `text`?
pub uninterp spec fn regex_is_match_result(pattern: Seq<char>, text: Seq<char>) -> bool;

/// `Regex::replace_all`: `text` with every non-overlapping match of `pattern`
/// replaced by `rep` (with `$name` / `$1` group references expanded).
pub uninterp spec fn regex_replace_all_result(
    pattern: Seq<char>,
    text: Seq<char>,
    rep: Seq<char>,
) -> Seq<char>;

/// `Regex::captures`: the groups of the leftmost match of `pattern` in
/// `text` (group 0 is the whole match), or `None` when nothing matches.
pub uninterp spec fn regex_captures_result(pattern: Seq<char>, text: Seq<char>) -> Option<
    Seq<Option<Seq<char>>>,
>;

/// `Regex::capture_names`: the name of each capture group of `pattern`, in
/// order (group 0 and unnamed groups have none).
pub uninterp spec fn regex_capture_names_result(pattern: Seq<char>) -> Seq<Option<Seq<char>>>;

/// `Regex::captures_iter`: the groups of each successive non-overlapping
/// match of `pattern` in `text`.
pub uninterp spec fn regex_captures_iter_result(pattern: Seq<char>, text: Seq<char>) -> Seq<
    Seq<Option<Seq<char>>>,
>;

/// The first position in `names` that holds `name`.
pub open spec fn name_position(names: Seq<Option<Seq<char>>>, name: Seq<char>) -> Option<nat>
    decreases names.len(),
{
    if names.len() == 0 {
        None
    } else if names[0] == Some(name) {
        Some(0)
    } else {
        match name_position(names.drop_first(), name) {
            Some(k) => Some(k + 1),
            None => None,
        }
    }
}

/// Index of the capture group called `name` in `pattern`, if there is one.
pub open spec fn regex_group_index_result(pattern: Seq<char>, name: Seq<char>) -> Option<nat> {
    name_position(regex_capture_names_result(pattern), name)
}

/// `Regex::new`: the compiled regex, or the message of the error it fails with.
#[verifier::external_body]
fn regex_new(pattern: &str) -> (r: Result<Regex, String>)
    ensures
        match r {
            Ok(_) => regex_error_result(pattern@) is None,
            Err(e) => regex_error_result(pattern@) == Some(e@),
        },
{
    Regex::new(pattern).map_err(|e| format!("{e}"))
}

/// Compiles `pattern`, or fails with the error's message.
pub fn compile_regex(pattern: &str) -> (r: Result<CompiledRegex, String>)
    ensures
        match r {
            Ok(re) => regex_error_result(pattern@) is None && re.source() == pattern@,
            Err(e) => regex_error_result(pattern@) == Some(e@),
        },
{
    match regex_new(pattern) {
        Ok(re) => Ok(CompiledRegex { re, source: Ghost(pattern@) }),
        Err(e) => Err(e),
    }
}

/// `Regex::is_match`.
#[verifier::external_body]
pub fn regex_is_match(re: &CompiledRegex, text: &str) -> (b: bool)
    ensures
        b == regex_is_match_result(re.source(), text@),
{
    re.re.is_match(text)
}

/// `Regex::replace_all`, taken as an owned string.
#[verifier::external_body]
pub fn regex_replace_all(re: &CompiledRegex, text: &str, rep: &str) -> (r: String)
    ensures
        r@ == regex_replace_all_result(re.source(), text@, rep@),
{
    re.re.replace_all(text, rep).into_owned()
}

/// `Regex::captures`, each group taken as an owned string.
#[verifier::external_body]
pub fn regex_captures(re: &CompiledRegex, text: &str) -> (r: Option<Vec<Option<String>>>)
    ensures
        match (r, regex_captures_result(re.source(), text@)) {
            (None, None) => true,
            (Some(v), Some(g)) => v@.len() == g.len() && forall|i: int|
                0 <= i < g.len() ==> match (#[trigger] v@[i], g[i]) {
                    (None, None) => true,
                    (Some(s), Some(t)) => s@ == t,
                    _ => false,
                },
            _ => false,
        },
{
    match re.re.captures(text) {
        None => None,
        Some(caps) => Some(caps.iter().map(|m| m.map(|m| m.as_str().to_owned())).collect()),
    }
}

/// `Regex::capture_names`, each name taken as an owned string.
#[verifier::external_body]
fn regex_capture_names(re: &CompiledRegex) -> (r: Vec<Option<String>>)
    ensures
        r@.len() == regex_capture_names_result(re.source()).len(),
        forall|i: int|
            0 <= i < r@.len() ==> match (#[trigger] r@[i], regex_capture_names_result(re.source())[i]) {
                (None, None) => true,
                (Some(s), Some(t)) => s@ == t,
                _ => false,
            },
{
    re.re.capture_names().map(|n| n.map(|n| n.to_owned())).collect()
}

/// `Regex::captures_iter`, each group of each match taken as an owned
/// string.
#[verifier::external_body]
pub fn regex_captures_iter(re: &CompiledRegex, text: &str) -> (r: Vec<Vec<Option<String>>>)
    ensures
        r@.len() == regex_captures_iter_result(re.source(), text@).len(),
        forall|m: int|
            0 <= m < r@.len() ==> (#[trigger] r@[m])@.len() == regex_captures_iter_result(re.source(), text@)[m].len()
                && forall|i: int|
                0 <= i < r@[m]@.len() ==> match (#[trigger] r@[m]@[i], regex_captures_iter_result(re.source(), text@)[m][i]) {
                    (None, None) => true,
                    (Some(s), Some(t)) => s@ == t,
                    _ => false,
                },
{
    re.re.captures_iter(text).map(|caps| caps.iter().map(|m| m.map(|m| m.as_str().to_owned())).collect()).collect()
}

/// The index of the group called `name` in a compiled regex.
pub fn regex_group_index(re: &CompiledRegex, name: &str) -> (r: Option<usize>)
    ensures
        match r {
            Some(i) => regex_group_index_result(re.source(), name@) == Some(i as nat),
            None => regex_group_index_result(re.source(), name@).is_none(),
        },
{
    let names = regex_capture_names(re);
    let ghost nv = regex_capture_names_result(re.source());
    assert(nv.skip(0) == nv);
    assert(name_position(nv, name@) == match name_position(nv.skip(0), name@) {
        Some(k) => Some((k + 0) as nat),
        None => None::<nat>,
    });
    let mut i: usize = 0;
    while i < names.len()
        invariant
            i <= names@.len(),
            names@.len() == nv.len(),
            nv == regex_capture_names_result(re.source()),
            forall|k: int|
                0 <= k < names@.len() ==> match (#[trigger] names@[k], nv[k]) {
                    (None, None) => true,
                    (Some(s), Some(t)) => s@ == t,
                    _ => false,
                },
            name_position(nv, name@) == match name_position(nv.skip(i as int), name@) {
                Some(k) => Some((k + i) as nat),
                None => None,
            },
        decreases names@.len() - i,
    {
        assert(nv.skip(i as int).drop_first() == nv.skip(i + 1));
        assert(nv.skip(i as int)[0] == nv[i as int]);
        let hit = match &names[i] {
            Some(n) => crate::text::str_eq(n.as_str(), name),
            None => false,
        };
        if hit {
            return Some(i);
        }
        i += 1;
    }
    None
}

/// What replacing all matches of `pattern` by `rep` makes of `text`, where
/// a pattern that does not compile leaves the text unchanged.
pub open spec fn replace_rule(pattern: Seq<char>, rep: Seq<char>, text: Seq<char>) -> Seq<char> {
    if regex_valid(pattern) {
        regex_replace_all_result(pattern, text, rep)
    } else {
        text
    }
}

/// Replace every match of `pattern` in `text` by `rep`.
pub fn replace_with_pattern(pattern: &str, rep: &str, text: &str) -> (r: String)
    ensures
        r@ == replace_rule(pattern@, rep@, text@),
{
    match compile_regex(pattern) {
        Ok(re) => regex_replace_all(&re, text, rep),
        Err(_) => text.to_owned(),
    }
}

/// Does `pattern` compile and match in `text`?
pub open spec fn pattern_matches(pattern: Seq<char>, text: Seq<char>) -> bool {
    regex_valid(pattern) && regex_is_match_result(pattern, text)
}

/// Test `pattern` against `text`; a pattern that does not compile matches
/// nothing.
pub fn matches_pattern(pattern: &str, text: &str) -> (b: bool)
    ensures
        b == pattern_matches(pattern@, text@),
{
    match compile_regex(pattern) {
        Ok(re) => regex_is_match(&re, text),
        Err(_) => false,
    }
}

} // verus!
