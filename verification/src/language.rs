//! Code-block language detection: from class names (`language-rust`) and,
//! failing that, from the code itself (`#!/usr/bin/env python`, `fn main(`).

use vstd::prelude::*;
use crate::regex_support::{
    compile_regex, matches_pattern, pattern_matches, regex_captures, regex_captures_result,
    regex_group_index, regex_group_index_result, regex_valid,
};

verus! {

/// The detection rules: the first pattern that matches names the language.
pub open spec fn language_rules() -> Seq<(Seq<char>, Seq<char>)> {
    seq![
        (r#"(?m)^\s*<\?php\b"#@, "php"@),
        (r#"(?m)^\s*#!\s*/usr/bin/env\s+(?:python3?|python)\b"#@, "python"@),
        (r#"(?m)^\s*#!\s*/usr/bin/python"#@, "python"@),
        (r#"(?m)^\s*#!\s*/usr/bin/env\s+(?:node|nodejs)\b"#@, "javascript"@),
        (r#"(?m)^\s*#!\s*/usr/bin/env\s+ruby\b"#@, "ruby"@),
        (r#"(?m)^\s*#!\s*/usr/bin/env\s+perl\b"#@, "perl"@),
        (r#"(?m)^\s*#!\s*/usr/bin/env\s+lua\b"#@, "lua"@),
        (r#"(?m)^\s*#!\s*/bin/(?:bash|sh)\b"#@, "shell"@),
        (r#"(?m)^\s*#!\s*/bin/zsh\b"#@, "shell"@),
        (r#"(?m)^\s*<!DOCTYPE\s+html\b"#@, "html"@),
        (r#"(?m)^\s*<\?xml\b"#@, "xml"@),
        (r#"(?m)^\s*<html\b"#@, "html"@),
        (r#"(?m)^\s*package\s+main\s*$"#@, "go"@),
        (r#"(?m)^\s*func\s+\w+\s*\("#@, "go"@),
        (r#"(?m)^\s*fn\s+\w+\s*\("#@, "rust"@),
        (r#"(?m)^\s*pub\s+fn\s+\w+\s*\("#@, "rust"@),
        (r#"(?m)^\s*#include\s*[<\"][^>\"]*\.hpp[>\"]|std::"#@, "cpp"@),
        (r#"(?m)^\s*#include\s*[<\"]"#@, "c"@),
        (r#"(?m)^\s*def\s+\w+\s*\("#@, "python"@),
        (r#"(?m)^\s*class\s+\w+\s*\{[^}]*System\.out"#@, "java"@),
        (r#"(?m)^\s*console\.log\("#@, "javascript"@),
        (r#"(?m)^\s*document\."#@, "javascript"@),
        (r#"(?m)^\s*SELECT\s+[\w*]+\s+FROM\s+\w+"#@, "sql"@),
        (r#"(?m)^\s*\$\("#@, "shell"@),
        (r#"(?m)^\s*echo\s+"#@, "shell"@),
        (r#"(?m)^\s*using\s+System"#@, "cs"@),
        (r#"(?m)^\s*@import\s+"#@, "css"@),
        (r#"(?m)^\s*\{\s*[\"\']"#@, "json"@),
        (r#"(?m)^\s*\[\s*[\"\']"#@, "json"@),
        (r#"(?m)^\s*\{\s*\}\s*$"#@, "json"@),
        (r#"(?m)^\s*<\w+[^>]*>"#@, "html"@)
    ]
}

fn language_rules_exec() -> (v: Vec<(&'static str, &'static str)>)
    ensures
        v@.len() == language_rules().len(),
        forall|i: int|
            0 <= i < v@.len() ==> (#[trigger] v@[i]).0@ == language_rules()[i].0 && v@[i].1@
                == language_rules()[i].1,
{
    vec![
        (r#"(?m)^\s*<\?php\b"#, "php"),
        (r#"(?m)^\s*#!\s*/usr/bin/env\s+(?:python3?|python)\b"#, "python"),
        (r#"(?m)^\s*#!\s*/usr/bin/python"#, "python"),
        (r#"(?m)^\s*#!\s*/usr/bin/env\s+(?:node|nodejs)\b"#, "javascript"),
        (r#"(?m)^\s*#!\s*/usr/bin/env\s+ruby\b"#, "ruby"),
        (r#"(?m)^\s*#!\s*/usr/bin/env\s+perl\b"#, "perl"),
        (r#"(?m)^\s*#!\s*/usr/bin/env\s+lua\b"#, "lua"),
        (r#"(?m)^\s*#!\s*/bin/(?:bash|sh)\b"#, "shell"),
        (r#"(?m)^\s*#!\s*/bin/zsh\b"#, "shell"),
        (r#"(?m)^\s*<!DOCTYPE\s+html\b"#, "html"),
        (r#"(?m)^\s*<\?xml\b"#, "xml"),
        (r#"(?m)^\s*<html\b"#, "html"),
        (r#"(?m)^\s*package\s+main\s*$"#, "go"),
        (r#"(?m)^\s*func\s+\w+\s*\("#, "go"),
        (r#"(?m)^\s*fn\s+\w+\s*\("#, "rust"),
        (r#"(?m)^\s*pub\s+fn\s+\w+\s*\("#, "rust"),
        (r#"(?m)^\s*#include\s*[<\"][^>\"]*\.hpp[>\"]|std::"#, "cpp"),
        (r#"(?m)^\s*#include\s*[<\"]"#, "c"),
        (r#"(?m)^\s*def\s+\w+\s*\("#, "python"),
        (r#"(?m)^\s*class\s+\w+\s*\{[^}]*System\.out"#, "java"),
        (r#"(?m)^\s*console\.log\("#, "javascript"),
        (r#"(?m)^\s*document\."#, "javascript"),
        (r#"(?m)^\s*SELECT\s+[\w*]+\s+FROM\s+\w+"#, "sql"),
        (r#"(?m)^\s*\$\("#, "shell"),
        (r#"(?m)^\s*echo\s+"#, "shell"),
        (r#"(?m)^\s*using\s+System"#, "cs"),
        (r#"(?m)^\s*@import\s+"#, "css"),
        (r#"(?m)^\s*\{\s*[\"\']"#, "json"),
        (r#"(?m)^\s*\[\s*[\"\']"#, "json"),
        (r#"(?m)^\s*\{\s*\}\s*$"#, "json"),
        (r#"(?m)^\s*<\w+[^>]*>"#, "html")
    ]
}

/// The language of the first rule from `i` on whose pattern matches `text`.
pub open spec fn detect_from(rules: Seq<(Seq<char>, Seq<char>)>, text: Seq<char>, i: nat) -> Option<Seq<char>>
    decreases rules.len() - i,
{
    if i >= rules.len() {
        None
    } else if pattern_matches(rules[i as int].0, text) {
        Some(rules[i as int].1)
    } else {
        detect_from(rules, text, i + 1)
    }
}

/// Infer a code-block language from the source text.
pub fn detect_language_from_code(text: &str) -> (r: Option<String>)
    ensures
        match (r, detect_from(language_rules(), text@, 0)) {
            (Some(l), Some(m)) => l@ == m,
            (None, None) => true,
            _ => false,
        },
{
    let rules = language_rules_exec();
    let mut i: usize = 0;
    while i < rules.len()
        invariant
            i <= rules@.len(),
            rules@.len() == language_rules().len(),
            forall|k: int|
                0 <= k < rules@.len() ==> (#[trigger] rules@[k]).0@ == language_rules()[k].0
                    && rules@[k].1@ == language_rules()[k].1,
            detect_from(language_rules(), text@, 0) == detect_from(language_rules(), text@, i as nat),
        decreases rules@.len() - i,
    {
        let (pattern, lang) = rules[i];
        if matches_pattern(pattern, text) {
            return Some(lang.to_owned());
        }
        i += 1;
    }
    None
}

/// The language a class-name pattern captures from `class_value`: its
/// `lang` group, else its first group, when non-empty.
pub open spec fn captured_language(pattern: Seq<char>, class_value: Seq<char>) -> Option<Seq<char>> {
    if !regex_valid(pattern) {
        None
    } else {
        match regex_captures_result(pattern, class_value) {
            None => None,
            Some(g) => {
                let named = match regex_group_index_result(pattern, "lang"@) {
                    Some(k) => if k < g.len() { g[k as int] } else { None },
                    None => None,
                };
                let m = if named.is_some() { named } else if g.len() > 1 { g[1] } else { None };
                match m {
                    Some(x) => if x.len() > 0 { Some(x) } else { None },
                    None => None,
                }
            },
        }
    }
}

/// The language captured by the first pattern from `i` on that yields one.
pub open spec fn extract_from(patterns: Seq<Seq<char>>, class_value: Seq<char>, i: nat) -> Option<Seq<char>>
    decreases patterns.len() - i,
{
    if i >= patterns.len() {
        None
    } else {
        match captured_language(patterns[i as int], class_value) {
            Some(l) => Some(l),
            None => extract_from(patterns, class_value, i + 1),
        }
    }
}

fn capture_language(pattern: &str, class_value: &str) -> (r: Option<String>)
    ensures
        match (r, captured_language(pattern@, class_value@)) {
            (Some(l), Some(m)) => l@ == m,
            (None, None) => true,
            _ => false,
        },
{
    let re = match compile_regex(pattern) {
        Ok(re) => re,
        Err(_) => return None,
    };
    let groups = match regex_captures(&re, class_value) {
        Some(g) => g,
        None => return None,
    };
    let named: Option<String> = match regex_group_index(&re, "lang") {
        Some(k) => if k < groups.len() {
            match &groups[k] {
                Some(s) => Some(s.clone()),
                None => None,
            }
        } else {
            None
        },
        None => None,
    };
    let m: Option<String> = if named.is_some() {
        named
    } else if groups.len() > 1 {
        match &groups[1] {
            Some(s) => Some(s.clone()),
            None => None,
        }
    } else {
        None
    };
    match m {
        Some(x) => if !x.as_str().is_empty() { Some(x) } else { None },
        None => None,
    }
}

/// The language named by a class attribute value, from the first of the
/// configured patterns that captures a non-empty `lang` (or first) group.
/// Patterns that do not compile are skipped.
pub fn extract_language(class_value: &str, patterns: &Vec<String>) -> (r: Option<String>)
    ensures
        match (r, extract_from(crate::options::views(*patterns), class_value@, 0)) {
            (Some(l), Some(m)) => l@ == m,
            (None, None) => true,
            _ => false,
        },
{
    let ghost ps = crate::options::views(*patterns);
    let mut i: usize = 0;
    while i < patterns.len()
        invariant
            i <= patterns@.len(),
            ps == crate::options::views(*patterns),
            extract_from(ps, class_value@, 0) == extract_from(ps, class_value@, i as nat),
        decreases patterns@.len() - i,
    {
        let c = capture_language(patterns[i].as_str(), class_value);
        if c.is_some() {
            return c;
        }
        i += 1;
    }
    None
}

/// The language of a code block: from the code element's class, else the
/// enclosing `<pre>`'s class, else (when detection is on) from the code text.
pub open spec fn code_block_language(
    patterns: Seq<Seq<char>>,
    code_class: Seq<char>,
    pre_class: Seq<char>,
    code_text: Seq<char>,
    detect: bool,
) -> Option<Seq<char>> {
    match extract_from(patterns, code_class, 0) {
        Some(l) => Some(l),
        None => match extract_from(patterns, pre_class, 0) {
            Some(l) => Some(l),
            None => if detect { detect_from(language_rules(), code_text, 0) } else { None },
        },
    }
}

/// Decide the language of one code block (an absent class reads as empty).
pub fn choose_code_language(
    patterns: &Vec<String>,
    code_class: &str,
    pre_class: &str,
    code_text: &str,
    detect: bool,
) -> (r: Option<String>)
    ensures
        match (r, code_block_language(crate::options::views(*patterns), code_class@, pre_class@, code_text@, detect)) {
            (Some(l), Some(m)) => l@ == m,
            (None, None) => true,
            _ => false,
        },
{
    let a = extract_language(code_class, patterns);
    if a.is_some() {
        return a;
    }
    let b = extract_language(pre_class, patterns);
    if b.is_some() {
        return b;
    }
    if detect {
        detect_language_from_code(code_text)
    } else {
        None
    }
}

} // verus!
