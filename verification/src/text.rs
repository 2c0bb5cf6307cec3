//! Character-level string helpers shared by every module.
//!
//! Text is modelled as `Seq<char>` (the view of `String`/`&str`); the
//! executable helpers below build and inspect strings one character at a
//! time and state their effect over that view.

use vstd::prelude::*;

verus! {

/// Appends one character to `s` (std's `String::push`).
#[verifier::external_body]
pub fn push_char(s: &mut String, c: char)
    ensures
        final(s)@ == old(s)@.push(c),
{
    s.push(c);
}

/// Appends `t` to `s`.
pub fn push_str(s: &mut String, t: &str)
    ensures
        final(s)@ == old(s)@ + t@,
{
    s.append(t);
}

/// The characters of `s`, in order.
pub fn char_vec(s: &str) -> (v: Vec<char>)
    ensures
        v@ == s@,
{
    let mut v: Vec<char> = Vec::new();
    for c in it: s.chars()
        invariant
            v@ == it.seq().take(it.index() as int),
    {
        v.push(c);
    }
    v
}

/// The string made of `v[lo..hi]`.
pub fn string_of_range(v: &Vec<char>, lo: usize, hi: usize) -> (s: String)
    requires
        lo <= hi <= v@.len(),
    ensures
        s@ == v@.subrange(lo as int, hi as int),
{
    let mut s = String::new();
    let mut i = lo;
    while i < hi
        invariant
            lo <= i <= hi <= v@.len(),
            s@ == v@.subrange(lo as int, i as int),
        decreases hi - i,
    {
        push_char(&mut s, v[i]);
        i += 1;
        assert(s@ == v@.subrange(lo as int, i as int));
    }
    s
}

/// The string made of all of `v`.
pub fn string_of_chars(v: &Vec<char>) -> (s: String)
    ensures
        s@ == v@,
{
    let s = string_of_range(v, 0, v.len());
    assert(v@.subrange(0, v@.len() as int) == v@);
    s
}

/// A string of `n` copies of `c`.
pub fn repeat_char(c: char, n: usize) -> (s: String)
    ensures
        s@ == Seq::new(n as nat, |_i: int| c),
{
    let mut s = String::new();
    let mut i: usize = 0;
    while i < n
        invariant
            i <= n,
            s@ == Seq::new(i as nat, |_j: int| c),
        decreases n - i,
    {
        push_char(&mut s, c);
        i += 1;
        assert(s@ == Seq::new(i as nat, |_j: int| c));
    }
    s
}

// ---------------------------------------------------------------------------
// Character classes
// ---------------------------------------------------------------------------

/// "Document white space" per MDN: space, tab, line feed, carriage return.
pub open spec fn is_doc_ws(c: char) -> bool {
    c == ' ' || c == '\t' || c == '\n' || c == '\r'
}

/// Unicode `White_Space`, the set std's `char::is_whitespace` tests.
pub open spec fn is_unicode_ws(c: char) -> bool {
    ('\u{9}' <= c && c <= '\u{d}') || c == ' ' || c == '\u{85}' || c == '\u{a0}'
        || c == '\u{1680}' || ('\u{2000}' <= c && c <= '\u{200a}') || c == '\u{2028}'
        || c == '\u{2029}' || c == '\u{202f}' || c == '\u{205f}' || c == '\u{3000}'
}

/// ASCII white space as tested by `char::is_ascii_whitespace`.
pub open spec fn is_ascii_ws(c: char) -> bool {
    c == ' ' || c == '\t' || c == '\n' || c == '\u{c}' || c == '\r'
}

pub open spec fn is_ascii_digit(c: char) -> bool {
    '0' <= c && c <= '9'
}

pub open spec fn is_ascii_alpha(c: char) -> bool {
    ('a' <= c && c <= 'z') || ('A' <= c && c <= 'Z')
}

pub open spec fn is_ascii_punct(c: char) -> bool {
    ('!' <= c && c <= '/') || (':' <= c && c <= '@') || ('[' <= c && c <= '`') || ('{' <= c
        && c <= '~')
}

pub fn exec_is_doc_ws(c: char) -> (b: bool)
    ensures
        b == is_doc_ws(c),
{
    c == ' ' || c == '\t' || c == '\n' || c == '\r'
}

pub fn exec_is_unicode_ws(c: char) -> (b: bool)
    ensures
        b == is_unicode_ws(c),
{
    ('\u{9}' <= c && c <= '\u{d}') || c == ' ' || c == '\u{85}' || c == '\u{a0}' || c
        == '\u{1680}' || ('\u{2000}' <= c && c <= '\u{200a}') || c == '\u{2028}' || c
        == '\u{2029}' || c == '\u{202f}' || c == '\u{205f}' || c == '\u{3000}'
}

pub fn exec_is_ascii_ws(c: char) -> (b: bool)
    ensures
        b == is_ascii_ws(c),
{
    c == ' ' || c == '\t' || c == '\n' || c == '\u{c}' || c == '\r'
}

pub fn exec_is_ascii_digit(c: char) -> (b: bool)
    ensures
        b == is_ascii_digit(c),
{
    '0' <= c && c <= '9'
}

pub fn exec_is_ascii_alpha(c: char) -> (b: bool)
    ensures
        b == is_ascii_alpha(c),
{
    ('a' <= c && c <= 'z') || ('A' <= c && c <= 'Z')
}

pub fn exec_is_ascii_punct(c: char) -> (b: bool)
    ensures
        b == is_ascii_punct(c),
{
    ('!' <= c && c <= '/') || (':' <= c && c <= '@') || ('[' <= c && c <= '`') || ('{' <= c
        && c <= '~')
}

// ---------------------------------------------------------------------------
// Trimming
// ---------------------------------------------------------------------------

/// Which characters a trim removes.
#[derive(Clone, Copy, PartialEq, Eq, Structural)]
pub enum TrimSet {
    /// One given character.
    Only(char),
    /// Document white space (space, tab, LF, CR).
    DocWs,
    /// Unicode white space (`str::trim`).
    UnicodeWs,
    /// Any of three given characters.
    AnyOf(char, char, char),
}

pub open spec fn in_set(t: TrimSet, c: char) -> bool {
    match t {
        TrimSet::Only(x) => c == x,
        TrimSet::DocWs => is_doc_ws(c),
        TrimSet::UnicodeWs => is_unicode_ws(c),
        TrimSet::AnyOf(a, b, d) => c == a || c == b || c == d,
    }
}

pub fn exec_in_set(t: TrimSet, c: char) -> (b: bool)
    ensures
        b == in_set(t, c),
{
    match t {
        TrimSet::Only(x) => c == x,
        TrimSet::DocWs => exec_is_doc_ws(c),
        TrimSet::UnicodeWs => exec_is_unicode_ws(c),
        TrimSet::AnyOf(a, b, d) => c == a || c == b || c == d,
    }
}

/// Number of leading characters of `s` in `t`.
pub open spec fn lead_len(s: Seq<char>, t: TrimSet) -> nat
    decreases s.len(),
{
    if s.len() > 0 && in_set(t, s[0]) {
        1 + lead_len(s.drop_first(), t)
    } else {
        0
    }
}

/// Number of trailing characters of `s` in `t`.
pub open spec fn trail_len(s: Seq<char>, t: TrimSet) -> nat
    decreases s.len(),
{
    if s.len() > 0 && in_set(t, s.last()) {
        1 + trail_len(s.drop_last(), t)
    } else {
        0
    }
}

/// `s` without its leading characters in `t` (`trim_start_matches`).
pub open spec fn trim_start(s: Seq<char>, t: TrimSet) -> Seq<char> {
    s.skip(lead_len(s, t) as int)
}

/// `s` without its trailing characters in `t` (`trim_end_matches`).
pub open spec fn trim_end(s: Seq<char>, t: TrimSet) -> Seq<char> {
    s.take(s.len() - trail_len(s, t))
}

/// `s` without leading and trailing characters in `t` (`trim_matches`).
pub open spec fn trim_both(s: Seq<char>, t: TrimSet) -> Seq<char> {
    trim_end(trim_start(s, t), t)
}

pub proof fn lemma_lead_len(s: Seq<char>, t: TrimSet)
    ensures
        lead_len(s, t) <= s.len(),
        forall|i: int| 0 <= i < lead_len(s, t) ==> in_set(t, #[trigger] s[i]),
        lead_len(s, t) < s.len() ==> !in_set(t, s[lead_len(s, t) as int]),
    decreases s.len(),
{
    if s.len() > 0 && in_set(t, s[0]) {
        lemma_lead_len(s.drop_first(), t);
        assert forall|i: int| 0 <= i < lead_len(s, t) implies in_set(t, #[trigger] s[i]) by {
            if i > 0 {
                assert(s[i] == s.drop_first()[i - 1]);
            }
        }
    }
}

pub proof fn lemma_trail_len(s: Seq<char>, t: TrimSet)
    ensures
        trail_len(s, t) <= s.len(),
        forall|i: int| s.len() - trail_len(s, t) <= i < s.len() ==> in_set(t, #[trigger] s[i]),
        trail_len(s, t) < s.len() ==> !in_set(t, s[s.len() - trail_len(s, t) - 1]),
    decreases s.len(),
{
    if s.len() > 0 && in_set(t, s.last()) {
        lemma_trail_len(s.drop_last(), t);
        assert forall|i: int| s.len() - trail_len(s, t) <= i < s.len() implies in_set(
            t,
            #[trigger] s[i],
        ) by {
            if i < s.len() - 1 {
                assert(s[i] == s.drop_last()[i]);
            }
        }
    }
}

/// The leading count is characterised by its two defining properties.
pub proof fn lemma_lead_len_unique(s: Seq<char>, t: TrimSet, k: int)
    requires
        0 <= k <= s.len(),
        forall|i: int| 0 <= i < k ==> in_set(t, #[trigger] s[i]),
        k < s.len() ==> !in_set(t, s[k]),
    ensures
        lead_len(s, t) == k,
    decreases s.len(),
{
    if k > 0 {
        assert(in_set(t, s[0]));
        assert forall|i: int| 0 <= i < k - 1 implies in_set(t, #[trigger] s.drop_first()[i]) by {
            assert(s.drop_first()[i] == s[i + 1]);
        }
        if k - 1 < s.drop_first().len() {
            assert(s.drop_first()[k - 1] == s[k]);
        }
        lemma_lead_len_unique(s.drop_first(), t, k - 1);
    } else if s.len() > 0 {
        assert(!in_set(t, s[0]));
    }
}

/// The trailing count is characterised by its two defining properties.
pub proof fn lemma_trail_len_unique(s: Seq<char>, t: TrimSet, k: int)
    requires
        0 <= k <= s.len(),
        forall|i: int| s.len() - k <= i < s.len() ==> in_set(t, #[trigger] s[i]),
        k < s.len() ==> !in_set(t, s[s.len() - k - 1]),
    ensures
        trail_len(s, t) == k,
    decreases s.len(),
{
    if k > 0 {
        assert(in_set(t, s.last()));
        let d = s.drop_last();
        assert forall|i: int| d.len() - (k - 1) <= i < d.len() implies in_set(t, #[trigger] d[i]) by {
            assert(d[i] == s[i]);
        }
        if k - 1 < d.len() {
            assert(d[d.len() - (k - 1) - 1] == s[s.len() - k - 1]);
        }
        lemma_trail_len_unique(d, t, k - 1);
    } else if s.len() > 0 {
        assert(!in_set(t, s.last()));
    }
}

/// Index of the first character of `v[lo..]` not in `t` (or `v.len()`).
pub fn skip_leading(v: &Vec<char>, lo: usize, t: TrimSet) -> (k: usize)
    requires
        lo <= v@.len(),
    ensures
        lo <= k <= v@.len(),
        k - lo == lead_len(v@.skip(lo as int), t),
{
    let mut k = lo;
    while k < v.len() && exec_in_set(t, v[k])
        invariant
            lo <= k <= v@.len(),
            forall|i: int| lo <= i < k ==> in_set(t, #[trigger] v@[i]),
        decreases v@.len() - k,
    {
        k += 1;
    }
    proof {
        let s = v@.skip(lo as int);
        assert forall|i: int| 0 <= i < k - lo implies in_set(t, #[trigger] s[i]) by {
            assert(s[i] == v@[lo + i]);
        }
        if k - lo < s.len() {
            assert(s[k - lo] == v@[k as int]);
        }
        lemma_lead_len_unique(s, t, k - lo);
    }
    k
}

/// End index of `v[..hi]` once trailing characters in `t` are dropped.
pub fn skip_trailing(v: &Vec<char>, hi: usize, t: TrimSet) -> (k: usize)
    requires
        hi <= v@.len(),
    ensures
        k <= hi,
        hi - k == trail_len(v@.take(hi as int), t),
{
    let mut k = hi;
    while k > 0 && exec_in_set(t, v[k - 1])
        invariant
            k <= hi <= v@.len(),
            forall|i: int| k <= i < hi ==> in_set(t, #[trigger] v@[i]),
        decreases k,
    {
        k -= 1;
    }
    proof {
        let s = v@.take(hi as int);
        assert forall|i: int| s.len() - (hi - k) <= i < s.len() implies in_set(
            t,
            #[trigger] s[i],
        ) by {
            assert(s[i] == v@[i]);
        }
        if hi - k < s.len() {
            assert(s[s.len() - (hi - k) - 1] == v@[k - 1]);
        }
        lemma_trail_len_unique(s, t, (hi - k) as int);
    }
    k
}

/// `trim_start_matches`.
pub fn trim_start_string(s: &str, t: TrimSet) -> (r: String)
    ensures
        r@ == trim_start(s@, t),
{
    let v = char_vec(s);
    let k = skip_leading(&v, 0, t);
    assert(v@.skip(0) == v@);
    string_of_range(&v, k, v.len())
}

/// `trim_end_matches`.
pub fn trim_end_string(s: &str, t: TrimSet) -> (r: String)
    ensures
        r@ == trim_end(s@, t),
{
    let v = char_vec(s);
    let k = skip_trailing(&v, v.len(), t);
    assert(v@.take(v@.len() as int) == v@);
    string_of_range(&v, 0, k)
}

/// `trim_matches` / `trim`.
pub fn trim_string(s: &str, t: TrimSet) -> (r: String)
    ensures
        r@ == trim_both(s@, t),
{
    let a = trim_start_string(s, t);
    trim_end_string(a.as_str(), t)
}

// ---------------------------------------------------------------------------
// Numbers
// ---------------------------------------------------------------------------

pub open spec fn digit_char(d: nat) -> char
    recommends
        d < 10,
{
    ((d + 48) as u32) as char
}

/// Decimal representation of `n` (what `n.to_string()` yields).
pub open spec fn decimal(n: nat) -> Seq<char>
    decreases n,
{
    if n < 10 {
        seq![digit_char(n)]
    } else {
        decimal(n / 10).push(digit_char(n % 10))
    }
}

pub proof fn lemma_decimal_len(n: nat)
    ensures
        decimal(n).len() >= 1,
        n < 10 <==> decimal(n).len() == 1,
    decreases n,
{
    if n >= 10 {
        lemma_decimal_len(n / 10);
    }
}

fn digit(d: usize) -> (c: char)
    requires
        d < 10,
    ensures
        c == digit_char(d as nat),
{
    if d == 0 { '0' } else if d == 1 { '1' } else if d == 2 { '2' } else if d == 3 { '3' }
    else if d == 4 { '4' } else if d == 5 { '5' } else if d == 6 { '6' } else if d == 7 { '7' }
    else if d == 8 { '8' } else { '9' }
}

/// `n.to_string()` for `usize`.
pub fn usize_to_string(n: usize) -> (s: String)
    ensures
        s@ == decimal(n as nat),
    decreases n,
{
    if n < 10 {
        let mut s = String::new();
        push_char(&mut s, digit(n));
        assert(s@ == seq![digit_char(n as nat)]);
        s
    } else {
        let mut s = usize_to_string(n / 10);
        push_char(&mut s, digit(n % 10));
        s
    }
}

/// `n.to_string()` for `u64`.
pub fn u64_to_string(n: u64) -> (s: String)
    ensures
        s@ == decimal(n as nat),
    decreases n,
{
    if n < 10 {
        let mut s = String::new();
        push_char(&mut s, digit(n as usize));
        assert(s@ == seq![digit_char(n as nat)]);
        s
    } else {
        let mut s = u64_to_string(n / 10);
        push_char(&mut s, digit((n % 10) as usize));
        s
    }
}

/// `n.to_string()` for `u32`.
pub fn u32_to_string(n: u32) -> (s: String)
    ensures
        s@ == decimal(n as nat),
{
    u64_to_string(n as u64)
}

// ---------------------------------------------------------------------------
// Searching
// ---------------------------------------------------------------------------

/// `p` occurs in `s` starting at `i`.
pub open spec fn occurs_at(s: Seq<char>, p: Seq<char>, i: int) -> bool {
    0 <= i && i + p.len() <= s.len() && s.subrange(i, i + p.len()) == p
}

/// `s.contains(p)` for a string pattern.
pub open spec fn contains_seq(s: Seq<char>, p: Seq<char>) -> bool {
    exists|i: int| occurs_at(s, p, i)
}

/// `s.contains(c)` for a character.
pub open spec fn has_char(s: Seq<char>, c: char) -> bool {
    exists|i: int| 0 <= i < s.len() && s[i] == c
}

pub open spec fn starts_with(s: Seq<char>, p: Seq<char>) -> bool {
    p.len() <= s.len() && s.take(p.len() as int) == p
}

pub open spec fn ends_with(s: Seq<char>, p: Seq<char>) -> bool {
    p.len() <= s.len() && s.skip(s.len() - p.len()) == p
}

/// Does `v[i..]` start with `p`?
pub fn occurs_at_exec(v: &Vec<char>, p: &Vec<char>, i: usize) -> (b: bool)
    requires
        i <= v@.len(),
    ensures
        b == occurs_at(v@, p@, i as int),
{
    if p.len() > v.len() - i {
        return false;
    }
    let mut j: usize = 0;
    while j < p.len()
        invariant
            i + p@.len() <= v.len(),
            j <= p@.len(),
            forall|k: int| 0 <= k < j ==> v@[i + k] == p@[k],
        decreases p@.len() - j,
    {
        if v[i + j] != p[j] {
            assert(v@.subrange(i as int, i + p@.len())[j as int] != p@[j as int]);
            return false;
        }
        j += 1;
    }
    assert(v@.subrange(i as int, i + p@.len()) =~= p@);
    true
}

/// `s.contains(p)`.
pub fn contains_exec(v: &Vec<char>, p: &Vec<char>) -> (b: bool)
    ensures
        b == contains_seq(v@, p@),
{
    if p.len() > v.len() {
        assert forall|k: int| !occurs_at(v@, p@, k) by {}
        return false;
    }
    let last = v.len() - p.len();
    let mut i: usize = 0;
    while i < last
        invariant
            last == v@.len() - p@.len(),
            i <= last,
            forall|k: int| 0 <= k < i ==> !occurs_at(v@, p@, k),
        decreases last - i,
    {
        if occurs_at_exec(v, p, i) {
            return true;
        }
        i += 1;
    }
    if occurs_at_exec(v, p, last) {
        return true;
    }
    assert forall|k: int| !occurs_at(v@, p@, k) by {}
    false
}

/// `s.contains(c)`.
pub fn has_char_exec(v: &Vec<char>, c: char) -> (b: bool)
    ensures
        b == has_char(v@, c),
{
    let mut i: usize = 0;
    while i < v.len()
        invariant
            i <= v@.len(),
            forall|k: int| 0 <= k < i ==> v@[k] != c,
        decreases v@.len() - i,
    {
        if v[i] == c {
            return true;
        }
        i += 1;
    }
    false
}

/// `s.starts_with(p)`.
pub fn starts_with_exec(v: &Vec<char>, p: &Vec<char>) -> (b: bool)
    ensures
        b == starts_with(v@, p@),
{
    let r = occurs_at_exec(v, p, 0);
    proof {
        if p@.len() <= v@.len() {
            assert(v@.subrange(0, p@.len() as int) == v@.take(p@.len() as int));
        }
    }
    r
}

/// `s.ends_with(p)`.
pub fn ends_with_exec(v: &Vec<char>, p: &Vec<char>) -> (b: bool)
    ensures
        b == ends_with(v@, p@),
{
    if p.len() > v.len() {
        return false;
    }
    let r = occurs_at_exec(v, p, v.len() - p.len());
    assert(v@.subrange(v@.len() - p@.len(), v@.len() as int) == v@.skip(v@.len() - p@.len()));
    r
}

// ---------------------------------------------------------------------------
// Character-wise rewriting
// ---------------------------------------------------------------------------

/// `s` with every character `c` replaced by `f(c)`, concatenated.
pub open spec fn flat_map(s: Seq<char>, f: spec_fn(char) -> Seq<char>) -> Seq<char>
    decreases s.len(),
{
    if s.len() == 0 {
        Seq::empty()
    } else {
        flat_map(s.drop_last(), f) + f(s.last())
    }
}

pub proof fn lemma_flat_map_concat(a: Seq<char>, b: Seq<char>, f: spec_fn(char) -> Seq<char>)
    ensures
        flat_map(a + b, f) == flat_map(a, f) + flat_map(b, f),
    decreases b.len(),
{
    if b.len() == 0 {
        assert(a + b == a);
    } else {
        assert((a + b).drop_last() == a + b.drop_last());
        lemma_flat_map_concat(a, b.drop_last(), f);
        assert((a + b).last() == b.last());
    }
}

pub proof fn lemma_flat_map_cons(c: char, rest: Seq<char>, f: spec_fn(char) -> Seq<char>)
    ensures
        flat_map(seq![c] + rest, f) == f(c) + flat_map(rest, f),
{
    lemma_flat_map_concat(seq![c], rest, f);
    let e = Seq::<char>::empty();
    assert(seq![c].drop_last() == e);
    assert(flat_map(e, f) == e);
    assert(flat_map(seq![c], f) == flat_map(e, f) + f(c));
    assert(e + f(c) == f(c));
}

/// Taking one more character of `s` appends its image.
pub proof fn lemma_flat_map_take(s: Seq<char>, i: int, f: spec_fn(char) -> Seq<char>)
    requires
        0 <= i < s.len(),
    ensures
        flat_map(s.take(i + 1), f) == flat_map(s.take(i), f) + f(s[i]),
{
    assert(s.take(i + 1).drop_last() == s.take(i));
}

/// `char::from_u32`: the character with code point `x`, if `x` is a Unicode
/// scalar value.
#[verifier::external_body]
pub fn char_from_u32(x: u32) -> (r: Option<char>)
    ensures
        r.is_some() == (x < 0xD800 || (0xE000 <= x && x <= 0x10FFFF)),
        r matches Some(c) ==> c as u32 == x,
{
    char::from_u32(x)
}

/// Upper-case ASCII letter of `c` (`char::to_ascii_uppercase`).
pub open spec fn ascii_upper(c: char) -> char {
    match c {
        'a' => 'A',
        'b' => 'B',
        'c' => 'C',
        'd' => 'D',
        'e' => 'E',
        'f' => 'F',
        'g' => 'G',
        'h' => 'H',
        'i' => 'I',
        'j' => 'J',
        'k' => 'K',
        'l' => 'L',
        'm' => 'M',
        'n' => 'N',
        'o' => 'O',
        'p' => 'P',
        'q' => 'Q',
        'r' => 'R',
        's' => 'S',
        't' => 'T',
        'u' => 'U',
        'v' => 'V',
        'w' => 'W',
        'x' => 'X',
        'y' => 'Y',
        'z' => 'Z',
        _ => c,
    }
}

/// Lower-case ASCII letter of `c` (`char::to_ascii_lowercase`).
pub open spec fn ascii_lower(c: char) -> char {
    match c {
        'A' => 'a',
        'B' => 'b',
        'C' => 'c',
        'D' => 'd',
        'E' => 'e',
        'F' => 'f',
        'G' => 'g',
        'H' => 'h',
        'I' => 'i',
        'J' => 'j',
        'K' => 'k',
        'L' => 'l',
        'M' => 'm',
        'N' => 'n',
        'O' => 'o',
        'P' => 'p',
        'Q' => 'q',
        'R' => 'r',
        'S' => 's',
        'T' => 't',
        'U' => 'u',
        'V' => 'v',
        'W' => 'w',
        'X' => 'x',
        'Y' => 'y',
        'Z' => 'z',
        _ => c,
    }
}

pub fn exec_ascii_upper(c: char) -> (r: char)
    ensures
        r == ascii_upper(c),
{
    match c {
        'a' => 'A',
        'b' => 'B',
        'c' => 'C',
        'd' => 'D',
        'e' => 'E',
        'f' => 'F',
        'g' => 'G',
        'h' => 'H',
        'i' => 'I',
        'j' => 'J',
        'k' => 'K',
        'l' => 'L',
        'm' => 'M',
        'n' => 'N',
        'o' => 'O',
        'p' => 'P',
        'q' => 'Q',
        'r' => 'R',
        's' => 'S',
        't' => 'T',
        'u' => 'U',
        'v' => 'V',
        'w' => 'W',
        'x' => 'X',
        'y' => 'Y',
        'z' => 'Z',
        _ => c,
    }
}

pub fn exec_ascii_lower(c: char) -> (r: char)
    ensures
        r == ascii_lower(c),
{
    match c {
        'A' => 'a',
        'B' => 'b',
        'C' => 'c',
        'D' => 'd',
        'E' => 'e',
        'F' => 'f',
        'G' => 'g',
        'H' => 'h',
        'I' => 'i',
        'J' => 'j',
        'K' => 'k',
        'L' => 'l',
        'M' => 'm',
        'N' => 'n',
        'O' => 'o',
        'P' => 'p',
        'Q' => 'q',
        'R' => 'r',
        'S' => 's',
        'T' => 't',
        'U' => 'u',
        'V' => 'v',
        'W' => 'w',
        'X' => 'x',
        'Y' => 'y',
        'Z' => 'z',
        _ => c,
    }
}

/// `s.to_ascii_uppercase()`.
pub fn to_ascii_upper_string(s: &str) -> (r: String)
    ensures
        r@ == s@.map_values(|c: char| ascii_upper(c)),
{
    let v = char_vec(s);
    let mut r = String::new();
    let mut i: usize = 0;
    while i < v.len()
        invariant
            i <= v@.len(),
            v@ == s@,
            r@ == v@.take(i as int).map_values(|c: char| ascii_upper(c)),
        decreases v@.len() - i,
    {
        push_char(&mut r, exec_ascii_upper(v[i]));
        i += 1;
        assert(r@ == v@.take(i as int).map_values(|c: char| ascii_upper(c)));
    }
    assert(v@.take(v@.len() as int) == v@);
    r
}

/// `s.to_ascii_lowercase()`.
pub fn to_ascii_lower_string(s: &str) -> (r: String)
    ensures
        r@ == s@.map_values(|c: char| ascii_lower(c)),
{
    let v = char_vec(s);
    let mut r = String::new();
    let mut i: usize = 0;
    while i < v.len()
        invariant
            i <= v@.len(),
            v@ == s@,
            r@ == v@.take(i as int).map_values(|c: char| ascii_lower(c)),
        decreases v@.len() - i,
    {
        push_char(&mut r, exec_ascii_lower(v[i]));
        i += 1;
        assert(r@ == v@.take(i as int).map_values(|c: char| ascii_lower(c)));
    }
    assert(v@.take(v@.len() as int) == v@);
    r
}

/// Is `a` equal to `b` ignoring ASCII case (`str::eq_ignore_ascii_case`)?
pub open spec fn eq_ignore_ascii_case(a: Seq<char>, b: Seq<char>) -> bool {
    a.map_values(|c: char| ascii_lower(c)) == b.map_values(|c: char| ascii_lower(c))
}

pub fn exec_eq_ignore_ascii_case(a: &str, b: &str) -> (r: bool)
    ensures
        r == eq_ignore_ascii_case(a@, b@),
{
    let x = to_ascii_lower_string(a);
    let y = to_ascii_lower_string(b);
    x == y
}

/// No character of `s` maps to a sequence containing `x`, then `x` does not
/// occur in the rewritten string.
pub proof fn lemma_flat_map_avoids(s: Seq<char>, f: spec_fn(char) -> Seq<char>, x: char)
    requires
        forall|c: char| !has_char(#[trigger] f(c), x),
    ensures
        !has_char(flat_map(s, f), x),
    decreases s.len(),
{
    if s.len() > 0 {
        lemma_flat_map_avoids(s.drop_last(), f, x);
        let a = flat_map(s.drop_last(), f);
        let b = f(s.last());
        assert(!has_char(b, x));
        assert forall|i: int| 0 <= i < (a + b).len() implies (a + b)[i] != x by {
            if i < a.len() {
                assert((a + b)[i] == a[i]);
            } else {
                assert((a + b)[i] == b[i - a.len()]);
            }
        }
    }
}

// ---------------------------------------------------------------------------
// Joining
// ---------------------------------------------------------------------------

/// The pieces of `parts` separated by `sep` (`[..].join(sep)`).
pub open spec fn join(parts: Seq<Seq<char>>, sep: Seq<char>) -> Seq<char>
    decreases parts.len(),
{
    if parts.len() == 0 {
        Seq::empty()
    } else if parts.len() == 1 {
        parts[0]
    } else {
        join(parts.drop_last(), sep) + sep + parts.last()
    }
}

/// `parts.join(sep)` for a list of strings.
pub fn join_strings(parts: &Vec<String>, sep: &str) -> (r: String)
    ensures
        r@ == join(parts@.map_values(|s: String| s@), sep@),
{
    let ghost views = parts@.map_values(|s: String| s@);
    let mut r = String::new();
    let mut i: usize = 0;
    while i < parts.len()
        invariant
            i <= parts@.len(),
            views == parts@.map_values(|s: String| s@),
            r@ == join(views.take(i as int), sep@),
        decreases parts@.len() - i,
    {
        if i > 0 {
            push_str(&mut r, sep);
        }
        push_str(&mut r, parts[i].as_str());
        proof {
            assert(views.take(i + 1).drop_last() == views.take(i as int));
            if i == 0 {
                assert(r@ == views[0]);
            }
        }
        i += 1;
    }
    assert(views.take(parts@.len() as int) == views);
    r
}

// ---------------------------------------------------------------------------
// Equality, indexed concatenation and lines
// ---------------------------------------------------------------------------

/// `a == b` on string slices.
pub fn str_eq(a: &str, b: &str) -> (r: bool)
    ensures
        r == (a@ == b@),
{
    a.to_owned() == b.to_owned()
}

/// The pieces `f(0) + f(1) + ... + f(n - 1)`.
pub open spec fn concat_map(n: nat, f: spec_fn(int) -> Seq<char>) -> Seq<char>
    decreases n,
{
    if n == 0 {
        Seq::empty()
    } else {
        concat_map((n - 1) as nat, f) + f(n - 1)
    }
}

/// Two piece functions that agree below `n` give the same concatenation.
pub proof fn lemma_concat_map_ext(n: nat, f: spec_fn(int) -> Seq<char>, g: spec_fn(int) -> Seq<char>)
    requires
        forall|i: int| 0 <= i < n ==> #[trigger] f(i) == g(i),
    ensures
        concat_map(n, f) == concat_map(n, g),
    decreases n,
{
    if n > 0 {
        lemma_concat_map_ext((n - 1) as nat, f, g);
    }
}

/// Position of the first `c` in `s` at or after `from`, if any.
pub open spec fn find_from(s: Seq<char>, c: char, from: int) -> Option<int>
    decreases s.len() - from,
{
    if from < 0 || from >= s.len() {
        None
    } else if s[from] == c {
        Some(from)
    } else {
        find_from(s, c, from + 1)
    }
}

pub proof fn lemma_find_from(s: Seq<char>, c: char, from: int)
    requires
        0 <= from,
    ensures
        match find_from(s, c, from) {
            Some(k) => from <= k < s.len() && s[k] == c && forall|j: int| from <= j < k ==> s[j] != c,
            None => forall|j: int| from <= j < s.len() ==> s[j] != c,
        },
    decreases s.len() - from,
{
    if from < s.len() && s[from] != c {
        lemma_find_from(s, c, from + 1);
    }
}

/// One line as `str::lines` yields it: without its `\n`, and without the
/// `\r` of a `\r\n` ending.
pub open spec fn strip_cr(line: Seq<char>, had_newline: bool) -> Seq<char> {
    if had_newline && line.len() > 0 && line.last() == '\r' {
        line.drop_last()
    } else {
        line
    }
}

/// The lines of `s` from position `p` on (`str::lines`): split after each
/// `\n`; a final empty piece is not a line.
pub open spec fn lines_from(s: Seq<char>, p: int) -> Seq<Seq<char>>
    decreases s.len() - p,
{
    if p < 0 || p >= s.len() {
        Seq::empty()
    } else {
        match find_from(s, '\n', p) {
            Some(k) => {
                proof {
                    lemma_find_from(s, '\n', p);
                }
                seq![strip_cr(s.subrange(p, k), true)] + lines_from(s, k + 1)
            },
            None => seq![s.subrange(p, s.len() as int)],
        }
    }
}

/// `s.lines()`.
pub open spec fn lines(s: Seq<char>) -> Seq<Seq<char>> {
    lines_from(s, 0)
}

/// The lines of `s`, as `str::lines` yields them.
pub fn split_lines(s: &str) -> (r: Vec<String>)
    ensures
        r@.map_values(|x: String| x@) == lines(s@),
{
    let v = char_vec(s);
    let mut out: Vec<String> = Vec::new();
    let mut p: usize = 0;
    while p < v.len()
        invariant
            p <= v@.len(),
            v@ == s@,
            out@.map_values(|x: String| x@) + lines_from(s@, p as int) == lines(s@),
        decreases v@.len() - p,
    {
        let mut k = p;
        while k < v.len() && v[k] != '\n'
            invariant
                p <= k <= v@.len(),
                forall|j: int| p <= j < k ==> v@[j] != '\n',
            decreases v@.len() - k,
        {
            k += 1;
        }
        proof {
            lemma_find_from(s@, '\n', p as int);
        }
        if k < v.len() {
            let mut end = k;
            if end > p && v[end - 1] == '\r' {
                end = end - 1;
            }
            let line = string_of_range(&v, p, end);
            proof {
                assert(find_from(s@, '\n', p as int) == Some(k as int));
                assert(line@ == strip_cr(s@.subrange(p as int, k as int), true));
            }
            let ghost before = out@.map_values(|x: String| x@);
            out.push(line);
            proof {
                assert(out@.map_values(|x: String| x@) == before.push(line@));
                assert(lines_from(s@, p as int) == seq![line@] + lines_from(s@, k + 1));
                assert(before.push(line@) + lines_from(s@, k + 1) == before + (seq![line@] + lines_from(s@, k + 1)));
            }
            p = k + 1;
        } else {
            let line = string_of_range(&v, p, v.len());
            let ghost before = out@.map_values(|x: String| x@);
            out.push(line);
            proof {
                assert(find_from(s@, '\n', p as int) == None::<int>);
                assert(out@.map_values(|x: String| x@) == before.push(line@));
                assert(lines_from(s@, v@.len() as int) == Seq::<Seq<char>>::empty());
                assert(before.push(line@) + Seq::<Seq<char>>::empty() == before + lines_from(s@, p as int));
            }
            p = v.len();
        }
    }
    proof {
        assert(lines_from(s@, p as int) == Seq::<Seq<char>>::empty());
        assert(out@.map_values(|x: String| x@) + Seq::<Seq<char>>::empty() == out@.map_values(|x: String| x@));
    }
    out
}

/// The views of a list of string slices.
pub open spec fn str_views(v: Seq<&str>) -> Seq<Seq<char>> {
    v.map_values(|x: &str| x@)
}

/// Is `s` one of the strings of `list`?
pub fn member(s: &str, list: &Vec<&str>) -> (b: bool)
    ensures
        b == str_views(list@).contains(s@),
{
    let mut i: usize = 0;
    while i < list.len()
        invariant
            i <= list@.len(),
            forall|j: int| 0 <= j < i ==> list@[j]@ != s@,
        decreases list@.len() - i,
    {
        if str_eq(s, list[i]) {
            assert(str_views(list@)[i as int] == s@);
            return true;
        }
        i += 1;
    }
    proof {
        if str_views(list@).contains(s@) {
            let k = choose|k: int| 0 <= k < str_views(list@).len() && str_views(list@)[k] == s@;
            assert(list@[k]@ == s@);
        }
    }
    false
}

// ---------------------------------------------------------------------------
// Parsing integers
// ---------------------------------------------------------------------------

/// The value of a string of ASCII digits.
pub open spec fn digits_value(s: Seq<char>) -> int
    decreases s.len(),
{
    if s.len() == 0 {
        0
    } else {
        10 * digits_value(s.drop_last()) + (s.last() as int - '0' as int)
    }
}

pub open spec fn all_digits(s: Seq<char>) -> bool {
    forall|i: int| 0 <= i < s.len() ==> is_ascii_digit(#[trigger] s[i])
}

/// An optionally signed decimal integer, as std's integer `FromStr` reads it.
pub open spec fn parsed_int(s: Seq<char>) -> Option<int> {
    let signed = s.len() > 0 && (s[0] == '+' || s[0] == '-');
    let body = if signed {
        s.drop_first()
    } else {
        s
    };
    if body.len() > 0 && all_digits(body) {
        Some(if signed && s[0] == '-' {
            -digits_value(body)
        } else {
            digits_value(body)
        })
    } else {
        None
    }
}

/// `s.parse::<i32>()`: the value when `s` is a decimal integer in range.
pub open spec fn parsed_i32(s: Seq<char>) -> Option<i32> {
    match parsed_int(s) {
        Some(v) => if i32::MIN <= v <= i32::MAX {
            Some(v as i32)
        } else {
            None
        },
        None => None,
    }
}

proof fn lemma_digits_value_nonneg(s: Seq<char>)
    requires
        all_digits(s),
    ensures
        digits_value(s) >= 0,
    decreases s.len(),
{
    if s.len() > 0 {
        assert(all_digits(s.drop_last())) by {
            assert forall|i: int| 0 <= i < s.drop_last().len() implies is_ascii_digit(#[trigger] s.drop_last()[i]) by {
                assert(s.drop_last()[i] == s[i]);
            }
        }
        lemma_digits_value_nonneg(s.drop_last());
        assert(is_ascii_digit(s[s.len() - 1]));
    }
}

proof fn lemma_digits_value_grows(s: Seq<char>, i: int)
    requires
        all_digits(s),
        0 <= i <= s.len(),
    ensures
        digits_value(s.take(i)) <= digits_value(s),
    decreases s.len() - i,
{
    if i < s.len() {
        lemma_digits_value_grows(s, i + 1);
        assert(s.take(i + 1).drop_last() == s.take(i));
        assert(all_digits(s.take(i))) by {
            assert forall|j: int| 0 <= j < s.take(i).len() implies is_ascii_digit(#[trigger] s.take(i)[j]) by {
                assert(s.take(i)[j] == s[j]);
            }
        }
        lemma_digits_value_nonneg(s.take(i));
        assert(is_ascii_digit(s[i]));
    } else {
        assert(s.take(i) == s);
    }
}

/// Are `v[j..]` all ASCII digits?
fn digits_from(v: &Vec<char>, j: usize) -> (b: bool)
    requires
        j <= v@.len(),
    ensures
        b == forall|t: int| j <= t < v@.len() ==> is_ascii_digit(#[trigger] v@[t]),
{
    let mut k = j;
    while k < v.len()
        invariant
            j <= k <= v@.len(),
            forall|t: int| j <= t < k ==> is_ascii_digit(#[trigger] v@[t]),
        decreases v@.len() - k,
    {
        if !('0' <= v[k] && v[k] <= '9') {
            assert(!is_ascii_digit(v@[k as int]));
            return false;
        }
        k += 1;
    }
    true
}

/// `s.parse::<i32>().ok()`.
pub fn parse_i32(s: &str) -> (r: Option<i32>)
    ensures
        r == parsed_i32(s@),
{
    let v = char_vec(s);
    let signed = v.len() > 0 && (v[0] == '+' || v[0] == '-');
    let neg = signed && v[0] == '-';
    let start: usize = if signed { 1 } else { 0 };
    let ghost body = if signed { s@.drop_first() } else { s@ };
    assert(body == v@.skip(start as int));
    if start >= v.len() {
        return None;
    }
    let mut value: u64 = 0;
    let mut i = start;
    while i < v.len()
        invariant
            start <= i <= v@.len(),
            body == v@.skip(start as int),
            v@ == s@,
            body == (if signed { s@.drop_first() } else { s@ }),
            signed == (s@.len() > 0 && (s@[0] == '+' || s@[0] == '-')),
            forall|j: int| start <= j < i ==> is_ascii_digit(#[trigger] v@[j]),
            value == digits_value(body.take(i - start)),
            value <= 0x8000_0000,
        decreases v@.len() - i,
    {
        let c = v[i];
        if !('0' <= c && c <= '9') {
            assert(!is_ascii_digit(body[i - start]));
            return None;
        }
        let d = (c as u32 - '0' as u32) as u64;
        assert(body.take(i + 1 - start).drop_last() == body.take(i - start));
        let next = value * 10 + d;
        if next > 0x8000_0000 {
            proof {
                let k = i + 1 - start;
                assert forall|j: int| 0 <= j < k implies is_ascii_digit(#[trigger] body.take(k)[j]) by {
                    assert(body.take(k)[j] == v@[start + j]);
                }
                if all_digits(body) {
                    lemma_digits_value_grows(body, k);
                }
            }
            if digits_from(&v, i + 1) {
                assert(all_digits(body)) by {
                    assert forall|t: int| 0 <= t < body.len() implies is_ascii_digit(#[trigger] body[t]) by {
                        assert(body[t] == v@[start + t]);
                    }
                }
            } else {
                assert(!all_digits(body)) by {
                    let t = choose|t: int| i + 1 <= t < v@.len() && !is_ascii_digit(v@[t]);
                    assert(body[t - start] == v@[t]);
                }
            }
            return None;
        }
        value = next;
        i += 1;
    }
    assert(body.take(v@.len() - start) == body);
    assert(all_digits(body)) by {
        assert forall|j: int| 0 <= j < body.len() implies is_ascii_digit(#[trigger] body[j]) by {
            assert(body[j] == v@[start + j]);
        }
    }
    if neg {
        if value <= 0x8000_0000 {
            let r = (0i64 - value as i64) as i32;
            Some(r)
        } else {
            None
        }
    } else if value <= 0x7fff_ffff {
        Some(value as i32)
    } else {
        None
    }
}

/// The value of `s` when it is `+`-signed or unsigned decimal digits and
/// at most `2^32 - 1`.
pub fn parse_u32_digits(s: &str) -> (r: Option<u32>)
    ensures
        r == (if s@.len() > 0 && s@[0] == '-' {
            None
        } else {
            match parsed_int(s@) {
                Some(v) => if 0 <= v <= u32::MAX {
                    Some(v as u32)
                } else {
                    None
                },
                None => None,
            }
        }),
{
    let v = char_vec(s);
    if v.len() > 0 && v[0] == '-' {
        return None;
    }
    let signed = v.len() > 0 && (v[0] == '+' || v[0] == '-');
    let start: usize = if signed { 1 } else { 0 };
    let ghost body = if signed { s@.drop_first() } else { s@ };
    assert(body == v@.skip(start as int));
    if start >= v.len() {
        return None;
    }
    let mut value: u64 = 0;
    let mut i = start;
    while i < v.len()
        invariant
            start <= i <= v@.len(),
            body == v@.skip(start as int),
            v@ == s@,
            body == (if signed { s@.drop_first() } else { s@ }),
            signed == (s@.len() > 0 && (s@[0] == '+' || s@[0] == '-')),
            forall|j: int| start <= j < i ==> is_ascii_digit(#[trigger] v@[j]),
            value == digits_value(body.take(i - start)),
            value <= 0x1_0000_0000,
        decreases v@.len() - i,
    {
        let c = v[i];
        if !('0' <= c && c <= '9') {
            assert(!is_ascii_digit(body[i - start]));
            return None;
        }
        let d = (c as u32 - '0' as u32) as u64;
        assert(body.take(i + 1 - start).drop_last() == body.take(i - start));
        let next = value * 10 + d;
        if next > 0x1_0000_0000 {
            proof {
                let k = i + 1 - start;
                assert forall|j: int| 0 <= j < k implies is_ascii_digit(#[trigger] body.take(k)[j]) by {
                    assert(body.take(k)[j] == v@[start + j]);
                }
                if all_digits(body) {
                    lemma_digits_value_grows(body, k);
                }
            }
            if digits_from(&v, i + 1) {
                assert(all_digits(body)) by {
                    assert forall|t: int| 0 <= t < body.len() implies is_ascii_digit(#[trigger] body[t]) by {
                        assert(body[t] == v@[start + t]);
                    }
                }
            } else {
                assert(!all_digits(body)) by {
                    let t = choose|t: int| i + 1 <= t < v@.len() && !is_ascii_digit(v@[t]);
                    assert(body[t - start] == v@[t]);
                }
            }
            return None;
        }
        value = next;
        i += 1;
    }
    assert(body.take(v@.len() - start) == body);
    assert(all_digits(body)) by {
        assert forall|j: int| 0 <= j < body.len() implies is_ascii_digit(#[trigger] body[j]) by {
            assert(body[j] == v@[start + j]);
        }
    }
    if value <= 0xffff_ffff {
        Some(value as u32)
    } else {
        None
    }
}

// ---------------------------------------------------------------------------
// Replacing and splitting
// ---------------------------------------------------------------------------

/// `s[i..]` with every occurrence of `p`, left to right and not
/// overlapping, replaced by `r`.
pub open spec fn replaced_from(s: Seq<char>, p: Seq<char>, r: Seq<char>, i: int) -> Seq<char>
    recommends
        p.len() > 0,
    decreases s.len() - i,
{
    if i < 0 || i >= s.len() || p.len() == 0 {
        if 0 <= i <= s.len() {
            s.skip(i)
        } else {
            Seq::empty()
        }
    } else if occurs_at(s, p, i) {
        r + replaced_from(s, p, r, i + p.len())
    } else {
        seq![s[i]] + replaced_from(s, p, r, i + 1)
    }
}

/// `s.replace(p, r)` for a non-empty pattern.
pub open spec fn replaced(s: Seq<char>, p: Seq<char>, r: Seq<char>) -> Seq<char> {
    replaced_from(s, p, r, 0)
}

/// `s.replace(p, r)`.
pub fn str_replace(s: &str, p: &str, r: &str) -> (out: String)
    requires
        p@.len() > 0,
    ensures
        out@ == replaced(s@, p@, r@),
{
    let v = char_vec(s);
    let pv = char_vec(p);
    let mut out = String::new();
    let mut i: usize = 0;
    while i < v.len()
        invariant
            i <= v@.len(),
            v@ == s@,
            pv@ == p@,
            p@.len() > 0,
            out@ + replaced_from(v@, pv@, r@, i as int) == replaced(v@, pv@, r@),
        decreases v@.len() - i,
    {
        if occurs_at_exec(&v, &pv, i) {
            push_str(&mut out, r);
            i = i + pv.len();
        } else {
            push_char(&mut out, v[i]);
            i = i + 1;
        }
    }
    assert(v@.skip(i as int) == Seq::<char>::empty());
    assert(out@ + Seq::<char>::empty() == out@);
    out
}

/// `s` without the prefix `p`, when it starts with it.
pub open spec fn stripped_prefix(s: Seq<char>, p: Seq<char>) -> Option<Seq<char>> {
    if starts_with(s, p) {
        Some(s.skip(p.len() as int))
    } else {
        None
    }
}

/// `s.strip_prefix(p)`.
pub fn strip_prefix(s: &str, p: &str) -> (r: Option<String>)
    ensures
        match (r, stripped_prefix(s@, p@)) {
            (Some(a), Some(b)) => a@ == b,
            (None, None) => true,
            _ => false,
        },
{
    let v = char_vec(s);
    let pv = char_vec(p);
    if starts_with_exec(&v, &pv) {
        Some(string_of_range(&v, pv.len(), v.len()))
    } else {
        None
    }
}

/// The white-space-separated words of `s` from `i` on (`split_whitespace`).
pub open spec fn words_from(s: Seq<char>, i: int) -> Seq<Seq<char>>
    decreases s.len() - i,
{
    if i < 0 || i >= s.len() {
        Seq::empty()
    } else if is_unicode_ws(s[i]) {
        words_from(s, i + 1)
    } else {
        let j = i + word_len(s, i);
        proof {
            lemma_word_len(s, i);
        }
        seq![s.subrange(i, j)] + words_from(s, j)
    }
}

/// Length of the run of non-white-space characters at `i`.
pub open spec fn word_len(s: Seq<char>, i: int) -> nat
    decreases s.len() - i,
{
    if 0 <= i < s.len() && !is_unicode_ws(s[i]) {
        1 + word_len(s, i + 1)
    } else {
        0
    }
}

pub open spec fn words(s: Seq<char>) -> Seq<Seq<char>> {
    words_from(s, 0)
}

pub proof fn lemma_word_len(s: Seq<char>, i: int)
    requires
        0 <= i <= s.len(),
    ensures
        i + word_len(s, i) <= s.len(),
        forall|j: int| i <= j < i + word_len(s, i) ==> !is_unicode_ws(#[trigger] s[j]),
        i + word_len(s, i) < s.len() ==> is_unicode_ws(s[i + word_len(s, i)]),
    decreases s.len() - i,
{
    if i < s.len() && !is_unicode_ws(s[i]) {
        lemma_word_len(s, i + 1);
    }
}

/// `s.split_whitespace()`, collected.
pub fn split_whitespace(s: &str) -> (r: Vec<String>)
    ensures
        r@.map_values(|x: String| x@) == words(s@),
{
    let v = char_vec(s);
    let mut out: Vec<String> = Vec::new();
    let mut i: usize = 0;
    while i < v.len()
        invariant
            i <= v@.len(),
            v@ == s@,
            out@.map_values(|x: String| x@) + words_from(v@, i as int) == words(v@),
        decreases v@.len() - i,
    {
        if exec_is_unicode_ws(v[i]) {
            i += 1;
        } else {
            proof {
                lemma_word_len(v@, i as int);
            }
            let mut j = i;
            while j < v.len() && !exec_is_unicode_ws(v[j])
                invariant
                    i <= j <= v@.len(),
                    j <= i + word_len(v@, i as int),
                    i + word_len(v@, i as int) <= v@.len(),
                    i + word_len(v@, i as int) < v@.len() ==> is_unicode_ws(v@[i + word_len(v@, i as int)]),
                    forall|k: int| i <= k < i + word_len(v@, i as int) ==> !is_unicode_ws(#[trigger] v@[k]),
                decreases v@.len() - j,
            {
                j += 1;
            }
            proof {
                if j < i + word_len(v@, i as int) {
                    assert(!is_unicode_ws(v@[j as int]));
                }
            }
            let w = string_of_range(&v, i, j);
            let ghost before = out@.map_values(|x: String| x@);
            out.push(w);
            assert(out@.map_values(|x: String| x@) =~= before.push(w@));
            assert(before.push(w@) + words_from(v@, j as int) =~= before + (seq![w@] + words_from(v@, j as int)));
            i = j;
        }
    }
    assert(out@.map_values(|x: String| x@) + Seq::<Seq<char>>::empty() == out@.map_values(|x: String| x@));
    out
}

/// Trimming never lengthens.
pub proof fn lemma_trim_both_len(s: Seq<char>, t: TrimSet)
    ensures
        trim_both(s, t).len() <= s.len(),
        trim_start(s, t).len() <= s.len(),
        trim_end(s, t).len() <= s.len(),
{
    lemma_lead_len(s, t);
    lemma_trail_len(s, t);
    lemma_trail_len(trim_start(s, t), t);
}

} // verus!
