//! List rendering: bullet items, numbered items and their markers.

use vstd::prelude::*;
use crate::blocks::{indent_text_except_first_line, indented, join_blocks, joined_blocks, spaces};
use crate::native::{BulletListMarker, RenderSettings};
use crate::text::{
    char_vec, decimal, lemma_decimal_len, parse_i32, parsed_i32, push_char, push_str, repeat_char, trim_start,
    trim_start_string, usize_to_string, TrimSet,
};

verus! {

/// `10` to the power `k`.
pub open spec fn pow10(k: nat) -> nat
    decreases k,
{
    if k == 0 {
        1
    } else {
        10 * pow10((k - 1) as nat)
    }
}

/// A number below `10^k` has at most `k` digits.
pub proof fn lemma_decimal_len_le(n: nat, k: nat)
    requires
        k >= 1,
        n < pow10(k),
    ensures
        decimal(n).len() <= k,
    decreases n,
{
    if n >= 10 {
        if k == 1 {
            assert(pow10(1) == 10) by {
                reveal_with_fuel(pow10, 2);
            }
        } else {
            lemma_decimal_len_le(n / 10, (k - 1) as nat);
        }
    }
}

/// More is never shorter.
pub proof fn lemma_decimal_len_mono(a: nat, b: nat)
    requires
        a <= b,
    ensures
        decimal(a).len() <= decimal(b).len(),
    decreases b,
{
    lemma_decimal_len(a);
    lemma_decimal_len(b);
    if a >= 10 {
        lemma_decimal_len_mono(a / 10, b / 10);
    }
}

proof fn lemma_usize_digits(n: usize)
    ensures
        decimal(n as nat).len() <= 20,
{
    assert(pow10(20) == 100000000000000000000) by {
        reveal_with_fuel(pow10, 21);
    }
    lemma_decimal_len_le(n as nat, 20);
}

/// Number of decimal digits of `num`.
pub fn digits(num: usize) -> (r: usize)
    ensures
        r == decimal(num as nat).len(),
    decreases num,
{
    proof {
        lemma_decimal_len(num as nat);
        lemma_usize_digits(num);
    }
    if num < 10 {
        1
    } else {
        proof {
            lemma_usize_digits(num / 10);
        }
        1 + digits(num / 10)
    }
}

/// A numbered item: its number, a dot, padding that aligns the contents of
/// all items up to `highest`, and the contents with continuation lines
/// indented to match.
pub open spec fn ol_marked(spacing: nat, content: Seq<char>, index: nat, highest: nat) -> Seq<char> {
    let idx = decimal(index);
    let pad = spaces((spacing + decimal(highest).len() - idx.len()) as nat);
    seq!['\n'] + idx + seq!['.'] + pad + indented(
        trim_start(content, TrimSet::Only('\n')),
        idx.len() + 1 + pad.len(),
        true,
    )
}

/// Puts the marker `index.` before a numbered item's content.
pub fn add_ol_li_marker(options: &RenderSettings, content: &str, index: usize, highest_index: usize) -> (r: String)
    requires
        index <= highest_index,
    ensures
        r@ == ol_marked(options.ol_number_spacing as nat, content@, index as nat, highest_index as nat),
{
    let index_str = usize_to_string(index);
    let idx_len = digits(index);
    proof {
        lemma_decimal_len_mono(index as nat, highest_index as nat);
        lemma_usize_digits(highest_index);
    }
    let pad_len = options.ol_number_spacing as usize + digits(highest_index) - idx_len;
    let spacing = repeat_char(' ', pad_len);
    let trimmed = trim_start_string(content, TrimSet::Only('\n'));
    let body = indent_text_except_first_line(trimmed.as_str(), idx_len + 1 + pad_len, true);
    let mut r = String::new();
    push_char(&mut r, '\n');
    push_str(&mut r, index_str.as_str());
    push_char(&mut r, '.');
    push_str(&mut r, spacing.as_str());
    push_str(&mut r, body.as_str());
    proof {
        assert(spacing@ == spaces(pad_len as nat));
    }
    r
}

/// A bullet item: a newline, the marker, the spacing, and the content (its
/// leading white space dropped) with continuation lines indented under it.
pub open spec fn ul_item(settings: RenderSettings, walked: Seq<char>) -> Seq<char> {
    let marker = match settings.bullet_list_marker {
        BulletListMarker::Asterisk => seq!['*'],
        BulletListMarker::Dash => seq!['-'],
        BulletListMarker::Plus => seq!['+'],
    };
    seq!['\n'] + marker + spaces(settings.ul_bullet_spacing as nat) + indented(
        trim_start(walked, TrimSet::DocWs),
        1 + settings.ul_bullet_spacing as nat,
        true,
    )
}

/// Is every line break of `t` at or after `from` followed by another line
/// break, by the end, or by `n` spaces: is every non-empty line after it
/// indented by `n`?
pub open spec fn lines_indented_after(t: Seq<char>, n: nat, from: int) -> bool {
    forall|j: int|
        #![trigger t[j]]
        from <= j && 0 <= j && j + 1 < t.len() && t[j] == '\n' && t[j + 1] != '\n' ==> j + 1 + n <= t.len()
            && t.subrange(j + 1, j + 1 + n) == spaces(n)
}

/// Lines without line breaks, all but the first empty or indented by `n`,
/// joined by line breaks: every line after the first is indented.
proof fn lemma_join_indented(parts: Seq<Seq<char>>, n: nat)
    requires
        forall|k: int, j: int| 0 <= k < parts.len() && 0 <= j < parts[k].len() ==> #[trigger] parts[k][j] != '\n',
        forall|k: int|
            1 <= k < parts.len() ==> (#[trigger] parts[k]).len() == 0 || (n <= parts[k].len() && parts[k].take(n as int)
                == spaces(n)),
    ensures
        lines_indented_after(crate::text::join(parts, "\n"@), n, 0),
    decreases parts.len(),
{
    reveal_strlit("\n");
    let x = crate::text::join(parts, "\n"@);
    if parts.len() == 1 {
        assert(x == parts[0]);
        assert forall|j: int| #![trigger x[j]] 0 <= j && j + 1 < x.len() && x[j] == '\n' && x[j + 1] != '\n' implies j + 1 + n <= x.len()
            && x.subrange(j + 1, j + 1 + n) == spaces(n) by {
            assert(parts[0][j] != '\n');
        }
    } else if parts.len() >= 2 {
        let init = parts.drop_last();
        lemma_join_indented(init, n);
        let a = crate::text::join(init, "\n"@);
        let b = parts.last();
        assert(x == a + seq!['\n'] + b);
        assert(b == parts[parts.len() - 1]);
        assert forall|j: int| #![trigger x[j]] 0 <= j && j + 1 < x.len() && x[j] == '\n' && x[j + 1] != '\n' implies j + 1 + n <= x.len()
            && x.subrange(j + 1, j + 1 + n) == spaces(n) by {
            if j < a.len() {
                assert(x[j] == a[j]);
                if j + 1 < a.len() {
                    assert(x[j + 1] == a[j + 1]);
                    assert(a[j] == '\n' && a[j + 1] != '\n');
                    assert(a.subrange(j + 1, j + 1 + n) == spaces(n));
                    assert(x.subrange(j + 1, j + 1 + n) =~= a.subrange(j + 1, j + 1 + n));
                } else {
                    assert(x[j + 1] == '\n');
                }
            } else if j == a.len() {
                assert(b.len() > 0);
                assert(b.take(n as int) == spaces(n));
                assert(x.subrange(j + 1, j + 1 + n) =~= b.take(n as int));
            } else {
                assert(x[j] == b[j - a.len() - 1]);
                assert(parts[parts.len() - 1][j - a.len() - 1] != '\n');
            }
        }
    }
}

/// Indenting a text by `n` indents every line after the first that is not
/// empty.
proof fn lemma_indented_lines(t: Seq<char>, n: nat)
    requires
        n >= 1,
    ensures
        lines_indented_after(indented(t, n, true), n, 0),
{
    let ls = crate::text::lines(t);
    let parts = Seq::new(ls.len(), |i: int| crate::blocks::indent_line(ls[i], i, n, true));
    crate::postprocess::lemma_lines_have_no_newline(t, 0);
    assert forall|k: int, j: int| 0 <= k < parts.len() && 0 <= j < parts[k].len() implies #[trigger] parts[k][j]
        != '\n' by {
        let l = crate::text::trim_end(ls[k], TrimSet::DocWs);
        crate::text::lemma_trail_len(ls[k], TrimSet::DocWs);
        if k == 0 || l.len() == 0 {
            assert(parts[k] == l);
            assert(l[j] == ls[k][j]);
        } else {
            assert(parts[k] == spaces(n) + l);
            if j >= n {
                assert(parts[k][j] == l[j - n]);
                assert(l[j - n] == ls[k][j - n]);
            }
        }
    }
    assert forall|k: int| 1 <= k < parts.len() implies (#[trigger] parts[k]).len() == 0 || (n <= parts[k].len()
        && parts[k].take(n as int) == spaces(n)) by {
        let l = crate::text::trim_end(ls[k], TrimSet::DocWs);
        if l.len() > 0 {
            assert(parts[k].take(n as int) =~= spaces(n));
        }
    }
    lemma_join_indented(parts, n);
    assert(indented(t, n, true) == crate::text::join(parts, "\n"@));
}

/// A marker line (a line break, then no other) put before indented text
/// keeps every later line indented.
proof fn lemma_marker_before(prefix: Seq<char>, x: Seq<char>, n: nat)
    requires
        prefix.len() >= 1,
        forall|j: int| 1 <= j < prefix.len() ==> #[trigger] prefix[j] != '\n',
        lines_indented_after(x, n, 0),
    ensures
        lines_indented_after(prefix + x, n, 1),
{
    let out = prefix + x;
    assert forall|j: int| #![trigger out[j]] 1 <= j && j + 1 < out.len() && out[j] == '\n' && out[j + 1] != '\n' implies j + 1 + n
        <= out.len() && out.subrange(j + 1, j + 1 + n) == spaces(n) by {
        if j < prefix.len() {
            assert(out[j] == prefix[j]);
        } else {
            let jj = j - prefix.len();
            assert(out[j] == x[jj]);
            assert(out[j + 1] == x[jj + 1]);
            assert(x.subrange(jj + 1, jj + 1 + n) == spaces(n));
            assert(out.subrange(j + 1, j + 1 + n) =~= x.subrange(jj + 1, jj + 1 + n));
        }
    }
}

/// In a bullet item, every non-empty line after the first is indented by
/// the marker's width and the spacing after it, so that content spanning
/// several lines (a nested list among it) stays inside the item instead of
/// starting a sibling item.
pub proof fn law_bullet_continuations_indented(settings: RenderSettings, walked: Seq<char>)
    ensures
        lines_indented_after(ul_item(settings, walked), 1 + settings.ul_bullet_spacing as nat, 1),
        ({
            let out = ul_item(settings, walked);
            let n = 1 + settings.ul_bullet_spacing as nat;
            &&& out.len() >= n + 1
            &&& out[0] == '\n'
            &&& (out[1] == '*' || out[1] == '-' || out[1] == '+')
            &&& out.subrange(2, n + 1 as int) == spaces((n - 1) as nat)
        }),
{
    let n = 1 + settings.ul_bullet_spacing as nat;
    let t = trim_start(walked, TrimSet::DocWs);
    lemma_indented_lines(t, n);
    let marker = match settings.bullet_list_marker {
        BulletListMarker::Asterisk => seq!['*'],
        BulletListMarker::Dash => seq!['-'],
        BulletListMarker::Plus => seq!['+'],
    };
    let prefix = seq!['\n'] + marker + spaces(settings.ul_bullet_spacing as nat);
    assert forall|j: int| 1 <= j < prefix.len() implies #[trigger] prefix[j] != '\n' by {
        if j == 1 {
            assert(prefix[1] == marker[0]);
        } else {
            assert(prefix[j] == spaces(settings.ul_bullet_spacing as nat)[j - 2]);
        }
    }
    lemma_marker_before(prefix, indented(t, n, true), n);
    let out = ul_item(settings, walked);
    assert(out == prefix + indented(t, n, true));
    assert(out.subrange(2, n + 1 as int) =~= spaces(settings.ul_bullet_spacing as nat));
}

proof fn lemma_decimal_no_newline(n: nat)
    ensures
        forall|j: int| 0 <= j < decimal(n).len() ==> #[trigger] decimal(n)[j] != '\n',
    decreases n,
{
    if n >= 10 {
        lemma_decimal_no_newline(n / 10);
        assert forall|j: int| 0 <= j < decimal(n).len() implies #[trigger] decimal(n)[j] != '\n' by {
            if j < decimal(n / 10).len() {
                assert(decimal(n)[j] == decimal(n / 10)[j]);
            } else {
                assert(decimal(n)[j] == crate::text::digit_char(n % 10));
            }
        }
    } else {
        assert(decimal(n)[0] == crate::text::digit_char(n));
    }
}

/// In a numbered item, every non-empty line after the first is indented to
/// where the item's content begins; and the content of every item of a list
/// begins at the same column, one past the widest number and its dot and
/// spacing.
pub proof fn law_numbered_continuations_aligned(spacing: nat, content: Seq<char>, index: nat, highest: nat)
    requires
        index <= highest,
    ensures
        lines_indented_after(ol_marked(spacing, content, index, highest), spacing + decimal(highest).len() + 1, 1),
        ({
            let out = ol_marked(spacing, content, index, highest);
            let w = spacing + decimal(highest).len() + 1;
            w < out.len() ==> out.subrange(1, w + 1 as int) == decimal(index) + seq!['.'] + spaces(
                (w - 1 - decimal(index).len()) as nat,
            )
        }),
{
    lemma_decimal_len_mono(index, highest);
    let idx = decimal(index);
    let pad = spaces((spacing + decimal(highest).len() - idx.len()) as nat);
    let n = idx.len() + 1 + pad.len();
    assert(n == spacing + decimal(highest).len() + 1);
    let t = trim_start(content, TrimSet::Only('\n'));
    lemma_indented_lines(t, n);
    let prefix = seq!['\n'] + idx + seq!['.'] + pad;
    lemma_decimal_no_newline(index);
    assert forall|j: int| 1 <= j < prefix.len() implies #[trigger] prefix[j] != '\n' by {
        if j <= idx.len() {
            assert(prefix[j] == idx[j - 1]);
        } else if j == idx.len() + 1 {
            assert(prefix[j] == '.');
        } else {
            assert(prefix[j] == pad[j - idx.len() - 2]);
        }
    }
    lemma_marker_before(prefix, indented(t, n, true), n);
    let out = ol_marked(spacing, content, index, highest);
    assert(out == prefix + indented(t, n, true));
    if n < out.len() {
        assert(out.subrange(1, n + 1 as int) =~= idx + seq!['.'] + pad);
    }
}

/// An item of a numbered list, whose marker the list adds.
pub open spec fn ol_item(walked: Seq<char>) -> Seq<char> {
    seq!['\n'] + trim_start(walked, TrimSet::DocWs) + seq!['\n']
}

/// The Markdown of a list item whose children rendered as `walked`.
pub fn list_item_markdown(settings: &RenderSettings, walked: &str, parent_is_ol: bool) -> (r: String)
    ensures
        r@ == if parent_is_ol {
            ol_item(walked@)
        } else {
            ul_item(*settings, walked@)
        },
{
    let content = trim_start_string(walked, TrimSet::DocWs);
    let mut r = String::new();
    push_char(&mut r, '\n');
    if parent_is_ol {
        push_str(&mut r, content.as_str());
        push_char(&mut r, '\n');
        return r;
    }
    match settings.bullet_list_marker {
        BulletListMarker::Asterisk => push_char(&mut r, '*'),
        BulletListMarker::Dash => push_char(&mut r, '-'),
        BulletListMarker::Plus => push_char(&mut r, '+'),
    }
    let spacing = repeat_char(' ', settings.ul_bullet_spacing as usize);
    push_str(&mut r, spacing.as_str());
    let body = indent_text_except_first_line(content.as_str(), 1 + settings.ul_bullet_spacing as usize, true);
    push_str(&mut r, body.as_str());
    proof {
        assert(spacing@ == spaces(settings.ul_bullet_spacing as nat));
    }
    r
}

/// A rendered child of a numbered list, and whether it is an item.
pub struct ListChild {
    pub text: String,
    pub is_li: bool,
}

/// The first number of a numbered list: its `start` attribute when that is
/// a number of at least one, else one.
pub open spec fn ol_start(start_attr: Option<Seq<char>>) -> nat {
    match start_attr {
        Some(v) => match parsed_i32(v) {
            Some(n) => if n >= 1 {
                n as nat
            } else {
                1
            },
            None => 1,
        },
        None => 1,
    }
}

/// Number of items among `children`.
pub open spec fn li_count(children: Seq<ListChild>) -> nat
    decreases children.len(),
{
    if children.len() == 0 {
        0
    } else {
        li_count(children.drop_last()) + if children.last().is_li {
            1nat
        } else {
            0nat
        }
    }
}

/// Child `i` of a numbered list: items get their number, other children
/// stay as they are.
pub open spec fn ol_piece(spacing: nat, children: Seq<ListChild>, i: int, start: nat, highest: nat) -> Seq<char> {
    if children[i].is_li {
        ol_marked(spacing, children[i].text@, start + li_count(children.take(i)), highest)
    } else {
        children[i].text@
    }
}

/// The numbered list: items numbered from `start`, all blocks joined.
pub open spec fn numbered_list(spacing: nat, children: Seq<ListChild>, start: nat) -> Seq<char> {
    let highest = (start + li_count(children) - 1) as nat;
    joined_blocks(Seq::new(children.len(), |i: int| ol_piece(spacing, children, i, start, highest)))
}

proof fn lemma_li_count_take(children: Seq<ListChild>, i: int)
    requires
        0 <= i < children.len(),
    ensures
        li_count(children.take(i + 1)) == li_count(children.take(i)) + if children[i].is_li {
            1nat
        } else {
            0nat
        },
        li_count(children.take(i)) <= i,
{
    assert(children.take(i + 1).drop_last() == children.take(i));
    lemma_li_count_le(children.take(i));
}

proof fn lemma_li_count_le(children: Seq<ListChild>)
    ensures
        li_count(children) <= children.len(),
    decreases children.len(),
{
    if children.len() > 0 {
        lemma_li_count_le(children.drop_last());
    }
}

/// The Markdown of a numbered list from its rendered children and its
/// `start` attribute.
pub fn number_ol_items(settings: &RenderSettings, children: &Vec<ListChild>, start_attr: Option<&str>) -> (r: String)
    requires
        children@.len() <= usize::MAX - 0x8000_0000,
    ensures
        r@ == numbered_list(
            settings.ol_number_spacing as nat,
            children@,
            ol_start(
                match start_attr {
                    Some(a) => Some(a@),
                    None => None,
                },
            ),
        ),
{
    let start: usize = match start_attr {
        Some(a) => match parse_i32(a) {
            Some(n) => if n >= 1 {
                n as usize
            } else {
                1
            },
            None => 1,
        },
        None => 1,
    };
    let mut count: usize = 0;
    let mut i: usize = 0;
    while i < children.len()
        invariant
            i <= children@.len(),
            count == li_count(children@.take(i as int)),
        decreases children@.len() - i,
    {
        proof {
            lemma_li_count_take(children@, i as int);
        }
        if children[i].is_li {
            count += 1;
        }
        i += 1;
    }
    assert(children@.take(children@.len() as int) == children@);
    proof {
        lemma_li_count_le(children@);
    }
    let highest = start + count - if count > 0 { 1 } else { 0 };
    let ghost sp = settings.ol_number_spacing as nat;
    let ghost target = Seq::new(children@.len(), |k: int| ol_piece(sp, children@, k, start as nat, (start + count - 1) as nat));
    let mut parts: Vec<String> = Vec::new();
    let mut seen: usize = 0;
    let mut k: usize = 0;
    while k < children.len()
        invariant
            k <= children@.len(),
            children@.len() <= usize::MAX - 0x8000_0000,
            1 <= start <= 0x8000_0000,
            count == li_count(children@),
            count <= children@.len(),
            seen == li_count(children@.take(k as int)),
            highest == start + count - if count > 0 { 1int } else { 0int },
            sp == settings.ol_number_spacing as nat,
            target == Seq::new(children@.len(), |k: int| ol_piece(sp, children@, k, start as nat, (start + count - 1) as nat)),
            parts@.map_values(|x: String| x@) == target.take(k as int),
        decreases children@.len() - k,
    {
        proof {
            lemma_li_count_take(children@, k as int);
            lemma_li_count_mono(children@, k as int + 1);
        }
        let piece = if children[k].is_li {
            add_ol_li_marker(settings, children[k].text.as_str(), start + seen, highest)
        } else {
            children[k].text.clone()
        };
        let ghost before = parts@.map_values(|x: String| x@);
        parts.push(piece);
        assert(parts@.map_values(|x: String| x@) =~= before.push(piece@));
        if children[k].is_li {
            seen += 1;
        }
        k += 1;
        assert(target.take(k as int) =~= target.take(k - 1).push(target[k - 1]));
    }
    assert(target.take(children@.len() as int) == target);
    join_blocks(&parts)
}

proof fn lemma_li_count_mono(children: Seq<ListChild>, i: int)
    requires
        0 <= i <= children.len(),
    ensures
        li_count(children.take(i)) <= li_count(children),
    decreases children.len() - i,
{
    if i < children.len() {
        lemma_li_count_take(children, i);
        lemma_li_count_mono(children, i + 1);
    } else {
        assert(children.take(i) == children);
    }
}

} // verus!
