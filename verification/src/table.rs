//! Pipe tables: cell normalisation, column widths, padded rows, and the
//! assembly of a whole table from its caption, header and body cells.

use vstd::prelude::*;
use crate::options::views;
use crate::text::{
    char_vec, flat_map, lemma_flat_map_take, push_char, push_str, repeat_char, trim_both,
    trim_string, TrimSet,
};

verus! {

/// How one character of a cell reads inside a pipe table: a newline becomes
/// a space, a carriage return goes, and `|` becomes its character reference.
pub open spec fn cell_char(c: char) -> Seq<char> {
    if c == '\n' {
        seq![' ']
    } else if c == '\r' {
        Seq::empty()
    } else if c == '|' {
        "&#124;"@
    } else {
        seq![c]
    }
}

/// A cell's content as it stands in a pipe table.
pub open spec fn normalized_cell(s: Seq<char>) -> Seq<char> {
    trim_both(flat_map(s, |c: char| cell_char(c)), TrimSet::DocWs)
}

/// A character that a trimmed sequence holds, the sequence held too.
proof fn lemma_trim_keeps_absent(s: Seq<char>, t: TrimSet, x: char)
    requires
        !crate::text::has_char(s, x),
    ensures
        !crate::text::has_char(trim_both(s, t), x),
{
    crate::text::lemma_lead_len(s, t);
    let a = crate::text::trim_start(s, t);
    crate::text::lemma_trail_len(a, t);
    let b = trim_both(s, t);
    assert forall|i: int| 0 <= i < b.len() implies b[i] != x by {
        assert(b[i] == a[i]);
        assert(a[i] == s[i + crate::text::lead_len(s, t)]);
    }
}

/// A cell of a pipe table holds no `|`, no line break and no carriage
/// return: a pipe in the content cannot split the cell, and the row stays
/// on one line.
pub proof fn law_cells_cannot_split(s: Seq<char>)
    ensures
        !crate::text::has_char(normalized_cell(s), '|'),
        !crate::text::has_char(normalized_cell(s), '\n'),
        !crate::text::has_char(normalized_cell(s), '\r'),
{
    let f = |c: char| cell_char(c);
    reveal_strlit("&#124;");
    assert forall|c: char| !crate::text::has_char(#[trigger] f(c), '|') by {
        if c == '|' {
            assert(f(c) =~= seq!['&', '#', '1', '2', '4', ';']);
        }
    }
    assert forall|c: char| !crate::text::has_char(#[trigger] f(c), '\n') by {
        if c == '|' {
            assert(f(c) =~= seq!['&', '#', '1', '2', '4', ';']);
        }
    }
    assert forall|c: char| !crate::text::has_char(#[trigger] f(c), '\r') by {
        if c == '|' {
            assert(f(c) =~= seq!['&', '#', '1', '2', '4', ';']);
        }
    }
    crate::text::lemma_flat_map_avoids(s, f, '|');
    crate::text::lemma_flat_map_avoids(s, f, '\n');
    crate::text::lemma_flat_map_avoids(s, f, '\r');
    lemma_trim_keeps_absent(flat_map(s, f), TrimSet::DocWs, '|');
    lemma_trim_keeps_absent(flat_map(s, f), TrimSet::DocWs, '\n');
    lemma_trim_keeps_absent(flat_map(s, f), TrimSet::DocWs, '\r');
}

/// Makes cell content fit on one table line.
pub fn normalize_cell_content(content: &str) -> (r: String)
    ensures
        r@ == normalized_cell(content@),
{
    let v = char_vec(content);
    let ghost f = |c: char| cell_char(c);
    let mut out = String::new();
    let mut i: usize = 0;
    while i < v.len()
        invariant
            i <= v@.len(),
            f == (|c: char| cell_char(c)),
            out@ == flat_map(v@.take(i as int), f),
        decreases v@.len() - i,
    {
        let c = v[i];
        if c == '\n' {
            push_char(&mut out, ' ');
        } else if c == '\r' {
        } else if c == '|' {
            push_str(&mut out, "&#124;");
            proof {
                reveal_strlit("&#124;");
            }
        } else {
            push_char(&mut out, c);
        }
        proof {
            lemma_flat_map_take(v@, i as int, f);
            assert(out@ =~= flat_map(v@.take(i as int), f) + f(c));
        }
        i += 1;
    }
    assert(v@.take(v@.len() as int) == v@);
    trim_string(out.as_str(), TrimSet::DocWs)
}

pub open spec fn spaces(n: nat) -> Seq<char> {
    Seq::new(n, |_i: int| ' ')
}

pub open spec fn dashes(n: nat) -> Seq<char> {
    Seq::new(n, |_i: int| '-')
}

/// The cell of `row` in column `i` (empty past the row's end), normalised.
pub open spec fn row_cell(row: Seq<Seq<char>>, i: int) -> Seq<char> {
    if i < row.len() {
        normalized_cell(row[i])
    } else {
        Seq::empty()
    }
}

/// Column `i` of a padded row: the cell, padded with spaces to `width`.
pub open spec fn padded_cell(row: Seq<Seq<char>>, i: int, width: nat) -> Seq<char> {
    let cell = row_cell(row, i);
    let pad = if width > cell.len() {
        (width - cell.len()) as nat
    } else {
        0nat
    };
    seq![' '] + cell + spaces(pad) + " |"@
}

/// The cells of columns `0..n` of a padded row.
pub open spec fn padded_cells(row: Seq<Seq<char>>, widths: Seq<usize>, n: nat) -> Seq<char>
    decreases n,
{
    if n == 0 {
        Seq::empty()
    } else {
        padded_cells(row, widths, (n - 1) as nat) + padded_cell(row, n - 1, widths[n - 1] as nat)
    }
}

pub open spec fn min_nat(a: nat, b: nat) -> nat {
    if a < b {
        a
    } else {
        b
    }
}

/// A table line: `|`, the padded cells of the first `num_columns` columns
/// that have a width, and a newline.
pub open spec fn padded_row(row: Seq<Seq<char>>, num_columns: nat, widths: Seq<usize>) -> Seq<char> {
    seq!['|'] + padded_cells(row, widths, min_nat(num_columns, widths.len())) + seq!['\n']
}

/// Formats one table row with each cell padded to its column's width.
pub fn format_row_padded(row: &Vec<String>, num_columns: usize, col_widths: &Vec<usize>) -> (r: String)
    ensures
        r@ == padded_row(views(*row), num_columns as nat, col_widths@),
{
    let ghost rv = views(*row);
    let n = if num_columns < col_widths.len() { num_columns } else { col_widths.len() };
    let mut line = String::new();
    push_char(&mut line, '|');
    let mut i: usize = 0;
    while i < n
        invariant
            i <= n <= col_widths@.len(),
            rv == views(*row),
            line@ == seq!['|'] + padded_cells(rv, col_widths@, i as nat),
        decreases n - i,
    {
        let cell = if i < row.len() {
            normalize_cell_content(row[i].as_str())
        } else {
            String::new()
        };
        proof {
            if i < row@.len() {
                assert(rv[i as int] == row@[i as int]@);
            }
        }
        let cl = char_vec(cell.as_str()).len();
        let pad = if col_widths[i] > cl { col_widths[i] - cl } else { 0 };
        push_char(&mut line, ' ');
        push_str(&mut line, cell.as_str());
        let sp = repeat_char(' ', pad);
        push_str(&mut line, sp.as_str());
        push_str(&mut line, " |");
        proof {
            reveal_strlit(" |");
            assert(sp@ == spaces(pad as nat));
            assert(line@ =~= seq!['|'] + padded_cells(rv, col_widths@, i as nat) + padded_cell(rv, i as int, col_widths@[i as int] as nat));
        }
        i += 1;
    }
    push_char(&mut line, '\n');
    line
}

/// Separator cells `| --- |` for columns `0..n`.
pub open spec fn separator_cells(widths: Seq<usize>, n: nat) -> Seq<char>
    decreases n,
{
    if n == 0 {
        Seq::empty()
    } else {
        separator_cells(widths, (n - 1) as nat) + seq![' '] + dashes(widths[n - 1] as nat) + " |"@
    }
}

pub open spec fn separator_row(num_columns: nat, widths: Seq<usize>) -> Seq<char> {
    seq!['|'] + separator_cells(widths, min_nat(num_columns, widths.len())) + seq!['\n']
}

/// Formats the separator line under a table's header.
pub fn format_separator_padded(num_columns: usize, col_widths: &Vec<usize>) -> (r: String)
    ensures
        r@ == separator_row(num_columns as nat, col_widths@),
{
    let n = if num_columns < col_widths.len() { num_columns } else { col_widths.len() };
    let mut line = String::new();
    push_char(&mut line, '|');
    let mut i: usize = 0;
    while i < n
        invariant
            i <= n <= col_widths@.len(),
            line@ == seq!['|'] + separator_cells(col_widths@, i as nat),
        decreases n - i,
    {
        push_char(&mut line, ' ');
        let d = repeat_char('-', col_widths[i]);
        push_str(&mut line, d.as_str());
        push_str(&mut line, " |");
        proof {
            reveal_strlit(" |");
            assert(d@ == dashes(col_widths@[i as int] as nat));
            assert(line@ =~= seq!['|'] + separator_cells(col_widths@, (i + 1) as nat));
        }
        i += 1;
    }
    push_char(&mut line, '\n');
    line
}

/// The widest cell of column `i` over `rows`.
pub open spec fn rows_width(rows: Seq<Seq<Seq<char>>>, i: int) -> nat
    decreases rows.len(),
{
    if rows.len() == 0 {
        0
    } else {
        let w = rows_width(rows.drop_last(), i);
        let c = if i < rows.last().len() {
            rows.last()[i].len()
        } else {
            0
        };
        if c > w {
            c
        } else {
            w
        }
    }
}

/// The width of column `i`: its widest cell, header included.
pub open spec fn column_width(headers: Seq<Seq<char>>, rows: Seq<Seq<Seq<char>>>, i: int) -> nat {
    let h = if i < headers.len() {
        headers[i].len()
    } else {
        0
    };
    let r = rows_width(rows, i);
    if h > r {
        h
    } else {
        r
    }
}

pub open spec fn row_views(rows: Seq<Vec<String>>) -> Seq<Seq<Seq<char>>> {
    rows.map_values(|r: Vec<String>| views(r))
}

/// Column widths: for each of the `num_columns` columns, the number of
/// characters of its widest cell.
pub fn compute_column_widths(headers: &Vec<String>, rows: &Vec<Vec<String>>, num_columns: usize) -> (widths: Vec<usize>)
    requires
        headers@.len() <= num_columns,
    ensures
        widths@.len() == num_columns,
        forall|i: int|
            0 <= i < num_columns ==> #[trigger] widths@[i] == column_width(
                views(*headers),
                row_views(rows@),
                i,
            ),
{
    let ghost hv = views(*headers);
    let ghost rv = row_views(rows@);
    let mut widths: Vec<usize> = Vec::new();
    let mut i: usize = 0;
    while i < num_columns
        invariant
            i <= num_columns,
            widths@.len() == i,
            hv == views(*headers),
            headers@.len() <= num_columns,
            forall|k: int| 0 <= k < i ==> #[trigger] widths@[k] == (if k < hv.len() { hv[k].len() } else { 0 }),
        decreases num_columns - i,
    {
        if i < headers.len() {
            let l = char_vec(headers[i].as_str()).len();
            widths.push(l);
        } else {
            widths.push(0);
        }
        i += 1;
    }
    let mut r: usize = 0;
    while r < rows.len()
        invariant
            r <= rows@.len(),
            widths@.len() == num_columns,
            hv == views(*headers),
            rv == row_views(rows@),
            forall|k: int|
                0 <= k < num_columns ==> #[trigger] widths@[k] == column_width(hv, rv.take(r as int), k),
        decreases rows@.len() - r,
    {
        let row = &rows[r];
        assert(rv.take(r + 1).drop_last() == rv.take(r as int));
        assert(rv[r as int] == views(*row));
        let mut j: usize = 0;
        while j < num_columns
            invariant
                j <= num_columns,
                r < rows@.len(),
                widths@.len() == num_columns,
                row == &rows@[r as int],
                rv == row_views(rows@),
                rv[r as int] == views(*row),
                forall|k: int|
                    0 <= k < j ==> #[trigger] widths@[k] == column_width(hv, rv.take(r + 1), k),
                forall|k: int|
                    j <= k < num_columns ==> #[trigger] widths@[k] == column_width(hv, rv.take(r as int), k),
            decreases num_columns - j,
        {
            assert(rv.take(r + 1).drop_last() == rv.take(r as int));
            assert(rv.take(r + 1).last() == rv[r as int]);
            if j < row.len() {
                let len = char_vec(row[j].as_str()).len();
                assert(views(*row)[j as int] == row@[j as int]@);
                if len > widths[j] {
                    widths.set(j, len);
                }
            }
            j += 1;
        }
        r += 1;
    }
    assert(rv.take(rows@.len() as int) == rv);
    widths
}

/// The rows' most cells.
pub open spec fn max_row_len(rows: Seq<Seq<Seq<char>>>) -> nat
    decreases rows.len(),
{
    if rows.len() == 0 {
        0
    } else {
        let m = max_row_len(rows.drop_last());
        if rows.last().len() > m {
            rows.last().len()
        } else {
            m
        }
    }
}

/// Content of a table that yields no pipe table: its rendered children
/// between blank lines, or nothing when they are empty.
pub open spec fn table_fallback(walked: Seq<char>) -> Option<Seq<char>> {
    let c = trim_both(walked, TrimSet::Only('\n'));
    if c.len() == 0 {
        None
    } else {
        Some("\n\n"@ + c + "\n\n"@)
    }
}

/// The caption lines.
pub open spec fn caption_lines(captions: Seq<Seq<char>>) -> Seq<char>
    decreases captions.len(),
{
    if captions.len() == 0 {
        Seq::empty()
    } else {
        caption_lines(captions.drop_last()) + captions.last() + seq!['\n']
    }
}

/// The body lines.
pub open spec fn body_lines(rows: Seq<Seq<Seq<char>>>, num_columns: nat, widths: Seq<usize>) -> Seq<char>
    decreases rows.len(),
{
    if rows.len() == 0 {
        Seq::empty()
    } else {
        body_lines(rows.drop_last(), num_columns, widths) + padded_row(rows.last(), num_columns, widths)
    }
}

/// The widths of columns `0..n`.
pub open spec fn widths_of(headers: Seq<Seq<char>>, rows: Seq<Seq<Seq<char>>>, n: nat) -> Seq<usize> {
    Seq::new(n, |i: int| column_width(headers, rows, i) as usize)
}

/// A pipe table from its captions, header cells and body rows: the columns
/// are the header's, or the longest row's when there is no header; a table
/// with no cells at all, or no columns, renders as its children do.
pub open spec fn pipe_table(
    captions: Seq<Seq<char>>,
    headers: Seq<Seq<char>>,
    rows: Seq<Seq<Seq<char>>>,
    walked: Seq<char>,
) -> Option<Seq<char>> {
    let num_columns = if headers.len() == 0 {
        max_row_len(rows)
    } else {
        headers.len()
    };
    if (rows.len() == 0 && headers.len() == 0) || num_columns == 0 {
        table_fallback(walked)
    } else {
        let widths = widths_of(headers, rows, num_columns);
        let head = if headers.len() == 0 {
            Seq::empty()
        } else {
            padded_row(headers, num_columns, widths) + separator_row(num_columns, widths)
        };
        Some("\n\n"@ + caption_lines(captions) + head + body_lines(rows, num_columns, widths) + seq!['\n'])
    }
}

fn table_fallback_exec(walked: &str) -> (r: Option<String>)
    ensures
        match (r, table_fallback(walked@)) {
            (Some(a), Some(b)) => a@ == b,
            (None, None) => true,
            _ => false,
        },
{
    let c = trim_string(walked, TrimSet::Only('\n'));
    if c.as_str().is_empty() {
        return None;
    }
    let mut out = String::new();
    push_str(&mut out, "\n\n");
    push_str(&mut out, c.as_str());
    push_str(&mut out, "\n\n");
    Some(out)
}

/// Assembles a pipe table from cells already rendered.
pub fn render_pipe_table(captions: &Vec<String>, headers: &Vec<String>, rows: &Vec<Vec<String>>, walked: &str) -> (r: Option<String>)
    ensures
        match (r, pipe_table(views(*captions), views(*headers), row_views(rows@), walked@)) {
            (Some(a), Some(b)) => a@ == b,
            (None, None) => true,
            _ => false,
        },
{
    let ghost cv = views(*captions);
    let ghost hv = views(*headers);
    let ghost rv = row_views(rows@);
    let mut num_columns: usize = headers.len();
    if headers.len() == 0 {
        let mut m: usize = 0;
        let mut i: usize = 0;
        while i < rows.len()
            invariant
                i <= rows@.len(),
                rv == row_views(rows@),
                m == max_row_len(rv.take(i as int)),
            decreases rows@.len() - i,
        {
            assert(rv.take(i + 1).drop_last() == rv.take(i as int));
            assert(rv[i as int].len() == rows@[i as int]@.len());
            if rows[i].len() > m {
                m = rows[i].len();
            }
            i += 1;
        }
        assert(rv.take(rows@.len() as int) == rv);
        num_columns = m;
    }
    if (rows.len() == 0 && headers.len() == 0) || num_columns == 0 {
        return table_fallback_exec(walked);
    }
    let widths = compute_column_widths(headers, rows, num_columns);
    assert(widths@ =~= widths_of(hv, rv, num_columns as nat));
    let mut md = String::new();
    push_str(&mut md, "\n\n");
    let mut i: usize = 0;
    while i < captions.len()
        invariant
            i <= captions@.len(),
            cv == views(*captions),
            md@ == "\n\n"@ + caption_lines(cv.take(i as int)),
        decreases captions@.len() - i,
    {
        assert(cv.take(i + 1).drop_last() == cv.take(i as int));
        assert(cv[i as int] == captions@[i as int]@);
        push_str(&mut md, captions[i].as_str());
        push_char(&mut md, '\n');
        i += 1;
        assert(md@ =~= "\n\n"@ + caption_lines(cv.take(i as int)));
    }
    assert(cv.take(captions@.len() as int) == cv);
    let ghost before_head = md@;
    if headers.len() > 0 {
        let h = format_row_padded(headers, num_columns, &widths);
        push_str(&mut md, h.as_str());
        let s = format_separator_padded(num_columns, &widths);
        push_str(&mut md, s.as_str());
    }
    let ghost after_head = md@;
    let mut k: usize = 0;
    while k < rows.len()
        invariant
            k <= rows@.len(),
            rv == row_views(rows@),
            md@ == after_head + body_lines(rv.take(k as int), num_columns as nat, widths@),
        decreases rows@.len() - k,
    {
        assert(rv.take(k + 1).drop_last() == rv.take(k as int));
        assert(rv[k as int] == views(rows@[k as int]));
        let line = format_row_padded(&rows[k], num_columns, &widths);
        push_str(&mut md, line.as_str());
        k += 1;
        assert(md@ =~= after_head + body_lines(rv.take(k as int), num_columns as nat, widths@));
    }
    assert(rv.take(rows@.len() as int) == rv);
    push_char(&mut md, '\n');
    Some(md)
}

/// A padded row whose cells fit their columns' widths is exactly as long as
/// the separator row under the header: every column takes its width and
/// three characters more.
pub proof fn law_rows_as_long_as_separator(row: Seq<Seq<char>>, num_columns: nat, widths: Seq<usize>)
    requires
        forall|i: int|
            0 <= i < min_nat(num_columns, widths.len()) ==> (#[trigger] row_cell(row, i)).len() <= widths[i],
    ensures
        padded_row(row, num_columns, widths).len() == separator_row(num_columns, widths).len(),
{
    lemma_cells_as_long(row, widths, min_nat(num_columns, widths.len()));
}

proof fn lemma_cells_as_long(row: Seq<Seq<char>>, widths: Seq<usize>, n: nat)
    requires
        n <= widths.len(),
        forall|i: int| 0 <= i < n ==> (#[trigger] row_cell(row, i)).len() <= widths[i],
    ensures
        padded_cells(row, widths, n).len() == separator_cells(widths, n).len(),
    decreases n,
{
    if n > 0 {
        lemma_cells_as_long(row, widths, (n - 1) as nat);
        reveal_strlit(" |");
        assert(row_cell(row, n - 1).len() <= widths[n - 1]);
    }
}

/// How many times `c` occurs in `s`.
pub open spec fn occurrences(s: Seq<char>, c: char) -> nat
    decreases s.len(),
{
    if s.len() == 0 {
        0
    } else {
        occurrences(s.drop_last(), c) + if s.last() == c {
            1nat
        } else {
            0nat
        }
    }
}

proof fn lemma_occurrences_concat(a: Seq<char>, b: Seq<char>, c: char)
    ensures
        occurrences(a + b, c) == occurrences(a, c) + occurrences(b, c),
    decreases b.len(),
{
    if b.len() == 0 {
        assert(a + b =~= a);
    } else {
        lemma_occurrences_concat(a, b.drop_last(), c);
        assert((a + b).drop_last() =~= a + b.drop_last());
    }
}

proof fn lemma_occurrences_none(s: Seq<char>, c: char)
    requires
        !crate::text::has_char(s, c),
    ensures
        occurrences(s, c) == 0,
    decreases s.len(),
{
    if s.len() > 0 {
        assert(!crate::text::has_char(s.drop_last(), c)) by {
            if crate::text::has_char(s.drop_last(), c) {
                let i = choose|i: int| 0 <= i < s.drop_last().len() && s.drop_last()[i] == c;
                assert(s[i] == c);
            }
        }
        lemma_occurrences_none(s.drop_last(), c);
    }
}

proof fn lemma_padded_cells_pipes(row: Seq<Seq<char>>, widths: Seq<usize>, n: nat)
    requires
        n <= widths.len(),
    ensures
        occurrences(padded_cells(row, widths, n), '|') == n,
    decreases n,
{
    if n > 0 {
        lemma_padded_cells_pipes(row, widths, (n - 1) as nat);
        let i = n - 1;
        let cell = row_cell(row, i);
        if i < row.len() {
            law_cells_cannot_split(row[i]);
        } else {
            assert(!crate::text::has_char(cell, '|'));
        }
        lemma_occurrences_none(cell, '|');
        let w = widths[i] as nat;
        let pad: nat = if w > cell.len() { (w - cell.len()) as nat } else { 0nat };
        assert(!crate::text::has_char(spaces(pad), '|'));
        lemma_occurrences_none(spaces(pad), '|');
        reveal_strlit(" |");
        assert(occurrences(" |"@, '|') == 1) by {
            reveal_with_fuel(occurrences, 3);
            assert(" |"@.drop_last() =~= seq![' ']);
            assert(seq![' '].drop_last() =~= Seq::<char>::empty());
        }
        assert(occurrences(seq![' '], '|') == 0) by {
            reveal_with_fuel(occurrences, 2);
            assert(seq![' '].drop_last() =~= Seq::<char>::empty());
        }
        lemma_occurrences_concat(seq![' '], cell, '|');
        lemma_occurrences_concat(seq![' '] + cell, spaces(pad), '|');
        lemma_occurrences_concat(seq![' '] + cell + spaces(pad), " |"@, '|');
        lemma_occurrences_concat(padded_cells(row, widths, (n - 1) as nat), padded_cell(row, i, w), '|');
    }
}

/// Every line of a pipe table's body has exactly one `|` more than it has
/// columns, whatever its cells hold: a `|` in a cell cannot add a column.
pub proof fn law_row_pipes_match_columns(row: Seq<Seq<char>>, num_columns: nat, widths: Seq<usize>)
    ensures
        occurrences(padded_row(row, num_columns, widths), '|') == min_nat(num_columns, widths.len()) + 1,
{
    let n = min_nat(num_columns, widths.len());
    lemma_padded_cells_pipes(row, widths, n);
    assert(occurrences(seq!['|'], '|') == 1) by {
        reveal_with_fuel(occurrences, 2);
        assert(seq!['|'].drop_last() =~= Seq::<char>::empty());
    }
    assert(occurrences(seq!['\n'], '|') == 0) by {
        reveal_with_fuel(occurrences, 2);
        assert(seq!['\n'].drop_last() =~= Seq::<char>::empty());
    }
    lemma_occurrences_concat(seq!['|'], padded_cells(row, widths, n), '|');
    lemma_occurrences_concat(seq!['|'] + padded_cells(row, widths, n), seq!['\n'], '|');
}

} // verus!
