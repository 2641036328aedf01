//! Text tables: column-aligned tables and two-column size summaries.
use vstd::prelude::*;

use crate::text::{byte_len, chars_of, lemma_seq_max, ends_with, lemma_seq_max_take, push_all, push_char, push_spaces, push_str, replace_all, replaced, seq_max, spaces, str_ends_with, str_len, string_len, string_of, trim, trimmed};

verus! {

/// Width of column `idx` over the first `n` rows: the largest byte length of a cell in that column.
pub open spec fn column_width(table: Seq<Seq<Seq<char>>>, n: int, idx: int) -> nat
    decreases n,
{
    if n <= 0 {
        0
    } else {
        let m = column_width(table, n - 1, idx);
        let row = table[n - 1];
        if idx < row.len() && str_len(row[idx]) > m {
            str_len(row[idx]) as nat
        } else {
            m
        }
    }
}

/// A cell padded with spaces to `width` bytes, then `padding` more spaces and one separating space.
pub open spec fn padded_cell(cell: Seq<char>, width: nat, padding: nat) -> Seq<char> {
    let fill: nat = if str_len(cell) < width {
        (width - str_len(cell)) as nat
    } else {
        0
    };
    cell + spaces(fill) + spaces(padding) + seq![' ']
}

/// The first `k` cells of `row`, each padded to its column's width in `table`.
pub open spec fn row_cells(
    table: Seq<Seq<Seq<char>>>,
    row: Seq<Seq<char>>,
    padding: nat,
    k: int,
) -> Seq<char>
    decreases k,
{
    if k <= 0 {
        seq![]
    } else {
        row_cells(table, row, padding, k - 1) + padded_cell(
            row[k - 1],
            column_width(table, table.len() as int, k - 1),
            padding,
        )
    }
}

/// The text of the first `n` rows: each row's padded cells, trimmed, and ended by a newline.
pub open spec fn table_rows(table: Seq<Seq<Seq<char>>>, padding: nat, n: int) -> Seq<char>
    decreases n,
{
    if n <= 0 {
        seq![]
    } else {
        table_rows(table, padding, n - 1) + trim(
            row_cells(table, table[n - 1], padding, table[n - 1].len() as int),
        ) + seq!['\n']
    }
}

/// The text that `format_table` produces for `table`.
pub open spec fn table_text(table: Seq<Seq<Seq<char>>>, padding: nat) -> Seq<char> {
    table_rows(table, padding, table.len() as int)
}

/// No row is longer than the first one (the column widths are taken from the first row).
pub open spec fn rows_fit_first(table: Seq<Seq<Seq<char>>>) -> bool {
    table.len() > 0 ==> forall|r: int|
        0 <= r < table.len() ==> #[trigger] table[r].len() <= table[0].len()
}

/// Formats `table` (a list of rows of cells) with every column left-aligned to its widest cell.
pub fn format_table(table: &Vec<Vec<String>>, padding: usize) -> (out: String)
    requires
        rows_fit_first(table.deep_view()),
    ensures
        out@ == table_text(table.deep_view(), padding as nat),
{
    let ghost t = table.deep_view();
    let mut out = String::new();
    if table.len() == 0 {
        return out;
    }
    let m = table[0].len();
    let mut widths: Vec<usize> = Vec::new();
    let mut j: usize = 0;
    while j < m
        invariant
            j <= m,
            widths@.len() == j,
            forall|idx: int| 0 <= idx < j ==> widths@[idx] == 0,
        decreases m - j,
    {
        widths.push(0);
        j = j + 1;
    }
    let mut r: usize = 0;
    while r < table.len()
        invariant
            t == table.deep_view(),
            m == t[0].len(),
            rows_fit_first(t),
            r <= t.len(),
            widths@.len() == m,
            forall|idx: int| 0 <= idx < m ==> widths@[idx] == column_width(t, r as int, idx),
        decreases t.len() - r,
    {
        let row = &table[r];
        assert(row.deep_view() == t[r as int]);
        let mut idx: usize = 0;
        while idx < row.len()
            invariant
                t == table.deep_view(),
                row.deep_view() == t[r as int],
                r < t.len(),
                row.len() <= m,
                idx <= row.len(),
                widths@.len() == m,
                forall|k: int|
                    0 <= k < idx ==> widths@[k] == column_width(t, r + 1, k),
                forall|k: int|
                    idx <= k < m ==> widths@[k] == column_width(t, r as int, k),
            decreases row.len() - idx,
        {
            let l = string_len(&row[idx]);
            assert(row[idx as int]@ == t[r as int][idx as int]);
            if l > widths[idx] {
                widths.set(idx, l);
            }
            idx = idx + 1;
        }
        assert forall|k: int| 0 <= k < m implies widths@[k] == column_width(t, r + 1, k) by {
            if k >= row.len() {
                assert(column_width(t, r + 1, k) == column_width(t, r as int, k));
            }
        }
        r = r + 1;
    }
    let mut r: usize = 0;
    while r < table.len()
        invariant
            t == table.deep_view(),
            m == t[0].len(),
            rows_fit_first(t),
            r <= t.len(),
            widths@.len() == m,
            forall|idx: int| 0 <= idx < m ==> widths@[idx] == column_width(t, t.len() as int, idx),
            out@ == table_rows(t, padding as nat, r as int),
        decreases t.len() - r,
    {
        let row = &table[r];
        assert(row.deep_view() == t[r as int]);
        let mut new_row = String::new();
        let mut idx: usize = 0;
        while idx < row.len()
            invariant
                t == table.deep_view(),
                row.deep_view() == t[r as int],
                r < t.len(),
                row.len() <= m,
                idx <= row.len(),
                widths@.len() == m,
                forall|k: int| 0 <= k < m ==> widths@[k] == column_width(t, t.len() as int, k),
                new_row@ == row_cells(t, t[r as int], padding as nat, idx as int),
            decreases row.len() - idx,
        {
            let cell = &row[idx];
            assert(cell@ == t[r as int][idx as int]);
            let l = string_len(cell);
            let w = widths[idx];
            push_str(&mut new_row, cell.as_str());
            if l < w {
                push_spaces(&mut new_row, w - l);
            } else {
                push_spaces(&mut new_row, 0);
            }
            push_spaces(&mut new_row, padding);
            push_char(&mut new_row, ' ');
            assert(new_row@ =~= row_cells(t, t[r as int], padding as nat, idx + 1));
            idx = idx + 1;
        }
        let row_chars = chars_of(new_row.as_str());
        let trimmed_row = trimmed(&row_chars);
        push_all(&mut out, &trimmed_row);
        push_char(&mut out, '\n');
        assert(out@ =~= table_rows(t, padding as nat, r + 1));
        r = r + 1;
    }
    out
}

} // verus!

verus! {

/// One line of a two-column summary: an indentation level, a left and a right column.
pub struct TableLine {
    /// Indentation level; each level is two spaces.
    pub indent_front: usize,
    /// Text of the left column.
    pub left_column: String,
    /// Text of the right column.
    pub right_column: String,
}

/// The mathematical content of a `TableLine`.
pub struct LineView {
    /// Indentation level; each level is two spaces.
    pub indent: nat,
    /// Text of the left column.
    pub left: Seq<char>,
    /// Text of the right column.
    pub right: Seq<char>,
}

impl View for TableLine {
    type V = LineView;

    open spec fn view(&self) -> LineView {
        LineView { indent: self.indent_front as nat, left: self.left_column@, right: self.right_column@ }
    }
}

/// The views of a list of lines.
pub open spec fn line_views(lines: Seq<TableLine>) -> Seq<LineView> {
    lines.map_values(|l: TableLine| l@)
}

/// The right column as `TableLine::new` stores it: a trailing `" B"` unit is widened to `"  B"`
/// (every `" B"` is replaced) so that it lines up with `" KB"`, `" MB"` and so on.
pub open spec fn aligned_right_column(right: Seq<char>) -> Seq<char> {
    if ends_with(right, seq![' ', 'B']) {
        replace_all(right, seq![' ', 'B'], seq![' ', ' ', 'B'])
    } else {
        right
    }
}

impl TableLine {
    /// Creates a line; a right column ending in `" B"` gets its `" B"` widened to `"  B"`.
    pub fn new(indent_front: usize, left_column: &str, right_column: &str) -> (line: TableLine)
        ensures
            line@ == (LineView {
                indent: indent_front as nat,
                left: left_column@,
                right: aligned_right_column(right_column@),
            }),
    {
        let right = chars_of(right_column);
        let unit = vec![' ', 'B'];
        let right_aligned = if str_ends_with(&right, &unit) {
            let wide = vec![' ', ' ', 'B'];
            replaced(&right, &unit, &wide)
        } else {
            right
        };
        let mut left = String::new();
        push_str(&mut left, left_column);
        TableLine { indent_front, left_column: left, right_column: string_of(&right_aligned) }
    }
}

/// The lines that are laid out as aligned rows: all of them, or all but the first one, which is
/// then printed unchanged as a heading.
pub open spec fn body_lines(lines: Seq<LineView>, align_first_line: bool) -> Seq<LineView> {
    if !align_first_line && lines.len() > 0 {
        lines.drop_first()
    } else {
        lines
    }
}

/// The heading printed before the rows: the left column of the first line when it is not aligned.
pub open spec fn heading(lines: Seq<LineView>, align_first_line: bool) -> Seq<char> {
    if !align_first_line && lines.len() > 0 {
        lines[0].left
    } else {
        seq![]
    }
}

/// The rows whose left column sets the width of the left column: every row when the first line
/// is aligned, else every row but the first one after the heading.
pub open spec fn width_setting_lines(lines: Seq<LineView>, align_first_line: bool) -> Seq<
    LineView,
> {
    let body = body_lines(lines, align_first_line);
    if align_first_line || body.len() == 0 {
        body
    } else {
        body.drop_first()
    }
}

/// Byte lengths of the left columns.
pub open spec fn left_lens(ls: Seq<LineView>) -> Seq<nat> {
    ls.map_values(|l: LineView| str_len(l.left) as nat)
}

/// Byte lengths of the right columns.
pub open spec fn right_lens(ls: Seq<LineView>) -> Seq<nat> {
    ls.map_values(|l: LineView| str_len(l.right) as nat)
}

/// Indentation levels.
pub open spec fn indents(ls: Seq<LineView>) -> Seq<nat> {
    ls.map_values(|l: LineView| l.indent)
}

/// The common length of all rows.
pub open spec fn row_length(lines: Seq<LineView>, min_padding: nat, align_first_line: bool) -> nat {
    let body = body_lines(lines, align_first_line);
    seq_max(left_lens(width_setting_lines(lines, align_first_line))) + seq_max(right_lens(body))
        + min_padding + 2 * seq_max(indents(body))
}

/// Bytes a row needs besides its filling spaces.
pub open spec fn used_length(l: LineView, min_padding: nat) -> nat {
    (2 * l.indent + str_len(l.left) + min_padding + str_len(l.right)) as nat
}

/// One row: indentation, left column, spaces up to the row length, right column, newline.
pub open spec fn row_text(l: LineView, length: nat, min_padding: nat) -> Seq<char> {
    spaces(2 * l.indent) + l.left + spaces(
        (min_padding + length - used_length(l, min_padding)) as nat,
    ) + l.right + seq!['\n']
}

/// The first `n` rows of `ls`.
pub open spec fn rows_text(ls: Seq<LineView>, length: nat, min_padding: nat, n: int) -> Seq<char>
    decreases n,
{
    if n <= 0 {
        seq![]
    } else {
        rows_text(ls, length, min_padding, n - 1) + row_text(ls[n - 1], length, min_padding)
    }
}

/// The text that `two_row_table` produces.
pub open spec fn two_row_text(lines: Seq<LineView>, min_padding: nat, align_first_line: bool) -> Seq<
    char,
> {
    let body = body_lines(lines, align_first_line);
    heading(lines, align_first_line) + rows_text(
        body,
        row_length(lines, min_padding, align_first_line),
        min_padding,
        body.len() as int,
    )
}

/// The row length fits in a `usize` and no row needs more than the row length; otherwise the
/// layout arithmetic overflows.
pub open spec fn two_row_fits(lines: Seq<LineView>, min_padding: nat, align_first_line: bool) -> bool {
    let body = body_lines(lines, align_first_line);
    &&& row_length(lines, min_padding, align_first_line) <= usize::MAX
    &&& forall|i: int|
        0 <= i < body.len() ==> used_length(#[trigger] body[i], min_padding) <= row_length(
            lines,
            min_padding,
            align_first_line,
        )
}

/// A bound on every element bounds the maximum.
proof fn lemma_seq_max_le(s: Seq<nat>, b: nat)
    requires
        forall|i: int| 0 <= i < s.len() ==> #[trigger] s[i] <= b,
    ensures
        seq_max(s) <= b,
{
    lemma_seq_max(s);
    if s.len() > 0 {
        let k = choose|k: int| 0 <= k < s.len() && s[k] == seq_max(s);
        assert(s[k] <= b);
    }
}

/// Lines whose columns and indentation are bounded, with the row length of those bounds fitting
/// in a `usize`, can be laid out; when the first line is a heading, the line after it must not be
/// wider on the left than the line after that.
pub proof fn lemma_two_row_fits(
    lines: Seq<LineView>,
    min_padding: nat,
    align_first_line: bool,
    max_left: nat,
    max_right: nat,
    max_indent: nat,
)
    requires
        max_left + max_right + min_padding + 2 * max_indent <= usize::MAX,
        forall|i: int|
            0 <= i < body_lines(lines, align_first_line).len() ==> {
                let l = #[trigger] body_lines(lines, align_first_line)[i];
                &&& byte_len(l.left) <= max_left
                &&& byte_len(l.right) <= max_right
                &&& l.indent <= max_indent
            },
        !align_first_line && body_lines(lines, align_first_line).len() > 0 ==> {
            let body = body_lines(lines, align_first_line);
            body.len() > 1 && byte_len(body[0].left) <= byte_len(body[1].left)
        },
    ensures
        two_row_fits(lines, min_padding, align_first_line),
{
    let body = body_lines(lines, align_first_line);
    let width = width_setting_lines(lines, align_first_line);
    let ll = left_lens(width);
    let rl = right_lens(body);
    let il = indents(body);
    assert forall|i: int| 0 <= i < ll.len() implies #[trigger] ll[i] <= max_left by {
        let k = if align_first_line { i } else { i + 1 };
        assert(width[i] == body[k]);
    }
    assert forall|i: int| 0 <= i < rl.len() implies #[trigger] rl[i] <= max_right by {
        assert(body[i] == body[i]);
    }
    assert forall|i: int| 0 <= i < il.len() implies #[trigger] il[i] <= max_indent by {
        assert(body[i] == body[i]);
    }
    lemma_seq_max_le(ll, max_left);
    lemma_seq_max_le(rl, max_right);
    lemma_seq_max_le(il, max_indent);
    lemma_seq_max(ll);
    lemma_seq_max(rl);
    lemma_seq_max(il);
    let len = row_length(lines, min_padding, align_first_line);
    assert forall|i: int| 0 <= i < body.len() implies used_length(#[trigger] body[i], min_padding)
        <= len by {
        assert(rl[i] == str_len(body[i].right) as nat);
        assert(il[i] == body[i].indent);
        if align_first_line {
            assert(ll[i] == str_len(body[i].left) as nat);
        } else if i >= 1 {
            assert(width[i - 1] == body[i]);
            assert(ll[i - 1] == str_len(body[i].left) as nat);
        } else {
            assert(width[0] == body[1]);
            assert(ll[0] == str_len(body[1].left) as nat);
        }
    }
}

fn max_left_len(lines: &Vec<TableLine>, from: usize) -> (m: usize)
    requires
        from <= lines.len(),
    ensures
        m == seq_max(left_lens(line_views(lines@).skip(from as int))),
{
    let ghost s = left_lens(line_views(lines@).skip(from as int));
    let mut m: usize = 0;
    let mut i: usize = from;
    while i < lines.len()
        invariant
            from <= i <= lines.len(),
            s == left_lens(line_views(lines@).skip(from as int)),
            m == seq_max(s.take(i - from)),
        decreases lines.len() - i,
    {
        proof {
            lemma_seq_max_take(s, i - from);
        }
        let l = string_len(&lines[i].left_column);
        assert(s[i - from] == l as nat);
        if l > m {
            m = l;
        }
        i = i + 1;
    }
    assert(s.take(i - from) =~= s);
    m
}

fn max_right_len(lines: &Vec<TableLine>, from: usize) -> (m: usize)
    requires
        from <= lines.len(),
    ensures
        m == seq_max(right_lens(line_views(lines@).skip(from as int))),
{
    let ghost s = right_lens(line_views(lines@).skip(from as int));
    let mut m: usize = 0;
    let mut i: usize = from;
    while i < lines.len()
        invariant
            from <= i <= lines.len(),
            s == right_lens(line_views(lines@).skip(from as int)),
            m == seq_max(s.take(i - from)),
        decreases lines.len() - i,
    {
        proof {
            lemma_seq_max_take(s, i - from);
        }
        let l = string_len(&lines[i].right_column);
        assert(s[i - from] == l as nat);
        if l > m {
            m = l;
        }
        i = i + 1;
    }
    assert(s.take(i - from) =~= s);
    m
}

fn max_indent(lines: &Vec<TableLine>, from: usize) -> (m: usize)
    requires
        from <= lines.len(),
    ensures
        m == seq_max(indents(line_views(lines@).skip(from as int))),
{
    let ghost s = indents(line_views(lines@).skip(from as int));
    let mut m: usize = 0;
    let mut i: usize = from;
    while i < lines.len()
        invariant
            from <= i <= lines.len(),
            s == indents(line_views(lines@).skip(from as int)),
            m == seq_max(s.take(i - from)),
        decreases lines.len() - i,
    {
        proof {
            lemma_seq_max_take(s, i - from);
        }
        let l = lines[i].indent_front;
        assert(s[i - from] == l as nat);
        if l > m {
            m = l;
        }
        i = i + 1;
    }
    assert(s.take(i - from) =~= s);
    m
}

fn push_row(table: &mut String, line: &TableLine, line_length: usize, min_padding_middle: usize)
    requires
        used_length(line@, min_padding_middle as nat) <= line_length,
    ensures
        final(table)@ == old(table)@ + row_text(line@, line_length as nat, min_padding_middle as nat),
{
    let indent_front_len = line.indent_front * 2;
    push_spaces(table, indent_front_len);
    push_str(table, line.left_column.as_str());
    let spaces = line_length - (indent_front_len + string_len(&line.left_column)
        + min_padding_middle + string_len(&line.right_column));
    push_spaces(table, min_padding_middle + spaces);
    push_str(table, line.right_column.as_str());
    push_char(table, '\n');
    assert(table@ =~= old(table)@ + row_text(line@, line_length as nat, min_padding_middle as nat));
}

/// Lays out `lines` as a two-column table: left columns left-aligned after their indentation,
/// right columns right-aligned, at least `min_padding_middle` spaces between them. Unless
/// `align_first_line`, the first line's left column is printed as a heading and the line after
/// it does not count towards the width of the left column.
pub fn two_row_table(min_padding_middle: usize, lines: Vec<TableLine>, align_first_line: bool) -> (table: String)
    requires
        two_row_fits(line_views(lines@), min_padding_middle as nat, align_first_line),
    ensures
        table@ == two_row_text(line_views(lines@), min_padding_middle as nat, align_first_line),
{
    let ghost ls = line_views(lines@);
    let start: usize = if !align_first_line && lines.len() > 0 { 1 } else { 0 };
    let ghost body = body_lines(ls, align_first_line);
    assert(body =~= ls.skip(start as int));
    let left_from: usize = if align_first_line || start == lines.len() { start } else { start + 1 };
    assert(width_setting_lines(ls, align_first_line) =~= ls.skip(left_from as int));
    let max_len_left_col = max_left_len(&lines, left_from);
    let max_len_right_col = max_right_len(&lines, start);
    let max_indent_front = max_indent(&lines, start);
    let line_length = max_len_left_col + max_len_right_col + min_padding_middle + max_indent_front * 2;
    let ghost len = row_length(ls, min_padding_middle as nat, align_first_line);
    assert(line_length == len);
    let mut table = String::new();
    if start == 1 {
        push_str(&mut table, lines[0].left_column.as_str());
    }
    assert(table@ == heading(ls, align_first_line));
    let ghost head = table@;
    let mut i: usize = start;
    while i < lines.len()
        invariant
            ls == line_views(lines@),
            start <= i <= lines.len(),
            body == ls.skip(start as int),
            line_length == len,
            two_row_fits(ls, min_padding_middle as nat, align_first_line),
            body == body_lines(ls, align_first_line),
            len == row_length(ls, min_padding_middle as nat, align_first_line),
            table@ == head + rows_text(body, len, min_padding_middle as nat, i - start),
        decreases lines.len() - i,
    {
        assert(body[i - start] == ls[i as int]);
        assert(used_length(body[i - start], min_padding_middle as nat) <= len);
        push_row(&mut table, &lines[i], line_length, min_padding_middle);
        assert(table@ =~= head + rows_text(body, len, min_padding_middle as nat, i + 1 - start));
        i = i + 1;
    }
    table
}

/// Lays out `lines` as a two-column table with every line aligned.
pub fn format_2_row_table(min_padding_middle: usize, lines: Vec<TableLine>) -> (table: String)
    requires
        two_row_fits(line_views(lines@), min_padding_middle as nat, true),
    ensures
        table@ == two_row_text(line_views(lines@), min_padding_middle as nat, true),
{
    two_row_table(min_padding_middle, lines, true)
}

} // verus!
