//! Box-drawn tables: column widths, aligned cells, rows whose last cell spans
//! several columns, and the borders between rows.
use vstd::prelude::*;
use crate::text::{push_char, push_str, push_repeat, repeat_char, spaces, same_text};
use crate::width::{ascii_width_holds, visible_width, visible_width_of};

verus! {

// ---------------------------------------------------------------------------
// Rows
// ---------------------------------------------------------------------------

/// A table row: either one value per column, or some leading cells followed
/// by one value that spans `span_columns` columns from `span_start`.
pub enum TableRow {
    Cells(Vec<String>),
    WithSpan {
        leading_cells: Vec<String>,
        span_start: usize,
        span_columns: usize,
        span_value: String,
        span_align: &'static str,
    },
}

/// The text content of a row.
pub enum RowShape {
    Cells(Seq<Seq<char>>),
    Span {
        leading: Seq<Seq<char>>,
        start: int,
        columns: int,
        value: Seq<char>,
        align: Seq<char>,
    },
}

pub open spec fn texts(v: Seq<String>) -> Seq<Seq<char>> {
    Seq::new(v.len(), |i: int| v[i]@)
}

pub open spec fn str_texts(v: Seq<&str>) -> Seq<Seq<char>> {
    Seq::new(v.len(), |i: int| v[i]@)
}

impl View for TableRow {
    type V = RowShape;

    open spec fn view(&self) -> RowShape {
        match self {
            TableRow::Cells(values) => RowShape::Cells(texts(values@)),
            TableRow::WithSpan { leading_cells, span_start, span_columns, span_value, span_align } =>
                RowShape::Span {
                leading: texts(leading_cells@),
                start: *span_start as int,
                columns: *span_columns as int,
                value: span_value@,
                align: span_align@,
            },
        }
    }
}

pub open spec fn rows_view(rows: Seq<TableRow>) -> Seq<RowShape> {
    Seq::new(rows.len(), |i: int| rows[i]@)
}

pub open spec fn width_of(s: Seq<char>) -> int {
    visible_width_of(s) as int
}

/// How many columns row `r` needs in column `i`. A spanning value counts
/// towards the first column of its span only.
pub open spec fn cell_width_of(r: RowShape, i: int) -> int {
    match r {
        RowShape::Cells(values) => if 0 <= i < values.len() {
            width_of(values[i])
        } else {
            0
        },
        RowShape::Span { leading, start, value, .. } => if i < start {
            if 0 <= i < leading.len() {
                width_of(leading[i])
            } else {
                0
            }
        } else if i == start {
            width_of(value)
        } else {
            0
        },
    }
}

/// The text that `cell_width_of(r, i)` measures, if any, takes one column
/// per character when it is printable ASCII.
pub open spec fn measured_width_holds(r: RowShape, i: int) -> bool {
    match r {
        RowShape::Cells(values) => 0 <= i < values.len() ==> ascii_width_holds(values[i]),
        RowShape::Span { leading, start, value, .. } => (i < start && 0 <= i < leading.len()
            ==> ascii_width_holds(leading[i])) && (i == start ==> ascii_width_holds(value)),
    }
}

/// Every text of the row takes one column per character when it is
/// printable ASCII.
pub open spec fn row_widths_hold(r: RowShape) -> bool {
    match r {
        RowShape::Cells(values) => forall|i: int|
            0 <= i < values.len() ==> ascii_width_holds(#[trigger] values[i]),
        RowShape::Span { leading, value, .. } => ascii_width_holds(value) && forall|i: int|
            0 <= i < leading.len() ==> ascii_width_holds(#[trigger] leading[i]),
    }
}

/// Every text of the table takes one column per character when it is
/// printable ASCII.
pub open spec fn table_widths_hold(
    headers: Seq<Seq<char>>,
    rows: Seq<RowShape>,
    summary: Option<Seq<char>>,
) -> bool {
    &&& forall|i: int| 0 <= i < headers.len() ==> ascii_width_holds(#[trigger] headers[i])
    &&& forall|k: int| 0 <= k < rows.len() ==> row_widths_hold(#[trigger] rows[k])
    &&& summary matches Some(s) ==> ascii_width_holds(s)
}

/// Whether row `r` has a vertical line after column `i`; inside a span it
/// has none.
pub open spec fn boundary_after(r: RowShape, i: int) -> bool {
    match r {
        RowShape::Cells(_) => true,
        RowShape::Span { start, columns, .. } => !(i >= start && i < start + columns - 1),
    }
}

/// A span whose end can be computed without overflow.
pub open spec fn span_sound(r: RowShape) -> bool {
    match r {
        RowShape::Cells(_) => true,
        RowShape::Span { start, columns, .. } => start + columns >= 1 && start + columns
            <= usize::MAX,
    }
}

impl TableRow {
    /// The columns this row needs in column `index`.
    pub fn cell_width(&self, index: usize) -> (w: usize)
        ensures
            w as int == cell_width_of(self@, index as int),
            measured_width_holds(self@, index as int),
    {
        match self {
            TableRow::Cells(values) => {
                if index < values.len() {
                    visible_width(values[index].as_str())
                } else {
                    0
                }
            },
            TableRow::WithSpan { leading_cells, span_start, span_value, .. } => {
                if index < *span_start {
                    if index < leading_cells.len() {
                        return visible_width(leading_cells[index].as_str());
                    }
                    return 0;
                }
                if index == *span_start {
                    return visible_width(span_value.as_str());
                }
                0
            },
        }
    }

    /// Whether this row has a vertical line after column `index`.
    pub fn has_boundary_after(&self, index: usize) -> (b: bool)
        requires
            span_sound(self@),
        ensures
            b == boundary_after(self@, index as int),
    {
        match self {
            TableRow::Cells(_) => true,
            TableRow::WithSpan { span_start, span_columns, .. } => {
                let span_end = *span_start + *span_columns - 1;
                !(index >= *span_start && index < span_end)
            },
        }
    }
}

// ---------------------------------------------------------------------------
// Column widths
// ---------------------------------------------------------------------------

pub open spec fn max_int(a: int, b: int) -> int {
    if a >= b {
        a
    } else {
        b
    }
}

/// The width of column `i`: the widest of its header and its rows' cells.
pub open spec fn column_width(headers: Seq<Seq<char>>, rows: Seq<RowShape>, i: int) -> int
    decreases rows.len(),
{
    if rows.len() == 0 {
        width_of(headers[i])
    } else {
        max_int(column_width(headers, rows.drop_last(), i), cell_width_of(rows.last(), i))
    }
}

pub open spec fn column_widths(headers: Seq<Seq<char>>, rows: Seq<RowShape>) -> Seq<int> {
    Seq::new(headers.len(), |i: int| column_width(headers, rows, i))
}

pub open spec fn widths_view(w: Seq<usize>) -> Seq<int> {
    Seq::new(w.len(), |i: int| w[i] as int)
}

proof fn lemma_column_width_bounds(headers: Seq<Seq<char>>, rows: Seq<RowShape>, i: int)
    ensures
        0 <= column_width(headers, rows, i) <= usize::MAX,
    decreases rows.len(),
{
    if rows.len() > 0 {
        lemma_column_width_bounds(headers, rows.drop_last(), i);
    }
}

/// The width of every column.
pub fn compute_column_widths(headers: &[&str], rows: &[TableRow]) -> (widths: Vec<usize>)
    ensures
        widths_view(widths@) == column_widths(str_texts(headers@), rows_view(rows@)),
{
    let ghost hs = str_texts(headers@);
    let ghost rs = rows_view(rows@);
    let mut widths: Vec<usize> = Vec::new();
    for i in 0..headers.len()
        invariant
            hs == str_texts(headers@),
            rs == rows_view(rows@),
            widths@.len() == i,
            forall|k: int| 0 <= k < i ==> widths@[k] as int == column_width(hs, rs, k),
    {
        let mut w = visible_width(headers[i]);
        assert(rs.take(0).len() == 0);
        for j in 0..rows.len()
            invariant
                hs == str_texts(headers@),
                rs == rows_view(rows@),
                i < headers@.len(),
                w as int == column_width(hs, rs.take(j as int), i as int),
        {
            let c = rows[j].cell_width(i);
            assert(rs.take(j + 1).drop_last() =~= rs.take(j as int));
            assert(rs.take(j + 1).last() == rows@[j as int]@);
            if c > w {
                w = c;
            }
        }
        assert(rs.take(rows.len() as int) =~= rs);
        widths.push(w);
    }
    assert(widths_view(widths@) =~= column_widths(hs, rs));
    widths
}

// ---------------------------------------------------------------------------
// Sums of widths
// ---------------------------------------------------------------------------

pub open spec fn seq_sum(s: Seq<int>) -> int
    decreases s.len(),
{
    if s.len() == 0 {
        0
    } else {
        seq_sum(s.drop_last()) + s.last()
    }
}

/// The inner width of a value spanning `columns` columns from `start`: their
/// widths plus the ` │ ` separators that the span swallows.
pub open spec fn span_width(w: Seq<int>, start: int, columns: int) -> int {
    seq_sum(w.subrange(start, start + columns)) + (columns - 1) * 3
}

/// The inner width of a line that spans the whole table.
pub open spec fn total_width(w: Seq<int>) -> int {
    seq_sum(w) + (w.len() - 1) * 3
}

proof fn lemma_sum_bounds(s: Seq<int>)
    requires
        forall|i: int| 0 <= i < s.len() ==> 0 <= #[trigger] s[i] <= usize::MAX,
    ensures
        0 <= seq_sum(s) <= s.len() * 0x1_0000_0000_0000_0000,
    decreases s.len(),
{
    if s.len() > 0 {
        lemma_sum_bounds(s.drop_last());
    }
}

/// The sum of `widths[start..start + columns]`, plus three columns for each
/// separator inside the range.
fn range_width(widths: &Vec<usize>, start: usize, columns: usize) -> (r: u128)
    requires
        columns >= 1,
        start + columns <= widths@.len(),
        widths@.len() <= isize::MAX,
    ensures
        r as int == span_width(widths_view(widths@), start as int, columns as int),
        r as int + 2 <= u128::MAX,
{
    let ghost w = widths_view(widths@);
    let mut acc: u128 = 0;
    let mut k: usize = start;
    assert(w.subrange(start as int, start as int).len() == 0);
    while k < start + columns
        invariant
            w == widths_view(widths@),
            start <= k <= start + columns <= widths@.len() <= isize::MAX,
            acc as int == seq_sum(w.subrange(start as int, k as int)),
            acc <= (k - start) * 0x1_0000_0000_0000_0000,
        decreases start + columns - k,
    {
        assert(w.subrange(start as int, k + 1).drop_last() =~= w.subrange(start as int, k as int));
        acc = acc + widths[k] as u128;
        k = k + 1;
    }
    acc + (columns as u128 - 1) * 3
}

/// The inner width of a line spanning every column.
fn full_width(widths: &Vec<usize>) -> (r: u128)
    requires
        widths@.len() >= 1,
        widths@.len() <= isize::MAX,
    ensures
        r as int == total_width(widths_view(widths@)),
        r as int + 2 <= u128::MAX,
{
    let r = range_width(widths, 0, widths.len());
    assert(widths_view(widths@).subrange(0, widths@.len() as int) =~= widths_view(widths@));
    r
}

// ---------------------------------------------------------------------------
// Cells and lines
// ---------------------------------------------------------------------------

pub open spec fn left_word() -> Seq<char> {
    seq!['l', 'e', 'f', 't']
}

pub open spec fn right_word() -> Seq<char> {
    seq!['r', 'i', 'g', 'h', 't']
}

pub open spec fn center_word() -> Seq<char> {
    seq!['c', 'e', 'n', 't', 'e', 'r']
}

/// `value` padded with spaces to `width` columns: after it for `left`,
/// before it for `right`, split with the smaller half first for `center`.
/// Any other alignment, or a value already as wide, leaves it as it is.
pub open spec fn align_text(value: Seq<char>, width: int, align: Seq<char>) -> Seq<char> {
    let value_width = width_of(value);
    let padding = if width > value_width {
        width - value_width
    } else {
        0
    };
    if align == left_word() {
        value + spaces(padding)
    } else if align == right_word() {
        spaces(padding) + value
    } else if align == center_word() {
        spaces(padding / 2) + value + spaces(padding - padding / 2)
    } else {
        value
    }
}

/// Pads a cell to its column's width.
fn align_cell(value: &str, width: u128, align: &str) -> (out: String)
    ensures
        out@ == align_text(value@, width as int, align@),
        ascii_width_holds(value@),
{
    let value_width = visible_width(value) as u128;
    let padding: u128 = if width > value_width {
        width - value_width
    } else {
        0
    };
    proof {
        reveal_strlit("left");
        reveal_strlit("right");
        reveal_strlit("center");
        assert("left"@ =~= left_word());
        assert("right"@ =~= right_word());
        assert("center"@ =~= center_word());
    }
    let mut out = String::new();
    if same_text(align, "left") {
        push_str(&mut out, value);
        push_repeat(&mut out, ' ', padding);
    } else if same_text(align, "right") {
        push_repeat(&mut out, ' ', padding);
        push_str(&mut out, value);
    } else if same_text(align, "center") {
        let left = padding / 2;
        push_repeat(&mut out, ' ', left);
        push_str(&mut out, value);
        push_repeat(&mut out, ' ', padding - left);
    } else {
        push_str(&mut out, value);
    }
    assert(out@ =~= align_text(value@, width as int, align@));
    out
}

/// Parts joined with a separator between each two.
pub open spec fn join(parts: Seq<Seq<char>>, sep: Seq<char>) -> Seq<char>
    decreases parts.len(),
{
    if parts.len() == 0 {
        Seq::empty()
    } else if parts.len() == 1 {
        parts[0]
    } else {
        join(parts.drop_last(), sep) + sep + parts.last()
    }
}

pub open spec fn cell_separator() -> Seq<char> {
    seq![' ', '│', ' ']
}

/// `│ a │ b │ c │`
pub open spec fn boxed(cells: Seq<Seq<char>>) -> Seq<char> {
    seq!['│', ' '] + join(cells, cell_separator()) + seq![' ', '│']
}

/// Each value aligned to its column.
pub open spec fn padded(values: Seq<Seq<char>>, w: Seq<int>, aligns: Seq<Seq<char>>) -> Seq<
    Seq<char>,
> {
    Seq::new(values.len(), |i: int| align_text(values[i], w[i], aligns[i]))
}

/// The line that shows a row.
pub open spec fn row_line(r: RowShape, w: Seq<int>, aligns: Seq<Seq<char>>) -> Seq<char> {
    match r {
        RowShape::Cells(values) => boxed(padded(values, w, aligns)),
        RowShape::Span { leading, start, columns, value, align } => boxed(
            padded(leading, w, aligns).push(
                align_text(value, span_width(w, start, columns), align),
            ),
        ),
    }
}

/// What joins two column segments of a horizontal border.
pub enum Junction {
    /// The same character everywhere.
    Fixed(char),
    /// A border between two rows: it has a leg upwards where the upper row
    /// has a vertical line, and downwards where the lower row has one.
    Between(Option<RowShape>, Option<RowShape>),
    /// The border that closes the rows above a full-width footer.
    Closing(RowShape),
}

pub open spec fn junction_char(j: Junction, i: int) -> char {
    match j {
        Junction::Fixed(c) => c,
        Junction::Between(upper, lower) => {
            let up = upper matches Some(r) && boundary_after(r, i);
            let down = lower matches Some(r) && boundary_after(r, i);
            if up && down {
                '┼'
            } else if up {
                '┴'
            } else if down {
                '┬'
            } else {
                '─'
            }
        },
        Junction::Closing(upper) => if boundary_after(upper, i) {
            '┴'
        } else {
            '─'
        },
    }
}

pub open spec fn junction_sound(j: Junction) -> bool {
    match j {
        Junction::Fixed(_) => true,
        Junction::Between(upper, lower) => (upper matches Some(r) ==> span_sound(r)) && (
        lower matches Some(r) ==> span_sound(r)),
        Junction::Closing(upper) => span_sound(upper),
    }
}

/// The segments of the first `k` columns of a border: `width + 2` dashes
/// per column, each followed by its junction unless it is the last column.
pub open spec fn border_segments(w: Seq<int>, j: Junction, k: int) -> Seq<char>
    decreases k,
{
    if k <= 0 {
        Seq::empty()
    } else {
        border_segments(w, j, k - 1) + repeat_char('─', w[k - 1] + 2) + if k < w.len() {
            seq![junction_char(j, k - 1)]
        } else {
            Seq::empty()
        }
    }
}

pub open spec fn border_line(w: Seq<int>, left: char, right: char, j: Junction) -> Seq<char> {
    seq![left] + border_segments(w, j, w.len() as int) + seq![right]
}

/// The junction of a border, computed.
enum BorderJoin<'a> {
    Fixed(char),
    Between(Option<&'a TableRow>, Option<&'a TableRow>),
    Closing(&'a TableRow),
}

pub open spec fn option_row_view(r: Option<&TableRow>) -> Option<RowShape> {
    match r {
        Some(row) => Some(row@),
        None => None,
    }
}

impl<'a> BorderJoin<'a> {
    spec fn spec_junction(&self) -> Junction {
        match self {
            BorderJoin::Fixed(c) => Junction::Fixed(*c),
            BorderJoin::Between(upper, lower) => Junction::Between(
                option_row_view(*upper),
                option_row_view(*lower),
            ),
            BorderJoin::Closing(upper) => Junction::Closing(upper@),
        }
    }

    fn char_at(&self, index: usize) -> (c: char)
        requires
            junction_sound(self.spec_junction()),
        ensures
            c == junction_char(self.spec_junction(), index as int),
    {
        match self {
            BorderJoin::Fixed(c) => *c,
            BorderJoin::Between(upper, lower) => {
                let up = match upper {
                    Some(row) => row.has_boundary_after(index),
                    None => false,
                };
                let down = match lower {
                    Some(row) => row.has_boundary_after(index),
                    None => false,
                };
                if up && down {
                    '┼'
                } else if up {
                    '┴'
                } else if down {
                    '┬'
                } else {
                    '─'
                }
            },
            BorderJoin::Closing(upper) => if upper.has_boundary_after(index) {
                '┴'
            } else {
                '─'
            },
        }
    }
}

fn render_border_line(widths: &Vec<usize>, left: char, right: char, join: &BorderJoin) -> (out:
    String)
    requires
        junction_sound(join.spec_junction()),
    ensures
        out@ == border_line(widths_view(widths@), left, right, join.spec_junction()),
{
    let ghost w = widths_view(widths@);
    let n = widths.len();
    let mut line = String::new();
    push_char(&mut line, left);
    for i in 0..n
        invariant
            w == widths_view(widths@),
            n == widths@.len(),
            junction_sound(join.spec_junction()),
            line@ == seq![left] + border_segments(w, join.spec_junction(), i as int),
    {
        push_repeat(&mut line, '─', widths[i] as u128 + 2);
        if i + 1 != n {
            let c = join.char_at(i);
            push_char(&mut line, c);
        }
        assert(line@ =~= seq![left] + border_segments(w, join.spec_junction(), i + 1));
    }
    push_char(&mut line, right);
    line
}

/// A border with the same junction between every two columns.
fn render_border(widths: &Vec<usize>, left: char, middle: char, right: char) -> (out: String)
    ensures
        out@ == border_line(widths_view(widths@), left, right, Junction::Fixed(middle)),
{
    render_border_line(widths, left, right, &BorderJoin::Fixed(middle))
}

/// The border between two rows, with legs up and down where each row has a
/// vertical line.
pub fn render_transition_border(
    widths: &Vec<usize>,
    left: char,
    right: char,
    upper: Option<&TableRow>,
    lower: Option<&TableRow>,
) -> (out: String)
    requires
        upper matches Some(r) ==> span_sound(r@),
        lower matches Some(r) ==> span_sound(r@),
    ensures
        out@ == border_line(
            widths_view(widths@),
            left,
            right,
            Junction::Between(option_row_view(upper), option_row_view(lower)),
        ),
{
    render_border_line(widths, left, right, &BorderJoin::Between(upper, lower))
}

/// The border under the last row when a full-width footer follows: legs up
/// only.
pub fn render_summary_transition_border(
    widths: &Vec<usize>,
    left: char,
    right: char,
    upper: &TableRow,
) -> (out: String)
    requires
        span_sound(upper@),
    ensures
        out@ == border_line(widths_view(widths@), left, right, Junction::Closing(upper@)),
{
    render_border_line(widths, left, right, &BorderJoin::Closing(upper))
}

/// `│ cell │ cell │`
fn boxed_line(cells: &Vec<String>) -> (out: String)
    ensures
        out@ == boxed(texts(cells@)),
{
    let ghost t = texts(cells@);
    let mut line = String::new();
    push_char(&mut line, '│');
    push_char(&mut line, ' ');
    for i in 0..cells.len()
        invariant
            t == texts(cells@),
            line@ == seq!['│', ' '] + join(t.take(i as int), cell_separator()),
    {
        if i > 0 {
            push_char(&mut line, ' ');
            push_char(&mut line, '│');
            push_char(&mut line, ' ');
        }
        push_str(&mut line, cells[i].as_str());
        assert(t.take(i + 1).drop_last() =~= t.take(i as int));
        assert(t.take(i + 1).last() == cells@[i as int]@);
        assert(line@ =~= seq!['│', ' '] + join(t.take(i + 1), cell_separator()));
    }
    assert(t.take(cells@.len() as int) =~= t);
    push_char(&mut line, ' ');
    push_char(&mut line, '│');
    assert(line@ =~= boxed(t));
    line
}

/// Every value aligned to its column.
fn padded_cells(values: &Vec<String>, widths: &Vec<usize>, aligns: &[&str]) -> (out: Vec<String>)
    requires
        values@.len() <= widths@.len(),
        values@.len() <= aligns@.len(),
    ensures
        texts(out@) == padded(texts(values@), widths_view(widths@), str_texts(aligns@)),
        forall|i: int| 0 <= i < values@.len() ==> ascii_width_holds(#[trigger] values@[i]@),
{
    let mut out: Vec<String> = Vec::new();
    for i in 0..values.len()
        invariant
            values@.len() <= widths@.len(),
            values@.len() <= aligns@.len(),
            out@.len() == i,
            forall|k: int|
                0 <= k < i ==> (#[trigger] out@[k])@ == align_text(
                    values@[k]@,
                    widths@[k] as int,
                    aligns@[k]@,
                ),
            forall|k: int| 0 <= k < i ==> ascii_width_holds(#[trigger] values@[k]@),
    {
        out.push(align_cell(values[i].as_str(), widths[i] as u128, aligns[i]));
    }
    assert(texts(out@) =~= padded(texts(values@), widths_view(widths@), str_texts(aligns@)));
    out
}

/// A row fits a table of `n` columns.
pub open spec fn row_fits(r: RowShape, n: int) -> bool {
    match r {
        RowShape::Cells(values) => values.len() <= n,
        RowShape::Span { leading, start, columns, .. } => leading.len() <= n && columns >= 1
            && start + columns <= n,
    }
}

proof fn lemma_row_fits_sound(r: RowShape, n: int)
    requires
        row_fits(r, n),
        n <= usize::MAX,
        r matches RowShape::Span { start, .. } ==> start >= 0,
    ensures
        span_sound(r),
{
}

fn render_row(row: &TableRow, widths: &Vec<usize>, aligns: &[&str]) -> (out: String)
    requires
        row_fits(row@, widths@.len() as int),
        aligns@.len() >= widths@.len(),
        widths@.len() <= isize::MAX,
    ensures
        out@ == row_line(row@, widths_view(widths@), str_texts(aligns@)),
        row_widths_hold(row@),
{
    match row {
        TableRow::Cells(values) => boxed_line(&padded_cells(values, widths, aligns)),
        TableRow::WithSpan { leading_cells, span_start, span_columns, span_value, span_align } => {
            let mut cells = padded_cells(leading_cells, widths, aligns);
            let ghost before = cells@;
            let span = range_width(widths, *span_start, *span_columns);
            cells.push(align_cell(span_value.as_str(), span, span_align));
            assert(texts(cells@) =~= texts(before).push(
                align_text(
                    span_value@,
                    span_width(widths_view(widths@), *span_start as int, *span_columns as int),
                    span_align@,
                ),
            ));
            boxed_line(&cells)
        },
    }
}

// ---------------------------------------------------------------------------
// The whole table
// ---------------------------------------------------------------------------

/// The rows and the borders between them, for the first `k` rows.
pub open spec fn body_lines(rows: Seq<RowShape>, w: Seq<int>, aligns: Seq<Seq<char>>, k: int) -> Seq<
    Seq<char>,
>
    decreases k,
{
    if k <= 0 {
        Seq::empty()
    } else {
        let earlier = body_lines(rows, w, aligns, k - 1);
        let with_border = if k >= 2 {
            earlier.push(
                border_line(w, '├', '┤', Junction::Between(Some(rows[k - 2]), Some(rows[k - 1]))),
            )
        } else {
            earlier
        };
        with_border.push(row_line(rows[k - 1], w, aligns))
    }
}

/// The closing lines: the summary inside a full-width footer, or the bottom
/// border when there is no summary.
pub open spec fn footer_lines(rows: Seq<RowShape>, w: Seq<int>, summary: Option<Seq<char>>) -> Seq<
    Seq<char>,
> {
    match summary {
        Some(s) => {
            let total = total_width(w);
            let top = if rows.len() > 0 {
                border_line(w, '├', '┤', Junction::Closing(rows.last()))
            } else {
                seq!['├'] + repeat_char('─', total + 2) + seq!['┤']
            };
            seq![
                top,
                boxed(seq![align_text(s, total, center_word())]),
                seq!['└'] + repeat_char('─', total + 2) + seq!['┘'],
            ]
        },
        None => seq![border_line(w, '└', '┘', Junction::Fixed('┴'))],
    }
}

/// Every line of the table, top to bottom.
pub open spec fn table_lines(
    headers: Seq<Seq<char>>,
    rows: Seq<RowShape>,
    aligns: Seq<Seq<char>>,
    summary: Option<Seq<char>>,
) -> Seq<Seq<char>> {
    let w = column_widths(headers, rows);
    seq![
        border_line(w, '┌', '┐', Junction::Fixed('┬')),
        boxed(padded(headers, w, aligns)),
        border_line(w, '├', '┤', Junction::Fixed('┼')),
    ] + body_lines(rows, w, aligns, rows.len() as int) + footer_lines(rows, w, summary)
}

pub open spec fn newline() -> Seq<char> {
    seq!['\n']
}

/// The rendered table: its lines joined by newlines.
pub open spec fn table_text(
    headers: Seq<Seq<char>>,
    rows: Seq<RowShape>,
    aligns: Seq<Seq<char>>,
    summary: Option<Seq<char>>,
) -> Seq<char> {
    join(table_lines(headers, rows, aligns, summary), newline())
}

/// What `render_table` needs of its arguments: an alignment for every
/// column, rows that fit the columns, at least one column under a summary,
/// and no more columns than a slice of string slices can hold.
pub open spec fn table_well_formed(
    n_headers: int,
    rows: Seq<RowShape>,
    n_aligns: int,
    has_summary: bool,
) -> bool {
    &&& n_aligns >= n_headers
    &&& n_headers <= isize::MAX
    &&& has_summary ==> n_headers >= 1
    &&& forall|k: int| 0 <= k < rows.len() ==> row_fits(#[trigger] rows[k], n_headers)
}

pub open spec fn option_text(s: Option<String>) -> Option<Seq<char>> {
    match s {
        Some(t) => Some(t@),
        None => None,
    }
}

fn push_line(out: &mut String, line: &String, Ghost(lines): Ghost<Seq<Seq<char>>>)
    requires
        lines.len() >= 1,
        old(out)@ == join(lines, newline()),
    ensures
        final(out)@ == join(lines.push(line@), newline()),
{
    push_char(out, '\n');
    push_str(out, line.as_str());
    assert(lines.push(line@).drop_last() =~= lines);
    assert(out@ =~= join(lines.push(line@), newline()));
}

fn owned_texts(values: &[&str]) -> (out: Vec<String>)
    ensures
        texts(out@) == str_texts(values@),
{
    let mut out: Vec<String> = Vec::new();
    for i in 0..values.len()
        invariant
            out@.len() == i,
            forall|k: int| 0 <= k < i ==> (#[trigger] out@[k])@ == values@[k]@,
    {
        out.push(values[i].to_owned());
    }
    assert(texts(out@) =~= str_texts(values@));
    out
}

// ---------------------------------------------------------------------------
// Laws of the table's shape
// ---------------------------------------------------------------------------

proof fn lemma_body_lines_len(rows: Seq<RowShape>, w: Seq<int>, aligns: Seq<Seq<char>>, k: int)
    requires
        k >= 0,
    ensures
        body_lines(rows, w, aligns, k).len() == if k == 0 {
            0
        } else {
            2 * k - 1
        },
    decreases k,
{
    if k > 0 {
        lemma_body_lines_len(rows, w, aligns, k - 1);
    }
}

/// The joined text starts with the first part and ends with the last.
pub proof fn lemma_join_ends(parts: Seq<Seq<char>>, sep: Seq<char>)
    requires
        parts.len() >= 1,
    ensures
        join(parts, sep).len() >= parts[0].len(),
        join(parts, sep).len() >= parts.last().len(),
        join(parts, sep).subrange(0, parts[0].len() as int) == parts[0],
        join(parts, sep).subrange(
            join(parts, sep).len() - parts.last().len(),
            join(parts, sep).len() as int,
        ) == parts.last(),
    decreases parts.len(),
{
    let j = join(parts, sep);
    if parts.len() == 1 {
        assert(j.subrange(0, parts[0].len() as int) =~= parts[0]);
        assert(j.subrange(j.len() - parts.last().len(), j.len() as int) =~= parts.last());
    } else {
        let earlier = parts.drop_last();
        lemma_join_ends(earlier, sep);
        assert(earlier[0] == parts[0]);
        let je = join(earlier, sep);
        assert(j == je + sep + parts.last());
        assert(j.subrange(0, parts[0].len() as int) =~= je.subrange(0, parts[0].len() as int));
        assert(j.subrange(j.len() - parts.last().len(), j.len() as int) =~= parts.last());
    }
}

/// The frame of every table: it opens with the top border `┌─…┐` and the
/// header line; between two rows stands one border; it closes with a line
/// that starts with `└`. With a summary, the last three lines are a border
/// that closes the rows, the summary centred in a full-width box, and a
/// bottom border `└─…┘` without any column junction.
pub proof fn law_table_frame(
    headers: Seq<Seq<char>>,
    rows: Seq<RowShape>,
    aligns: Seq<Seq<char>>,
    summary: Option<Seq<char>>,
)
    requires
        table_well_formed(headers.len() as int, rows, aligns.len() as int, summary is Some),
    ensures
        ({
            let lines = table_lines(headers, rows, aligns, summary);
            let w = column_widths(headers, rows);
            &&& lines.len() == 3 + (if rows.len() == 0 {
                0
            } else {
                2 * rows.len() - 1
            }) + (if summary is Some {
                3int
            } else {
                1int
            })
            &&& lines[0][0] == '┌'
            &&& lines[0].last() == '┐'
            &&& lines[1] == boxed(padded(headers, w, aligns))
            &&& lines.last()[0] == '└'
            &&& (forall|k: int|
                0 <= k < rows.len() ==> #[trigger] lines[3 + 2 * k] == row_line(rows[k], w, aligns))
            &&& (summary matches Some(s) ==> {
                &&& lines[lines.len() - 3][0] == '├'
                &&& lines[lines.len() - 2] == boxed(seq![align_text(s, total_width(w), center_word())])
                &&& lines.last() == seq!['└'] + repeat_char('─', total_width(w) + 2) + seq!['┘']
                &&& !lines.last().contains('┴')
            })
            &&& table_text(headers, rows, aligns, summary).subrange(0, lines[0].len() as int)
                == lines[0]
        }),
{
    let lines = table_lines(headers, rows, aligns, summary);
    let w = column_widths(headers, rows);
    let n = rows.len() as int;
    lemma_body_lines_len(rows, w, aligns, n);
    let head = seq![
        border_line(w, '┌', '┐', Junction::Fixed('┬')),
        boxed(padded(headers, w, aligns)),
        border_line(w, '├', '┤', Junction::Fixed('┼')),
    ];
    let body = body_lines(rows, w, aligns, n);
    let foot = footer_lines(rows, w, summary);
    assert(lines == head + body + foot);
    assert forall|k: int| 0 <= k < rows.len() implies #[trigger] lines[3 + 2 * k] == row_line(
        rows[k],
        w,
        aligns,
    ) by {
        lemma_body_line_at(rows, w, aligns, n, k);
    }
    if summary is Some {
        let total = total_width(w);
        let last = lines.last();
        assert(last == seq!['└'] + repeat_char('─', total + 2) + seq!['┘']);
        assert forall|i: int| 0 <= i < last.len() implies last[i] != '┴' by {
            if 1 <= i < last.len() - 1 {
                assert(last[i] == '─');
            }
        }
        if rows.len() > 0 {
            assert(lines[lines.len() - 3] == border_line(w, '├', '┤', Junction::Closing(rows.last())));
        }
    }
    lemma_join_ends(lines, newline());
}

proof fn lemma_body_line_at(rows: Seq<RowShape>, w: Seq<int>, aligns: Seq<Seq<char>>, k: int, i: int)
    requires
        0 <= i < k,
    ensures
        body_lines(rows, w, aligns, k).len() == 2 * k - 1,
        body_lines(rows, w, aligns, k)[2 * i] == row_line(rows[i], w, aligns),
    decreases k,
{
    lemma_body_lines_len(rows, w, aligns, k);
    if i < k - 1 {
        lemma_body_line_at(rows, w, aligns, k - 1, i);
    }
}

/// Borders merge across a span: where a spanning row has no vertical line,
/// the border above it has no leg down, the border below it has no leg up,
/// and the border that closes it above a footer is a plain dash.
pub proof fn law_span_interior_has_no_legs(span: RowShape, other: Option<RowShape>, i: int)
    requires
        span matches RowShape::Span { start, columns, .. } && start <= i < start + columns - 1,
    ensures
        junction_char(Junction::Between(other, Some(span)), i) == '┴' || junction_char(
            Junction::Between(other, Some(span)),
            i,
        ) == '─',
        junction_char(Junction::Between(Some(span), other), i) == '┬' || junction_char(
            Junction::Between(Some(span), other),
            i,
        ) == '─',
        junction_char(Junction::Closing(span), i) == '─',
{
}

/// A value at least as wide as its column comes back unchanged.
pub proof fn law_wide_value_unchanged(value: Seq<char>, width: int, align: Seq<char>)
    requires
        width_of(value) >= width,
    ensures
        align_text(value, width, align) == value,
{
    assert(value + spaces(0) =~= value);
    assert(spaces(0) + value =~= value);
    assert(spaces(0) + value + spaces(0) =~= value);
}

/// `┴` and `┬` swapped; every other character kept.
pub open spec fn mirror_char(c: char) -> char {
    if c == '┴' {
        '┬'
    } else if c == '┬' {
        '┴'
    } else {
        c
    }
}

pub open spec fn mirrored(s: Seq<char>) -> Seq<char> {
    Seq::new(s.len(), |i: int| mirror_char(s[i]))
}

proof fn lemma_segments_mirrored(w: Seq<int>, a: Junction, b: Junction, k: int)
    requires
        forall|i: int| #[trigger] junction_char(b, i) == mirror_char(junction_char(a, i)),
    ensures
        border_segments(w, b, k) == mirrored(border_segments(w, a, k)),
    decreases k,
{
    if k > 0 {
        lemma_segments_mirrored(w, a, b, k - 1);
        let dashes = repeat_char('─', w[k - 1] + 2);
        let tail_a: Seq<char> = if k < w.len() {
            seq![junction_char(a, k - 1)]
        } else {
            Seq::empty()
        };
        let tail_b: Seq<char> = if k < w.len() {
            seq![junction_char(b, k - 1)]
        } else {
            Seq::empty()
        };
        let pa = border_segments(w, a, k - 1);
        assert(border_segments(w, a, k) == pa + dashes + tail_a);
        assert(border_segments(w, b, k) == mirrored(pa) + dashes + tail_b);
        assert(mirrored(pa + dashes + tail_a) =~= mirrored(pa) + dashes + tail_b);
    } else {
        assert(mirrored(Seq::<char>::empty()) =~= Seq::<char>::empty());
    }
}

/// Swapping the two rows around a border turns every leg up into a leg
/// down and back: the border is mirrored, `┴` for `┬` and `┬` for `┴`.
pub proof fn law_swapping_rows_mirrors_border(
    w: Seq<int>,
    left: char,
    right: char,
    upper: Option<RowShape>,
    lower: Option<RowShape>,
)
    requires
        left != '┴' && left != '┬',
        right != '┴' && right != '┬',
    ensures
        border_line(w, left, right, Junction::Between(lower, upper)) == mirrored(
            border_line(w, left, right, Junction::Between(upper, lower)),
        ),
{
    let a = Junction::Between(upper, lower);
    let b = Junction::Between(lower, upper);
    lemma_segments_mirrored(w, a, b, w.len() as int);
    let segs = border_segments(w, a, w.len() as int);
    assert(mirrored(seq![left] + segs + seq![right]) =~= seq![left] + mirrored(segs) + seq![
        right,
    ]);
}

proof fn lemma_segments_same(w: Seq<int>, a: Junction, b: Junction, k: int)
    requires
        forall|i: int| #[trigger] junction_char(b, i) == junction_char(a, i),
    ensures
        border_segments(w, b, k) == border_segments(w, a, k),
    decreases k,
{
    if k > 0 {
        lemma_segments_same(w, a, b, k - 1);
    }
}

proof fn lemma_closing_segments_chars(w: Seq<int>, upper: RowShape, k: int)
    ensures
        forall|i: int|
            0 <= i < border_segments(w, Junction::Closing(upper), k).len() ==> {
                let c = #[trigger] border_segments(w, Junction::Closing(upper), k)[i];
                c == '─' || c == '┴'
            },
    decreases k,
{
    if k > 0 {
        lemma_closing_segments_chars(w, upper, k - 1);
        let j = Junction::Closing(upper);
        let pa = border_segments(w, j, k - 1);
        let dashes = repeat_char('─', w[k - 1] + 2);
        let tail: Seq<char> = if k < w.len() {
            seq![junction_char(j, k - 1)]
        } else {
            Seq::empty()
        };
        let all = border_segments(w, j, k);
        assert(all == pa + dashes + tail);
        assert forall|i: int| 0 <= i < all.len() implies {
            let c = #[trigger] all[i];
            c == '─' || c == '┴'
        } by {
            if i < pa.len() {
                assert(all[i] == pa[i]);
            } else if i < pa.len() + dashes.len() {
                assert(all[i] == dashes[i - pa.len()]);
            } else {
                assert(all[i] == tail[i - pa.len() - dashes.len()]);
            }
        }
    }
}

/// The border that closes the rows above a footer is the border between the
/// last row and no row at all: legs up where that row has a vertical line,
/// and never a `┼` or `┬` inside it.
pub proof fn law_closing_border_has_no_row_below(
    w: Seq<int>,
    left: char,
    right: char,
    upper: RowShape,
)
    ensures
        border_line(w, left, right, Junction::Closing(upper)) == border_line(
            w,
            left,
            right,
            Junction::Between(Some(upper), None),
        ),
        forall|i: int|
            1 <= i < border_line(w, left, right, Junction::Closing(upper)).len() - 1 ==> {
                let c = #[trigger] border_line(w, left, right, Junction::Closing(upper))[i];
                c != '┼' && c != '┬'
            },
{
    lemma_segments_same(
        w,
        Junction::Closing(upper),
        Junction::Between(Some(upper), None),
        w.len() as int,
    );
    lemma_closing_segments_chars(w, upper, w.len() as int);
    let segs = border_segments(w, Junction::Closing(upper), w.len() as int);
    let line = border_line(w, left, right, Junction::Closing(upper));
    assert forall|i: int| 1 <= i < line.len() - 1 implies {
        let c = #[trigger] line[i];
        c != '┼' && c != '┬'
    } by {
        assert(line[i] == segs[i - 1]);
    }
}

/// The number of times `c` occurs in `s`.
pub open spec fn count_char(s: Seq<char>, c: char) -> int
    decreases s.len(),
{
    if s.len() == 0 {
        0
    } else {
        count_char(s.drop_last(), c) + if s.last() == c {
            1int
        } else {
            0int
        }
    }
}

proof fn lemma_count_concat(a: Seq<char>, b: Seq<char>, c: char)
    ensures
        count_char(a + b, c) == count_char(a, c) + count_char(b, c),
    decreases b.len(),
{
    if b.len() == 0 {
        assert(a + b =~= a);
    } else {
        assert((a + b).drop_last() =~= a + b.drop_last());
        lemma_count_concat(a, b.drop_last(), c);
    }
}

proof fn lemma_count_push(s: Seq<char>, x: char, c: char)
    ensures
        count_char(s.push(x), c) == count_char(s, c) + if x == c {
            1int
        } else {
            0int
        },
{
    assert(s.push(x).drop_last() =~= s);
}

proof fn lemma_count_small()
    ensures
        count_char(cell_separator(), '│') == 1,
        count_char(seq!['│', ' '], '│') == 1,
        count_char(seq![' ', '│'], '│') == 1,
{
    let e = Seq::<char>::empty();
    lemma_count_push(e, ' ', '│');
    lemma_count_push(e, '│', '│');
    lemma_count_push(e.push(' '), '│', '│');
    lemma_count_push(e.push('│'), ' ', '│');
    lemma_count_push(e.push(' ').push('│'), ' ', '│');
    assert(cell_separator() =~= e.push(' ').push('│').push(' '));
    assert(seq!['│', ' '] =~= e.push('│').push(' '));
    assert(seq![' ', '│'] =~= e.push(' ').push('│'));
}

pub proof fn lemma_count_absent(s: Seq<char>, c: char)
    requires
        forall|i: int| 0 <= i < s.len() ==> s[i] != c,
    ensures
        count_char(s, c) == 0,
    decreases s.len(),
{
    if s.len() > 0 {
        lemma_count_absent(s.drop_last(), c);
    }
}

proof fn lemma_align_keeps_bars(value: Seq<char>, width: int, align: Seq<char>)
    ensures
        count_char(align_text(value, width, align), '│') == count_char(value, '│'),
{
    let value_width = width_of(value);
    let padding = if width > value_width {
        width - value_width
    } else {
        0
    };
    lemma_count_absent(spaces(padding), '│');
    lemma_count_absent(spaces(padding / 2), '│');
    lemma_count_absent(spaces(padding - padding / 2), '│');
    lemma_count_concat(value, spaces(padding), '│');
    lemma_count_concat(spaces(padding), value, '│');
    lemma_count_concat(spaces(padding / 2), value, '│');
    lemma_count_concat(spaces(padding / 2) + value, spaces(padding - padding / 2), '│');
}

proof fn lemma_join_bars(cells: Seq<Seq<char>>)
    requires
        cells.len() >= 1,
        forall|i: int| 0 <= i < cells.len() ==> count_char(#[trigger] cells[i], '│') == 0,
    ensures
        count_char(join(cells, cell_separator()), '│') == cells.len() - 1,
    decreases cells.len(),
{
    if cells.len() > 1 {
        let earlier = cells.drop_last();
        assert forall|i: int| 0 <= i < earlier.len() implies count_char(
            #[trigger] earlier[i],
            '│',
        ) == 0 by {
            assert(earlier[i] == cells[i]);
        }
        lemma_join_bars(earlier);
        let j = join(earlier, cell_separator());
        lemma_count_concat(j, cell_separator(), '│');
        lemma_count_concat(j + cell_separator(), cells.last(), '│');
        lemma_count_small();
    }
}

/// The number of cells a row shows: one per value, and one for a span.
pub open spec fn shown_cells(r: RowShape) -> int {
    match r {
        RowShape::Cells(values) => values.len() as int,
        RowShape::Span { leading, .. } => leading.len() + 1int,
    }
}

/// A row line has one vertical bar before each shown cell and one after the
/// last, so a span shows as a single cell: when no value holds `│`, a row
/// with `m` shown cells has exactly `m + 1` bars.
pub proof fn law_row_vertical_bars(r: RowShape, w: Seq<int>, aligns: Seq<Seq<char>>)
    requires
        shown_cells(r) >= 1,
        match r {
            RowShape::Cells(values) => forall|i: int|
                0 <= i < values.len() ==> count_char(#[trigger] values[i], '│') == 0,
            RowShape::Span { leading, value, .. } => count_char(value, '│') == 0 && forall|i: int|
                0 <= i < leading.len() ==> count_char(#[trigger] leading[i], '│') == 0,
        },
    ensures
        count_char(row_line(r, w, aligns), '│') == shown_cells(r) + 1,
{
    let cells = match r {
        RowShape::Cells(values) => padded(values, w, aligns),
        RowShape::Span { leading, start, columns, value, align } => padded(leading, w, aligns).push(
            align_text(value, span_width(w, start, columns), align),
        ),
    };
    assert(cells.len() == shown_cells(r));
    assert forall|i: int| 0 <= i < cells.len() implies count_char(#[trigger] cells[i], '│') == 0 by {
        match r {
            RowShape::Cells(values) => {
                lemma_align_keeps_bars(values[i], w[i], aligns[i]);
            },
            RowShape::Span { leading, start, columns, value, align } => {
                if i < leading.len() {
                    lemma_align_keeps_bars(leading[i], w[i], aligns[i]);
                } else {
                    lemma_align_keeps_bars(value, span_width(w, start, columns), align);
                }
            },
        }
    }
    lemma_join_bars(cells);
    let j = join(cells, cell_separator());
    lemma_count_concat(seq!['│', ' '], j, '│');
    lemma_count_concat(seq!['│', ' '] + j, seq![' ', '│'], '│');
    lemma_count_small();
    assert(row_line(r, w, aligns) == boxed(cells));
}

/// Text that takes one terminal column per character: no escapes, no wide
/// or zero-width characters.
pub open spec fn one_column_per_char(s: Seq<char>) -> bool {
    width_of(s) == s.len()
}

pub open spec fn is_padding_align(a: Seq<char>) -> bool {
    a == left_word() || a == right_word() || a == center_word()
}

/// A row with a value for every one of `n` columns, all of them plain text
/// aligned left, right or centred.
pub open spec fn row_is_complete(r: RowShape, n: int) -> bool {
    match r {
        RowShape::Cells(values) => values.len() == n && forall|i: int|
            0 <= i < n ==> one_column_per_char(#[trigger] values[i]),
        RowShape::Span { leading, start, columns, value, align } => {
            &&& leading.len() == start
            &&& start + columns == n
            &&& columns >= 1
            &&& is_padding_align(align)
            &&& one_column_per_char(value)
            &&& forall|i: int| 0 <= i < start ==> one_column_per_char(#[trigger] leading[i])
        },
    }
}

/// The total length of some texts.
pub open spec fn lens(parts: Seq<Seq<char>>) -> int
    decreases parts.len(),
{
    if parts.len() == 0 {
        0
    } else {
        lens(parts.drop_last()) + parts.last().len()
    }
}

proof fn lemma_join_len(parts: Seq<Seq<char>>, sep: Seq<char>)
    requires
        parts.len() >= 1,
    ensures
        join(parts, sep).len() == lens(parts) + (parts.len() - 1) * sep.len(),
    decreases parts.len(),
{
    let m = parts.len() as int;
    let k = sep.len() as int;
    if parts.len() > 1 {
        let dl = parts.drop_last();
        lemma_join_len(dl, sep);
        assert(join(parts, sep) == join(dl, sep) + sep + parts.last());
        assert(lens(parts) == lens(dl) + parts.last().len());
        assert(join(dl, sep).len() == lens(dl) + (m - 2) * k);
        assert((m - 2) * k + k == (m - 1) * k) by (nonlinear_arith);
    } else {
        assert(parts.drop_last().len() == 0);
        assert(lens(parts.drop_last()) == 0);
        assert(join(parts, sep) == parts[0]);
        assert((m - 1) * k == 0) by (nonlinear_arith)
            requires
                m == 1,
        ;
    }
}

proof fn lemma_lens_match_widths(parts: Seq<Seq<char>>, w: Seq<int>)
    requires
        parts.len() == w.len(),
        forall|i: int| 0 <= i < parts.len() ==> (#[trigger] parts[i]).len() == w[i],
    ensures
        lens(parts) == seq_sum(w),
    decreases parts.len(),
{
    if parts.len() > 0 {
        let p = parts.drop_last();
        let v = w.drop_last();
        assert forall|i: int| 0 <= i < p.len() implies (#[trigger] p[i]).len() == v[i] by {
            assert(p[i] == parts[i]);
        }
        lemma_lens_match_widths(p, v);
    }
}

proof fn lemma_seq_sum_concat(a: Seq<int>, b: Seq<int>)
    ensures
        seq_sum(a + b) == seq_sum(a) + seq_sum(b),
    decreases b.len(),
{
    if b.len() == 0 {
        assert(a + b =~= a);
    } else {
        assert((a + b).drop_last() =~= a + b.drop_last());
        lemma_seq_sum_concat(a, b.drop_last());
    }
}

/// Padding makes a cell exactly as wide as its column: a value that takes
/// one column per character and is not wider than the column, aligned left,
/// right or centred, comes out with as many characters as the column has.
pub proof fn law_padding_fills_column(value: Seq<char>, width: int, align: Seq<char>)
    requires
        one_column_per_char(value),
        value.len() <= width,
        is_padding_align(align),
    ensures
        align_text(value, width, align).len() == width,
{
}

proof fn lemma_column_width_covers(headers: Seq<Seq<char>>, rows: Seq<RowShape>, i: int)
    ensures
        column_width(headers, rows, i) >= width_of(headers[i]),
        forall|k: int|
            0 <= k < rows.len() ==> column_width(headers, rows, i) >= cell_width_of(
                #[trigger] rows[k],
                i,
            ),
    decreases rows.len(),
{
    if rows.len() > 0 {
        lemma_column_width_covers(headers, rows.drop_last(), i);
        assert forall|k: int| 0 <= k < rows.len() implies column_width(headers, rows, i)
            >= cell_width_of(#[trigger] rows[k], i) by {
            if k < rows.len() - 1 {
                assert(rows[k] == rows.drop_last()[k]);
            }
        }
    }
}

proof fn lemma_border_segments_len(w: Seq<int>, j: Junction, k: int)
    requires
        0 <= k <= w.len(),
        w.len() >= 1,
        forall|i: int| 0 <= i < w.len() ==> #[trigger] w[i] >= 0,
    ensures
        border_segments(w, j, k).len() == seq_sum(w.take(k)) + 2 * k + if k < w.len() {
            k
        } else {
            k - 1
        },
    decreases k,
{
    if k > 0 {
        lemma_border_segments_len(w, j, k - 1);
        assert(w.take(k).drop_last() =~= w.take(k - 1));
        assert(w.take(k).last() == w[k - 1]);
        assert(seq_sum(w.take(k)) == seq_sum(w.take(k - 1)) + w[k - 1]);
        let tail: Seq<char> = if k < w.len() {
            seq![junction_char(j, k - 1)]
        } else {
            Seq::empty()
        };
        assert(border_segments(w, j, k) == border_segments(w, j, k - 1) + repeat_char(
            '─',
            w[k - 1] + 2,
        ) + tail);
        assert(w[k - 1] >= 0);
        assert(repeat_char('─', w[k - 1] + 2).len() == w[k - 1] + 2);
        assert(tail.len() == if k < w.len() {
            1int
        } else {
            0int
        });
    } else {
        assert(w.take(0).len() == 0);
        assert(seq_sum(w.take(0)) == 0);
    }
}

proof fn lemma_boxed_len(cells: Seq<Seq<char>>)
    requires
        cells.len() >= 1,
    ensures
        boxed(cells).len() == lens(cells) + 3 * (cells.len() - 1) + 4,
{
    lemma_join_len(cells, cell_separator());
    assert(cell_separator().len() == 3);
}

/// Every line of a table has the same length, one more than the total
/// width plus three: when every text takes one column per character, every
/// row fills all columns with left, right or centred cells, and the summary
/// fits the table's width. (A text with escapes, wide characters or
/// zero-width ones takes a different number of columns than characters; a
/// row with fewer cells, an unpadded alignment or a wider summary gives a
/// shorter or longer line.)
pub proof fn law_lines_have_equal_length(
    headers: Seq<Seq<char>>,
    rows: Seq<RowShape>,
    aligns: Seq<Seq<char>>,
    summary: Option<Seq<char>>,
)
    requires
        headers.len() >= 1,
        aligns.len() >= headers.len(),
        forall|i: int| 0 <= i < headers.len() ==> is_padding_align(#[trigger] aligns[i]),
        forall|i: int| 0 <= i < headers.len() ==> one_column_per_char(#[trigger] headers[i]),
        forall|k: int| 0 <= k < rows.len() ==> row_is_complete(#[trigger] rows[k], headers.len() as int),
        summary matches Some(s) ==> one_column_per_char(s) && s.len() <= total_width(
            column_widths(headers, rows),
        ),
    ensures
        forall|l: int|
            0 <= l < table_lines(headers, rows, aligns, summary).len() ==> (#[trigger] table_lines(
                headers,
                rows,
                aligns,
                summary,
            )[l]).len() == total_width(column_widths(headers, rows)) + 4,
{
    let w = column_widths(headers, rows);
    let n = headers.len() as int;
    let total = total_width(w);
    let expected = total + 4;
    assert(w.take(n) =~= w);
    assert forall|i: int| 0 <= i < n implies w[i] >= width_of(headers[i]) && forall|k: int|
        0 <= k < rows.len() ==> w[i] >= cell_width_of(#[trigger] rows[k], i) by {
        lemma_column_width_covers(headers, rows, i);
    }
    // Borders.
    assert forall|left: char, right: char, j: Junction| #[trigger] border_line(w, left, right, j).len()
        == expected by {
        lemma_border_segments_len(w, j, n);
    }
    // Cells aligned to their columns.
    assert forall|values: Seq<Seq<char>>|
        values.len() == n && (forall|i: int| 0 <= i < n ==> one_column_per_char(#[trigger] values[i]))
            && (forall|i: int| 0 <= i < n ==> values[i].len() <= w[i]) implies #[trigger] boxed(
        padded(values, w, aligns),
    ).len() == expected by {
        let p = padded(values, w, aligns);
        assert forall|i: int| 0 <= i < p.len() implies (#[trigger] p[i]).len() == w[i] by {
            law_padding_fills_column(values[i], w[i], aligns[i]);
        }
        lemma_lens_match_widths(p, w);
        lemma_boxed_len(p);
    }
    assert(boxed(padded(headers, w, aligns)).len() == expected);
    // Rows.
    assert forall|k: int| 0 <= k < rows.len() implies #[trigger] row_line(rows[k], w, aligns).len()
        == expected by {
        let r = rows[k];
        assert(row_is_complete(r, n));
        match r {
            RowShape::Cells(values) => {
                assert forall|i: int| 0 <= i < n implies values[i].len() <= w[i] by {
                    assert(w[i] >= cell_width_of(rows[k], i));
                }
            },
            RowShape::Span { leading, start, columns, value, align } => {
                let p = padded(leading, w, aligns);
                let lw = w.take(start);
                let rw = w.subrange(start, n);
                assert(w =~= lw + rw);
                lemma_seq_sum_concat(lw, rw);
                assert(rw =~= w.subrange(start, start + columns));
                assert forall|i: int| 0 <= i < p.len() implies (#[trigger] p[i]).len() == lw[i] by {
                    assert(w[i] >= cell_width_of(rows[k], i));
                    law_padding_fills_column(leading[i], w[i], aligns[i]);
                }
                lemma_lens_match_widths(p, lw);
                let sw = span_width(w, start, columns);
                assert(w[start] >= cell_width_of(rows[k], start));
                assert(rw[0] == w[start]);
                lemma_seq_sum_lower(rw);
                law_padding_fills_column(value, sw, align);
                let cells = p.push(align_text(value, sw, align));
                assert(cells.drop_last() =~= p);
                lemma_boxed_len(cells);
            },
        }
    }
    // The rows and the borders between them.
    lemma_body_lines_len(rows, w, aligns, rows.len() as int);
    lemma_body_lines_all(rows, w, aligns, rows.len() as int, expected);
    // The footer.
    if let Some(s) = summary {
        let cell = align_text(s, total, center_word());
        assert(seq![cell].drop_last().len() == 0);
        lemma_boxed_len(seq![cell]);
    }
    let lines = table_lines(headers, rows, aligns, summary);
    assert forall|l: int| 0 <= l < lines.len() implies (#[trigger] lines[l]).len() == expected by {
        let head = seq![
            border_line(w, '┌', '┐', Junction::Fixed('┬')),
            boxed(padded(headers, w, aligns)),
            border_line(w, '├', '┤', Junction::Fixed('┼')),
        ];
        let body = body_lines(rows, w, aligns, rows.len() as int);
        let foot = footer_lines(rows, w, summary);
        assert(lines == head + body + foot);
        if l >= 3 && l < 3 + body.len() {
            assert(lines[l] == body[l - 3]);
        }
    }
}

proof fn lemma_seq_sum_lower(s: Seq<int>)
    requires
        s.len() >= 1,
        forall|i: int| 0 <= i < s.len() ==> #[trigger] s[i] >= 0,
    ensures
        seq_sum(s) >= s[0],
    decreases s.len(),
{
    assert(s.last() == s[s.len() - 1]);
    assert(s.last() >= 0);
    if s.len() > 1 {
        let dl = s.drop_last();
        assert(dl[0] == s[0]);
        assert forall|i: int| 0 <= i < dl.len() implies #[trigger] dl[i] >= 0 by {
            assert(dl[i] == s[i]);
        }
        lemma_seq_sum_lower(dl);
    } else {
        assert(s.drop_last().len() == 0);
        assert(seq_sum(s.drop_last()) == 0);
    }
}

proof fn lemma_body_lines_all(
    rows: Seq<RowShape>,
    w: Seq<int>,
    aligns: Seq<Seq<char>>,
    k: int,
    expected: int,
)
    requires
        0 <= k <= rows.len(),
        forall|left: char, right: char, j: Junction| #[trigger] border_line(w, left, right, j).len()
            == expected,
        forall|m: int| 0 <= m < rows.len() ==> #[trigger] row_line(rows[m], w, aligns).len() == expected,
    ensures
        forall|l: int|
            0 <= l < body_lines(rows, w, aligns, k).len() ==> (#[trigger] body_lines(
                rows,
                w,
                aligns,
                k,
            )[l]).len() == expected,
    decreases k,
{
    if k > 0 {
        lemma_body_lines_all(rows, w, aligns, k - 1, expected);
        let b = body_lines(rows, w, aligns, k);
        let earlier = body_lines(rows, w, aligns, k - 1);
        assert forall|l: int| 0 <= l < b.len() implies (#[trigger] b[l]).len() == expected by {
            if l < earlier.len() {
                assert(b[l] == earlier[l]);
            }
        }
    }
}

/// Renders a table with box-drawing borders. A row that spans several
/// columns gets a border without junctions where its span is; an optional
/// summary sits centred in a full-width footer.
pub fn render_table(headers: &[&str], rows: &[TableRow], aligns: &[&str], summary: Option<String>) -> (out:
    String)
    requires
        table_well_formed(
            headers@.len() as int,
            rows_view(rows@),
            aligns@.len() as int,
            summary is Some,
        ),
    ensures
        out@ == table_text(
            str_texts(headers@),
            rows_view(rows@),
            str_texts(aligns@),
            option_text(summary),
        ),
        table_widths_hold(str_texts(headers@), rows_view(rows@), option_text(summary)),
{
    let ghost hs = str_texts(headers@);
    let ghost rs = rows_view(rows@);
    let ghost al = str_texts(aligns@);
    let widths = compute_column_widths(headers, rows);
    let ghost w = widths_view(widths@);
    assert(w == column_widths(hs, rs));
    assert forall|k: int| 0 <= k < rows@.len() implies span_sound(#[trigger] rs[k]) by {
        assert(row_fits(rs[k], headers@.len() as int));
        lemma_row_fits_sound(rs[k], headers@.len() as int);
    }

    let mut out = render_border(&widths, '┌', '┬', '┐');
    let ghost mut lines: Seq<Seq<char>> = seq![out@];
    assert(out@ == join(lines, newline()));
    let header_cells = owned_texts(headers);
    let header_line = boxed_line(&padded_cells(&header_cells, &widths, aligns));
    push_line(&mut out, &header_line, Ghost(lines));
    proof {
        lines = lines.push(header_line@);
    }
    let separator = render_border(&widths, '├', '┼', '┤');
    push_line(&mut out, &separator, Ghost(lines));
    proof {
        lines = lines.push(separator@);
    }
    let ghost head = lines;
    assert(head =~= seq![
        border_line(w, '┌', '┐', Junction::Fixed('┬')),
        boxed(padded(hs, w, al)),
        border_line(w, '├', '┤', Junction::Fixed('┼')),
    ]);
    assert(lines =~= head + body_lines(rs, w, al, 0));

    for index in 0..rows.len()
        invariant
            hs == str_texts(headers@),
            rs == rows_view(rows@),
            al == str_texts(aligns@),
            w == widths_view(widths@),
            widths@.len() == headers@.len(),
            table_well_formed(
                headers@.len() as int,
                rs,
                aligns@.len() as int,
                summary is Some,
            ),
            forall|k: int| 0 <= k < rows@.len() ==> span_sound(#[trigger] rs[k]),
            lines.len() >= 1,
            out@ == join(lines, newline()),
            lines == head + body_lines(rs, w, al, index as int),
            forall|i: int| 0 <= i < headers@.len() ==> ascii_width_holds(#[trigger] hs[i]),
            forall|k: int| 0 <= k < index ==> row_widths_hold(#[trigger] rs[k]),
    {
        let ghost earlier = lines;
        if index > 0 {
            assert(rs[index - 1] == rows@[index - 1]@);
            assert(span_sound(rs[index - 1]));
            assert(span_sound(rs[index as int]));
            let border = render_transition_border(
                &widths,
                '├',
                '┤',
                Some(&rows[index - 1]),
                Some(&rows[index]),
            );
            push_line(&mut out, &border, Ghost(lines));
            proof {
                lines = lines.push(border@);
            }
        }
        assert(row_fits(rs[index as int], headers@.len() as int));
        let row_text = render_row(&rows[index], &widths, aligns);
        push_line(&mut out, &row_text, Ghost(lines));
        proof {
            lines = lines.push(row_text@);
            assert(lines =~= head + body_lines(rs, w, al, index + 1));
        }
    }

    let ghost before_footer = lines;
    match summary {
        Some(text) => {
            let total = full_width(&widths);
            let top = if rows.len() > 0 {
                assert(span_sound(rs[rows@.len() - 1]));
                render_summary_transition_border(&widths, '├', '┤', &rows[rows.len() - 1])
            } else {
                let mut line = String::new();
                push_char(&mut line, '├');
                push_repeat(&mut line, '─', total + 2);
                push_char(&mut line, '┤');
                line
            };
            let ghost footer = footer_lines(rs, w, Some(text@));
            assert(total as int == total_width(w));
            assert(top@ == footer[0]);
            push_line(&mut out, &top, Ghost(lines));
            proof {
                lines = lines.push(top@);
            }
            proof {
                reveal_strlit("center");
                assert("center"@ =~= center_word());
            }
            let cell = align_cell(text.as_str(), total, "center");
            let mut cells: Vec<String> = Vec::new();
            cells.push(cell);
            assert(texts(cells@) =~= seq![align_text(text@, total as int, center_word())]);
            let summary_line = boxed_line(&cells);
            assert(summary_line@ == footer[1]);
            push_line(&mut out, &summary_line, Ghost(lines));
            proof {
                lines = lines.push(summary_line@);
            }
            let mut bottom = String::new();
            push_char(&mut bottom, '└');
            push_repeat(&mut bottom, '─', total + 2);
            push_char(&mut bottom, '┘');
            assert(bottom@ == footer[2]);
            push_line(&mut out, &bottom, Ghost(lines));
            proof {
                lines = lines.push(bottom@);
                assert(lines =~= before_footer + footer_lines(rs, w, Some(text@)));
            }
        },
        None => {
            let bottom = render_border(&widths, '└', '┴', '┘');
            push_line(&mut out, &bottom, Ghost(lines));
            proof {
                lines = lines.push(bottom@);
                assert(lines =~= before_footer + footer_lines(rs, w, None));
            }
        },
    }
    assert(lines =~= table_lines(hs, rs, al, option_text(summary)));
    out
}

} // verus!
