//! Formatting helpers for preparing prompt inputs: CSV and document
//! tables to markdown, lists, and small text blocks.

use vstd::prelude::*;

use crate::json::{
    find_member, key_index, lemma_key_index, lemma_members_view_index, members_view, JsonMember,
    JsonValue, JsonView,
};
use crate::parse::{is_space, lemma_trim_left, lemma_trim_right, obj_field, trim_text};
use crate::render::{int_text, json_text};

verus! {

broadcast use crate::json::group_json_view_lemmas;

/// Split a text on a separator character. The result always holds one
/// more segment than there are separators.
pub open spec fn split_char(s: Seq<char>, c: char) -> Seq<Seq<char>>
    decreases s.len(),
{
    if s.len() == 0 {
        seq![Seq::empty()]
    } else {
        let r = split_char(s.drop_first(), c);
        if s[0] == c {
            seq![Seq::<char>::empty()] + r
        } else {
            seq![seq![s[0]] + r[0]] + r.drop_first()
        }
    }
}

pub broadcast proof fn lemma_split_char_len(s: Seq<char>, c: char)
    ensures
        #[trigger] split_char(s, c).len() >= 1,
    decreases s.len(),
{
    if s.len() > 0 {
        lemma_split_char_len(s.drop_first(), c);
    }
}

/// The views of a list of strings.
pub open spec fn str_views(v: Seq<String>) -> Seq<Seq<char>> {
    Seq::new(v.len(), |i: int| v[i]@)
}

/// A list whose first segment is extended in front.
pub open spec fn prepend_first(p: Seq<char>, ss: Seq<Seq<char>>) -> Seq<Seq<char>> {
    seq![p + ss[0]] + ss.drop_first()
}

/// Split a string on a separator character.
#[verifier::loop_isolation(false)]
pub fn split_str(s: &str, c: char) -> (r: Vec<String>)
    ensures
        str_views(r@) == split_char(s@, c),
{
    broadcast use lemma_split_char_len;

    let n = s.unicode_len();
    let mut out: Vec<String> = Vec::new();
    let mut seg_start: usize = 0;
    let mut i: usize = 0;
    proof {
        assert(s@.subrange(0, n as int) =~= s@);
        assert(s@.subrange(0, 0) =~= Seq::<char>::empty());
        assert(str_views(out@) =~= Seq::<Seq<char>>::empty());
        assert(split_char(s@, c) =~= str_views(out@) + prepend_first(
            s@.subrange(0, 0),
            split_char(s@.subrange(0, n as int), c),
        ));
    }
    while i < n
        invariant
            seg_start <= i <= n,
            split_char(s@, c) =~= str_views(out@) + prepend_first(
                s@.subrange(seg_start as int, i as int),
                split_char(s@.subrange(i as int, n as int), c),
            ),
        decreases n - i,
    {
        let ghost sfx = s@.subrange(i as int, n as int);
        let ghost cur = s@.subrange(seg_start as int, i as int);
        proof {
            assert(sfx.len() > 0);
            assert(sfx[0] == s@[i as int]);
            assert(sfx.drop_first() =~= s@.subrange(i + 1 as int, n as int));
        }
        if s.get_char(i) == c {
            out.push(String::from_str(s.substring_char(seg_start, i)));
            seg_start = i + 1;
            proof {
                let nxt = split_char(s@.subrange(i + 1 as int, n as int), c);
                assert(split_char(sfx, c) =~= seq![Seq::<char>::empty()] + nxt);
                assert(prepend_first(cur, split_char(sfx, c)) =~= seq![cur] + nxt);
                assert(str_views(out@) =~= str_views(out@.drop_last()).push(cur));
                assert(prepend_first(s@.subrange(seg_start as int, i + 1 as int), nxt)
                    =~= seq![Seq::<char>::empty() + nxt[0]] + nxt.drop_first());
                assert(Seq::<char>::empty() + nxt[0] =~= nxt[0]);
                assert(split_char(s@, c) =~= str_views(out@) + prepend_first(
                    s@.subrange(seg_start as int, i + 1 as int),
                    nxt,
                ));
            }
        } else {
            proof {
                let nxt = split_char(s@.subrange(i + 1 as int, n as int), c);
                assert(split_char(sfx, c) =~= seq![seq![s@[i as int]] + nxt[0]]
                    + nxt.drop_first());
                assert(cur + (seq![s@[i as int]] + nxt[0]) =~= (s@.subrange(
                    seg_start as int,
                    i + 1 as int,
                )) + nxt[0]);
                assert(prepend_first(cur, split_char(sfx, c)) =~= prepend_first(
                    s@.subrange(seg_start as int, i + 1 as int),
                    nxt,
                ));
            }
        }
        i = i + 1;
    }
    proof {
        assert(s@.subrange(n as int, n as int) =~= Seq::<char>::empty());
        assert(split_char(s@.subrange(n as int, n as int), c) =~= seq![Seq::<char>::empty()]);
    }
    out.push(String::from_str(s.substring_char(seg_start, n)));
    proof {
        let cur = s@.subrange(seg_start as int, n as int);
        assert(prepend_first(cur, seq![Seq::<char>::empty()]) =~= seq![cur]);
        assert(str_views(out@) =~= str_views(out@.drop_last()).push(cur));
        assert(str_views(out@) =~= split_char(s@, c));
    }
    out
}

/// Whether a text holds only whitespace.
pub open spec fn is_blank(s: Seq<char>) -> bool {
    forall|j: int| 0 <= j < s.len() ==> is_space(#[trigger] s[j])
}

/// Check whether a string holds only whitespace.
#[verifier::loop_isolation(false)]
pub fn is_blank_str(s: &str) -> (r: bool)
    ensures
        r == is_blank(s@),
{
    let n = s.unicode_len();
    let mut i: usize = 0;
    while i < n
        invariant
            i <= n,
            forall|j: int| 0 <= j < i as int ==> is_space(#[trigger] s@[j]),
        decreases n - i,
    {
        let c = s.get_char(i);
        if !(c == ' ' || c == '\t' || c == '\n' || c == '\r') {
            return false;
        }
        i = i + 1;
    }
    true
}

/// Trim whitespace from both ends of a string.
#[verifier::loop_isolation(false)]
pub fn trim_str(s: &str) -> (r: String)
    ensures
        r@ == trim_text(s@),
{
    let n = s.unicode_len();
    let mut start: usize = 0;
    while start < n && crate::parse::space_at(s, start)
        invariant
            start <= n,
            forall|j: int| 0 <= j < start as int ==> is_space(#[trigger] s@[j]),
        decreases n - start,
    {
        start = start + 1;
    }
    let mut end: usize = n;
    while end > start && crate::parse::space_at(s, end - 1)
        invariant
            start <= end <= n,
            forall|j: int| end as int <= j < n as int ==> is_space(#[trigger] s@[j]),
        decreases end,
    {
        end = end - 1;
    }
    proof {
        lemma_trim_left(s@, start as int);
        let after_left = s@.subrange(start as int, n as int);
        lemma_trim_right(after_left, end as int - start as int);
        assert(after_left.subrange(0, end as int - start as int) =~= s@.subrange(
            start as int,
            end as int,
        ));
    }
    String::from_str(s.substring_char(start, end))
}

/// Table column alignment.
#[derive(Debug, Clone, Copy, Default, PartialEq, Eq)]
pub enum TableAlignment {
    #[default]
    Left,
    Center,
    Right,
}

/// Options for CSV parsing.
#[derive(Debug)]
pub struct CsvOptions {
    /// Delimiter character.
    pub delimiter: char,
    /// Whether the first row is a header.
    pub has_header: bool,
    /// Keep at most this many data rows.
    pub max_rows: Option<usize>,
    /// Keep only these columns, by index, in this order.
    pub columns: Option<Vec<usize>>,
    /// Text alignment for columns.
    pub alignment: TableAlignment,
}

impl Default for CsvOptions {
    /// Comma-separated, with a header row, all rows and columns, left
    /// aligned.
    fn default() -> (r: Self)
        ensures
            r.delimiter == ',',
            r.has_header,
            r.max_rows is None,
            r.columns is None,
            r.alignment == TableAlignment::Left,
    {
        CsvOptions {
            delimiter: ',',
            has_header: true,
            max_rows: None,
            columns: None,
            alignment: TableAlignment::Left,
        }
    }
}

/// CSV parsing error.
#[derive(Debug)]
pub enum CsvError {
    /// No usable input rows.
    Empty,
    /// No data rows found.
    NoData,
    /// A row whose column count differs from the first row's.
    InconsistentColumns { expected: usize, found: usize, row: usize },
}

/// Document-to-table conversion error.
#[derive(Debug)]
pub enum JsonTableError {
    /// The document is not an array.
    NotArray,
    /// The array holds something besides objects.
    NotObjectArray,
    /// Nothing to tabulate.
    Empty,
}

/// The non-blank lines of the input.
pub open spec fn csv_lines(s: Seq<char>) -> Seq<Seq<char>> {
    split_char(s, '\n').filter(|l: Seq<char>| !is_blank(l))
}

/// One line split on the delimiter, each cell trimmed.
pub open spec fn raw_row(line: Seq<char>, d: char) -> Seq<Seq<char>> {
    split_char(line, d).map_values(|seg: Seq<char>| trim_text(seg))
}

/// Every line parsed to a row.
pub open spec fn rows_of(lines: Seq<Seq<char>>, d: char) -> Seq<Seq<Seq<char>>> {
    lines.map_values(|l: Seq<char>| raw_row(l, d))
}

/// The listed columns of a row, in the listed order, out-of-range
/// indices skipped.
pub open spec fn select_cols(row: Seq<Seq<char>>, cols: Seq<usize>) -> Seq<Seq<char>>
    decreases cols.len(),
{
    if cols.len() == 0 {
        Seq::empty()
    } else {
        let head: Seq<Seq<char>> = if (cols[0] as int) < row.len() {
            seq![row[cols[0] as int]]
        } else {
            Seq::empty()
        };
        head + select_cols(row, cols.drop_first())
    }
}

/// Apply the column filter when one is set.
pub open spec fn apply_cols(
    rows: Seq<Seq<Seq<char>>>,
    copt: Option<Seq<usize>>,
) -> Seq<Seq<Seq<char>>> {
    match copt {
        Some(cols) => rows.map_values(|row: Seq<Seq<char>>| select_cols(row, cols)),
        None => rows,
    }
}

/// Apply the row limit when one is set; a header row does not count.
pub open spec fn apply_max(
    rows: Seq<Seq<Seq<char>>>,
    has_header: bool,
    mopt: Option<usize>,
) -> Seq<Seq<Seq<char>>> {
    match mopt {
        Some(max) => if has_header && rows.len() > max + 1 {
            rows.subrange(0, max + 1)
        } else if !has_header && rows.len() > max {
            rows.subrange(0, max as int)
        } else {
            rows
        },
        None => rows,
    }
}

/// The first row, from `i` on, whose column count differs from the first
/// row's; `-1` when they all agree.
pub open spec fn bad_index(rows: Seq<Seq<Seq<char>>>, i: int) -> int
    decreases rows.len() - i,
{
    if i < 0 || i >= rows.len() {
        -1
    } else if rows[i].len() != rows[0].len() {
        i
    } else {
        bad_index(rows, i + 1)
    }
}

/// The width of a column: the longest cell the rows hold in it.
pub open spec fn width_of(rows: Seq<Seq<Seq<char>>>, j: int) -> int
    decreases rows.len(),
{
    if rows.len() == 0 {
        0
    } else {
        let rest = width_of(rows.drop_last(), j);
        let here: int = if 0 <= j < rows.last().len() {
            rows.last()[j].len() as int
        } else {
            0
        };
        if here > rest {
            here
        } else {
            rest
        }
    }
}

/// A run of one repeated character.
pub open spec fn repeat_char(c: char, n: int) -> Seq<char>
    decreases n,
{
    if n <= 0 {
        Seq::empty()
    } else {
        repeat_char(c, n - 1).push(c)
    }
}

/// A cell padded with spaces up to the column width.
pub open spec fn pad_cell(s: Seq<char>, w: int) -> Seq<char> {
    s + repeat_char(' ', w - s.len())
}

/// The cells of one rendered row: ` cell |` after each.
pub open spec fn cells_text(row: Seq<Seq<char>>, widths: Seq<int>) -> Seq<char>
    decreases row.len(),
{
    if row.len() == 0 {
        Seq::empty()
    } else {
        let j = row.len() - 1;
        let w: int = if j < widths.len() {
            widths[j]
        } else {
            0
        };
        cells_text(row.drop_last(), widths) + seq![' '] + pad_cell(row.last(), w) + seq![
            ' ',
            '|',
        ]
    }
}

/// One rendered table row.
pub open spec fn row_text(row: Seq<Seq<char>>, widths: Seq<int>) -> Seq<char> {
    seq!['|'] + cells_text(row, widths) + seq!['\n']
}

/// One separator cell, at least three dashes wide, with the alignment
/// markers.
pub open spec fn sep_cell(w: int, align: TableAlignment) -> Seq<char> {
    let sw: int = if w >= 3 {
        w
    } else {
        3
    };
    match align {
        TableAlignment::Left => seq![' '] + repeat_char('-', sw) + seq![' ', '|'],
        TableAlignment::Center => seq![':'] + repeat_char('-', sw - 2) + seq![':', '|'],
        TableAlignment::Right => seq![' '] + repeat_char('-', sw - 1) + seq![':', '|'],
    }
}

/// The rendered separator row.
pub open spec fn sep_cells_text(widths: Seq<int>, align: TableAlignment) -> Seq<char>
    decreases widths.len(),
{
    if widths.len() == 0 {
        Seq::empty()
    } else {
        sep_cells_text(widths.drop_last(), align) + sep_cell(widths.last(), align)
    }
}

/// The generated header names `Col1`, `Col2`, ... when the input has no
/// header row.
pub open spec fn gen_header(col_count: int) -> Seq<Seq<char>> {
    Seq::new(
        if col_count >= 0 {
            col_count as nat
        } else {
            0
        },
        |j: int| seq!['C', 'o', 'l'] + crate::render::nat_text(j + 1),
    )
}

/// All rendered data rows, in order.
pub open spec fn data_text(rows: Seq<Seq<Seq<char>>>, widths: Seq<int>) -> Seq<char>
    decreases rows.len(),
{
    if rows.len() == 0 {
        Seq::empty()
    } else {
        data_text(rows.drop_last(), widths) + row_text(rows.last(), widths)
    }
}

/// The whole rendered table: the optional title, the header row, the
/// separator, the data rows.
pub open spec fn table_text(
    rows: Seq<Seq<Seq<char>>>,
    has_header: bool,
    align: TableAlignment,
    title: Option<Seq<char>>,
) -> Seq<char> {
    let col_count = rows[0].len() as int;
    let widths = Seq::new(col_count as nat, |j: int| width_of(rows, j));
    let header = if has_header {
        rows[0]
    } else {
        gen_header(col_count)
    };
    let data = if has_header {
        rows.subrange(1, rows.len() as int)
    } else {
        rows
    };
    let title_part: Seq<char> = match title {
        Some(t) => seq!['#', '#', '#', ' '] + t + seq!['\n', '\n'],
        None => Seq::empty(),
    };
    title_part + row_text(header, widths) + (seq!['|'] + sep_cells_text(widths, align) + seq![
        '\n',
    ]) + data_text(data, widths)
}

/// The column view of the options.
pub open spec fn cols_view(copt: Option<Vec<usize>>) -> Option<Seq<usize>> {
    match copt {
        Some(v) => Some(v@),
        None => None,
    }
}

/// The rows a CSV input yields under the options: parsed, column
/// filtered, row limited.
pub open spec fn csv_rows_spec(s: Seq<char>, opts: CsvOptions) -> Seq<Seq<Seq<char>>> {
    apply_max(
        apply_cols(rows_of(csv_lines(s), opts.delimiter), cols_view(opts.columns)),
        opts.has_header,
        match opts.max_rows {
            Some(m) => Some(m),
            None => None,
        },
    )
}

/// The views of a parsed row table.
pub open spec fn row_views(v: Seq<Vec<String>>) -> Seq<Seq<Seq<char>>> {
    Seq::new(v.len(), |i: int| str_views(v[i]@))
}

/// Trim every cell of a split line.
#[verifier::loop_isolation(false)]
fn trim_cells(cells: Vec<String>) -> (r: Vec<String>)
    ensures
        str_views(r@) == str_views(cells@).map_values(|seg: Seq<char>| trim_text(seg)),
{
    let mut out: Vec<String> = Vec::new();
    let mut i: usize = 0;
    while i < cells.len()
        invariant
            i <= cells.len(),
            out@.len() == i as int,
            forall|j: int| 0 <= j < i as int ==> out@[j]@ == trim_text(cells@[j]@),
        decreases cells.len() - i,
    {
        out.push(trim_str(cells[i].as_str()));
        i = i + 1;
    }
    proof {
        assert(str_views(out@) =~= str_views(cells@).map_values(
            |seg: Seq<char>| trim_text(seg),
        ));
    }
    out
}

/// Parse the input into rows: non-blank lines, split on the delimiter,
/// cells trimmed.
#[verifier::loop_isolation(false)]
fn parse_csv_rows(csv: &str, delimiter: char) -> (r: Vec<Vec<String>>)
    ensures
        row_views(r@) == rows_of(csv_lines(csv@), delimiter),
{
    let lines = split_str(csv, '\n');
    let ghost all_lines = str_views(lines@);
    let ghost keep = |l: Seq<char>| !is_blank(l);
    let mut out: Vec<Vec<String>> = Vec::new();
    let mut i: usize = 0;
    proof {
        reveal_with_fuel(Seq::filter, 1);
        assert(all_lines.subrange(0, 0) =~= Seq::<Seq<char>>::empty());
        assert(all_lines.subrange(0, 0).filter(keep) =~= Seq::<Seq<char>>::empty());
        assert(row_views(out@) =~= rows_of(all_lines.subrange(0, 0).filter(keep), delimiter));
    }
    while i < lines.len()
        invariant
            i <= lines.len(),
            row_views(out@) =~= rows_of(all_lines.subrange(0, i as int).filter(keep), delimiter),
        decreases lines.len() - i,
    {
        let ghost pre = all_lines.subrange(0, i as int);
        let ghost pre1 = all_lines.subrange(0, i + 1 as int);
        proof {
            assert(pre1.drop_last() =~= pre);
            assert(pre1.last() == all_lines[i as int]);
        }
        if !is_blank_str(lines[i].as_str()) {
            let cells = split_str(lines[i].as_str(), delimiter);
            let row = trim_cells(cells);
            out.push(row);
            proof {
                assert(pre1.filter(keep) =~= pre.filter(keep).push(all_lines[i as int]));
                assert(str_views(row@) == raw_row(all_lines[i as int], delimiter));
                let target = rows_of(pre1.filter(keep), delimiter);
                assert(target.len() == pre.filter(keep).len() + 1);
                assert forall|j: int| 0 <= j < out@.len() implies row_views(out@)[j]
                    == target[j] by {
                    if j < out@.len() - 1 {
                        assert(row_views(out@)[j] == row_views(out@.drop_last())[j]);
                        assert(target[j] == rows_of(pre.filter(keep), delimiter)[j]);
                    } else {
                        assert(row_views(out@)[j] == str_views(row@));
                        assert(target[j] == raw_row(pre1.filter(keep)[j], delimiter));
                        assert(pre1.filter(keep)[j] == all_lines[i as int]);
                    }
                }
                assert(row_views(out@) =~= target);
            }
        } else {
            proof {
                assert(pre1.filter(keep) =~= pre.filter(keep));
                assert(row_views(out@) =~= rows_of(pre1.filter(keep), delimiter));
            }
        }
        i = i + 1;
    }
    proof {
        assert(all_lines.subrange(0, lines@.len() as int) =~= all_lines);
    }
    out
}

/// Keep the listed columns of every row.
#[verifier::loop_isolation(false)]
fn select_columns(rows: Vec<Vec<String>>, cols: &Vec<usize>) -> (r: Vec<Vec<String>>)
    ensures
        row_views(r@) == row_views(rows@).map_values(
            |row: Seq<Seq<char>>| select_cols(row, cols@),
        ),
{
    let mut out: Vec<Vec<String>> = Vec::new();
    let mut i: usize = 0;
    while i < rows.len()
        invariant
            i <= rows.len(),
            out@.len() == i as int,
            forall|j: int| 0 <= j < i as int ==> str_views(out@[j]@) == select_cols(
                str_views(#[trigger] rows@[j]@),
                cols@,
            ),
        decreases rows.len() - i,
    {
        let ghost rv = str_views(rows@[i as int]@);
        let mut picked: Vec<String> = Vec::new();
        let mut k: usize = 0;
        proof {
            assert(cols@.subrange(0, cols@.len() as int) =~= cols@);
            assert(select_cols(rv, cols@.subrange(cols@.len() as int, cols@.len() as int))
                =~= Seq::<Seq<char>>::empty());
        }
        while k < cols.len()
            invariant
                k <= cols.len(),
                select_cols(rv, cols@) =~= str_views(picked@) + select_cols(
                    rv,
                    cols@.subrange(k as int, cols@.len() as int),
                ),
            decreases cols.len() - k,
        {
            let ghost sfx = cols@.subrange(k as int, cols@.len() as int);
            proof {
                assert(sfx[0] == cols@[k as int]);
                assert(sfx.drop_first() =~= cols@.subrange(k + 1 as int, cols@.len() as int));
            }
            let ci = cols[k];
            if ci < rows[i].len() {
                picked.push(rows[i][ci].clone());
                proof {
                    assert(str_views(picked@) =~= str_views(picked@.drop_last()).push(
                        rv[ci as int],
                    ));
                    assert(select_cols(rv, cols@) =~= str_views(picked@) + select_cols(
                        rv,
                        cols@.subrange(k + 1 as int, cols@.len() as int),
                    ));
                }
            } else {
                proof {
                    assert(select_cols(rv, cols@) =~= str_views(picked@) + select_cols(
                        rv,
                        cols@.subrange(k + 1 as int, cols@.len() as int),
                    ));
                }
            }
            k = k + 1;
        }
        proof {
            assert(select_cols(rv, cols@.subrange(cols@.len() as int, cols@.len() as int))
                =~= Seq::<Seq<char>>::empty());
            assert(str_views(picked@) =~= select_cols(rv, cols@));
        }
        out.push(picked);
        i = i + 1;
    }
    proof {
        assert(row_views(out@) =~= row_views(rows@).map_values(
            |row: Seq<Seq<char>>| select_cols(row, cols@),
        ));
    }
    out
}

/// The first row disagreeing with the first row's column count.
#[verifier::loop_isolation(false)]
fn find_bad_row(rows: &Vec<Vec<String>>) -> (r: Option<usize>)
    requires
        rows@.len() > 0,
    ensures
        r matches Some(i) ==> i < rows@.len() && bad_index(row_views(rows@), 0) == i as int,
        r is None ==> bad_index(row_views(rows@), 0) < 0,
{
    let ghost rv = row_views(rows@);
    let expected = rows[0].len();
    let mut i: usize = 1;
    proof {
        assert(bad_index(rv, 0) == bad_index(rv, 1));
    }
    while i < rows.len()
        invariant
            1 <= i <= rows.len(),
            bad_index(rv, 0) == bad_index(rv, i as int),
        decreases rows.len() - i,
    {
        if rows[i].len() != expected {
            proof {
                assert(rv[i as int].len() != rv[0].len());
                assert(bad_index(rv, i as int) == i as int);
            }
            return Some(i);
        }
        i = i + 1;
    }
    None
}

/// Append a run of spaces.
#[verifier::loop_isolation(false)]
fn append_spaces(out: &mut String, n: usize)
    ensures
        final(out)@ == old(out)@ + repeat_char(' ', n as int),
{
    proof {
        reveal_strlit(" ");
    }
    let mut i: usize = 0;
    while i < n
        invariant
            i <= n,
            out@ =~= old(out)@ + repeat_char(' ', i as int),
        decreases n - i,
    {
        out.append(" ");
        proof {
            assert(out@ =~= old(out)@ + repeat_char(' ', i + 1 as int));
        }
        i = i + 1;
    }
}

/// Append a run of dashes.
#[verifier::loop_isolation(false)]
fn append_dashes(out: &mut String, n: usize)
    ensures
        final(out)@ == old(out)@ + repeat_char('-', n as int),
{
    proof {
        reveal_strlit("-");
    }
    let mut i: usize = 0;
    while i < n
        invariant
            i <= n,
            out@ =~= old(out)@ + repeat_char('-', i as int),
        decreases n - i,
    {
        out.append("-");
        proof {
            assert(out@ =~= old(out)@ + repeat_char('-', i + 1 as int));
        }
        i = i + 1;
    }
}

/// Append one rendered table row.
#[verifier::loop_isolation(false)]
fn append_row(out: &mut String, row: &Vec<String>, widths: &Vec<usize>)
    ensures
        final(out)@ == old(out)@ + row_text(
            str_views(row@),
            widths@.map_values(|w: usize| w as int),
        ),
{
    proof {
        reveal_strlit("|");
        reveal_strlit(" ");
        reveal_strlit(" |");
        reveal_strlit("\n");
    }
    let ghost rv = str_views(row@);
    let ghost wv = widths@.map_values(|w: usize| w as int);
    out.append("|");
    let ghost opened = out@;
    let mut j: usize = 0;
    proof {
        assert(rv.subrange(0, 0) =~= Seq::<Seq<char>>::empty());
        assert(out@ =~= opened + cells_text(rv.subrange(0, 0), wv));
    }
    while j < row.len()
        invariant
            j <= row.len(),
            out@ =~= opened + cells_text(rv.subrange(0, j as int), wv),
        decreases row.len() - j,
    {
        out.append(" ");
        out.append(row[j].as_str());
        let cell_len = row[j].as_str().unicode_len();
        let w: usize = if j < widths.len() {
            widths[j]
        } else {
            0
        };
        let fill: usize = if w > cell_len {
            w - cell_len
        } else {
            0
        };
        append_spaces(out, fill);
        out.append(" |");
        proof {
            let pre = rv.subrange(0, j as int);
            let pre1 = rv.subrange(0, j + 1 as int);
            assert(pre1.drop_last() =~= pre);
            assert(pre1.last() == rv[j as int]);
            assert(rv[j as int] + repeat_char(' ', fill as int) =~= pad_cell(
                rv[j as int],
                if (j as int) < wv.len() {
                    wv[j as int]
                } else {
                    0
                },
            ));
            assert(out@ =~= opened + cells_text(pre1, wv));
        }
        j = j + 1;
    }
    out.append("\n");
    proof {
        assert(rv.subrange(0, row@.len() as int) =~= rv);
        assert(out@ =~= old(out)@ + row_text(rv, wv));
    }
}

/// Append the rendered separator row.
#[verifier::loop_isolation(false)]
fn append_separator(out: &mut String, widths: &Vec<usize>, align: TableAlignment)
    ensures
        final(out)@ == old(out)@ + seq!['|'] + sep_cells_text(
            widths@.map_values(|w: usize| w as int),
            align,
        ) + seq!['\n'],
{
    proof {
        reveal_strlit("|");
        reveal_strlit(" ");
        reveal_strlit(" |");
        reveal_strlit(":");
        reveal_strlit(":|");
        reveal_strlit("\n");
    }
    let ghost wv = widths@.map_values(|w: usize| w as int);
    out.append("|");
    let ghost opened = out@;
    let mut j: usize = 0;
    proof {
        assert(wv.subrange(0, 0) =~= Seq::<int>::empty());
        assert(out@ =~= opened + sep_cells_text(wv.subrange(0, 0), align));
    }
    while j < widths.len()
        invariant
            j <= widths.len(),
            out@ =~= opened + sep_cells_text(wv.subrange(0, j as int), align),
        decreases widths.len() - j,
    {
        let w = widths[j];
        let sw: usize = if w >= 3 {
            w
        } else {
            3
        };
        match align {
            TableAlignment::Left => {
                out.append(" ");
                append_dashes(out, sw);
                out.append(" |");
            }
            TableAlignment::Center => {
                out.append(":");
                append_dashes(out, sw - 2);
                out.append(":|");
            }
            TableAlignment::Right => {
                out.append(" ");
                append_dashes(out, sw - 1);
                out.append(":|");
            }
        }
        proof {
            let pre = wv.subrange(0, j as int);
            let pre1 = wv.subrange(0, j + 1 as int);
            assert(pre1.drop_last() =~= pre);
            assert(pre1.last() == wv[j as int]);
            assert(out@ =~= opened + sep_cells_text(pre1, align));
        }
        j = j + 1;
    }
    out.append("\n");
    proof {
        assert(wv.subrange(0, widths@.len() as int) =~= wv);
    }
}

/// The widths of every column over the rows.
#[verifier::loop_isolation(false)]
fn column_widths(rows: &Vec<Vec<String>>, col_count: usize) -> (r: Vec<usize>)
    ensures
        r@.len() == col_count,
        forall|j: int| 0 <= j < col_count ==> r@[j] as int == width_of(
            row_views(rows@),
            j,
        ),
{
    let ghost rv = row_views(rows@);
    let mut widths: Vec<usize> = Vec::new();
    let mut j: usize = 0;
    while j < col_count
        invariant
            j <= col_count,
            widths@.len() == j as int,
            forall|k: int| 0 <= k < j as int ==> widths@[k] == 0,
        decreases col_count - j,
    {
        widths.push(0);
        j = j + 1;
    }
    let mut i: usize = 0;
    proof {
        assert(rv.subrange(0, 0) =~= Seq::<Seq<Seq<char>>>::empty());
        assert forall|k: int| 0 <= k < col_count implies widths@[k] as int == width_of(
            rv.subrange(0, 0),
            k,
        ) by {}
    }
    while i < rows.len()
        invariant
            i <= rows.len(),
            widths@.len() == col_count,
            forall|k: int| 0 <= k < col_count ==> widths@[k] as int == width_of(
                rv.subrange(0, i as int),
                k,
            ),
        decreases rows.len() - i,
    {
        let ghost pre = rv.subrange(0, i as int);
        let ghost pre1 = rv.subrange(0, i + 1 as int);
        proof {
            assert(pre1.drop_last() =~= pre);
            assert(pre1.last() == rv[i as int]);
        }
        let mut k: usize = 0;
        while k < widths.len()
            invariant
                k <= widths@.len(),
                widths@.len() == col_count,
                forall|t: int| k as int <= t < col_count ==> widths@[t] as int == width_of(
                    pre,
                    t,
                ),
                forall|t: int| 0 <= t < k as int ==> widths@[t] as int == width_of(pre1, t),
            decreases widths@.len() - k,
        {
            let here: usize = if k < rows[i].len() {
                rows[i][k].as_str().unicode_len()
            } else {
                0
            };
            proof {
                assert(pre1.last() == str_views(rows@[i as int]@));
                assert(pre1.last().len() == rows@[i as int]@.len());
                if (k as int) < rows@[i as int]@.len() {
                    assert(pre1.last()[k as int] == rows@[i as int]@[k as int]@);
                    assert(here as int == pre1.last()[k as int].len());
                }
            }
            proof {
                assert(here as int == (if 0 <= (k as int) < pre1.last().len() {
                    pre1.last()[k as int].len() as int
                } else {
                    0int
                }));
                assert(width_of(pre1, k as int) == ({
                    let rest = width_of(pre1.drop_last(), k as int);
                    let h: int = if 0 <= (k as int) < pre1.last().len() {
                        pre1.last()[k as int].len() as int
                    } else {
                        0
                    };
                    if h > rest {
                        h
                    } else {
                        rest
                    }
                }));
                assert(width_of(pre1.drop_last(), k as int) == width_of(pre, k as int));
            }
            if here > widths[k] {
                widths[k] = here;
            }
            proof {
                assert(widths@[k as int] as int == width_of(pre1, k as int));
            }
            k = k + 1;
        }
        i = i + 1;
    }
    proof {
        assert(rv.subrange(0, rows@.len() as int) =~= rv);
    }
    widths
}

/// The title view of an optional title.
pub open spec fn title_view(t: Option<&str>) -> Option<Seq<char>> {
    match t {
        Some(t) => Some(t@),
        None => None,
    }
}

/// Parse, filter and limit the input rows per the options.
#[verifier::loop_isolation(false)]
fn build_rows(csv: &str, options: &CsvOptions) -> (r: Vec<Vec<String>>)
    ensures
        row_views(r@) == csv_rows_spec(csv@, *options),
{
    let parsed = parse_csv_rows(csv, options.delimiter);
    let selected = match &options.columns {
        Some(cols) => select_columns(parsed, cols),
        None => parsed,
    };
    let mut rows2 = selected;
    match options.max_rows {
        Some(max) => {
            if options.has_header {
                if rows2.len() >= 1 && rows2.len() - 1 > max {
                    rows2.truncate(max + 1);
                }
            } else {
                if rows2.len() > max {
                    rows2.truncate(max);
                }
            }
        }
        None => {}
    }
    proof {
        assert(row_views(rows2@) =~= csv_rows_spec(csv@, *options));
    }
    rows2
}

/// Render checked rows as a markdown table.
#[verifier::loop_isolation(false)]
#[verifier::rlimit(40)]
fn render_table(
    rows2: &Vec<Vec<String>>,
    has_header: bool,
    alignment: TableAlignment,
    title: Option<&str>,
) -> (r: String)
    requires
        rows2@.len() > 0,
    ensures
        r@ == table_text(row_views(rows2@), has_header, alignment, title_view(title)),
{
    proof {
        reveal_strlit("### ");
        reveal_strlit("\n\n");
        reveal_strlit("Col");
    }
    let ghost spec_rows = row_views(rows2@);
    let col_count = rows2[0].len();
    let widths = column_widths(rows2, col_count);
    let ghost wv = Seq::new(col_count as nat, |j: int| width_of(spec_rows, j));
    proof {
        assert(widths@.map_values(|w: usize| w as int) =~= wv);
    }
    let mut out = String::new();
    match title {
        Some(t) => {
            out.append("### ");
            out.append(t);
            out.append("\n\n");
        }
        None => {}
    }
    let data_start: usize = if has_header {
        1
    } else {
        0
    };
    if has_header {
        append_row(&mut out, &rows2[0], &widths);
    } else {
        let mut gen: Vec<String> = Vec::new();
        let mut j: usize = 0;
        while j < col_count
            invariant
                j <= col_count,
                gen@.len() == j as int,
                forall|k: int| 0 <= k < j as int ==> gen@[k]@ == seq!['C', 'o', 'l']
                    + crate::render::nat_text(k + 1),
            decreases col_count - j,
        {
            let mut name = String::from_str("Col");
            crate::render::append_nat(&mut name, (j as u64) + 1);
            gen.push(name);
            j = j + 1;
        }
        proof {
            assert(str_views(gen@) =~= gen_header(col_count as int));
        }
        append_row(&mut out, &gen, &widths);
    }
    append_separator(&mut out, &widths, alignment);
    let ghost header_and_sep = out@;
    let ghost data = if has_header {
        spec_rows.subrange(1, spec_rows.len() as int)
    } else {
        spec_rows
    };
    let mut t: usize = data_start;
    proof {
        assert(data.subrange(0, 0) =~= Seq::<Seq<Seq<char>>>::empty());
        assert(out@ =~= header_and_sep + data_text(data.subrange(0, 0), wv));
    }
    while t < rows2.len()
        invariant
            data_start <= t <= rows2.len(),
            out@ =~= header_and_sep + data_text(data.subrange(0, t as int - data_start), wv),
        decreases rows2.len() - t,
    {
        append_row(&mut out, &rows2[t], &widths);
        proof {
            let pre = data.subrange(0, t as int - data_start);
            let pre1 = data.subrange(0, t + 1 as int - data_start);
            assert(pre1.drop_last() =~= pre);
            assert(pre1.last() == spec_rows[t as int]);
            assert(str_views(rows2@[t as int]@) == spec_rows[t as int]);
            assert(out@ =~= header_and_sep + data_text(pre1, wv));
        }
        t = t + 1;
    }
    proof {
        assert(data.subrange(0, rows2@.len() as int - data_start) =~= data);
        assert(out@ =~= table_text(spec_rows, has_header, alignment, title_view(title)));
    }
    out
}

/// Convert CSV data to a markdown table, with custom options.
///
/// The input is parsed into trimmed cells on the delimiter, the column
/// and row limits applied; `Empty` comes back exactly when nothing
/// usable remains, `InconsistentColumns` exactly when a row disagrees
/// with the first row's column count, and otherwise the rendered table.
pub fn csv_to_markdown_with_options(csv: &str, title: Option<&str>, options: CsvOptions) -> (r:
    Result<String, CsvError>)
    ensures
        (r matches Err(CsvError::Empty)) == (csv_rows_spec(csv@, options).len() == 0),
        (r matches Err(CsvError::InconsistentColumns { .. })) == (csv_rows_spec(
            csv@,
            options,
        ).len() > 0 && bad_index(csv_rows_spec(csv@, options), 0) >= 0),
        r matches Err(CsvError::InconsistentColumns { expected, found, row }) ==> {
            let rows2 = csv_rows_spec(csv@, options);
            let bad = bad_index(rows2, 0);
            &&& expected == rows2[0].len()
            &&& found == rows2[bad].len()
            &&& row == bad + 1
        },
        (r is Ok) == (csv_rows_spec(csv@, options).len() > 0 && bad_index(
            csv_rows_spec(csv@, options),
            0,
        ) < 0),
        r matches Ok(text) ==> {
            let rows2 = csv_rows_spec(csv@, options);
            &&& rows2.len() > 0
            &&& bad_index(rows2, 0) < 0
            &&& text@ == table_text(rows2, options.has_header, options.alignment, title_view(
                title,
            ))
        },
{
    let rows2 = build_rows(csv, &options);
    if rows2.len() == 0 {
        return Err(CsvError::Empty);
    }
    match find_bad_row(&rows2) {
        Some(bad) => {
            return Err(
                CsvError::InconsistentColumns {
                    expected: rows2[0].len(),
                    found: rows2[bad].len(),
                    row: bad + 1,
                },
            );
        }
        None => {}
    }
    Ok(render_table(&rows2, options.has_header, options.alignment, title))
}

/// Convert CSV data to a markdown table with the default options.
pub fn csv_to_markdown(csv: &str, title: Option<&str>) -> (r: Result<String, CsvError>)
    ensures
        ({
            let opts = CsvOptions {
                delimiter: ',',
                has_header: true,
                max_rows: None,
                columns: None,
                alignment: TableAlignment::Left,
            };
            &&& (r matches Err(CsvError::Empty)) == (csv_rows_spec(csv@, opts).len() == 0)
            &&& (r matches Err(CsvError::InconsistentColumns { .. })) == (csv_rows_spec(
                csv@,
                opts,
            ).len() > 0 && bad_index(csv_rows_spec(csv@, opts), 0) >= 0)
            &&& (r is Ok) == (csv_rows_spec(csv@, opts).len() > 0 && bad_index(
                csv_rows_spec(csv@, opts),
                0,
            ) < 0)
            &&& r matches Ok(text) ==> text@ == table_text(
                csv_rows_spec(csv@, opts),
                true,
                TableAlignment::Left,
                title_view(title),
            )
        }),
{
    csv_to_markdown_with_options(csv, title, CsvOptions::default())
}

/// What truncation keeps: the whole text when it fits, its first
/// `max_len` characters when even the ellipsis would not fit, and
/// otherwise a `max_len`-character result ending in `...`.
pub open spec fn truncate_spec(s: Seq<char>, max_len: int) -> Seq<char> {
    if s.len() <= max_len {
        s
    } else if max_len <= 3 {
        s.subrange(0, max_len)
    } else {
        s.subrange(0, max_len - 3) + seq!['.', '.', '.']
    }
}

/// Truncate text with an ellipsis.
pub fn truncate_text(text: &str, max_len: usize) -> (r: String)
    ensures
        r@ == truncate_spec(text@, max_len as int),
{
    let n = text.unicode_len();
    if n <= max_len {
        proof {
            assert(text@.subrange(0, n as int) =~= text@);
        }
        String::from_str(text.substring_char(0, n))
    } else if max_len <= 3 {
        String::from_str(text.substring_char(0, max_len))
    } else {
        proof {
            reveal_strlit("...");
        }
        let mut out = String::from_str(text.substring_char(0, max_len - 3));
        out.append("...");
        proof {
            assert(out@ =~= truncate_spec(text@, max_len as int));
        }
        out
    }
}

/// Lines joined with a newline, each led by the given prefix.
pub open spec fn bullet_spec(items: Seq<Seq<char>>) -> Seq<char>
    decreases items.len(),
{
    if items.len() == 0 {
        Seq::empty()
    } else if items.len() == 1 {
        seq!['-', ' '] + items[0]
    } else {
        bullet_spec(items.drop_last()) + seq!['\n', '-', ' '] + items.last()
    }
}

/// Create a bullet list from items.
#[verifier::loop_isolation(false)]
pub fn bullet_list(items: &Vec<String>) -> (r: String)
    ensures
        r@ == bullet_spec(str_views(items@)),
{
    proof {
        reveal_strlit("- ");
        reveal_strlit("\n- ");
    }
    let ghost iv = str_views(items@);
    let mut out = String::new();
    let mut i: usize = 0;
    proof {
        assert(iv.subrange(0, 0) =~= Seq::<Seq<char>>::empty());
        assert(out@ =~= bullet_spec(iv.subrange(0, 0)));
    }
    while i < items.len()
        invariant
            i <= items.len(),
            out@ =~= bullet_spec(iv.subrange(0, i as int)),
        decreases items.len() - i,
    {
        if i == 0 {
            out.append("- ");
        } else {
            out.append("\n- ");
        }
        out.append(items[i].as_str());
        proof {
            let pre1 = iv.subrange(0, i + 1 as int);
            assert(pre1.drop_last() =~= iv.subrange(0, i as int));
            assert(pre1.last() == iv[i as int]);
            assert(out@ =~= bullet_spec(pre1));
        }
        i = i + 1;
    }
    proof {
        assert(iv.subrange(0, items@.len() as int) =~= iv);
    }
    out
}

/// Numbered lines joined with a newline.
pub open spec fn numbered_spec(items: Seq<Seq<char>>) -> Seq<char>
    decreases items.len(),
{
    if items.len() == 0 {
        Seq::empty()
    } else if items.len() == 1 {
        crate::render::nat_text(1) + seq!['.', ' '] + items[0]
    } else {
        numbered_spec(items.drop_last()) + seq!['\n'] + crate::render::nat_text(
            items.len() as int,
        ) + seq!['.', ' '] + items.last()
    }
}

/// Create a numbered list from items.
#[verifier::loop_isolation(false)]
pub fn numbered_list(items: &Vec<String>) -> (r: String)
    ensures
        r@ == numbered_spec(str_views(items@)),
{
    proof {
        reveal_strlit("\n");
        reveal_strlit(". ");
    }
    let ghost iv = str_views(items@);
    let mut out = String::new();
    let mut i: usize = 0;
    proof {
        assert(iv.subrange(0, 0) =~= Seq::<Seq<char>>::empty());
        assert(out@ =~= numbered_spec(iv.subrange(0, 0)));
    }
    while i < items.len()
        invariant
            i <= items.len(),
            out@ =~= numbered_spec(iv.subrange(0, i as int)),
        decreases items.len() - i,
    {
        if i > 0 {
            out.append("\n");
        }
        crate::render::append_nat(&mut out, (i as u64) + 1);
        out.append(". ");
        out.append(items[i].as_str());
        proof {
            let pre1 = iv.subrange(0, i + 1 as int);
            assert(pre1.drop_last() =~= iv.subrange(0, i as int));
            assert(pre1.last() == iv[i as int]);
            assert(out@ =~= numbered_spec(pre1));
        }
        i = i + 1;
    }
    proof {
        assert(iv.subrange(0, items@.len() as int) =~= iv);
    }
    out
}

/// Format a key-value pair for prompts: `**key**: value`.
pub fn key_value(key: &str, value: &str) -> (r: String)
    ensures
        r@ == seq!['*', '*'] + key@ + seq!['*', '*', ':', ' '] + value@,
{
    proof {
        reveal_strlit("**");
        reveal_strlit("**: ");
    }
    let mut out = String::from_str("**");
    out.append(key);
    out.append("**: ");
    out.append(value);
    proof {
        assert(out@ =~= seq!['*', '*'] + key@ + seq!['*', '*', ':', ' '] + value@);
    }
    out
}

/// Key-value lines joined with a newline.
pub open spec fn key_value_block_spec(pairs: Seq<(Seq<char>, Seq<char>)>) -> Seq<char>
    decreases pairs.len(),
{
    if pairs.len() == 0 {
        Seq::empty()
    } else if pairs.len() == 1 {
        seq!['*', '*'] + pairs[0].0 + seq!['*', '*', ':', ' '] + pairs[0].1
    } else {
        key_value_block_spec(pairs.drop_last()) + seq!['\n', '*', '*'] + pairs.last().0 + seq![
            '*',
            '*',
            ':',
            ' ',
        ] + pairs.last().1
    }
}

/// Format multiple key-value pairs, one line each.
#[verifier::loop_isolation(false)]
pub fn key_value_block(pairs: &Vec<(String, String)>) -> (r: String)
    ensures
        r@ == key_value_block_spec(
            Seq::new(pairs@.len(), |i: int| (pairs@[i].0@, pairs@[i].1@)),
        ),
{
    proof {
        reveal_strlit("\n");
        reveal_strlit("**");
        reveal_strlit("**: ");
    }
    let ghost pv = Seq::new(pairs@.len(), |i: int| (pairs@[i].0@, pairs@[i].1@));
    let mut out = String::new();
    let mut i: usize = 0;
    proof {
        assert(pv.subrange(0, 0) =~= Seq::<(Seq<char>, Seq<char>)>::empty());
        assert(out@ =~= key_value_block_spec(pv.subrange(0, 0)));
    }
    while i < pairs.len()
        invariant
            i <= pairs.len(),
            out@ =~= key_value_block_spec(pv.subrange(0, i as int)),
        decreases pairs.len() - i,
    {
        if i > 0 {
            out.append("\n");
        }
        out.append("**");
        out.append(pairs[i].0.as_str());
        out.append("**: ");
        out.append(pairs[i].1.as_str());
        proof {
            let pre1 = pv.subrange(0, i + 1 as int);
            assert(pre1.drop_last() =~= pv.subrange(0, i as int));
            assert(pre1.last() == pv[i as int]);
            assert(out@ =~= key_value_block_spec(pre1));
        }
        i = i + 1;
    }
    proof {
        assert(pv.subrange(0, pairs@.len() as int) =~= pv);
    }
    out
}

/// Wrap text in a fenced code block with an optional language tag.
pub fn code_block(code: &str, language: Option<&str>) -> (r: String)
    ensures
        r@ == seq!['`', '`', '`'] + (match language {
            Some(l) => l@,
            None => Seq::<char>::empty(),
        }) + seq!['\n'] + code@ + seq!['\n', '`', '`', '`'],
{
    proof {
        reveal_strlit("```");
        reveal_strlit("\n");
        reveal_strlit("\n```");
    }
    let mut out = String::from_str("```");
    match language {
        Some(l) => {
            out.append(l);
        }
        None => {}
    }
    out.append("\n");
    out.append(code);
    out.append("\n```");
    proof {
        assert(out@ =~= seq!['`', '`', '`'] + (match language {
            Some(l) => l@,
            None => Seq::<char>::empty(),
        }) + seq!['\n'] + code@ + seq!['\n', '`', '`', '`']);
    }
    out
}

/// Create a collapsible details/summary section.
pub fn collapsible(summary: &str, content: &str) -> (r: String)
    ensures
        r@ == "<details>\n<summary>"@ + summary@ + "</summary>\n\n"@ + content@
            + "\n</details>"@,
{
    let mut out = String::from_str("<details>\n<summary>");
    out.append(summary);
    out.append("</summary>\n\n");
    out.append(content);
    out.append("\n</details>");
    out
}

/// Digits grouped in threes from the right with commas; a leading minus
/// is kept in front.
pub open spec fn grouped_digits(s: Seq<char>) -> Seq<char>
    decreases s.len(),
{
    if s.len() <= 3 {
        s
    } else {
        grouped_digits(s.subrange(0, s.len() - 3)) + seq![','] + s.subrange(
            s.len() - 3,
            s.len() as int,
        )
    }
}

/// What thousands grouping yields: the sign kept, the digits grouped.
pub open spec fn group_thousands_spec(s: Seq<char>) -> Seq<char> {
    if s.len() > 0 && s[0] == '-' {
        seq!['-'] + grouped_digits(s.subrange(1, s.len() as int))
    } else {
        grouped_digits(s)
    }
}

/// Insert thousands separators into a plain decimal digit string, keeping
/// a leading minus sign.
pub fn group_thousands(digits: &str) -> (r: String)
    ensures
        r@ == group_thousands_spec(digits@),
{
    proof {
        reveal_strlit("-");
    }
    let n = digits.unicode_len();
    if n > 0 && digits.get_char(0) == '-' {
        let mut out = String::from_str("-");
        let rest = grouped_tail(digits, 1, n);
        out.append(rest.as_str());
        proof {
            assert(out@ =~= group_thousands_spec(digits@));
        }
        out
    } else {
        let r = grouped_tail(digits, 0, n);
        proof {
            assert(digits@.subrange(0, n as int) =~= digits@);
        }
        r
    }
}

/// Group the digit range `[from, to)` in threes from the right.
fn grouped_tail(digits: &str, from: usize, to: usize) -> (r: String)
    requires
        from <= to <= digits@.len(),
    ensures
        r@ == grouped_digits(digits@.subrange(from as int, to as int)),
    decreases to - from,
{
    proof {
        reveal_strlit(",");
    }
    if to - from <= 3 {
        String::from_str(digits.substring_char(from, to))
    } else {
        let mut out = grouped_tail(digits, from, to - 3);
        proof {
            assert(digits@.subrange(from as int, to as int).subrange(
                0,
                (to - from - 3) as int,
            ) =~= digits@.subrange(from as int, to - 3 as int));
            assert(digits@.subrange(from as int, to as int).subrange(
                (to - from - 3) as int,
                (to - from) as int,
            ) =~= digits@.subrange(to - 3 as int, to as int));
        }
        out.append(",");
        out.append(digits.substring_char(to - 3, to));
        proof {
            assert(out@ =~= grouped_digits(digits@.subrange(from as int, to as int)));
        }
        out
    }
}

/// The cell text of a document value: strings bare, numbers in decimal,
/// booleans and nested values as their JSON text, null empty.
pub open spec fn cell_text(v: JsonView) -> Seq<char> {
    match v {
        JsonView::Text(s) => s,
        JsonView::Int(i) => int_text(i),
        JsonView::Num(t) => t,
        JsonView::Bool(b) => if b {
            seq!['t', 'r', 'u', 'e']
        } else {
            seq!['f', 'a', 'l', 's', 'e']
        },
        JsonView::Null => Seq::empty(),
        other => json_text(other),
    }
}

/// Render one document value as a table cell.
fn cell_string(v: &JsonValue) -> (r: String)
    ensures
        r@ == cell_text(v@),
{
    match v {
        JsonValue::Text(s) => s.clone(),
        JsonValue::Null => String::new(),
        other => {
            proof {
                crate::json::lemma_view_variant(*other);
            }
            let r = other.to_text();
            proof {
                match other {
                    JsonValue::Int(_) => {}
                    JsonValue::Num(_) => {}
                    JsonValue::Bool(b) => {
                        assert(r@ == cell_text(other@));
                    }
                    _ => {}
                }
            }
            r
        }
    }
}

/// The row a document object yields under the headers: each header's
/// member rendered, absent members empty.
pub open spec fn obj_row(ms: Seq<(Seq<char>, JsonView)>, headers: Seq<Seq<char>>) -> Seq<
    Seq<char>,
> {
    Seq::new(
        headers.len(),
        |j: int|
            match obj_field(ms, headers[j]) {
                Some(w) => cell_text(w),
                None => Seq::empty(),
            },
    )
}

/// The header row and the object rows of a document array.
pub open spec fn json_table_rows(es: Seq<JsonView>, headers: Seq<Seq<char>>) -> Seq<
    Seq<Seq<char>>,
> {
    seq![headers] + Seq::new(es.len(), |i: int| obj_row(es[i]->Obj_0, headers))
}

/// The member keys of the first object: the table's headers.
pub open spec fn json_table_headers(es: Seq<JsonView>) -> Seq<Seq<char>> {
    Seq::new(es[0]->Obj_0.len(), |j: int| es[0]->Obj_0[j].0)
}

/// The plain separator cells: dashes as wide as each column.
pub open spec fn plain_sep_cells(widths: Seq<int>) -> Seq<char>
    decreases widths.len(),
{
    if widths.len() == 0 {
        Seq::empty()
    } else {
        plain_sep_cells(widths.drop_last()) + seq![' '] + repeat_char('-', widths.last())
            + seq![' ', '|']
    }
}

/// The whole rendered document table.
pub open spec fn json_table_spec(es: Seq<JsonView>, title: Option<Seq<char>>) -> Seq<char> {
    let headers = json_table_headers(es);
    let rows = json_table_rows(es, headers);
    let widths = Seq::new(headers.len(), |j: int| width_of(rows, j));
    let title_part: Seq<char> = match title {
        Some(t) => seq!['#', '#', '#', ' '] + t + seq!['\n', '\n'],
        None => Seq::empty(),
    };
    title_part + row_text(rows[0], widths) + (seq!['|'] + plain_sep_cells(widths) + seq!['\n'])
        + data_text(rows.subrange(1, rows.len() as int), widths)
}

/// Append the plain separator row.
#[verifier::loop_isolation(false)]
fn append_plain_separator(out: &mut String, widths: &Vec<usize>)
    ensures
        final(out)@ == old(out)@ + seq!['|'] + plain_sep_cells(
            widths@.map_values(|w: usize| w as int),
        ) + seq!['\n'],
{
    proof {
        reveal_strlit("|");
        reveal_strlit(" ");
        reveal_strlit(" |");
        reveal_strlit("\n");
    }
    let ghost wv = widths@.map_values(|w: usize| w as int);
    out.append("|");
    let ghost opened = out@;
    let mut j: usize = 0;
    proof {
        assert(wv.subrange(0, 0) =~= Seq::<int>::empty());
        assert(out@ =~= opened + plain_sep_cells(wv.subrange(0, 0)));
    }
    while j < widths.len()
        invariant
            j <= widths.len(),
            out@ =~= opened + plain_sep_cells(wv.subrange(0, j as int)),
        decreases widths.len() - j,
    {
        out.append(" ");
        append_dashes(out, widths[j]);
        out.append(" |");
        proof {
            let pre1 = wv.subrange(0, j + 1 as int);
            assert(pre1.drop_last() =~= wv.subrange(0, j as int));
            assert(pre1.last() == wv[j as int]);
            assert(out@ =~= opened + plain_sep_cells(pre1));
        }
        j = j + 1;
    }
    out.append("\n");
    proof {
        assert(wv.subrange(0, widths@.len() as int) =~= wv);
    }
}

/// Convert a document array of objects to a markdown table.
///
/// The headers come from the first object's keys; a member a later
/// object lacks renders empty. `NotArray` comes back exactly when the
/// document is not an array, `Empty` exactly when it has no elements or
/// the first object has no keys, and `NotObjectArray` when an element is
/// not an object.
#[verifier::loop_isolation(false)]
#[verifier::rlimit(60)]
pub fn json_array_to_markdown(doc: &JsonValue, title: Option<&str>) -> (r: Result<
    String,
    JsonTableError,
>)
    ensures
        (r matches Err(JsonTableError::NotArray)) == !(doc@ is Arr),
        (r matches Err(JsonTableError::Empty)) == (doc@ is Arr && (doc@->Arr_0.len() == 0 || (
        doc@->Arr_0[0] is Obj && doc@->Arr_0[0]->Obj_0.len() == 0))),
        (r matches Err(JsonTableError::NotObjectArray)) == (doc@ is Arr && doc@->Arr_0.len() > 0
            && !(doc@->Arr_0[0] is Obj && doc@->Arr_0[0]->Obj_0.len() == 0) && (exists|i: int|
            0 <= i < doc@->Arr_0.len() && !((#[trigger] doc@->Arr_0[i]) is Obj))),
        (r is Ok) == (doc@ is Arr && doc@->Arr_0.len() > 0 && doc@->Arr_0[0] is Obj
            && doc@->Arr_0[0]->Obj_0.len() > 0 && (forall|i: int|
            0 <= i < doc@->Arr_0.len() ==> (#[trigger] doc@->Arr_0[i]) is Obj)),
        r matches Ok(text) ==> {
            let es = doc@->Arr_0;
            &&& es.len() > 0
            &&& forall|i: int| 0 <= i < es.len() ==> (#[trigger] es[i]) is Obj
            &&& text@ == json_table_spec(es, title_view(title))
        },
{
    proof {
        reveal_strlit("### ");
        reveal_strlit("\n\n");
    }
    let items = match doc {
        JsonValue::Arr(items) => items,
        other => {
            proof {
                crate::json::lemma_view_variant(*other);
            }
            return Err(JsonTableError::NotArray);
        }
    };
    let ghost es = crate::json::elems_view(items@);
    proof {
        assert(doc@ == JsonView::Arr(es));
    }
    if items.len() == 0 {
        return Err(JsonTableError::Empty);
    }
    let first = match &items[0] {
        JsonValue::Obj(ms) => ms,
        other => {
            proof {
                crate::json::lemma_view_variant(*other);
            }
            return Err(JsonTableError::NotObjectArray);
        }
    };
    if first.len() == 0 {
        return Err(JsonTableError::Empty);
    }
    let ghost headers = json_table_headers(es);
    let mut header_row: Vec<String> = Vec::new();
    let mut j: usize = 0;
    while j < first.len()
        invariant
            j <= first@.len(),
            header_row@.len() == j as int,
            forall|k: int| 0 <= k < j as int ==> header_row@[k]@ == first@[k].key@,
        decreases first@.len() - j,
    {
        header_row.push(first[j].key.clone());
        j = j + 1;
    }
    proof {
        crate::json::lemma_elems_view_index(items@, 0);
        assert(es[0] == JsonView::Obj(members_view(first@)));
        assert forall|k: int| 0 <= k < first@.len() implies members_view(first@)[k].0
            == first@[k].key@ by {
            lemma_members_view_index(first@, k);
        }
        assert(str_views(header_row@) =~= headers);
    }
    let mut rows: Vec<Vec<String>> = Vec::new();
    rows.push(header_row);
    let ghost spec_rows = json_table_rows(es, headers);
    proof {
        assert(row_views(rows@) =~= spec_rows.subrange(0, 1));
    }
    let mut i: usize = 0;
    while i < items.len()
        invariant
            i <= items@.len(),
            rows@.len() == i + 1,
            row_views(rows@) =~= spec_rows.subrange(0, i + 1 as int),
            forall|k: int| 0 <= k < i as int ==> (#[trigger] es[k]) is Obj,
            rows@[0]@.len() == headers.len(),
        decreases items@.len() - i,
    {
        let obj = match &items[i] {
            JsonValue::Obj(ms) => ms,
            other => {
                proof {
                    crate::json::lemma_view_variant(*other);
                }
                return Err(JsonTableError::NotObjectArray);
            }
        };
        proof {
            crate::json::lemma_elems_view_index(items@, i as int);
            assert(es[i as int] == JsonView::Obj(members_view(obj@)));
        }
        let mut row: Vec<String> = Vec::new();
        let mut k: usize = 0;
        while k < rows[0].len()
            invariant
                k <= rows@[0]@.len(),
                rows@[0]@.len() == headers.len(),
                row@.len() == k as int,
                forall|x: int| 0 <= x < k as int ==> row@[x]@ == obj_row(
                    members_view(obj@),
                    headers,
                )[x],
            decreases rows@[0]@.len() - k,
        {
            proof {
                assert(str_views(rows@[0]@) == row_views(rows@)[0]);
                assert(row_views(rows@)[0] == spec_rows.subrange(0, i + 1 as int)[0]);
                assert(spec_rows[0] == headers);
                assert(headers[k as int] == str_views(rows@[0]@)[k as int]);
            }
            let cell = match find_member(obj, &rows[0][k]) {
                Some(mi) => {
                    proof {
                        lemma_key_index(members_view(obj@), rows@[0]@[k as int]@);
                        lemma_members_view_index(obj@, mi as int);
                    }
                    cell_string(&obj[mi].value)
                }
                None => String::new(),
            };
            row.push(cell);
            k = k + 1;
        }
        proof {
            assert(str_views(row@) =~= obj_row(members_view(obj@), headers));
            assert(spec_rows.len() == es.len() + 1);
            assert(spec_rows[i + 1 as int] == Seq::new(
                es.len(),
                |x: int| obj_row(es[x]->Obj_0, headers),
            )[i as int]);
            assert(spec_rows[i + 1 as int] == obj_row(es[i as int]->Obj_0, headers));
        }
        rows.push(row);
        proof {
            assert(row_views(rows@) =~= spec_rows.subrange(0, i + 2 as int));
        }
        i = i + 1;
    }
    proof {
        assert(spec_rows.subrange(0, items@.len() + 1 as int) =~= spec_rows);
        assert(row_views(rows@) =~= spec_rows);
    }
    let col_count = rows[0].len();
    let widths = column_widths(&rows, col_count);
    let ghost wv = Seq::new(headers.len(), |j: int| width_of(spec_rows, j));
    proof {
        assert(widths@.map_values(|w: usize| w as int) =~= wv);
    }
    let mut out = String::new();
    match title {
        Some(t) => {
            out.append("### ");
            out.append(t);
            out.append("\n\n");
        }
        None => {}
    }
    append_row(&mut out, &rows[0], &widths);
    append_plain_separator(&mut out, &widths);
    let ghost base = out@;
    let ghost data = spec_rows.subrange(1, spec_rows.len() as int);
    let mut t2: usize = 1;
    proof {
        assert(data.subrange(0, 0) =~= Seq::<Seq<Seq<char>>>::empty());
        assert(out@ =~= base + data_text(data.subrange(0, 0), wv));
    }
    while t2 < rows.len()
        invariant
            1 <= t2 <= rows@.len(),
            out@ =~= base + data_text(data.subrange(0, t2 as int - 1), wv),
        decreases rows@.len() - t2,
    {
        append_row(&mut out, &rows[t2], &widths);
        proof {
            let pre1 = data.subrange(0, t2 as int);
            assert(pre1.drop_last() =~= data.subrange(0, t2 as int - 1));
            assert(pre1.last() == spec_rows[t2 as int]);
            assert(str_views(rows@[t2 as int]@) == spec_rows[t2 as int]);
            assert(out@ =~= base + data_text(pre1, wv));
        }
        t2 = t2 + 1;
    }
    proof {
        assert(data.subrange(0, rows@.len() as int - 1) =~= data);
        assert(out@ =~= json_table_spec(es, title_view(title)));
    }
    Ok(out)
}

} // verus!
