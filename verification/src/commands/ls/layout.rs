//! The column layout of the short listing: names go down the columns
//! first, each padded to the width of the longest name plus two, with as
//! many columns as the terminal width holds (at least one).

use vstd::prelude::*;
use vstd::utf8::{encode_scalar, encode_utf8};
use crate::text::{append_padded_right, chars_of, pad_right, spaces, string_of};

verus! {

/// The number of bytes of the UTF-8 encoding of `s` (`str::len`).
pub open spec fn byte_len(s: Seq<char>) -> nat {
    encode_utf8(s).len()
}

/// The greatest byte length among `names` (zero for none).
pub open spec fn max_byte_len(names: Seq<Seq<char>>) -> nat
    decreases names.len(),
{
    if names.len() == 0 {
        0
    } else {
        let m = max_byte_len(names.drop_last());
        let b = byte_len(names.last());
        if b > m {
            b
        } else {
            m
        }
    }
}

/// The width of a column: the longest name's byte length (one when there
/// is no name) plus two spaces.
pub open spec fn column_width(names: Seq<Seq<char>>) -> nat {
    (if names.len() == 0 {
        1
    } else {
        max_byte_len(names)
    }) + 2
}

/// The number of columns: as many as `width` holds, at least one.
pub open spec fn column_count(width: nat, col_width: nat) -> nat {
    if col_width > 0 && width / col_width >= 1 {
        width / col_width
    } else {
        1
    }
}

/// The number of rows for `n` names in `cols` columns (rounded up).
pub open spec fn row_count(n: nat, cols: nat) -> nat {
    if cols == 0 {
        0
    } else if n % cols == 0 {
        n / cols
    } else {
        n / cols + 1
    }
}

/// The text of a row from the cell at position `idx` on, over `cols_left`
/// more columns, `step` positions apart: each name padded to `col_width`;
/// a position past the last name adds nothing.
pub open spec fn row_cells(
    names: Seq<Seq<char>>,
    idx: int,
    step: nat,
    cols_left: nat,
    col_width: nat,
) -> Seq<char>
    decreases cols_left,
{
    if cols_left == 0 {
        seq![]
    } else {
        (if 0 <= idx < names.len() {
            pad_right(names[idx], col_width)
        } else {
            seq![]
        }) + row_cells(names, idx + step, step, (cols_left - 1) as nat, col_width)
    }
}

/// The lines of the column layout of `names` on a terminal `width`
/// characters wide: row `r` holds the names at positions `r`, `r + rows`,
/// `r + 2 * rows`, ... (column by column).
pub open spec fn layout(names: Seq<Seq<char>>, width: nat) -> Seq<Seq<char>> {
    let cw = column_width(names);
    let cols = column_count(width, cw);
    let rows = row_count(names.len(), cols);
    Seq::new(rows, |r: int| row_cells(names, r, rows, cols, cw))
}

proof fn lemma_byte_len_at_least_chars(s: Seq<char>)
    ensures
        byte_len(s) >= s.len(),
    decreases s.len(),
{
    if s.len() > 0 {
        lemma_byte_len_at_least_chars(s.drop_first());
        assert(encode_scalar(s[0] as u32).len() >= 1);
    }
}

proof fn lemma_max_byte_len_bounds(names: Seq<Seq<char>>, k: int)
    requires
        0 <= k < names.len(),
    ensures
        byte_len(names[k]) <= max_byte_len(names),
    decreases names.len(),
{
    if k < names.len() - 1 {
        lemma_max_byte_len_bounds(names.drop_last(), k);
    }
}

proof fn lemma_row_cells_past_end(
    names: Seq<Seq<char>>,
    idx: int,
    step: nat,
    cols_left: nat,
    col_width: nat,
)
    requires
        idx >= names.len(),
    ensures
        row_cells(names, idx, step, cols_left, col_width) == Seq::<char>::empty(),
    decreases cols_left,
{
    if cols_left > 0 {
        lemma_row_cells_past_end(names, idx + step, step, (cols_left - 1) as nat, col_width);
        assert(Seq::<char>::empty() + Seq::<char>::empty() =~= Seq::<char>::empty());
    }
}

/// The byte length of `s` (`str::len`).
fn utf8_len(s: &String) -> (n: usize)
    requires
        byte_len(s@) <= usize::MAX,
    ensures
        n == byte_len(s@),
{
    s.as_str().len()
}

/// The column layout of `names` on a terminal `width` characters wide
/// (see [`layout`]).
pub fn column_layout(names: &Vec<String>, width: usize) -> (lines: Vec<String>)
    requires
        forall|k: int| 0 <= k < names.len() ==> byte_len(#[trigger] names@[k]@) + 2 <= usize::MAX,
    ensures
        lines@.map_values(|s: String| s@) == layout(names@.map_values(|s: String| s@), width as nat),
{
    let ghost views = names@.map_values(|s: String| s@);
    let n = names.len();
    let mut chars: Vec<Vec<char>> = Vec::new();
    let mut max_len: usize = 0;
    let mut i: usize = 0;
    while i < n
        invariant
            n == names.len(),
            views == names@.map_values(|s: String| s@),
            forall|k: int| 0 <= k < names.len() ==> byte_len(#[trigger] names@[k]@) + 2 <= usize::MAX,
            i <= n,
            chars.len() == i,
            forall|k: int| 0 <= k < i ==> (#[trigger] chars@[k])@ == views[k],
            max_len == max_byte_len(views.take(i as int)),
            max_len + 2 <= usize::MAX,
        decreases n - i,
    {
        let b = utf8_len(&names[i]);
        assert(views.take(i + 1).drop_last() =~= views.take(i as int));
        if b > max_len {
            max_len = b;
        }
        chars.push(chars_of(names[i].as_str()));
        i = i + 1;
    }
    assert(views.take(n as int) =~= views);
    let longest: usize = if n == 0 { 1 } else { max_len };
    let col_width: usize = longest + 2;
    let cols: usize = if width / col_width >= 1 { width / col_width } else { 1 };
    proof {
        if n % cols != 0 {
            assert(cols >= 2);
            assert(n / cols < n) by (nonlinear_arith)
                requires
                    cols >= 2,
                    n >= 1,
            {
            }
        }
    }
    let rows: usize = if n % cols == 0 { n / cols } else { n / cols + 1 };
    proof {
        assert(col_width == column_width(views));
        assert(cols == column_count(width as nat, col_width as nat));
        assert(rows == row_count(n as nat, cols as nat));
        assert(rows <= n) by (nonlinear_arith)
            requires
                cols >= 1,
                rows as int == (if n % cols == 0 { (n / cols) as int } else { n / cols + 1 }),
        {
        }
    }
    let ghost spec_lines = layout(views, width as nat);
    let mut lines: Vec<String> = Vec::new();
    let mut r: usize = 0;
    while r < rows
        invariant
            n == names.len(),
            views.len() == n,
            chars.len() == n,
            forall|k: int| 0 <= k < n ==> (#[trigger] chars@[k])@ == views[k],
            col_width == column_width(views),
            cols == column_count(width as nat, col_width as nat),
            rows == row_count(n as nat, cols as nat),
            rows <= n,
            spec_lines == layout(views, width as nat),
            r <= rows,
            lines@.map_values(|s: String| s@) == spec_lines.take(r as int),
        decreases rows - r,
    {
        let mut line: Vec<char> = Vec::new();
        let mut idx: usize = r;
        let mut c: usize = 0;
        while c < cols
            invariant_except_break
                line@ + row_cells(views, idx as int, rows as nat, (cols - c) as nat, col_width as nat)
                    == row_cells(views, r as int, rows as nat, cols as nat, col_width as nat),
            invariant
                n == names.len(),
                views.len() == n,
                chars.len() == n,
                forall|k: int| 0 <= k < n ==> (#[trigger] chars@[k])@ == views[k],
                r < rows,
                rows <= n,
                c <= cols,
                idx == r + c * rows,
            ensures
                line@ == row_cells(views, r as int, rows as nat, cols as nat, col_width as nat),
            decreases cols - c,
        {
            if idx < n {
                let ghost before = line@;
                append_padded_right(&mut line, &chars[idx], col_width);
                assert(before + row_cells(views, idx as int, rows as nat, (cols - c) as nat, col_width as nat)
                    =~= line@ + row_cells(views, idx + rows, rows as nat, (cols - c - 1) as nat, col_width as nat));
                if n - idx <= rows {
                    proof {
                        lemma_row_cells_past_end(views, idx + rows, rows as nat, (cols - c - 1) as nat, col_width as nat);
                        assert(line@ + Seq::<char>::empty() =~= line@);
                    }
                    break;
                }
            } else {
                proof {
                    lemma_row_cells_past_end(views, idx as int, rows as nat, (cols - c) as nat, col_width as nat);
                    assert(line@ + Seq::<char>::empty() =~= line@);
                }
                break;
            }
            idx = idx + rows;
            c = c + 1;
            proof {
                if c == cols {
                    assert(line@ + Seq::<char>::empty() =~= line@);
                }
            }
            assert(idx == r + c * rows) by (nonlinear_arith)
                requires
                    idx == r + (c - 1) * rows + rows,
            {
            }
        }
        let text = string_of(&line);
        let ghost before = lines@;
        lines.push(text);
        assert(lines@.map_values(|s: String| s@) =~= before.map_values(|s: String| s@).push(text@));
        assert(spec_lines.take(r as int).push(spec_lines[r as int]) =~= spec_lines.take(r + 1));
        r = r + 1;
    }
    assert(spec_lines.take(rows as int) =~= spec_lines);
    lines
}

} // verus!

verus! {

proof fn lemma_row_cells_len(
    names: Seq<Seq<char>>,
    idx: int,
    step: nat,
    cols_left: nat,
    col_width: nat,
)
    requires
        forall|k: int| 0 <= k < names.len() ==> (#[trigger] names[k]).len() < col_width,
    ensures
        row_cells(names, idx, step, cols_left, col_width).len() <= cols_left * col_width,
    decreases cols_left,
{
    if cols_left > 0 {
        lemma_row_cells_len(names, idx + step, step, (cols_left - 1) as nat, col_width);
        assert((cols_left - 1) * col_width + col_width == cols_left * col_width) by (nonlinear_arith);
    }
}

/// Every line of the layout fits the terminal width, unless a single
/// column is already wider than the terminal; then each line is one
/// column wide.
pub proof fn lemma_layout_fits_width(names: Seq<Seq<char>>, width: nat)
    ensures
        forall|r: int|
            0 <= r < layout(names, width).len() ==> (#[trigger] layout(names, width)[r]).len() <= (
            if column_width(names) <= width {
                width
            } else {
                column_width(names)
            }),
{
    let cw = column_width(names);
    let cols = column_count(width, cw);
    let rows = row_count(names.len(), cols);
    assert forall|k: int| 0 <= k < names.len() implies (#[trigger] names[k]).len() < cw by {
        lemma_max_byte_len_bounds(names, k);
        lemma_byte_len_at_least_chars(names[k]);
    }
    assert forall|r: int| 0 <= r < layout(names, width).len() implies (#[trigger] layout(
        names,
        width,
    )[r]).len() <= (if cw <= width {
        width
    } else {
        cw
    }) by {
        lemma_row_cells_len(names, r, rows, cols, cw);
        if cw <= width {
            assert(width / cw >= 1) by (nonlinear_arith)
                requires
                    cw <= width,
                    cw > 0,
            {
            }
            assert((width / cw) * cw <= width) by (nonlinear_arith)
                requires
                    cw > 0,
            {
            }
        } else {
            assert(width / cw == 0) by (nonlinear_arith)
                requires
                    width < cw,
            {
            }
        }
    }
}

/// Every name has a place in the layout: the name at position `k` is the
/// cell of row `k % rows` in column `k / rows`, and that column is one of
/// the layout's columns.
pub proof fn lemma_layout_places_every_name(names: Seq<Seq<char>>, width: nat, k: int)
    requires
        0 <= k < names.len(),
    ensures
        ({
            let cols = column_count(width, column_width(names));
            let rows = row_count(names.len(), cols);
            &&& rows > 0
            &&& k % (rows as int) < rows
            &&& k / (rows as int) < cols
            &&& (k / (rows as int)) * rows + k % (rows as int) == k
        }),
{
    let n = names.len();
    let cols = column_count(width, column_width(names));
    let rows = row_count(n, cols);
    assert(rows * cols >= n && rows > 0) by (nonlinear_arith)
        requires
            cols >= 1,
            n >= 1,
            rows == (if n % cols == 0 { n / cols } else { n / cols + 1 }),
    {
    }
    assert(k / (rows as int) < cols) by (nonlinear_arith)
        requires
            rows * cols >= n,
            0 <= k < n,
            rows > 0,
    {
    }
    assert((k / (rows as int)) * rows + k % (rows as int) == k) by (nonlinear_arith)
        requires
            rows > 0,
    {
    }
}

} // verus!
