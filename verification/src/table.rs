//! Output for people: left-aligned columns under a header.

use crate::text::{from_chars, is_space, to_chars, trim_end, trimmed_end};
use vstd::prelude::*;
use vstd::string::*;
use vstd::utf8::*;

verus! {

/// The texts of a row.
pub open spec fn row_view(row: Seq<String>) -> Seq<Seq<char>> {
    row.map_values(|s: String| s@)
}

/// The texts of all rows.
pub open spec fn rows_view(rows: Seq<Vec<String>>) -> Seq<Seq<Seq<char>>> {
    rows.map_values(|r: Vec<String>| row_view(r@))
}

/// The texts of the headers.
pub open spec fn header_view(headers: Seq<&str>) -> Seq<Seq<char>> {
    headers.map_values(|h: &str| h@)
}

/// Bytes a text takes.
pub open spec fn size(s: Seq<char>) -> nat {
    encode_utf8(s).len()
}

pub open spec fn larger(a: nat, b: nat) -> nat {
    if a > b {
        a
    } else {
        b
    }
}

/// The width of column `i`: that of its largest cell.
pub open spec fn width(headers: Seq<Seq<char>>, rows: Seq<Seq<Seq<char>>>, i: int) -> nat
    decreases rows.len(),
{
    if rows.len() == 0 {
        size(headers[i])
    } else {
        let rest = width(headers, rows.drop_last(), i);
        if i < rows.last().len() {
            larger(rest, size(rows.last()[i]))
        } else {
            rest
        }
    }
}

/// The widths of all columns.
pub open spec fn widths(headers: Seq<Seq<char>>, rows: Seq<Seq<Seq<char>>>) -> Seq<nat> {
    Seq::new(headers.len(), |i: int| width(headers, rows, i))
}

/// `n` spaces.
pub open spec fn spaces(n: nat) -> Seq<char> {
    Seq::new(n, |i: int| ' ')
}

/// A cell filled up with spaces to `w` characters.
pub open spec fn padded(cell: Seq<char>, w: nat) -> Seq<char> {
    if cell.len() < w {
        cell + spaces((w - cell.len()) as nat)
    } else {
        cell
    }
}

/// The first `k` cells, filled up, with two spaces between each two.
pub open spec fn cells_text(cells: Seq<Seq<char>>, ws: Seq<nat>, k: int) -> Seq<char>
    decreases k,
{
    if k <= 0 {
        Seq::empty()
    } else if k == 1 {
        padded(cells[0], ws[0])
    } else {
        cells_text(cells, ws, k - 1) + seq![' ', ' '] + padded(cells[k - 1], ws[k - 1])
    }
}

/// The number of cells of a row that are shown.
pub open spec fn shown_cells(cells: Seq<Seq<char>>, ws: Seq<nat>) -> int {
    if cells.len() < ws.len() {
        cells.len() as int
    } else {
        ws.len() as int
    }
}

/// A row as a line: nothing trails the last text.
pub open spec fn row_line(cells: Seq<Seq<char>>, ws: Seq<nat>) -> Seq<char> {
    trimmed_end(cells_text(cells, ws, shown_cells(cells, ws)))
}

/// The lines of the rows.
pub open spec fn row_lines(rows: Seq<Seq<Seq<char>>>, ws: Seq<nat>) -> Seq<char>
    decreases rows.len(),
{
    if rows.len() == 0 {
        Seq::empty()
    } else {
        row_lines(rows.drop_last(), ws) + row_line(rows.last(), ws).push('\n')
    }
}

/// A whole table.
pub open spec fn table(headers: Seq<Seq<char>>, rows: Seq<Seq<Seq<char>>>) -> Seq<char> {
    let ws = widths(headers, rows);
    row_line(headers, ws).push('\n') + row_lines(rows, ws)
}

fn byte_size(s: &str) -> (r: usize)
    ensures
        r == size(s@),
{
    s.as_bytes_vec().len()
}

/// The numbers of a list.
pub open spec fn nats(v: Seq<usize>) -> Seq<nat> {
    v.map_values(|n: usize| n as nat)
}

fn column_widths(headers: &[&str], rows: &[Vec<String>]) -> (r: Vec<usize>)
    ensures
        nats(r@) == widths(header_view(headers@), rows_view(rows@)),
{
    let ghost hs = header_view(headers@);
    let ghost all = rows_view(rows@);
    let mut out: Vec<usize> = Vec::new();
    let mut i: usize = 0;
    while i < headers.len()
        invariant
            i <= headers@.len(),
            hs == header_view(headers@),
            out@.len() == i,
            forall|j: int| 0 <= j < i ==> #[trigger] out@[j] == size(hs[j]),
        decreases headers@.len() - i,
    {
        assert(hs[i as int] == headers@[i as int]@);
        out.push(byte_size(headers[i]));
        i += 1;
    }
    assert(all.take(0) =~= Seq::<Seq<Seq<char>>>::empty());
    let mut r: usize = 0;
    while r < rows.len()
        invariant
            r <= rows@.len(),
            hs == header_view(headers@),
            all == rows_view(rows@),
            out@.len() == headers@.len(),
            forall|j: int|
                0 <= j < out@.len() ==> #[trigger] out@[j] == width(hs, all.take(r as int), j),
        decreases rows@.len() - r,
    {
        let row = &rows[r];
        let ghost cells = row_view(row@);
        assert(all[r as int] == cells);
        assert(all.take(r + 1).drop_last() =~= all.take(r as int));
        assert(all.take(r + 1).last() == cells);
        let mut c: usize = 0;
        while c < row.len() && c < out.len()
            invariant
                c <= row@.len(),
                c <= out@.len(),
                out@.len() == headers@.len(),
                r < rows@.len(),
                hs == header_view(headers@),
                all == rows_view(rows@),
                cells == row_view(row@),
                all.take(r + 1).drop_last() == all.take(r as int),
                all.take(r + 1).last() == cells,
                forall|j: int|
                    0 <= j < c ==> #[trigger] out@[j] == width(hs, all.take(r + 1), j),
                forall|j: int|
                    c <= j < out@.len() ==> #[trigger] out@[j] == width(hs, all.take(r as int), j),
            decreases row@.len() - c,
        {
            let n = byte_size(row[c].as_str());
            assert(cells[c as int] == row@[c as int]@);
            assert(out@[c as int] == width(hs, all.take(r as int), c as int));
            if n > out[c] {
                out.set(c, n);
            }
            c += 1;
        }
        assert forall|j: int| 0 <= j < out@.len() implies #[trigger] out@[j] == width(
            hs,
            all.take(r + 1),
            j,
        ) by {
            if j >= c {
                assert(j >= cells.len());
            }
        }
        r += 1;
    }
    assert(all.take(r as int) =~= all);
    assert(nats(out@) =~= widths(hs, all));
    out
}

fn pad_onto(out: &mut Vec<char>, cell: &str, w: usize)
    ensures
        final(out)@ == old(out)@ + padded(cell@, w as nat),
{
    let ghost before = out@;
    let mut cs = to_chars(cell);
    let n = cs.len();
    out.append(&mut cs);
    let mut k: usize = n;
    assert(out@ =~= before + cell@ + spaces(0));
    while k < w
        invariant
            n == cell@.len(),
            n <= k,
            k <= w || k == n,
            out@ == before + cell@ + spaces((k - n) as nat),
        decreases w - k,
    {
        out.push(' ');
        assert(out@ =~= before + cell@ + spaces((k + 1 - n) as nat));
        k += 1;
    }
    assert(out@ =~= before + padded(cell@, w as nat));
}

/// A finished line.
fn finish(line: &mut Vec<char>, out: &mut String)
    ensures
        final(out)@ == old(out)@ + trimmed_end(old(line)@).push('\n'),
{
    trim_end(line);
    out.append(from_chars(line).as_str());
    out.push('\n');
    assert(out@ =~= old(out)@ + trimmed_end(old(line)@).push('\n'));
}

fn separate(out: &mut Vec<char>, i: usize)
    ensures
        final(out)@ == old(out)@ + (if i > 0 {
            seq![' ', ' ']
        } else {
            Seq::empty()
        }),
{
    if i > 0 {
        out.push(' ');
        out.push(' ');
        assert(out@ =~= old(out)@ + seq![' ', ' ']);
    }
}

/// Lays out rows under a header. Columns are as wide as their largest cell.
pub fn render_table(headers: &[&str], rows: &[Vec<String>]) -> (r: String)
    ensures
        r@ == table(header_view(headers@), rows_view(rows@)),
{
    let ghost hs = header_view(headers@);
    let ghost all = rows_view(rows@);
    let ghost ws = widths(hs, all);
    let w = column_widths(headers, rows);
    assert(nats(w@).len() == w@.len() && ws.len() == headers@.len());
    let mut out = String::new();
    let mut line: Vec<char> = Vec::new();
    let mut i: usize = 0;
    while i < headers.len()
        invariant
            i <= headers@.len(),
            hs == header_view(headers@),
            w@.len() == headers@.len(),
            ws == nats(w@),
            line@ == cells_text(hs, ws, i as int),
        decreases headers@.len() - i,
    {
        let ghost before = line@;
        separate(&mut line, i);
        pad_onto(&mut line, headers[i], w[i]);
        assert(hs[i as int] == headers@[i as int]@);
        assert(ws[i as int] == w@[i as int]);
        assert(line@ =~= cells_text(hs, ws, i + 1));
        i += 1;
    }
    finish(&mut line, &mut out);
    assert(out@ =~= row_line(hs, ws).push('\n'));
    assert(all.take(0) =~= Seq::<Seq<Seq<char>>>::empty());
    assert(out@ =~= row_line(hs, ws).push('\n') + row_lines(all.take(0), ws));
    let mut r: usize = 0;
    while r < rows.len()
        invariant
            r <= rows@.len(),
            all == rows_view(rows@),
            ws == nats(w@),
            out@ == row_line(hs, ws).push('\n') + row_lines(all.take(r as int), ws),
        decreases rows@.len() - r,
    {
        let row = &rows[r];
        let ghost cells = row_view(row@);
        assert(all[r as int] == cells);
        let mut line: Vec<char> = Vec::new();
        let mut c: usize = 0;
        while c < row.len() && c < w.len()
            invariant
                c <= row@.len(),
                c <= w@.len(),
                cells == row_view(row@),
                ws == nats(w@),
                line@ == cells_text(cells, ws, c as int),
            decreases row@.len() - c,
        {
            separate(&mut line, c);
            pad_onto(&mut line, row[c].as_str(), w[c]);
            assert(cells[c as int] == row@[c as int]@);
            assert(ws[c as int] == w@[c as int]);
            assert(line@ =~= cells_text(cells, ws, c + 1));
            c += 1;
        }
        assert(c == shown_cells(cells, ws));
        finish(&mut line, &mut out);
        assert(all.take(r + 1).drop_last() =~= all.take(r as int));
        assert(all.take(r + 1).last() == cells);
        assert(out@ =~= row_line(hs, ws).push('\n') + row_lines(all.take(r + 1), ws));
        r += 1;
    }
    assert(all.take(r as int) =~= all);
    out
}

/// Where column `k` starts.
pub open spec fn column_start(ws: Seq<nat>, k: int) -> nat
    decreases k,
{
    if k <= 0 {
        0
    } else {
        column_start(ws, k - 1) + ws[k - 1] + 2
    }
}

proof fn text_fits_its_bytes(s: Seq<char>)
    ensures
        s.len() <= size(s),
    decreases s.len(),
{
    if s.len() > 0 {
        text_fits_its_bytes(s.drop_first());
        assert(encode_scalar(s[0] as u32).len() >= 1);
    }
}

proof fn filled_len(cells: Seq<Seq<char>>, ws: Seq<nat>, k: int)
    requires
        0 < k <= cells.len(),
        k <= ws.len(),
        forall|i: int| 0 <= i < k ==> (#[trigger] cells[i]).len() <= ws[i],
    ensures
        cells_text(cells, ws, k).len() + 2 == column_start(ws, k),
    decreases k,
{
    assert(cells[k - 1].len() <= ws[k - 1]);
    if k > 1 {
        filled_len(cells, ws, k - 1);
    } else {
        assert(column_start(ws, 0) == 0);
    }
}

/// Columns line up: in the header and in every row, what comes before column `k`
/// takes the same number of characters.
pub proof fn columns_line_up(
    headers: Seq<Seq<char>>,
    rows: Seq<Seq<Seq<char>>>,
    r: int,
    k: int,
)
    requires
        0 <= r < rows.len(),
        0 < k <= headers.len(),
        k <= rows[r].len(),
    ensures
        ({
            let ws = widths(headers, rows);
            &&& cells_text(rows[r], ws, k).len() + 2 == column_start(ws, k)
            &&& cells_text(headers, ws, k).len() + 2 == column_start(ws, k)
        }),
{
    let ws = widths(headers, rows);
    let cells = rows[r];
    assert forall|i: int| 0 <= i < k implies (#[trigger] cells[i]).len() <= ws[i] by {
        cells_fit_their_columns(headers, rows, r, i);
        text_fits_its_bytes(cells[i]);
    }
    assert forall|i: int| 0 <= i < k implies (#[trigger] headers[i]).len() <= ws[i] by {
        cells_fit_their_columns(headers, rows, r, i);
        text_fits_its_bytes(headers[i]);
    }
    filled_len(cells, ws, k);
    filled_len(headers, ws, k);
}

/// No cell is larger than its column.
pub proof fn cells_fit_their_columns(
    headers: Seq<Seq<char>>,
    rows: Seq<Seq<Seq<char>>>,
    r: int,
    i: int,
)
    requires
        0 <= r < rows.len(),
        0 <= i < headers.len(),
        i < rows[r].len(),
    ensures
        size(rows[r][i]) <= widths(headers, rows)[i],
        size(headers[i]) <= widths(headers, rows)[i],
    decreases rows.len(),
{
    let rest = rows.drop_last();
    if r < rest.len() {
        assert(rest[r] == rows[r]);
        cells_fit_their_columns(headers, rest, r, i);
    } else {
        header_fits(headers, rest, i);
    }
}

proof fn header_fits(headers: Seq<Seq<char>>, rows: Seq<Seq<Seq<char>>>, i: int)
    ensures
        size(headers[i]) <= width(headers, rows, i),
    decreases rows.len(),
{
    if rows.len() > 0 {
        header_fits(headers, rows.drop_last(), i);
    }
}

/// Every cell is shown whole, where its column starts.
pub proof fn cells_are_shown_whole(
    headers: Seq<Seq<char>>,
    rows: Seq<Seq<Seq<char>>>,
    r: int,
    k: int,
)
    requires
        0 <= r < rows.len(),
        0 < k <= headers.len(),
        k <= rows[r].len(),
    ensures
        ({
            let ws = widths(headers, rows);
            let text = cells_text(rows[r], ws, k);
            let at = column_start(ws, k - 1) as int;
            let cell = rows[r][k - 1];
            at + cell.len() <= text.len() && text.subrange(at, at + cell.len()) == cell
        }),
{
    let ws = widths(headers, rows);
    let cells = rows[r];
    let cell = cells[k - 1];
    let text = cells_text(cells, ws, k);
    let at = column_start(ws, k - 1) as int;
    if k > 1 {
        columns_line_up(headers, rows, r, k - 1);
        let front = cells_text(cells, ws, k - 1) + seq![' ', ' '];
        assert(front.len() == at);
        assert(text =~= front + padded(cell, ws[k - 1]));
    }
    assert(text.subrange(at, at + cell.len()) =~= cell);
}

/// A table has its header first and then its rows, a line each.
pub proof fn rows_come_in_order(
    headers: Seq<Seq<char>>,
    rows: Seq<Seq<Seq<char>>>,
    ws: Seq<nat>,
    row: Seq<Seq<char>>,
)
    ensures
        table(headers, rows) == row_line(headers, widths(headers, rows)).push('\n') + row_lines(
            rows,
            widths(headers, rows),
        ),
        row_lines(rows.push(row), ws) == row_lines(rows, ws) + row_line(row, ws).push('\n'),
        row_lines(Seq::<Seq<Seq<char>>>::empty(), ws) == Seq::<char>::empty(),
{
    assert(rows.push(row).drop_last() =~= rows);
}

/// Whatever stands in a row is a character of a cell, at its place, or a blank.
pub proof fn only_blanks_between_cells(cells: Seq<Seq<char>>, ws: Seq<nat>, k: int, i: int) -> (c:
    int)
    requires
        0 < k <= cells.len(),
        k <= ws.len(),
        forall|j: int| 0 <= j < k ==> (#[trigger] cells[j]).len() <= ws[j],
        0 <= i < cells_text(cells, ws, k).len(),
    ensures
        cells_text(cells, ws, k)[i] == ' ' || (0 <= c < k && column_start(ws, c) <= i < column_start(
            ws,
            c,
        ) + cells[c].len() && cells_text(cells, ws, k)[i] == cells[c][i - column_start(ws, c)]),
    decreases k,
{
    let text = cells_text(cells, ws, k);
    let cell = cells[k - 1];
    let at = column_start(ws, k - 1) as int;
    assert(cell.len() <= ws[k - 1]);
    if k == 1 {
        assert(column_start(ws, 0) == 0);
        k - 1
    } else {
        filled_len(cells, ws, k - 1);
        let front = cells_text(cells, ws, k - 1);
        assert(front.len() + 2 == at);
        assert(text =~= front + seq![' ', ' '] + padded(cell, ws[k - 1]));
        if i < front.len() {
            assert(text[i] == front[i]);
            only_blanks_between_cells(cells, ws, k - 1, i)
        } else if i < at {
            assert(text[i] == ' ');
            k - 1
        } else {
            assert(text[i] == padded(cell, ws[k - 1])[i - at]);
            k - 1
        }
    }
}

/// A column is as wide as its widest cell, header counted, and no wider.
pub proof fn column_is_as_wide_as_needed(
    headers: Seq<Seq<char>>,
    rows: Seq<Seq<Seq<char>>>,
    i: int,
) -> (r: int)
    requires
        0 <= i < headers.len(),
    ensures
        widths(headers, rows).len() == headers.len(),
        widths(headers, rows)[i] == size(headers[i]) || (0 <= r < rows.len() && i < rows[r].len()
            && widths(headers, rows)[i] == size(rows[r][i])),
    decreases rows.len(),
{
    if rows.len() == 0 {
        0
    } else {
        let rest = rows.drop_last();
        let r = column_is_as_wide_as_needed(headers, rest, i);
        if 0 <= r < rest.len() {
            assert(rest[r] == rows[r]);
        }
        if i < rows.last().len() && width(headers, rows, i) == size(rows.last()[i]) {
            rows.len() - 1
        } else {
            r
        }
    }
}

/// A line has all cells that have a column, without the blanks behind the last text.
pub proof fn line_ends_with_its_text(cells: Seq<Seq<char>>, ws: Seq<nat>, n: int, i: int)
    requires
        n == cells.len() && n <= ws.len() || n == ws.len() && n <= cells.len(),
    ensures
        row_line(cells, ws).is_prefix_of(cells_text(cells, ws, n)),
        row_line(cells, ws).len() <= i < cells_text(cells, ws, n).len() ==> is_space(
            cells_text(cells, ws, n)[i],
        ),
        row_line(cells, ws).len() > 0 ==> !is_space(row_line(cells, ws).last()),
{
    cut_at_the_end(cells_text(cells, ws, n), i);
}

proof fn cut_at_the_end(s: Seq<char>, i: int)
    ensures
        trimmed_end(s).is_prefix_of(s),
        trimmed_end(s).len() <= i < s.len() ==> is_space(s[i]),
        trimmed_end(s).len() > 0 ==> !is_space(trimmed_end(s).last()),
    decreases s.len(),
{
    if s.len() > 0 && is_space(s.last()) {
        let front = s.drop_last();
        cut_at_the_end(front, i);
        let t = trimmed_end(front);
        assert(s.subrange(0, t.len() as int) =~= front.subrange(0, t.len() as int));
    } else {
        assert(s.subrange(0, s.len() as int) =~= s);
    }
}

/// A table is its header and its rows, a line each.
pub proof fn table_is_rendered(headers: &[&str], rows: &[Vec<String>], r: String)
    requires
        call_ensures(render_table, (headers, rows), r),
    ensures
        ({
            let hs = headers@.map_values(|h: &str| h@);
            let all = rows@.map_values(|row: Vec<String>| row@.map_values(|s: String| s@));
            r@ == row_line(hs, widths(hs, all)).push('\n') + row_lines(all, widths(hs, all))
        }),
{
    let hs = headers@.map_values(|h: &str| h@);
    let all = rows@.map_values(|row: Vec<String>| row@.map_values(|s: String| s@));
    assert(hs =~= header_view(headers@));
    assert(all =~= rows_view(rows@)) by {
        assert forall|i: int| 0 <= i < all.len() implies all[i] == rows_view(rows@)[i] by {
            assert(all[i] =~= row_view(rows@[i]@));
        }
    }
}

} // verus!
