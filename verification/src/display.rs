//! Text layout of matrices and tensors on screen. A matrix shows a header,
//! a pair of brackets around each row, and every cell right-aligned to the
//! width of its column; a tensor shows a header and its elements in
//! brackets nested one level per axis. Formatting the elements themselves
//! and colouring them is left to the caller; this module arranges the
//! texts it is given.
use vstd::prelude::*;
use vstd::utf8::is_ascii_chars;

use crate::error::{decimal_text, list_text, push_decimal, push_list};
use crate::shape::{dims_fit, dims_product, lemma_suffix_product_step, lemma_whole_shape, strides_of};
use crate::matrix::lemma_cell_index;
use crate::tensor::Tensor;

verus! {

/// The texts of a sequence of strings.
pub open spec fn cell_texts(cells: Seq<String>) -> Seq<Seq<char>> {
    cells.map_values(|c: String| c@)
}

/// The length of the longest text among the first `m` cells of column `j`
/// of a row-major grid with `cols` columns (0 when `m` is 0).
pub open spec fn longest_in_column(cells: Seq<Seq<char>>, cols: nat, j: nat, m: nat) -> nat
    decreases m,
{
    if m == 0 {
        0
    } else {
        let w = cells[(m - 1) * cols + j].len();
        let p = longest_in_column(cells, cols, j, (m - 1) as nat);
        if w > p {
            w
        } else {
            p
        }
    }
}

/// A row among the first `m` whose text in column `j` is a longest one
/// (the first such row; 0 when `m` is 0).
pub open spec fn widest_row(cells: Seq<Seq<char>>, cols: nat, j: int, m: nat) -> nat
    decreases m,
{
    if m <= 1 {
        0
    } else {
        let r = widest_row(cells, cols, j, (m - 1) as nat);
        if cells[(m - 1) * cols + j].len() > cells[(r * cols + j) as int].len() {
            (m - 1) as nat
        } else {
            r
        }
    }
}

/// The width of column `j` of a `rows x cols` grid of texts: the length of
/// its longest text.
pub open spec fn column_width(cells: Seq<Seq<char>>, rows: nat, cols: nat, j: nat) -> nat {
    longest_in_column(cells, cols, j, rows)
}

/// A column is as wide as its longest text: no text of column `j` is longer
/// than `column_width`, and, unless the grid has no rows (width 0), the
/// text in row `widest_row` of the column, a row of the grid, has exactly
/// that length.
pub proof fn lemma_column_width_is_longest(cells: Seq<Seq<char>>, rows: nat, cols: nat, j: nat)
    ensures
        forall|i: int| 0 <= i < rows ==> column_width(cells, rows, cols, j) >= #[trigger] cells[i * cols + j].len(),
        rows == 0 ==> column_width(cells, rows, cols, j) == 0,
        rows > 0 ==> widest_row(cells, cols, j as int, rows) < rows,
        rows > 0 ==> column_width(cells, rows, cols, j) == cells[(widest_row(cells, cols, j as int, rows) * cols + j) as int].len(),
    decreases rows,
{
    if rows == 1 {
        assert(0 * cols + j == j);
        assert(column_width(cells, rows, cols, j) == longest_in_column(cells, cols, j, rows));
        assert(longest_in_column(cells, cols, j, 0) == 0);
    } else if rows > 1 {
        let r = (rows - 1) as nat;
        lemma_column_width_is_longest(cells, r, cols, j);
        assert(longest_in_column(cells, cols, j, r) == column_width(cells, r, cols, j));
        assert(column_width(cells, rows, cols, j) == longest_in_column(cells, cols, j, rows));
        assert forall|i: int| 0 <= i < rows implies column_width(cells, rows, cols, j) >= #[trigger] cells[i * cols + j].len() by {
            if i < r {
                assert(column_width(cells, r, cols, j) >= cells[i * cols + j].len());
            }
        }
    }
}

/// `s` right-aligned in a field of width `w`: spaces in front of it up to
/// width `w`, or `s` itself when it is already that long.
pub open spec fn pad_left(s: Seq<char>, w: nat) -> Seq<char> {
    if s.len() < w {
        Seq::new((w - s.len()) as nat, |q: int| ' ') + s
    } else {
        s
    }
}

/// The opening bracket of row `i` of a matrix with `rows` rows: square
/// for a single row, otherwise the upper corner for the first row, the
/// lower corner for the last and a bar in between.
pub open spec fn left_bracket(rows: nat, i: nat) -> Seq<char> {
    if rows == 1 {
        "[ "@
    } else if i == 0 {
        "┌ "@
    } else if i == rows - 1 {
        "└ "@
    } else {
        "│ "@
    }
}

/// The closing bracket of row `i`, mirroring `left_bracket`.
pub open spec fn right_bracket(rows: nat, i: nat) -> Seq<char> {
    if rows == 1 {
        " ]"@
    } else if i == 0 {
        " ┐"@
    } else if i == rows - 1 {
        " ┘"@
    } else {
        " │"@
    }
}

/// The header line of a matrix: `Matrix (rows×cols)`.
pub open spec fn header_text(rows: nat, cols: nat) -> Seq<char> {
    "Matrix ("@ + decimal_text(rows) + "×"@ + decimal_text(cols) + ")"@
}

/// The header line of a `rows x cols` matrix.
pub fn header(rows: usize, cols: usize) -> (s: String)
    ensures
        s@ == header_text(rows as nat, cols as nat),
{
    let mut s = String::new();
    s.append("Matrix (");
    push_decimal(&mut s, rows);
    s.append("×");
    push_decimal(&mut s, cols);
    s.append(")");
    s
}

/// The brackets around row `i` of a matrix with `rows` rows.
pub fn row_brackets(rows: usize, i: usize) -> (b: (&'static str, &'static str))
    requires
        i < rows,
    ensures
        b.0@ == left_bracket(rows as nat, i as nat),
        b.1@ == right_bracket(rows as nat, i as nat),
        rows == 1 ==> b.0@ == "[ "@ && b.1@ == " ]"@,
        rows >= 2 && i == 0 ==> b.0@ == "┌ "@ && b.1@ == " ┐"@,
        rows >= 2 && i == rows - 1 ==> b.0@ == "└ "@ && b.1@ == " ┘"@,
        rows >= 2 && 0 < i < rows - 1 ==> b.0@ == "│ "@ && b.1@ == " │"@,
{
    if rows == 1 {
        ("[ ", " ]")
    } else if i == 0 {
        ("┌ ", " ┐")
    } else if i == rows - 1 {
        ("└ ", " ┘")
    } else {
        ("│ ", " │")
    }
}

/// The width of every column of a `rows x cols` grid of ASCII texts in
/// row-major order.
pub fn column_widths(rows: usize, cols: usize, cells: &[String]) -> (w: Vec<usize>)
    requires
        rows * cols == cells@.len(),
        forall|k: int| 0 <= k < cells@.len() ==> is_ascii_chars(#[trigger] cells@[k]@),
    ensures
        w@.len() == cols,
        forall|j: int| 0 <= j < cols ==> #[trigger] w@[j] == column_width(cell_texts(cells@), rows as nat, cols as nat, j as nat),
        forall|i: int, j: int| 0 <= i < rows && 0 <= j < cols ==> w@[j] >= #[trigger] cells@[i * cols + j]@.len(),
        rows == 0 ==> forall|j: int| 0 <= j < cols ==> #[trigger] w@[j] == 0,
        rows > 0 ==> forall|j: int|
            #![trigger widest_row(cell_texts(cells@), cols as nat, j, rows as nat)]
            0 <= j < cols ==> widest_row(cell_texts(cells@), cols as nat, j, rows as nat) < rows
                && w@[j] == cells@[widest_row(cell_texts(cells@), cols as nat, j, rows as nat) * cols + j]@.len(),
{
    let ghost texts = cell_texts(cells@);
    let total = cells.len();
    let mut w: Vec<usize> = Vec::with_capacity(cols);
    let mut j: usize = 0;
    while j < cols
        invariant
            j <= cols,
            rows * cols == cells@.len(),
            total == cells@.len(),
            texts == cell_texts(cells@),
            forall|k: int| 0 <= k < cells@.len() ==> is_ascii_chars(#[trigger] cells@[k]@),
            w@.len() == j,
            forall|q: int| 0 <= q < j ==> #[trigger] w@[q] == column_width(texts, rows as nat, cols as nat, q as nat),
        decreases cols - j,
    {
        let mut best: usize = 0;
        let mut i: usize = 0;
        while i < rows
            invariant
                i <= rows,
                j < cols,
                rows * cols == cells@.len(),
                total == cells@.len(),
                texts == cell_texts(cells@),
                forall|k: int| 0 <= k < cells@.len() ==> is_ascii_chars(#[trigger] cells@[k]@),
                best == longest_in_column(texts, cols as nat, j as nat, i as nat),
            decreases rows - i,
        {
            proof {
                lemma_cell_index(i as int, j as int, rows as int, cols as int);
            }
            let k = i * cols + j;
            let cell = cells[k].as_str();
            proof {
                assert(is_ascii_chars(cells@[k as int]@));
                vstd::string::is_ascii_spec_bytes(cell);
            }
            let len = cell.as_bytes().len();
            assert(len == texts[k as int].len());
            if len > best {
                best = len;
            }
            i = i + 1;
        }
        w.push(best);
        j = j + 1;
    }
    proof {
        assert forall|i: int, j: int| 0 <= i < rows && 0 <= j < cols implies w@[j] >= #[trigger] cells@[i * cols + j]@.len() by {
            lemma_column_width_is_longest(texts, rows as nat, cols as nat, j as nat);
            lemma_cell_index(i, j, rows as int, cols as int);
            assert(texts[i * cols + j] == cells@[i * cols + j]@);
            assert(column_width(texts, rows as nat, cols as nat, j as nat) >= texts[i * cols + j].len());
        }
        if rows == 0 {
            assert forall|j: int| 0 <= j < cols implies #[trigger] w@[j] == 0 by {
                lemma_column_width_is_longest(texts, rows as nat, cols as nat, j as nat);
            }
        } else {
            lemma_widths_reach_a_cell(w@, cells@, rows as nat, cols as nat);
        }
    }
    w
}

/// Widths equal to `column_width` are reached: each is the length of the
/// text in row `widest_row` of its column.
proof fn lemma_widths_reach_a_cell(w: Seq<usize>, cells: Seq<String>, rows: nat, cols: nat)
    requires
        w.len() == cols,
        rows * cols == cells.len(),
        forall|j: int| 0 <= j < cols ==> #[trigger] w[j] == column_width(cell_texts(cells), rows, cols, j as nat),
    ensures
        rows > 0 ==> forall|j: int|
            #![trigger widest_row(cell_texts(cells), cols, j, rows)]
            0 <= j < cols ==> widest_row(cell_texts(cells), cols, j, rows) < rows
                && w[j] == cells[widest_row(cell_texts(cells), cols, j, rows) * cols + j]@.len(),
{
    if rows > 0 {
        assert forall|j: int|
            #![trigger widest_row(cell_texts(cells), cols, j, rows)]
            0 <= j < cols implies widest_row(cell_texts(cells), cols, j, rows) < rows
            && w[j] == cells[widest_row(cell_texts(cells), cols, j, rows) * cols + j]@.len() by {
            let texts = cell_texts(cells);
            lemma_column_width_is_longest(texts, rows, cols, j as nat);
            let i0 = widest_row(texts, cols, j, rows) as int;
            lemma_cell_index(i0, j, rows as int, cols as int);
            assert(texts[i0 * cols + j] == cells[i0 * cols + j]@);
        }
    }
}

/// `s` right-aligned in a field of width `w`.
fn pad_cell(s: &String, w: usize) -> (r: String)
    requires
        is_ascii_chars(s@),
    ensures
        r@ == pad_left(s@, w as nat),
{
    let text = s.as_str();
    proof {
        vstd::string::is_ascii_spec_bytes(text);
    }
    let n = text.as_bytes().len();
    assert(n == s@.len());
    let mut r = String::new();
    if n < w {
        let mut c: usize = 0;
        while c < w - n
            invariant
                n < w,
                c <= w - n,
                r@ == Seq::new(c as nat, |q: int| ' '),
            decreases w - n - c,
        {
            proof {
                reveal_strlit(" ");
            }
            r.append(" ");
            c = c + 1;
            assert(r@ =~= Seq::new(c as nat, |q: int| ' '));
        }
    }
    r.append(text);
    assert(r@ =~= pad_left(s@, w as nat));
    r
}

/// The cells of a `rows x cols` grid of ASCII texts in row-major order,
/// each right-aligned to the width of its column, so that the columns
/// line up when the rows are printed one under the other.
pub fn display_cells(rows: usize, cols: usize, cells: &[String]) -> (padded: Vec<String>)
    requires
        rows * cols == cells@.len(),
        forall|k: int| 0 <= k < cells@.len() ==> is_ascii_chars(#[trigger] cells@[k]@),
    ensures
        padded@.len() == cells@.len(),
        forall|k: int|
            0 <= k < cells@.len() ==> #[trigger] padded@[k]@ == pad_left(
                cells@[k]@,
                column_width(cell_texts(cells@), rows as nat, cols as nat, (k % cols as int) as nat),
            ),
        forall|k: int|
            0 <= k < cells@.len() ==> {
                &&& (#[trigger] padded@[k])@.len() >= cells@[k]@.len()
                &&& padded@[k]@.subrange(padded@[k]@.len() - cells@[k]@.len(), padded@[k]@.len() as int) == cells@[k]@
                &&& forall|q: int| 0 <= q < padded@[k]@.len() - cells@[k]@.len() ==> padded@[k]@[q] == ' '
            },
        forall|k1: int, k2: int|
            0 <= k1 < cells@.len() && 0 <= k2 < cells@.len() && k1 % (cols as int) == k2 % (cols as int)
                ==> (#[trigger] padded@[k1])@.len() == (#[trigger] padded@[k2])@.len(),
        forall|k: int|
            0 <= k < cells@.len() ==> widest_row(cell_texts(cells@), cols as nat, k % (cols as int), rows as nat) < rows
                && (#[trigger] padded@[k])@.len() == cells@[widest_row(cell_texts(cells@), cols as nat, k % (cols as int), rows as nat) * cols + k % (cols as int)]@.len(),
{
    let widths = column_widths(rows, cols, cells);
    let n = cells.len();
    let mut padded: Vec<String> = Vec::with_capacity(n);
    let mut k: usize = 0;
    while k < n
        invariant
            k <= n,
            n == cells@.len(),
            rows * cols == n,
            widths@.len() == cols,
            forall|j: int| 0 <= j < cols ==> #[trigger] widths@[j] == column_width(cell_texts(cells@), rows as nat, cols as nat, j as nat),
            forall|q: int| 0 <= q < cells@.len() ==> is_ascii_chars(#[trigger] cells@[q]@),
            padded@.len() == k,
            forall|q: int|
                0 <= q < k ==> #[trigger] padded@[q]@ == pad_left(
                    cells@[q]@,
                    column_width(cell_texts(cells@), rows as nat, cols as nat, (q % cols as int) as nat),
                ),
        decreases n - k,
    {
        assert(cols > 0) by (nonlinear_arith)
            requires
                rows * cols == n,
                k < n,
        ;
        let j = k % cols;
        let cell = pad_cell(&cells[k], widths[j]);
        padded.push(cell);
        k = k + 1;
    }
    proof {
        let texts = cell_texts(cells@);
        assert forall|k: int| 0 <= k < cells@.len() implies {
            &&& widest_row(texts, cols as nat, k % (cols as int), rows as nat) < rows
            &&& (#[trigger] padded@[k])@.len() == column_width(texts, rows as nat, cols as nat, (k % cols as int) as nat)
            &&& padded@[k]@.len() == cells@[widest_row(texts, cols as nat, k % (cols as int), rows as nat) * cols + k % (cols as int)]@.len()
            &&& padded@[k]@.len() >= cells@[k]@.len()
            &&& padded@[k]@.subrange(padded@[k]@.len() - cells@[k]@.len(), padded@[k]@.len() as int) == cells@[k]@
            &&& forall|q: int| 0 <= q < padded@[k]@.len() - cells@[k]@.len() ==> padded@[k]@[q] == ' '
        } by {
            assert(cols > 0) by (nonlinear_arith)
                requires
                    rows * cols == n,
                    0 <= k < n,
            ;
            crate::matrix::lemma_cell_of_offset(k, rows as int, cols as int);
            let i = k / (cols as int);
            let j = k % (cols as int);
            lemma_column_width_is_longest(texts, rows as nat, cols as nat, j as nat);
            assert(texts[i * cols + j] == cells@[k]@);
            let cw = column_width(texts, rows as nat, cols as nat, j as nat);
            assert(cw >= cells@[k]@.len());
            let i0 = widest_row(texts, cols as nat, j, rows as nat) as int;
            lemma_cell_index(i0, j, rows as int, cols as int);
            assert(texts[i0 * cols + j] == cells@[i0 * cols + j]@);
            let c = cells@[k]@;
            let p = padded@[k]@;
            assert(p == pad_left(c, cw));
            if c.len() < cw {
                assert(p =~= Seq::new((cw - c.len()) as nat, |q: int| ' ') + c);
                assert(p.subrange(p.len() - c.len(), p.len() as int) =~= c);
            } else {
                assert(p.subrange(p.len() - c.len(), p.len() as int) =~= c);
            }
        }
    }
    padded
}


/// `n` spaces.
pub open spec fn spaces(n: nat) -> Seq<char> {
    Seq::new(n, |q: int| ' ')
}

/// The first `c` elements along the last axis `m`, starting at `off`,
/// separated by `", "`.
pub open spec fn flat_items(st: Seq<usize>, m: nat, off: nat, cells: Seq<Seq<char>>, c: nat) -> Seq<char>
    decreases c,
{
    if c == 0 {
        Seq::empty()
    } else if c == 1 {
        cells[off as int]
    } else {
        flat_items(st, m, off, cells, (c - 1) as nat) + ", "@ + cells[off + (c - 1) * st[m as int]]
    }
}

/// The text of the part of a tensor of shape `s` and strides `st` that
/// starts at axis `m` and flat offset `off`, indented by `indent`: the
/// element itself past the last axis; the elements in one pair of
/// brackets on the last axis; otherwise one line per index of axis `m`,
/// each indented two more and holding the part one axis deeper, between
/// brackets on lines of their own.
pub open spec fn nested_text(
    s: Seq<usize>,
    st: Seq<usize>,
    m: nat,
    off: nat,
    indent: nat,
    cells: Seq<Seq<char>>,
) -> Seq<char>
    decreases s.len() - m, 1int, 0int,
{
    if m >= s.len() {
        cells[off as int]
    } else if m + 1 == s.len() {
        "["@ + flat_items(st, m, off, cells, s[m as int] as nat) + "]"@
    } else {
        "[\n"@ + block_items(s, st, m, off, indent, cells, s[m as int] as nat) + spaces(indent) + "]"@
    }
}

/// The first `c` lines of the block that `nested_text` writes for axis
/// `m`: each is indented by `indent + 2`, holds the part one axis deeper
/// at its index, and ends with `",\n"`, or with `"\n"` on the last index.
pub open spec fn block_items(
    s: Seq<usize>,
    st: Seq<usize>,
    m: nat,
    off: nat,
    indent: nat,
    cells: Seq<Seq<char>>,
    c: nat,
) -> Seq<char>
    decreases s.len() - m, 0int, c,
{
    if c == 0 || m >= s.len() {
        Seq::empty()
    } else {
        block_items(s, st, m, off, indent, cells, (c - 1) as nat) + spaces(indent + 2) + nested_text(
            s,
            st,
            m + 1,
            (off + (c - 1) * st[m as int]) as nat,
            indent + 2,
            cells,
        ) + if c < s[m as int] {
            ",\n"@
        } else {
            "\n"@
        }
    }
}

/// The first `c` elements along the last axis, as `flat_items` writes them,
/// are the concatenation of one piece per index: the first element's text,
/// then `", "` and the text of each further element.
proof fn lemma_flat_items_pieces(st: Seq<usize>, m: nat, off: nat, cells: Seq<Seq<char>>, c: nat)
    ensures
        flat_items(st, m, off, cells, c) == Seq::new(
            c,
            |i: int|
                if i == 0 {
                    cells[off as int]
                } else {
                    ", "@ + cells[off + i * st[m as int]]
                },
        ).flatten_alt(),
    decreases c,
{
    let f = |i: int|
        if i == 0 {
            cells[off as int]
        } else {
            ", "@ + cells[off + i * st[m as int]]
        };
    if c == 0 {
        assert(Seq::new(c, f).flatten_alt() =~= Seq::<char>::empty());
    } else {
        lemma_flat_items_pieces(st, m, off, cells, (c - 1) as nat);
        let whole = Seq::new(c, f);
        assert(whole.drop_last() =~= Seq::new((c - 1) as nat, f));
        assert(whole.last() == f(c - 1));
        if c == 1 {
            assert(Seq::new(0, f).flatten_alt() =~= Seq::<char>::empty());
            assert(whole.flatten_alt() =~= cells[off as int]);
        } else {
            let prev = flat_items(st, m, off, cells, (c - 1) as nat);
            assert(flat_items(st, m, off, cells, c) =~= prev + (", "@ + cells[off + (c - 1) * st[m as int]]));
        }
    }
}

/// The first `c` lines of the block for axis `m`, as `block_items` writes
/// them, are the concatenation of one line per index `i < c`: the
/// indentation, the part one axis deeper, and `",\n"` unless `i` is the last
/// index of the axis, where it is `"\n"`.
proof fn lemma_block_items_lines(
    s: Seq<usize>,
    st: Seq<usize>,
    m: nat,
    off: nat,
    indent: nat,
    cells: Seq<Seq<char>>,
    c: nat,
)
    requires
        m < s.len(),
    ensures
        block_items(s, st, m, off, indent, cells, c) == Seq::new(
            c,
            |i: int|
                Seq::new((indent + 2) as nat, |q: int| ' ') + nested_text(
                    s,
                    st,
                    m + 1,
                    (off + i * st[m as int]) as nat,
                    indent + 2,
                    cells,
                ) + if i < s[m as int] - 1 {
                    ",\n"@
                } else {
                    "\n"@
                },
        ).flatten_alt(),
    decreases c,
{
    let f = |i: int|
        Seq::new((indent + 2) as nat, |q: int| ' ') + nested_text(
            s,
            st,
            m + 1,
            (off + i * st[m as int]) as nat,
            indent + 2,
            cells,
        ) + if i < s[m as int] - 1 {
            ",\n"@
        } else {
            "\n"@
        };
    if c == 0 {
        assert(Seq::new(c, f).flatten_alt() =~= Seq::<char>::empty());
    } else {
        lemma_block_items_lines(s, st, m, off, indent, cells, (c - 1) as nat);
        let whole = Seq::new(c, f);
        assert(whole.drop_last() =~= Seq::new((c - 1) as nat, f));
        assert(spaces(indent + 2) =~= Seq::new((indent + 2) as nat, |q: int| ' '));
        let prev = block_items(s, st, m, off, indent, cells, (c - 1) as nat);
        assert(block_items(s, st, m, off, indent, cells, c) =~= prev + f(c - 1));
    }
}

/// How a tensor is laid out, one level at a time. Past the last axis the
/// text is the element's own. On the last axis it is `"["`, the texts of
/// the elements along the axis with `", "` between each two, and `"]"`. On
/// any other axis, of dimension `d`, it is `"[\n"`, then one line for each
/// index `i < d` (indented by `indent + 2`, holding the part one axis
/// deeper at offset `off + i * st[m]`, and ending with `",\n"` when
/// `i < d - 1` and with `"\n"` on the last index), then `indent` spaces and
/// `"]"`.
pub proof fn lemma_nested_text_levels(
    s: Seq<usize>,
    st: Seq<usize>,
    m: nat,
    off: nat,
    indent: nat,
    cells: Seq<Seq<char>>,
)
    ensures
        m >= s.len() ==> nested_text(s, st, m, off, indent, cells) == cells[off as int],
        m + 1 == s.len() ==> nested_text(s, st, m, off, indent, cells) == "["@ + Seq::new(
            s[m as int] as nat,
            |i: int|
                if i == 0 {
                    cells[off as int]
                } else {
                    ", "@ + cells[off + i * st[m as int]]
                },
        ).flatten() + "]"@,
        m + 1 < s.len() ==> nested_text(s, st, m, off, indent, cells) == "[\n"@ + Seq::new(
            s[m as int] as nat,
            |i: int|
                Seq::new((indent + 2) as nat, |q: int| ' ') + nested_text(
                    s,
                    st,
                    m + 1,
                    (off + i * st[m as int]) as nat,
                    indent + 2,
                    cells,
                ) + if i < s[m as int] - 1 {
                    ",\n"@
                } else {
                    "\n"@
                },
        ).flatten() + Seq::new(indent, |q: int| ' ') + "]"@,
{
    if m + 1 == s.len() {
        let d = s[m as int] as nat;
        lemma_flat_items_pieces(st, m, off, cells, d);
        let pieces = Seq::new(
            d,
            |i: int|
                if i == 0 {
                    cells[off as int]
                } else {
                    ", "@ + cells[off + i * st[m as int]]
                },
        );
        pieces.lemma_flatten_and_flatten_alt_are_equivalent();
    } else if m + 1 < s.len() {
        let d = s[m as int] as nat;
        lemma_block_items_lines(s, st, m, off, indent, cells, d);
        let lines = Seq::new(
            d,
            |i: int|
                Seq::new((indent + 2) as nat, |q: int| ' ') + nested_text(
                    s,
                    st,
                    m + 1,
                    (off + i * st[m as int]) as nat,
                    indent + 2,
                    cells,
                ) + if i < s[m as int] - 1 {
                    ",\n"@
                } else {
                    "\n"@
                },
        );
        lines.lemma_flatten_and_flatten_alt_are_equivalent();
        assert(spaces(indent) =~= Seq::new(indent, |q: int| ' '));
    }
}

/// The header line of a tensor: `Tensor [d0, d1, ...]`.
pub open spec fn tensor_header_text(shape: Seq<usize>) -> Seq<char> {
    "Tensor "@ + list_text(shape)
}

/// The header line of a tensor of the given shape.
pub fn tensor_header(shape: &[usize]) -> (s: String)
    ensures
        s@ == tensor_header_text(shape@),
{
    let mut s = String::new();
    s.append("Tensor ");
    push_list(&mut s, shape);
    s
}

/// Appends `n` spaces.
fn push_spaces(out: &mut String, n: usize)
    ensures
        final(out)@ == old(out)@ + spaces(n as nat),
{
    let ghost start = out@;
    let mut c: usize = 0;
    while c < n
        invariant
            c <= n,
            out@ == start + spaces(c as nat),
        decreases n - c,
    {
        proof {
            reveal_strlit(" ");
        }
        out.append(" ");
        c = c + 1;
        assert(out@ =~= start + spaces(c as nat));
    }
}


/// Appends `nested_text(shape, strides, m, off, indent, cells)`: the part
/// of the tensor from axis `m` on at offset `off`, which lies inside the
/// storage.
fn push_nested(
    out: &mut String,
    shape: &[usize],
    strides: &[usize],
    m: usize,
    off: usize,
    indent: usize,
    cells: &[String],
)
    requires
        dims_fit(shape@),
        strides@ == strides_of(shape@),
        cells@.len() == dims_product(shape@),
        m <= shape@.len(),
        off + dims_product(shape@.skip(m as int)) <= dims_product(shape@),
        indent + 2 * (shape@.len() - m) <= usize::MAX,
    ensures
        final(out)@ == old(out)@ + nested_text(
            shape@,
            strides@,
            m as nat,
            off as nat,
            indent as nat,
            cell_texts(cells@),
        ),
    decreases shape@.len() - m,
{
    let ghost texts = cell_texts(cells@);
    let ghost start = out@;
    let ghost total = dims_product(shape@);
    proof {
        lemma_whole_shape(shape@);
        assert(total <= usize::MAX);
    }
    let n = shape.len();
    if m == n {
        proof {
            assert(shape@.skip(m as int) =~= Seq::<usize>::empty());
            assert(dims_product(Seq::<usize>::empty()) == 1);
        }
        out.append(cells[off].as_str());
    } else if m + 1 == n {
        let d = shape[m];
        proof {
            lemma_suffix_product_step(shape@, m as int);
            assert(shape@.skip(m + 1) =~= Seq::<usize>::empty());
            assert(dims_product(Seq::<usize>::empty()) == 1);
            assert(strides@[m as int] == 1);
            assert((d as nat) * 1 == d as nat) by (nonlinear_arith);
            assert(dims_product(shape@.skip(m as int)) == d as nat);
        }
        proof {
            reveal_strlit("[");
        }
        out.append("[");
        let mut i: usize = 0;
        while i < d
            invariant
                i <= d,
                m + 1 == shape@.len(),
                d == shape@[m as int],
                strides@ == strides_of(shape@),
                strides@[m as int] == 1,
                off + d <= cells@.len(),
                cells@.len() <= usize::MAX,
                texts == cell_texts(cells@),
                out@ == start + "["@ + flat_items(strides@, m as nat, off as nat, texts, i as nat),
            decreases d - i,
        {
            let ghost before = out@;
            if i > 0 {
                out.append(", ");
            }
            out.append(cells[off + i].as_str());
            proof {
                let fi = flat_items(strides@, m as nat, off as nat, texts, (i + 1) as nat);
                if i == 0 {
                    assert(fi == texts[off as int]);
                    assert(flat_items(strides@, m as nat, off as nat, texts, 0) =~= Seq::<char>::empty());
                    assert(out@ =~= start + "["@ + fi);
                } else {
                    assert(fi == flat_items(strides@, m as nat, off as nat, texts, i as nat) + ", "@ + texts[off + i * 1]);
                    assert(out@ =~= start + "["@ + fi);
                }
            }
            i = i + 1;
        }
        out.append("]");
        assert(out@ =~= start + nested_text(shape@, strides@, m as nat, off as nat, indent as nat, texts));
    } else {
        let d = shape[m];
        let q = strides[m];
        proof {
            lemma_suffix_product_step(shape@, m as int);
            assert(q as nat == dims_product(shape@.skip(m + 1)));
        }
        out.append("[\n");
        let mut i: usize = 0;
        while i < d
            invariant
                i <= d,
                m + 1 < shape@.len(),
                n == shape@.len(),
                d == shape@[m as int],
                q == strides@[m as int],
                q as nat == dims_product(shape@.skip(m + 1)),
                dims_product(shape@.skip(m as int)) == (d as nat) * (q as nat),
                dims_fit(shape@),
                strides@ == strides_of(shape@),
                cells@.len() == dims_product(shape@),
                off + dims_product(shape@.skip(m as int)) <= dims_product(shape@),
                total == dims_product(shape@),
                total <= usize::MAX,
                indent + 2 * (shape@.len() - m) <= usize::MAX,
                texts == cell_texts(cells@),
                out@ == start + "[\n"@ + block_items(shape@, strides@, m as nat, off as nat, indent as nat, texts, i as nat),
            decreases d - i,
        {
            proof {
                assert((i as nat) * (q as nat) + (q as nat) <= (d as nat) * (q as nat)) by (nonlinear_arith)
                    requires
                        i < d,
                ;
            }
            let ghost before = out@;
            push_spaces(out, indent + 2);
            let sub = off + i * q;
            push_nested(out, shape, strides, m + 1, sub, indent + 2, cells);
            if i + 1 < d {
                out.append(",\n");
            } else {
                out.append("\n");
            }
            proof {
                let bi = block_items(shape@, strides@, m as nat, off as nat, indent as nat, texts, (i + 1) as nat);
                assert(bi == block_items(shape@, strides@, m as nat, off as nat, indent as nat, texts, i as nat)
                    + spaces((indent + 2) as nat)
                    + nested_text(shape@, strides@, (m + 1) as nat, sub as nat, (indent + 2) as nat, texts)
                    + if i + 1 < d { ",\n"@ } else { "\n"@ });
                assert(out@ =~= start + "[\n"@ + bi);
            }
            i = i + 1;
        }
        push_spaces(out, indent);
        out.append("]");
        assert(out@ =~= start + nested_text(shape@, strides@, m as nat, off as nat, indent as nat, texts));
    }
}

/// The body of a tensor on screen: `cells[k]` is the text of element `k`
/// in row-major order, and the elements are arranged in brackets nested
/// one level per axis, as `nested_text` describes.
pub fn nested_layout<T>(t: &Tensor<T>, cells: &[String]) -> (s: String)
    requires
        cells@.len() == t.values().len(),
        2 * t.dims().len() <= usize::MAX,
    ensures
        s@ == nested_text(t.dims(), t.stride_seq(), 0, 0, 0, cell_texts(cells@)),
{
    let mut s = String::new();
    proof {
        use_type_invariant(t);
        lemma_whole_shape(t.dims());
    }
    push_nested(&mut s, t.shape(), t.strides(), 0, 0, 0, cells);
    assert(s@ =~= nested_text(t.dims(), t.stride_seq(), 0, 0, 0, cell_texts(cells@)));
    s
}

} // verus!
