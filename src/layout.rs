//! Grid layout of rendered code blocks: blocks are merged side by side with a
//! two-space gutter, and rows of blocks are stacked with a blank line between.
use vstd::prelude::*;
use vstd::slice::slice_subrange;
use crate::text::{
    join, lemma_join_push, lemma_join_take, lemma_lines_rejoin, line_spans, lines_of, no_cr, spaces,
    spans_of_lines, texts,
};

verus! {

/// The space between two blocks on one row.
pub open spec fn gutter() -> Seq<char> {
    seq![' ', ' ']
}

/// A block's width: the number of characters of its first line, or 0 when it
/// has no line.
pub open spec fn block_width(b: Seq<char>) -> nat {
    if lines_of(b).len() > 0 {
        lines_of(b)[0].len()
    } else {
        0
    }
}

/// A block's height: its number of lines.
pub open spec fn block_height(b: Seq<char>) -> nat {
    lines_of(b).len()
}

/// What block `b` puts on row `r`: its line `r`, or spaces as wide as the
/// block once its lines have run out.
pub open spec fn cell(b: Seq<char>, r: int) -> Seq<char> {
    if 0 <= r < block_height(b) {
        lines_of(b)[r]
    } else {
        spaces(block_width(b))
    }
}

/// The greatest height among `bs`, or 0 for no block.
pub open spec fn max_height(bs: Seq<Seq<char>>) -> nat
    decreases bs.len(),
{
    if bs.len() == 0 {
        0
    } else {
        let h = max_height(bs.drop_last());
        if h >= block_height(bs.last()) {
            h
        } else {
            block_height(bs.last())
        }
    }
}

/// Row `r` of blocks `bs` merged side by side.
pub open spec fn row_text(bs: Seq<Seq<char>>, r: int) -> Seq<char> {
    join(bs.map_values(|b: Seq<char>| cell(b, r)), gutter())
}

/// The rows of `bs` merged side by side, as many as the tallest block has
/// lines.
pub open spec fn merged_rows(bs: Seq<Seq<char>>) -> Seq<Seq<char>> {
    Seq::new(max_height(bs), |r: int| row_text(bs, r))
}

/// Blocks `bs` merged side by side into one text, rows joined by newlines.
pub open spec fn composed(bs: Seq<Seq<char>>) -> Seq<char> {
    join(merged_rows(bs), seq!['\n'])
}

/// How many blocks of width `unit` go on one row of a terminal `columns`
/// wide, counting a gutter between neighbours; at least one.
pub open spec fn per_row(columns: nat, unit: nat) -> nat {
    let k = (columns + 2) / (unit + 2);
    if k >= 1 {
        k
    } else {
        1
    }
}

/// The number of rows that `n` blocks take at `k` blocks per row.
pub open spec fn row_count(n: nat, k: nat) -> nat
    recommends
        k >= 1,
{
    ((n + k - 1) as nat) / k
}

/// Row `c` of blocks at `k` per row: the `k` blocks from position `c * k`,
/// or those that are left.
pub open spec fn row_group(bs: Seq<Seq<char>>, k: nat, c: int) -> Seq<Seq<char>> {
    let lo = c * k;
    let hi = if lo + k <= bs.len() {
        lo + k
    } else {
        bs.len() as int
    };
    bs.subrange(lo, hi)
}

/// `bs` cut into consecutive rows of `k` blocks, the last one possibly shorter.
pub open spec fn row_groups(bs: Seq<Seq<char>>, k: nat) -> Seq<Seq<Seq<char>>> {
    Seq::new(row_count(bs.len(), k), |c: int| row_group(bs, k, c))
}

/// The grid for blocks `bs` on a terminal `columns` wide: empty for no block
/// or when the first block has width 0; otherwise the merged rows of blocks,
/// joined by a blank line.
pub open spec fn laid_out(bs: Seq<Seq<char>>, columns: nat) -> Seq<char> {
    if bs.len() == 0 || block_width(bs[0]) == 0 {
        seq![]
    } else {
        let k = per_row(columns, block_width(bs[0]));
        join(row_groups(bs, k).map_values(|g: Seq<Seq<char>>| composed(g)), seq!['\n', '\n'])
    }
}

/// Whether `c * k` lies before `n` is whether row `c` exists.
pub proof fn lemma_row_exists(n: nat, k: nat, c: nat)
    requires
        k >= 1,
    ensures
        (c * k < n) == (c < row_count(n, k)),
{
    let q = row_count(n, k);
    let m = (n + k - 1) as nat;
    assert(q * k <= m && m < q * k + k) by (nonlinear_arith)
        requires
            q == m / k,
            k >= 1,
    ;
    if c < q {
        assert(c * k + k <= q * k) by (nonlinear_arith)
            requires
                c + 1 <= q,
                k >= 1,
        ;
    } else {
        assert(q * k <= c * k) by (nonlinear_arith)
            requires
                q <= c,
                k >= 1,
        ;
    }
}

/// Whether every line of block `b` is as wide as its first line.
pub open spec fn rectangular(b: Seq<char>) -> bool {
    forall|k: int| 0 <= k < block_height(b) ==> (#[trigger] lines_of(b)[k]).len() == block_width(b)
}

/// Merging no block gives the empty text.
pub proof fn lemma_merge_none()
    ensures
        composed(seq![]) == Seq::<char>::empty(),
{
    assert(merged_rows(seq![]) =~= seq![]);
}

/// Merging a single block gives the block back unchanged, when it holds no
/// carriage return and does not end with a newline.
pub proof fn lemma_merge_one(b: Seq<char>)
    requires
        no_cr(b),
        !(b.len() > 0 && b.last() == '\n'),
    ensures
        composed(seq![b]) == b,
{
    let bs = seq![b];
    assert(bs.drop_last() =~= seq![]);
    assert(max_height(bs.drop_last()) == 0);
    assert(max_height(bs) == block_height(b));
    assert forall|r: int| 0 <= r < block_height(b) implies row_text(bs, r) == lines_of(b)[r] by {
        assert(bs.map_values(|x: Seq<char>| cell(x, r)) =~= seq![cell(b, r)]);
    }
    assert(merged_rows(bs) =~= lines_of(b));
    lemma_lines_rejoin(b);
}

/// Two blocks merged: as many rows as the taller block has lines; each row is
/// the first block's part, two spaces, and the second block's part; a block
/// whose lines have run out contributes exactly its width in spaces; and for
/// rectangular blocks every row is `w1 + 2 + w2` characters wide.
pub proof fn lemma_merge_two(bs: Seq<Seq<char>>)
    requires
        bs.len() == 2,
    ensures
        composed(bs) == join(merged_rows(bs), seq!['\n']),
        merged_rows(bs).len() == if block_height(bs[0]) >= block_height(bs[1]) {
            block_height(bs[0])
        } else {
            block_height(bs[1])
        },
        forall|r: int|
            0 <= r < merged_rows(bs).len() ==> #[trigger] merged_rows(bs)[r] == cell(bs[0], r)
                + gutter() + cell(bs[1], r),
        forall|r: int|
            r >= block_height(bs[0]) ==> #[trigger] cell(bs[0], r) == spaces(block_width(bs[0])),
        forall|r: int|
            r >= block_height(bs[1]) ==> #[trigger] cell(bs[1], r) == spaces(block_width(bs[1])),
        rectangular(bs[0]) && rectangular(bs[1]) ==> forall|r: int|
            0 <= r < merged_rows(bs).len() ==> (#[trigger] merged_rows(bs)[r]).len()
                == block_width(bs[0]) + 2 + block_width(bs[1]),
{
    assert(bs.drop_last() =~= seq![bs[0]]);
    assert(bs.drop_last().drop_last() =~= seq![]);
    assert(max_height(bs.drop_last().drop_last()) == 0);
    assert(max_height(bs.drop_last()) == block_height(bs[0]));
    assert forall|r: int| 0 <= r < merged_rows(bs).len() implies #[trigger] merged_rows(bs)[r]
        == cell(bs[0], r) + gutter() + cell(bs[1], r) by {
        let cells = bs.map_values(|x: Seq<char>| cell(x, r));
        assert(cells =~= seq![cell(bs[0], r)].push(cell(bs[1], r)));
        lemma_join_push(seq![cell(bs[0], r)], gutter(), cell(bs[1], r));
    }
}

/// A row of `k` blocks and the rows before it hold, in order, the blocks up
/// to its end.
proof fn lemma_groups_prefix(bs: Seq<Seq<char>>, k: nat, c: nat)
    requires
        k >= 1,
        c <= row_count(bs.len(), k),
    ensures
        row_groups(bs, k).take(c as int).flatten() == bs.take(
            if c * k <= bs.len() {
                (c * k) as int
            } else {
                bs.len() as int
            },
        ),
    decreases c,
{
    let groups = row_groups(bs, k);
    if c == 0 {
        assert(groups.take(0) =~= seq![]);
        assert(bs.take(0) =~= seq![]);
    } else {
        let p = (c - 1) as nat;
        lemma_groups_prefix(bs, k, p);
        lemma_row_exists(bs.len(), k, p);
        assert(p * k + k == c * k) by (nonlinear_arith)
            requires
                p + 1 == c,
        ;
        assert(groups.take(c as int) =~= groups.take(p as int).push(groups[p as int]));
        groups.take(p as int).lemma_flatten_push(groups[p as int]);
        let hi = if c * k <= bs.len() {
            (c * k) as int
        } else {
            bs.len() as int
        };
        assert(bs.take((p * k) as int) + bs.subrange((p * k) as int, hi) =~= bs.take(hi));
    }
}

/// Rows keep the order of the blocks: read row after row, left to right, the
/// rows hold exactly the input sequence.
pub proof fn lemma_rows_keep_order(bs: Seq<Seq<char>>, k: nat)
    requires
        k >= 1,
    ensures
        row_groups(bs, k).flatten() == bs,
{
    let n = row_count(bs.len(), k);
    lemma_groups_prefix(bs, k, n);
    lemma_row_exists(bs.len(), k, n);
    assert(row_groups(bs, k).take(n as int) =~= row_groups(bs, k));
    assert(bs.take(bs.len() as int) =~= bs);
}

/// Block `i` stands in row `i / k`, at position `i % k` from the left.
pub proof fn lemma_block_position(bs: Seq<Seq<char>>, k: nat, i: int)
    requires
        k >= 1,
        0 <= i < bs.len(),
    ensures
        i / (k as int) < row_groups(bs, k).len(),
        i % (k as int) < row_groups(bs, k)[i / (k as int)].len(),
        row_groups(bs, k)[i / (k as int)][i % (k as int)] == bs[i],
{
    let c = i / (k as int);
    let m = i % (k as int);
    vstd::arithmetic::div_mod::lemma_fundamental_div_mod(i, k as int);
    vstd::arithmetic::div_mod::lemma_mod_bound(i, k as int);
    vstd::arithmetic::div_mod::lemma_div_pos_is_pos(i, k as int);
    assert(c * k <= i) by (nonlinear_arith)
        requires
            i == k * c + m,
            m >= 0,
    ;
    lemma_row_exists(bs.len(), k, c as nat);
}

/// For blocks all of width `u > 0` on a terminal `columns` wide, the grid is
/// `ceil(n / p)` merged rows joined by blank lines, where
/// `p = max(1, (columns + 2) / (u + 2))`: every row holds `p` blocks but the
/// last, which holds between 1 and `p`.
pub proof fn lemma_row_total(bs: Seq<Seq<char>>, columns: nat, u: nat)
    requires
        bs.len() > 0,
        u > 0,
        forall|i: int| 0 <= i < bs.len() ==> block_width(#[trigger] bs[i]) == u,
    ensures
        ({
            let p = per_row(columns, u);
            let groups = row_groups(bs, p);
            &&& groups.len() == (bs.len() + p - 1) as nat / p
            &&& laid_out(bs, columns) == join(
                groups.map_values(|g: Seq<Seq<char>>| composed(g)),
                seq!['\n', '\n'],
            )
            &&& forall|c: int| 0 <= c < groups.len() ==> 1 <= (#[trigger] groups[c]).len() <= p
            &&& forall|c: int| 0 <= c < groups.len() - 1 ==> (#[trigger] groups[c]).len() == p
        }),
{
    let p = per_row(columns, u);
    let groups = row_groups(bs, p);
    assert(block_width(bs[0]) == u);
    assert forall|c: int| 0 <= c < groups.len() implies 1 <= (#[trigger] groups[c]).len() <= p
        && (c < groups.len() - 1 ==> groups[c].len() == p) by {
        lemma_row_exists(bs.len(), p, c as nat);
        lemma_row_exists(bs.len(), p, (c + 1) as nat);
        assert(c * p + p == (c + 1) * p) by (nonlinear_arith);
    }
}

/// Appends `n` spaces to `s`.
fn push_spaces(s: &mut String, n: usize)
    ensures
        final(s)@ == old(s)@ + spaces(n as nat),
{
    let ghost start = s@;
    for i in 0..n
        invariant
            s@ == start + spaces(i as nat),
    {
        assert(" "@ =~= seq![' ']) by {
            reveal_strlit(" ");
        }
        s.append(" ");
        assert(start + spaces((i + 1) as nat) =~= start + spaces(i as nat) + seq![' ']);
    }
}

/// Whether `spans[m]` marks out the lines of block `bs[m]` and `widths[m]` is
/// its width, for each block.
spec fn lines_known(bs: Seq<Seq<char>>, spans: Seq<Vec<(usize, usize)>>, widths: Seq<usize>) -> bool {
    &&& spans.len() == bs.len()
    &&& widths.len() == bs.len()
    &&& forall|m: int|
        0 <= m < bs.len() ==> spans_of_lines(bs[m], #[trigger] spans[m]@) && widths[m]
            == block_width(bs[m])
}

/// The width of a block whose lines are `spans`.
fn width_of_spans(spans: &Vec<(usize, usize)>, b: Ghost<Seq<char>>) -> (w: usize)
    requires
        spans_of_lines(b@, spans@),
    ensures
        w == block_width(b@),
{
    if spans.len() > 0 {
        spans[0].1 - spans[0].0
    } else {
        0
    }
}

/// Represents a grid layout of rendered codes on a terminal of a given width.
pub struct QrGrid {
    qr_codes: Vec<String>,
    terminal_width: usize,
}

impl QrGrid {
    /// The texts of the blocks, in order.
    pub closed spec fn blocks(&self) -> Seq<Seq<char>> {
        texts(self.qr_codes@)
    }

    /// The width of the terminal, in character columns.
    pub closed spec fn columns(&self) -> nat {
        self.terminal_width as nat
    }

    /// A grid of `qr_codes` for a terminal `terminal_width` columns wide.
    pub fn new(qr_codes: Vec<String>, terminal_width: usize) -> (g: Self)
        ensures
            g.blocks() == texts(qr_codes@),
            g.columns() == terminal_width,
    {
        QrGrid { qr_codes, terminal_width }
    }

    /// The blocks arranged left to right until the terminal width is reached,
    /// then wrapped to the next row; rows are separated by a blank line.
    pub fn render(&self) -> (r: String)
        ensures
            r@ == laid_out(self.blocks(), self.columns()),
            self.blocks().len() == 0 ==> r@.len() == 0,
            self.blocks().len() > 0 && block_width(self.blocks()[0]) == 0 ==> r@.len() == 0,
    {
        let ghost bs = texts(self.qr_codes@);
        let n = self.qr_codes.len();
        if n == 0 {
            return String::new();
        }
        let first = line_spans(self.qr_codes[0].as_str());
        let w = width_of_spans(&first, Ghost(bs[0]));
        if w == 0 {
            return String::new();
        }
        let k = codes_per_row(self.terminal_width, w);
        let ghost groups = row_groups(bs, k as nat);
        let ghost rows = groups.map_values(|g: Seq<Seq<char>>| composed(g));
        proof {
            lemma_row_exists(n as nat, k as nat, 0);
        }
        let mut out = String::new();
        let mut start: usize = 0;
        let mut c: usize = 0;
        while start < n
            invariant
                n == self.qr_codes.len(),
                bs == texts(self.qr_codes@),
                k >= 1,
                groups == row_groups(bs, k as nat),
                rows == groups.map_values(|g: Seq<Seq<char>>| composed(g)),
                start as int == if c * k <= n {
                    c * k
                } else {
                    n as int
                },
                c <= rows.len(),
                (start < n) == (c < rows.len()),
                out@ == join(rows.take(c as int), seq!['\n', '\n']),
            decreases n - start,
        {
            proof {
                lemma_row_exists(n as nat, k as nat, c as nat);
                assert(c <= c * k) by (nonlinear_arith)
                    requires
                        k >= 1,
                ;
            }
            let end = if n - start > k {
                start + k
            } else {
                n
            };
            let group = slice_subrange(self.qr_codes.as_slice(), start, end);
            assert(texts(group@) =~= groups[c as int]);
            let row = Self::merge_qr_codes_horizontally(group);
            assert(row@ == rows[c as int]);
            proof {
                lemma_join_take(rows, seq!['\n', '\n'], c as int);
            }
            assert("\n\n"@ =~= seq!['\n', '\n']) by {
                reveal_strlit("\n\n");
            }
            if c > 0 {
                out.append("\n\n");
            }
            out.append(row.as_str());
            start = end;
            c = c + 1;
            proof {
                assert((c - 1) * k + k == c * k) by (nonlinear_arith);
                lemma_row_exists(n as nat, k as nat, c as nat);
            }
        }
        assert(rows.take(rows.len() as int) =~= rows);
        out
    }

    /// Merges blocks side by side into one text: row `r` holds line `r` of
    /// each block, blocks separated by two spaces, a block whose lines have
    /// run out padded with spaces as wide as its first line.
    pub fn merge_qr_codes_horizontally(qr_codes: &[String]) -> (r: String)
        ensures
            r@ == composed(texts(qr_codes@)),
            qr_codes@.len() == 0 ==> r@.len() == 0,
    {
        let ghost bs = texts(qr_codes@);
        let k = qr_codes.len();
        let mut spans: Vec<Vec<(usize, usize)>> = Vec::new();
        let mut widths: Vec<usize> = Vec::new();
        let mut max_lines: usize = 0;
        let mut j: usize = 0;
        while j < k
            invariant
                k == qr_codes@.len(),
                bs == texts(qr_codes@),
                j <= k,
                lines_known(bs.take(j as int), spans@, widths@),
                max_lines == max_height(bs.take(j as int)),
            decreases k - j,
        {
            assert(bs[j as int] == qr_codes@[j as int]@);
            let sp = line_spans(qr_codes[j].as_str());
            let w = width_of_spans(&sp, Ghost(bs[j as int]));
            assert(bs.take(j + 1).drop_last() =~= bs.take(j as int));
            if sp.len() > max_lines {
                max_lines = sp.len();
            }
            spans.push(sp);
            widths.push(w);
            assert(forall|m: int| 0 <= m < j ==> bs.take(j + 1)[m] == bs.take(j as int)[m]);
            j = j + 1;
        }
        assert(bs.take(k as int) =~= bs);
        assert(lines_known(bs, spans@, widths@));
        let ghost rows = merged_rows(bs);
        let mut out = String::new();
        for r in 0..max_lines
            invariant
                k == qr_codes@.len(),
                bs == texts(qr_codes@),
                lines_known(bs, spans@, widths@),
                max_lines == max_height(bs),
                rows == merged_rows(bs),
                out@ == join(rows.take(r as int), seq!['\n']),
        {
            let line = Self::merge_row(qr_codes, &spans, &widths, r);
            assert(line@ == rows[r as int]);
            proof {
                lemma_join_take(rows, seq!['\n'], r as int);
            }
            assert("\n"@ =~= seq!['\n']) by {
                reveal_strlit("\n");
            }
            if r > 0 {
                out.append("\n");
            }
            out.append(line.as_str());
        }
        assert(rows.take(max_lines as int) =~= rows);
        out
    }

    /// Row `r` of the blocks merged side by side.
    fn merge_row(
        qr_codes: &[String],
        spans: &Vec<Vec<(usize, usize)>>,
        widths: &Vec<usize>,
        r: usize,
    ) -> (line: String)
        requires
            lines_known(texts(qr_codes@), spans@, widths@),
        ensures
            line@ == row_text(texts(qr_codes@), r as int),
    {
        let ghost bs = texts(qr_codes@);
        let ghost cells = bs.map_values(|b: Seq<char>| cell(b, r as int));
        let k = qr_codes.len();
        let mut line = String::new();
        for j in 0..k
            invariant
                k == qr_codes@.len(),
                bs == texts(qr_codes@),
                cells == bs.map_values(|b: Seq<char>| cell(b, r as int)),
                lines_known(bs, spans@, widths@),
                line@ == join(cells.take(j as int), gutter()),
        {
            proof {
                lemma_join_take(cells, gutter(), j as int);
            }
            assert("  "@ =~= gutter()) by {
                reveal_strlit("  ");
            }
            if j > 0 {
                line.append("  ");
            }
            let sp = &spans[j];
            assert(spans_of_lines(bs[j as int], sp@));
            if r < sp.len() {
                let (a, b) = sp[r];
                let piece = qr_codes[j].as_str().substring_char(a, b);
                assert(piece@ == cells[j as int]);
                line.append(piece);
            } else {
                push_spaces(&mut line, widths[j]);
                assert(spaces(widths@[j as int] as nat) == cells[j as int]);
            }
        }
        assert(cells.take(k as int) =~= cells);
        line
    }
}

/// `per_row` computed without overflow.
fn codes_per_row(columns: usize, unit: usize) -> (k: usize)
    requires
        unit >= 1,
    ensures
        k == per_row(columns as nat, unit as nat),
        k >= 1,
{
    let num: u128 = columns as u128 + 2;
    let den: u128 = unit as u128 + 2;
    let q: u128 = num / den;
    assert(q <= num / 3) by {
        vstd::arithmetic::div_mod::lemma_div_is_ordered_by_denominator(num as int, 3, den as int);
    }
    if q >= 1 {
        q as usize
    } else {
        1
    }
}

} // verus!
