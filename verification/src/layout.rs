//! The strided index model. Every access path of the library funnels through
//! one formula, `lin_index`: the backing buffer is an index-addressable owned
//! region, and a view of it is a base offset plus a stride pair, validated at
//! view-construction time rather than on every access. This module states
//! what a valid layout guarantees and proves the arithmetic facts the rest of
//! the crate relies on.
use vstd::arithmetic::div_mod::lemma_fundamental_div_mod_converse;
use vstd::prelude::*;

verus! {

/// The physical offset of logical position `(r, c)` in a buffer viewed with
/// base offset `off`, row stride `rs` and column stride `cs`.
pub open spec fn lin_index(off: int, r: int, rs: int, c: int, cs: int) -> int {
    off + r * rs + c * cs
}

/// The flat position of item `j` of line `i` when lines are `w` items wide
/// and contiguous. Contracts quantify over this term.
pub open spec fn flat_pos(i: int, w: int, j: int) -> int {
    i * w + j
}

/// Every in-range logical position lands inside a buffer of length `len`.
pub open spec fn in_bounds_all(off: int, rows: int, rs: int, cols: int, cs: int, len: int) -> bool {
    forall|r: int, c: int|
        0 <= r < rows && 0 <= c < cols ==> #[trigger] lin_index(off, r, rs, c, cs) < len
}

/// No two distinct in-range logical positions share a physical offset.
pub open spec fn injective_all(off: int, rows: int, rs: int, cols: int, cs: int) -> bool {
    forall|r1: int, c1: int, r2: int, c2: int|
        #![trigger lin_index(off, r1, rs, c1, cs), lin_index(off, r2, rs, c2, cs)]
        0 <= r1 < rows && 0 <= c1 < cols && 0 <= r2 < rows && 0 <= c2 < cols
            && lin_index(off, r1, rs, c1, cs) == lin_index(off, r2, rs, c2, cs) ==> r1 == r2 && c1
            == c2
}

/// A valid layout over a buffer of length `len`: in bounds, collision-free,
/// and small enough that every element count fits the machine's word.
pub open spec fn layout_ok(off: int, rows: int, rs: int, cols: int, cs: int, len: int) -> bool {
    &&& 0 <= off
    &&& 0 <= rows
    &&& 0 <= cols
    &&& 0 <= rs
    &&& 0 <= cs
    &&& len <= usize::MAX
    &&& rows * cols <= usize::MAX
    &&& in_bounds_all(off, rows, rs, cols, cs, len)
    &&& injective_all(off, rows, rs, cols, cs)
}

/// The elements of `buf` seen through a layout, in row-major logical order:
/// position `k` of the result is the element at logical row `k / cols`,
/// column `k % cols`.
pub open spec fn logical_of<T>(
    buf: Seq<T>,
    off: int,
    rows: int,
    rs: int,
    cols: int,
    cs: int,
) -> Seq<T> {
    if rows * cols <= 0 {
        Seq::empty()
    } else {
        Seq::new((rows * cols) as nat, |k: int| buf[lin_index(off, k / cols, rs, k % cols, cs)])
    }
}

/// Row-major position `r * cols + c` of the logical sequence is exactly the
/// element at physical offset `lin_index(off, r, rs, c, cs)`.
pub proof fn lemma_logical_index<T>(
    buf: Seq<T>,
    off: int,
    rows: int,
    rs: int,
    cols: int,
    cs: int,
    r: int,
    c: int,
)
    requires
        0 <= r < rows,
        0 <= c < cols,
    ensures
        0 <= r * cols + c < rows * cols,
        logical_of(buf, off, rows, rs, cols, cs)[r * cols + c] == buf[lin_index(
            off,
            r,
            rs,
            c,
            cs,
        )],
{
    let k = r * cols + c;
    assert(0 <= k && k + 1 <= rows * cols) by (nonlinear_arith)
        requires
            0 <= r < rows,
            0 <= c < cols,
            k == r * cols + c,
    ;
    lemma_fundamental_div_mod_converse(k, cols, r, c);
}

/// A canonical row-major layout (strides `(cols, 1)`) over a buffer holding at
/// least `rows * cols` elements is valid.
pub proof fn lemma_row_major_ok(rows: int, cols: int, len: int)
    requires
        0 <= rows,
        0 <= cols,
        rows * cols <= len,
        len <= usize::MAX,
    ensures
        layout_ok(0, rows, cols, cols, 1, len),
{
    assert forall|r: int, c: int| 0 <= r < rows && 0 <= c < cols implies #[trigger] lin_index(
        0,
        r,
        cols,
        c,
        1,
    ) < len by {
        assert(r * cols + c < rows * cols) by (nonlinear_arith)
            requires
                0 <= r < rows,
                0 <= c < cols,
        ;
    }
    assert forall|r1: int, c1: int, r2: int, c2: int|
        #![trigger lin_index(0, r1, cols, c1, 1), lin_index(0, r2, cols, c2, 1)]
        0 <= r1 < rows && 0 <= c1 < cols && 0 <= r2 < rows && 0 <= c2 < cols && lin_index(
            0,
            r1,
            cols,
            c1,
            1,
        ) == lin_index(0, r2, cols, c2, 1) implies r1 == r2 && c1 == c2 by {
        lemma_fundamental_div_mod_converse(r1 * cols + c1, cols, r1, c1);
        lemma_fundamental_div_mod_converse(r2 * cols + c2, cols, r2, c2);
    }
}

/// A canonical column-major layout (strides `(1, rows)`) over a buffer holding
/// at least `rows * cols` elements is valid.
pub proof fn lemma_col_major_ok(rows: int, cols: int, len: int)
    requires
        0 <= rows,
        0 <= cols,
        rows * cols <= len,
        len <= usize::MAX,
    ensures
        layout_ok(0, rows, 1, cols, rows, len),
{
    assert forall|r: int, c: int| 0 <= r < rows && 0 <= c < cols implies #[trigger] lin_index(
        0,
        r,
        1,
        c,
        rows,
    ) < len by {
        assert(r + c * rows < rows * cols) by (nonlinear_arith)
            requires
                0 <= r < rows,
                0 <= c < cols,
        ;
    }
    assert forall|r1: int, c1: int, r2: int, c2: int|
        #![trigger lin_index(0, r1, 1, c1, rows), lin_index(0, r2, 1, c2, rows)]
        0 <= r1 < rows && 0 <= c1 < cols && 0 <= r2 < rows && 0 <= c2 < cols && lin_index(
            0,
            r1,
            1,
            c1,
            rows,
        ) == lin_index(0, r2, 1, c2, rows) implies r1 == r2 && c1 == c2 by {
        lemma_fundamental_div_mod_converse(c1 * rows + r1, rows, c1, r1);
        lemma_fundamental_div_mod_converse(c2 * rows + r2, rows, c2, r2);
    }
}

/// Restricting a valid layout to the sub-region that starts at logical
/// position `(r0, c0)` and spans `nrows * ncols` positions is again valid,
/// with base offset advanced by `lin_index`.
pub proof fn lemma_subview_ok(
    off: int,
    rows: int,
    rs: int,
    cols: int,
    cs: int,
    len: int,
    r0: int,
    c0: int,
    nrows: int,
    ncols: int,
)
    requires
        layout_ok(off, rows, rs, cols, cs, len),
        0 <= r0,
        0 <= c0,
        0 <= nrows,
        0 <= ncols,
        r0 + nrows <= rows,
        c0 + ncols <= cols,
    ensures
        layout_ok(lin_index(off, r0, rs, c0, cs), nrows, rs, ncols, cs, len),
{
    let noff = lin_index(off, r0, rs, c0, cs);
    assert forall|r: int, c: int| 0 <= r < nrows && 0 <= c < ncols implies #[trigger] lin_index(
        noff,
        r,
        rs,
        c,
        cs,
    ) < len by {
        lemma_lin_rebase(off, rs, cs, r0, c0, r, c);
        assert(lin_index(off, r0 + r, rs, c0 + c, cs) < len);
    }
    assert forall|r1: int, c1: int, r2: int, c2: int|
        #![trigger lin_index(noff, r1, rs, c1, cs), lin_index(noff, r2, rs, c2, cs)]
        0 <= r1 < nrows && 0 <= c1 < ncols && 0 <= r2 < nrows && 0 <= c2 < ncols && lin_index(
            noff,
            r1,
            rs,
            c1,
            cs,
        ) == lin_index(noff, r2, rs, c2, cs) implies r1 == r2 && c1 == c2 by {
        lemma_lin_rebase(off, rs, cs, r0, c0, r1, c1);
        lemma_lin_rebase(off, rs, cs, r0, c0, r2, c2);
        assert(lin_index(off, r0 + r1, rs, c0 + c1, cs) == lin_index(off, r0 + r2, rs, c0 + c2, cs));
    }
    assert(nrows * ncols <= rows * cols) by (nonlinear_arith)
        requires
            0 <= nrows,
            0 <= ncols,
            nrows <= rows,
            ncols <= cols,
    ;
}

/// Stepping `(r, c)` inside a sub-region based at `(r0, c0)` is the same as
/// stepping `(r0 + r, c0 + c)` in the parent.
pub proof fn lemma_lin_rebase(off: int, rs: int, cs: int, r0: int, c0: int, r: int, c: int)
    ensures
        lin_index(lin_index(off, r0, rs, c0, cs), r, rs, c, cs) == lin_index(
            off,
            r0 + r,
            rs,
            c0 + c,
            cs,
        ),
{
    assert((r0 + r) * rs == r0 * rs + r * rs) by (nonlinear_arith);
    assert((c0 + c) * cs == c0 * cs + c * cs) by (nonlinear_arith);
}

/// The physical offsets of one line of `count` positions, `stride` apart,
/// starting at `base`.
pub open spec fn line_offsets(base: int, count: int, stride: int) -> Seq<int> {
    if count <= 0 {
        Seq::empty()
    } else {
        Seq::new(count as nat, |i: int| base + i * stride)
    }
}

/// The physical offsets of the lines `from .. rows` of a grid, one line per
/// primary step of `rs`, each line walking `cols` positions `cs` apart, in
/// order.
pub open spec fn grid_offsets(base: int, from: int, rows: int, rs: int, cols: int, cs: int) -> Seq<
    int,
>
    decreases rows - from,
{
    if from >= rows {
        Seq::empty()
    } else {
        line_offsets(base + from * rs, cols, cs) + grid_offsets(base, from + 1, rows, rs, cols, cs)
    }
}

/// The length of a grid tail: `(rows - from) * cols`.
pub proof fn lemma_grid_len(base: int, from: int, rows: int, rs: int, cols: int, cs: int)
    requires
        0 <= cols,
    ensures
        from <= rows ==> grid_offsets(base, from, rows, rs, cols, cs).len() == (rows - from) * cols,
        from >= rows ==> grid_offsets(base, from, rows, rs, cols, cs).len() == 0,
    decreases rows - from,
{
    if from < rows {
        lemma_grid_len(base, from + 1, rows, rs, cols, cs);
        assert((rows - from) * cols == cols + (rows - (from + 1)) * cols) by (nonlinear_arith);
    } else if from == rows {
        assert((rows - from) * cols == 0) by (nonlinear_arith)
            requires
                from == rows,
        ;
    }
}

/// Position `k` of a full grid is the strided offset of logical row
/// `k / cols`, column `k % cols`.
pub proof fn lemma_grid_index(base: int, from: int, rows: int, rs: int, cols: int, cs: int, k: int)
    requires
        0 < cols,
        0 <= from <= rows,
        0 <= k < (rows - from) * cols,
    ensures
        grid_offsets(base, from, rows, rs, cols, cs)[k] == lin_index(
            base,
            from + k / cols,
            rs,
            k % cols,
            cs,
        ),
    decreases rows - from,
{
    lemma_grid_len(base, from, rows, rs, cols, cs);
    lemma_grid_len(base, from + 1, rows, rs, cols, cs);
    if k < cols {
        lemma_fundamental_div_mod_converse(k, cols, 0, k);
        assert(grid_offsets(base, from, rows, rs, cols, cs)[k] == base + from * rs + k * cs);
    } else {
        assert(from < rows) by (nonlinear_arith)
            requires
                cols <= k < (rows - from) * cols,
                0 < cols,
        ;
        lemma_grid_index(base, from + 1, rows, rs, cols, cs, k - cols);
        let q = (k - cols) / cols;
        let m = (k - cols) % cols;
        vstd::arithmetic::div_mod::lemma_fundamental_div_mod(k - cols, cols);
        assert(0 <= m < cols) by (nonlinear_arith)
            requires
                0 < cols,
                m == (k - cols) % cols,
        ;
        assert(k == (q + 1) * cols + m) by (nonlinear_arith)
            requires
                k - cols == cols * q + m,
        ;
        lemma_fundamental_div_mod_converse(k, cols, q + 1, m);
    }
}

/// Reading a sequence of physical offsets out of a buffer.
pub open spec fn read_all<T>(buf: Seq<T>, offs: Seq<int>) -> Seq<T> {
    Seq::new(offs.len(), |i: int| buf[offs[i]])
}

/// The full grid of a layout, read out of a buffer, is the logical sequence
/// of that layout.
pub proof fn lemma_grid_reads_logical<T>(
    buf: Seq<T>,
    off: int,
    rows: int,
    rs: int,
    cols: int,
    cs: int,
)
    requires
        0 <= rows,
        0 <= cols,
    ensures
        read_all(buf, grid_offsets(off, 0, rows, rs, cols, cs)) == logical_of(
            buf,
            off,
            rows,
            rs,
            cols,
            cs,
        ),
{
    lemma_grid_len(off, 0, rows, rs, cols, cs);
    if cols > 0 {
        assert forall|k: int| 0 <= k < rows * cols implies grid_offsets(
            off,
            0,
            rows,
            rs,
            cols,
            cs,
        )[k] == lin_index(off, k / cols, rs, k % cols, cs) by {
            lemma_grid_index(off, 0, rows, rs, cols, cs, k);
        }
    } else {
        assert(rows * cols == 0) by (nonlinear_arith)
            requires
                cols == 0,
        ;
    }
    assert(read_all(buf, grid_offsets(off, 0, rows, rs, cols, cs)) =~= logical_of(
        buf,
        off,
        rows,
        rs,
        cols,
        cs,
    ));
}

/// Reading a canonical row-major layout logically is reading the buffer as it
/// stands: with strides `(cols, 1)` and no base offset, logical order and
/// physical order coincide.
pub proof fn lemma_logical_canonical_rm<T>(buf: Seq<T>, rows: int, cols: int)
    requires
        0 <= rows,
        0 <= cols,
        buf.len() == rows * cols,
    ensures
        logical_of(buf, 0, rows, cols, cols, 1) == buf,
{
    if rows * cols <= 0 {
        assert(logical_of(buf, 0, rows, cols, cols, 1) =~= buf);
    } else {
        assert(cols > 0) by (nonlinear_arith)
            requires
                rows * cols > 0,
                0 <= cols,
        ;
        assert forall|k: int| 0 <= k < rows * cols implies logical_of(buf, 0, rows, cols, cols, 1)[k]
            == buf[k] by {
            vstd::arithmetic::div_mod::lemma_fundamental_div_mod(k, cols);
            assert(lin_index(0, k / cols, cols, k % cols, 1) == (k / cols) * cols + k % cols);
            assert((k / cols) * cols == cols * (k / cols)) by (nonlinear_arith);
        }
        assert(logical_of(buf, 0, rows, cols, cols, 1) =~= buf);
    }
}

/// Grid tails concatenate: the lines `a .. c` are the lines `a .. b` followed
/// by the lines `b .. c`.
pub proof fn lemma_grid_cat(base: int, a: int, b: int, c: int, rs: int, cols: int, cs: int)
    requires
        a <= b <= c,
    ensures
        grid_offsets(base, a, c, rs, cols, cs) == grid_offsets(base, a, b, rs, cols, cs)
            + grid_offsets(base, b, c, rs, cols, cs),
    decreases b - a,
{
    if a >= b {
        assert(grid_offsets(base, a, c, rs, cols, cs) =~= grid_offsets(base, a, b, rs, cols, cs)
            + grid_offsets(base, b, c, rs, cols, cs));
    } else {
        lemma_grid_cat(base, a + 1, b, c, rs, cols, cs);
        assert(grid_offsets(base, a, c, rs, cols, cs) =~= grid_offsets(base, a, b, rs, cols, cs)
            + grid_offsets(base, b, c, rs, cols, cs));
    }
}

/// Rebasing a grid: the lines `from .. rows` of a grid based at `base` are
/// the lines `0 .. rows - from` of the grid based `from * rs` further on.
pub proof fn lemma_grid_rebase(base: int, from: int, rows: int, rs: int, cols: int, cs: int)
    requires
        0 <= from,
    ensures
        grid_offsets(base, from, rows, rs, cols, cs) == grid_offsets(
            base + from * rs,
            0,
            rows - from,
            rs,
            cols,
            cs,
        ),
    decreases rows - from,
{
    if from < rows {
        lemma_grid_rebase(base, from + 1, rows, rs, cols, cs);
        let nbase = base + from * rs;
        assert((from + 1) * rs == from * rs + rs) by (nonlinear_arith);
        assert(grid_offsets(base, from + 1, rows, rs, cols, cs) == grid_offsets(
            nbase + 1 * rs,
            0,
            rows - from - 1,
            rs,
            cols,
            cs,
        ));
        lemma_grid_rebase(nbase, 1, rows - from, rs, cols, cs);
        assert(grid_offsets(base, from, rows, rs, cols, cs) =~= grid_offsets(
            nbase,
            0,
            rows - from,
            rs,
            cols,
            cs,
        ));
    } else {
        assert(grid_offsets(base, from, rows, rs, cols, cs) =~= grid_offsets(
            base + from * rs,
            0,
            rows - from,
            rs,
            cols,
            cs,
        ));
    }
}

/// Every offset of a grid that lies inside a valid layout's extents lies
/// inside the buffer.
pub proof fn lemma_grid_in_bounds(
    off: int,
    rows: int,
    rs: int,
    cols: int,
    cs: int,
    len: int,
    k: int,
)
    requires
        in_bounds_all(off, rows, rs, cols, cs, len),
        0 <= off,
        0 <= rs,
        0 <= cs,
        0 <= rows,
        0 < cols,
        0 <= k < rows * cols,
    ensures
        0 <= grid_offsets(off, 0, rows, rs, cols, cs)[k],
        grid_offsets(off, 0, rows, rs, cols, cs)[k] < len,
{
    lemma_grid_len(off, 0, rows, rs, cols, cs);
    lemma_grid_index(off, 0, rows, rs, cols, cs, k);
    let r = k / cols;
    let c = k % cols;
    assert(0 <= r < rows && 0 <= c < cols) by (nonlinear_arith)
        requires
            0 <= k < rows * cols,
            0 < cols,
            r == k / cols,
            c == k % cols,
    ;
    assert(lin_index(off, r, rs, c, cs) < len);
    assert(0 <= off + r * rs + c * cs) by (nonlinear_arith)
        requires
            0 <= off,
            0 <= r,
            0 <= rs,
            0 <= c,
            0 <= cs,
    ;
}

} // verus!
