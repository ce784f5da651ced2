//! The laws of the library, stated and proved in one place: how checked
//! access, iteration, splitting and ownership conversion relate, for every
//! storage and every input the respective contracts allow.
use crate::iterator::SplittableIterator;
use crate::layout::lemma_grid_cat;
use crate::layout::lemma_grid_len;
use crate::layout::lemma_grid_reads_logical;
use crate::layout::lemma_grid_rebase;
use crate::layout::lemma_logical_index;
use crate::layout::lin_index;
use crate::layout::logical_of;
use crate::layout::read_all;
use crate::storage::Storage;
use crate::storage::StorageView;
use crate::storage::StridedIndex;
use vstd::prelude::*;

verus! {

/// For every storage and every valid position `(r, c)`: the element the
/// checked accessor returns is the element at logical position
/// `r * cols + c` of the row-major full traversal.
pub proof fn lemma_get_matches_iteration<T: Copy, S: Storage<T>>(s: S, r: int, c: int)
    requires
        s.wf(),
        0 <= r < s.spec_rows(),
        0 <= c < s.spec_cols(),
    ensures
        0 <= r * s.spec_cols() + c < s.logical().len(),
        s.spec_at(r, c) == s.logical()[r * s.spec_cols() + c],
{
    s.lemma_wf();
    lemma_logical_index(
        s.spec_buf(),
        s.spec_offset() as int,
        s.spec_rows() as int,
        s.spec_row_stride() as int,
        s.spec_cols() as int,
        s.spec_col_stride() as int,
        r,
        c,
    );
}

/// For every splittable iterator and every valid split position: the left
/// half yields exactly the first `pos` offsets, the right half exactly the
/// rest, and their concatenation in order reproduces the original sequence
/// exactly.
pub proof fn lemma_split_at_reassembles<I: SplittableIterator>(it: I, pos: usize, l: I, r: I)
    requires
        it.valid(),
        pos as nat <= it.offsets().len(),
        l.offsets() == it.offsets().take(pos as int),
        r.offsets() == it.offsets().skip(pos as int),
    ensures
        l.offsets() + r.offsets() == it.offsets(),
        l.offsets().len() == pos as nat,
        r.offsets().len() == it.offsets().len() - pos as nat,
{
    assert(l.offsets() + r.offsets() =~= it.offsets());
}

/// Splitting a region at a row partitions its logical sequence: the top
/// part's logical sequence followed by the bottom part's is exactly the
/// original's.
pub proof fn lemma_row_split_concat<T>(
    buf: Seq<T>,
    off: int,
    rows: int,
    rs: int,
    cols: int,
    cs: int,
    pos: int,
    noff: int,
)
    requires
        0 <= pos <= rows,
        0 <= cols,
        pos < rows && cols > 0 ==> noff == lin_index(off, pos, rs, 0, cs),
    ensures
        logical_of(buf, off, pos, rs, cols, cs) + logical_of(buf, noff, rows - pos, rs, cols, cs)
            == logical_of(buf, off, rows, rs, cols, cs),
{
    if cols == 0 {
        assert(pos * cols == 0 && (rows - pos) * cols == 0 && rows * cols == 0)
            by (nonlinear_arith)
            requires
                cols == 0,
        ;
        assert(logical_of(buf, off, pos, rs, cols, cs) + logical_of(
            buf,
            noff,
            rows - pos,
            rs,
            cols,
            cs,
        ) =~= logical_of(buf, off, rows, rs, cols, cs));
    } else if pos == rows {
        assert((rows - pos) * cols == 0) by (nonlinear_arith)
            requires
                pos == rows,
        ;
        assert(logical_of(buf, off, pos, rs, cols, cs) + logical_of(
            buf,
            noff,
            rows - pos,
            rs,
            cols,
            cs,
        ) =~= logical_of(buf, off, rows, rs, cols, cs));
    } else {
        lemma_grid_cat(off, 0, pos, rows, rs, cols, cs);
        lemma_grid_rebase(off, pos, rows, rs, cols, cs);
        assert(noff == off + pos * rs);
        lemma_grid_reads_logical(buf, off, rows, rs, cols, cs);
        lemma_grid_reads_logical(buf, off, pos, rs, cols, cs);
        lemma_grid_reads_logical(buf, noff, rows - pos, rs, cols, cs);
        let ga = crate::layout::grid_offsets(off, 0, pos, rs, cols, cs);
        let gb = crate::layout::grid_offsets(noff, 0, rows - pos, rs, cols, cs);
        lemma_grid_len(off, 0, pos, rs, cols, cs);
        lemma_grid_len(noff, 0, rows - pos, rs, cols, cs);
        assert(read_all(buf, ga + gb) =~= read_all(buf, ga) + read_all(buf, gb));
    }
}

/// Splitting a region at a row, stated over any three storages related as
/// `split_at_row` relates them: the top's logical sequence followed by the
/// bottom's is exactly the original's.
pub proof fn lemma_split_rows_logical<T: Copy, S: Storage<T>, L: Storage<T>, R: Storage<T>>(
    s: S,
    l: L,
    r: R,
)
    requires
        l.spec_buf() == s.spec_buf(),
        r.spec_buf() == s.spec_buf(),
        l.spec_cols() == s.spec_cols(),
        r.spec_cols() == s.spec_cols(),
        l.spec_row_stride() == s.spec_row_stride(),
        r.spec_row_stride() == s.spec_row_stride(),
        l.spec_col_stride() == s.spec_col_stride(),
        r.spec_col_stride() == s.spec_col_stride(),
        l.spec_offset() == s.spec_offset(),
        l.spec_rows() + r.spec_rows() == s.spec_rows(),
        l.spec_rows() < s.spec_rows() && s.spec_cols() > 0 ==> r.spec_offset() as int
            == s.spec_index(l.spec_rows() as int, 0),
    ensures
        l.logical() + r.logical() == s.logical(),
{
    lemma_row_split_concat(
        s.spec_buf(),
        s.spec_offset() as int,
        s.spec_rows() as int,
        s.spec_row_stride() as int,
        s.spec_cols() as int,
        s.spec_col_stride() as int,
        l.spec_rows() as int,
        r.spec_offset() as int,
    );
}

/// Splitting a region at a column partitions every row: each logical
/// position of the left part holds the original's element at the same
/// position, and each position of the right part holds the original's
/// element `pos` columns further on.
pub proof fn lemma_split_cols_positions<T: Copy, S: Storage<T>, L: Storage<T>, R: Storage<T>>(
    s: S,
    l: L,
    r: R,
)
    requires
        l.spec_buf() == s.spec_buf(),
        r.spec_buf() == s.spec_buf(),
        l.spec_rows() == s.spec_rows(),
        r.spec_rows() == s.spec_rows(),
        l.spec_row_stride() == s.spec_row_stride(),
        r.spec_row_stride() == s.spec_row_stride(),
        l.spec_col_stride() == s.spec_col_stride(),
        r.spec_col_stride() == s.spec_col_stride(),
        l.spec_offset() == s.spec_offset(),
        l.spec_cols() + r.spec_cols() == s.spec_cols(),
        l.spec_cols() < s.spec_cols() && s.spec_rows() > 0 ==> r.spec_offset() as int
            == s.spec_index(0, l.spec_cols() as int),
    ensures
        forall|i: int, j: int|
            0 <= i < s.spec_rows() && 0 <= j < l.spec_cols() ==> #[trigger] l.spec_at(i, j)
                == s.spec_at(i, j),
        forall|i: int, j: int|
            0 <= i < s.spec_rows() && 0 <= j < r.spec_cols() ==> #[trigger] r.spec_at(i, j)
                == s.spec_at(i, l.spec_cols() + j),
{
    let off = s.spec_offset() as int;
    let rs = s.spec_row_stride() as int;
    let cs = s.spec_col_stride() as int;
    let pos = l.spec_cols() as int;
    assert forall|i: int, j: int|
        0 <= i < s.spec_rows() && 0 <= j < r.spec_cols() implies #[trigger] r.spec_at(i, j)
        == s.spec_at(i, pos + j) by {
        if r.spec_cols() > 0 {
            crate::layout::lemma_lin_rebase(off, rs, cs, 0, pos, i, j);
            assert(lin_index(r.spec_offset() as int, i, rs, j, cs) == lin_index(
                off,
                i,
                rs,
                pos + j,
                cs,
            ));
        }
    }
}

/// The two halves of a row split address strictly disjoint physical offsets:
/// no in-range position of the top view shares an offset with an in-range
/// position of the bottom view, so mutation through one can never be seen
/// through the other.
pub proof fn lemma_split_rows_disjoint<T: Copy, S: Storage<T>, L: Storage<T>, R: Storage<T>>(
    s: S,
    l: L,
    r: R,
)
    requires
        s.wf(),
        l.spec_cols() == s.spec_cols(),
        r.spec_cols() == s.spec_cols(),
        l.spec_row_stride() == s.spec_row_stride(),
        r.spec_row_stride() == s.spec_row_stride(),
        l.spec_col_stride() == s.spec_col_stride(),
        r.spec_col_stride() == s.spec_col_stride(),
        l.spec_offset() == s.spec_offset(),
        l.spec_rows() + r.spec_rows() == s.spec_rows(),
        l.spec_rows() < s.spec_rows() && s.spec_cols() > 0 ==> r.spec_offset() as int
            == s.spec_index(l.spec_rows() as int, 0),
    ensures
        forall|r1: int, c1: int, r2: int, c2: int|
            #![trigger l.spec_index(r1, c1), r.spec_index(r2, c2)]
            0 <= r1 < l.spec_rows() && 0 <= c1 < l.spec_cols() && 0 <= r2 < r.spec_rows() && 0
                <= c2 < r.spec_cols() ==> l.spec_index(r1, c1) != r.spec_index(r2, c2),
{
    s.lemma_wf();
    let off = s.spec_offset() as int;
    let rs = s.spec_row_stride() as int;
    let cs = s.spec_col_stride() as int;
    let pos = l.spec_rows() as int;
    assert forall|r1: int, c1: int, r2: int, c2: int|
        #![trigger l.spec_index(r1, c1), r.spec_index(r2, c2)]
        0 <= r1 < l.spec_rows() && 0 <= c1 < l.spec_cols() && 0 <= r2 < r.spec_rows() && 0 <= c2
            < r.spec_cols() implies l.spec_index(r1, c1) != r.spec_index(r2, c2) by {
        crate::layout::lemma_lin_rebase(off, rs, cs, pos, 0, r2, c2);
        assert(r.spec_index(r2, c2) == lin_index(off, pos + r2, rs, c2, cs));
        assert(l.spec_index(r1, c1) == lin_index(off, r1, rs, c1, cs));
        if lin_index(off, r1, rs, c1, cs) == lin_index(off, pos + r2, rs, c2, cs) {
            assert(r1 == pos + r2 && c1 == c2);
            assert(false);
        }
    }
}

/// Converting any storage to an owned container and then walking it in full
/// yields the same element sequence as walking the source: conversion
/// preserves the row-major logical sequence, and a full iterator of either
/// side yields exactly that sequence.
pub proof fn lemma_owned_iteration_unchanged<T: Copy, S: Storage<T>, O: Storage<T>>(
    src: S,
    owned_c: O,
    src_elems: Seq<T>,
    owned_elems: Seq<T>,
)
    requires
        src_elems == src.logical(),
        owned_elems == owned_c.logical(),
        owned_c.logical() == src.logical(),
    ensures
        owned_elems == src_elems,
{
}

} // verus!
