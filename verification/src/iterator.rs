//! The iteration engine. An axis iterator walks one axis as a sequence of
//! physical offsets; a full iterator walks a primary axis and, for each
//! primary step, the entire secondary axis nested underneath, yielding
//! offsets in row-major logical order. Iterators over a shared buffer resolve
//! offsets to elements; exclusive variants stay descriptors and resolve
//! against the storage they came from.
use crate::dims::Dim;
use crate::dims::Size;
use crate::dims::Strides;
use crate::dims::U1;
use crate::layout::grid_offsets;
use crate::layout::in_bounds_all;
use crate::layout::lemma_grid_in_bounds;
use crate::layout::lemma_grid_index;
use crate::layout::lemma_lin_rebase;
use crate::layout::lemma_logical_index;
use crate::layout::lemma_grid_len;
use crate::layout::lemma_grid_reads_logical;
use crate::layout::layout_ok;
use crate::layout::lemma_subview_ok;
use crate::layout::lin_index;
use crate::layout::logical_of;
use crate::slice::Slice;
use crate::slice::SliceBase;
use crate::slice::SliceMut;
use crate::slice::SliceRange;
use crate::storage::Storage;
use crate::storage::StorageSize;
use crate::storage::StorageView;
use crate::storage::Strided;
use crate::storage::StridedIndex;
use crate::view::RefStorage;
use crate::view::RefStorageMut;
use vstd::prelude::*;

verus! {

/// Walks one axis: `length` steps of `stride` elements each, starting at
/// physical offset `offset`, with `cursor` steps already taken.
#[derive(Clone, Copy, Debug)]
pub struct AxisIterRaw<SS: Dim> {
    pub length: usize,
    pub stride: SS,
    pub cursor: usize,
    pub offset: usize,
}

impl<SS: Dim> AxisIterRaw<SS> {
    /// The physical offsets this iterator has yet to yield, in order.
    pub open spec fn remaining(&self) -> Seq<int> {
        if self.cursor >= self.length {
            Seq::empty()
        } else {
            Seq::new(
                (self.length - self.cursor) as nat,
                |i: int|
                    self.offset as int + (self.cursor as int + i) * (
                    self.stride.spec_value() as int),
            )
        }
    }

    /// Well-formedness: the cursor has not passed the end, and no offset of
    /// the walk can exceed the machine's word.
    pub open spec fn wf(&self) -> bool {
        &&& self.cursor <= self.length
        &&& (self.length == 0 || self.offset as int + (self.length - 1) as int * (
        self.stride.spec_value() as int) <= usize::MAX as int)
    }

    /// Starts a walk of `length` steps of `stride` elements from `offset`,
    /// with `cursor` steps already taken.
    pub fn new(length: usize, stride: SS, cursor: usize, offset: usize) -> (it: Self)
        requires
            cursor <= length,
            length == 0 || offset as int + (length - 1) as int * (stride.spec_value() as int)
                <= usize::MAX as int,
        ensures
            it.wf(),
            it == (AxisIterRaw { length, stride, cursor, offset }),
    {
        AxisIterRaw { length, stride, cursor, offset }
    }

    /// Returns how many offsets are left.
    pub fn len(&self) -> (l: usize)
        requires
            self.wf(),
        ensures
            l as nat == self.remaining().len(),
    {
        self.length - self.cursor
    }

    /// Yields the next offset, or `None` when the walk is exhausted.
    pub fn next(&mut self) -> (r: Option<usize>)
        requires
            old(self).wf(),
        ensures
            final(self).wf(),
            final(self).length == old(self).length,
            final(self).stride == old(self).stride,
            final(self).offset == old(self).offset,
            old(self).remaining().len() == 0 ==> r == None::<usize> && *final(self) == *old(self),
            old(self).remaining().len() > 0 ==> match r {
                Some(o) => o as int == old(self).remaining()[0] && final(self).remaining() == old(
                    self,
                ).remaining().drop_first(),
                None => false,
            },
    {
        if self.cursor < self.length {
            proof {
                assert(self.cursor as int * (self.stride.spec_value() as int) <= (self.length
                    - 1) as int * (self.stride.spec_value() as int)) by (nonlinear_arith)
                    requires
                        self.cursor as int <= (self.length - 1) as int,
                        self.stride.spec_value() >= 0,
                ;
                assert(0 <= self.cursor as int * (self.stride.spec_value() as int))
                    by (nonlinear_arith)
                    requires
                        self.cursor >= 0,
                        self.stride.spec_value() >= 0,
                ;
            }
            let off = self.offset + self.cursor * self.stride.value();
            self.cursor = self.cursor + 1;
            proof {
                assert(self.remaining() =~= old(self).remaining().drop_first());
            }
            Some(off)
        } else {
            None
        }
    }
}

/// Walks a primary axis of `length` steps of `stride` elements from `offset`,
/// nesting a full secondary-axis walk under each primary step; yields
/// physical offsets in row-major logical order. `cursor` is the next primary
/// line to load; the current line's walk is `axis`.
#[derive(Clone, Copy, Debug)]
pub struct FullIterCore<P: Dim, PS: Dim, SS: Dim> {
    pub length: P,
    pub cursor: usize,
    pub stride: PS,
    pub axis: AxisIterRaw<SS>,
    pub offset: usize,
}

impl<P: Dim, PS: Dim, SS: Dim> FullIterCore<P, PS, SS> {
    /// The physical offsets this iterator has yet to yield, in order: the
    /// rest of the current line, then the lines not yet loaded.
    pub open spec fn remaining(&self) -> Seq<int> {
        self.axis.remaining() + grid_offsets(
            self.offset as int,
            self.cursor as int,
            self.length.spec_value() as int,
            self.stride.spec_value() as int,
            self.axis.length as int,
            self.axis.stride.spec_value() as int,
        )
    }

    /// Well-formedness: the line walk is valid, at least one line was loaded,
    /// and every offset yet to be yielded fits the machine's word.
    pub open spec fn wf(&self) -> bool {
        &&& self.axis.wf()
        &&& 1 <= self.cursor
        &&& self.remaining().len() <= usize::MAX
        &&& forall|k: int|
            0 <= k < self.remaining().len() ==> 0 <= #[trigger] self.remaining()[k]
                <= usize::MAX as int
    }

    /// Starts a full walk: `prim_size` primary steps of `prim_stride`
    /// elements from `offset`, each nesting `scnd_size` secondary steps of
    /// `scnd_stride` elements.
    pub fn new<S: Dim>(
        offset: usize,
        prim_size: P,
        prim_stride: PS,
        scnd_size: S,
        scnd_stride: SS,
    ) -> (it: Self)
        requires
            prim_size.spec_value() * scnd_size.spec_value() <= usize::MAX,
            in_bounds_all(
                offset as int,
                prim_size.spec_value() as int,
                prim_stride.spec_value() as int,
                scnd_size.spec_value() as int,
                scnd_stride.spec_value() as int,
                usize::MAX as int + 1,
            ),
        ensures
            it.wf(),
            it.length == prim_size,
            it.stride == prim_stride,
            it.offset == offset,
            it.axis.stride == scnd_stride,
            it.axis.length as nat == (if prim_size.spec_value() == 0 {
                0nat
            } else {
                scnd_size.spec_value()
            }),
            prim_size.spec_value() > 0 ==> it.remaining() == grid_offsets(
                offset as int,
                0,
                prim_size.spec_value() as int,
                prim_stride.spec_value() as int,
                scnd_size.spec_value() as int,
                scnd_stride.spec_value() as int,
            ),
            prim_size.spec_value() == 0 ==> it.remaining() == Seq::<int>::empty(),
    {
        let prim = prim_size.value();
        let scnd = scnd_size.value();
        let axis_len = if prim == 0 {
            0
        } else {
            scnd
        };
        let ghost primv = prim_size.spec_value() as int;
        let ghost ps = prim_stride.spec_value() as int;
        let ghost scndv = scnd_size.spec_value() as int;
        let ghost ss = scnd_stride.spec_value() as int;
        proof {
            if prim > 0 && scnd > 0 {
                assert(lin_index(offset as int, 0, ps, (scnd - 1) as int, ss) <= usize::MAX as int);
                assert(offset as int + (scnd - 1) as int * ss == lin_index(
                    offset as int,
                    0,
                    ps,
                    (scnd - 1) as int,
                    ss,
                ));
            }
        }
        let axis = AxisIterRaw::new(axis_len, scnd_stride, 0, offset);
        let it = FullIterCore { length: prim_size, cursor: 1, stride: prim_stride, axis, offset };
        proof {
            lemma_grid_len(offset as int, 1, primv, ps, scndv, ss);
            lemma_grid_len(offset as int, 0, primv, ps, scndv, ss);
            if primv > 0 {
                assert(it.axis.remaining() =~= crate::layout::line_offsets(
                    offset as int,
                    scndv,
                    ss,
                ));
                assert(grid_offsets(offset as int, 0, primv, ps, scndv, ss)
                    == crate::layout::line_offsets(offset as int, scndv, ss) + grid_offsets(
                    offset as int,
                    1,
                    primv,
                    ps,
                    scndv,
                    ss,
                ));
                assert(it.remaining() =~= grid_offsets(offset as int, 0, primv, ps, scndv, ss));
                assert(it.remaining().len() == primv * scndv);
                if scndv > 0 {
                    assert forall|k: int| 0 <= k < it.remaining().len() implies 0
                        <= #[trigger] it.remaining()[k] <= usize::MAX as int by {
                        lemma_grid_in_bounds(
                            offset as int,
                            primv,
                            ps,
                            scndv,
                            ss,
                            usize::MAX as int + 1,
                            k,
                        );
                    }
                }
            } else {
                assert(it.remaining() =~= Seq::<int>::empty());
            }
        }
        it
    }

    /// Returns the physical offset of primary line `pos`.
    pub fn offset(&self, pos: usize) -> (o: usize)
        requires
            self.wf(),
            self.cursor <= pos,
            (pos as nat) < self.length.spec_value(),
            self.axis.length > 0,
        ensures
            o as int == self.offset as int + pos as int * (self.stride.spec_value() as int),
    {
        proof {
            let primv = self.length.spec_value() as int;
            let ps = self.stride.spec_value() as int;
            let scndv = self.axis.length as int;
            let ss = self.axis.stride.spec_value() as int;
            lemma_grid_len(self.offset as int, self.cursor as int, primv, ps, scndv, ss);
            let k = (pos - self.cursor) as int * scndv;
            assert(0 <= k && k < (primv - self.cursor as int) * scndv && k / scndv == pos
                - self.cursor && k % scndv == 0) by (nonlinear_arith)
                requires
                    self.cursor as int <= pos as int,
                    (pos as int) < primv,
                    scndv > 0,
                    k == (pos - self.cursor) as int * scndv,
            ;
            lemma_grid_index(self.offset as int, self.cursor as int, primv, ps, scndv, ss, k);
            let g = grid_offsets(self.offset as int, self.cursor as int, primv, ps, scndv, ss);
            assert(g[k] == lin_index(self.offset as int, pos as int, ps, 0, ss));
            assert(self.remaining()[self.axis.remaining().len() + k] == g[k]);
            assert(0 <= g[k] <= usize::MAX as int);
            assert(0 <= pos as int * ps) by (nonlinear_arith)
                requires
                    pos >= 0,
                    ps >= 0,
            ;
        }
        self.offset + pos * self.stride.value()
    }

    /// Returns the exact number of offsets left, twice.
    pub fn size_hint(&self) -> (r: (usize, Option<usize>))
        requires
            self.wf(),
        ensures
            r.0 as nat == self.remaining().len(),
            r.1 == Some(r.0),
    {
        proof {
            lemma_grid_len(
                self.offset as int,
                self.cursor as int,
                self.length.spec_value() as int,
                self.stride.spec_value() as int,
                self.axis.length as int,
                self.axis.stride.spec_value() as int,
            );
        }
        let prim = self.length.value();
        let l = if self.cursor < prim {
            (prim - self.cursor) * self.axis.length + self.axis.len()
        } else {
            self.axis.len()
        };
        (l, Some(l))
    }

    /// Yields the next offset: the rest of the current line first, else the
    /// next line is loaded and walked; `None` when all lines are done.
    pub fn next(&mut self) -> (r: Option<usize>)
        requires
            old(self).wf(),
        ensures
            final(self).wf(),
            final(self).length == old(self).length,
            final(self).stride == old(self).stride,
            final(self).offset == old(self).offset,
            final(self).axis.length == old(self).axis.length,
            final(self).axis.stride == old(self).axis.stride,
            old(self).remaining().len() == 0 ==> r == None::<usize> && final(self).remaining()
                == old(self).remaining(),
            old(self).remaining().len() > 0 ==> match r {
                Some(o) => o as int == old(self).remaining()[0] && final(self).remaining() == old(
                    self,
                ).remaining().drop_first(),
                None => false,
            },
        decreases self.length.spec_value() as int - self.cursor as int,
    {
        let ghost primv = self.length.spec_value() as int;
        let ghost ps = self.stride.spec_value() as int;
        let ghost scndv = self.axis.length as int;
        let ghost ss = self.axis.stride.spec_value() as int;
        if self.axis.len() > 0 {
            let r = self.axis.next();
            proof {
                assert(self.remaining() =~= old(self).remaining().drop_first());
                assert forall|k: int| 0 <= k < self.remaining().len() implies 0
                    <= #[trigger] self.remaining()[k] <= usize::MAX as int by {
                    assert(self.remaining()[k] == old(self).remaining()[k + 1]);
                }
            }
            r
        } else if self.axis.length > 0 && self.cursor < self.length.value() {
            let noff = self.offset(self.cursor);
            let ghost pre = *self;
            self.axis = AxisIterRaw {
                length: self.axis.length,
                stride: self.axis.stride,
                cursor: 0,
                offset: noff,
            };
            self.cursor = self.cursor + 1;
            proof {
                lemma_grid_len(pre.offset as int, pre.cursor as int, primv, ps, scndv, ss);
                let line = crate::layout::line_offsets(noff as int, scndv, ss);
                assert(grid_offsets(pre.offset as int, pre.cursor as int, primv, ps, scndv, ss)
                    == line + grid_offsets(
                    pre.offset as int,
                    pre.cursor as int + 1,
                    primv,
                    ps,
                    scndv,
                    ss,
                ));
                assert(self.axis.remaining() =~= line);
                assert(self.remaining() =~= old(self).remaining());
                assert(self.axis.wf()) by {
                    assert(self.remaining()[scndv - 1] == noff as int + (scndv - 1) * ss);
                    assert(0 <= self.remaining()[scndv - 1] <= usize::MAX as int);
                };
            }
            self.next()
        } else {
            proof {
                lemma_grid_len(self.offset as int, self.cursor as int, primv, ps, scndv, ss);
                if self.axis.length == 0 {
                    assert(self.remaining() =~= Seq::<int>::empty());
                }
            }
            None
        }
    }
}

/// A full iterator over a shared buffer: yields the elements of a strided
/// region in row-major logical order.
#[derive(Clone, Copy, Debug)]
pub struct FullIter<'a, T, P: Dim, PS: Dim, SS: Dim> {
    pub iter: FullIterCore<P, PS, SS>,
    pub buf: &'a [T],
}

impl<'a, T: Copy, P: Dim, PS: Dim, SS: Dim> FullIter<'a, T, P, PS, SS> {
    /// The elements this iterator has yet to yield, in order.
    pub open spec fn elems(&self) -> Seq<T> {
        Seq::new(self.iter.remaining().len(), |i: int| self.buf@[self.iter.remaining()[i]])
    }

    /// Well-formedness: the offset walk is valid and stays inside the buffer.
    pub open spec fn wf(&self) -> bool {
        &&& self.iter.wf()
        &&& forall|k: int|
            0 <= k < self.iter.remaining().len() ==> #[trigger] self.iter.remaining()[k] < (
            self.buf@.len() as int)
    }

    /// Starts a full walk over `buf`: `prim_size` primary steps of
    /// `prim_stride` elements from `offset`, each nesting `scnd_size`
    /// secondary steps of `scnd_stride` elements. The walk yields exactly the
    /// logical sequence of that region.
    pub fn new<S: Dim>(
        buf: &'a [T],
        offset: usize,
        prim_size: P,
        prim_stride: PS,
        scnd_size: S,
        scnd_stride: SS,
    ) -> (it: Self)
        requires
            prim_size.spec_value() * scnd_size.spec_value() <= usize::MAX,
            in_bounds_all(
                offset as int,
                prim_size.spec_value() as int,
                prim_stride.spec_value() as int,
                scnd_size.spec_value() as int,
                scnd_stride.spec_value() as int,
                buf@.len() as int,
            ),
        ensures
            it.wf(),
            it.buf@ == buf@,
            it.elems() == logical_of(
                buf@,
                offset as int,
                prim_size.spec_value() as int,
                prim_stride.spec_value() as int,
                scnd_size.spec_value() as int,
                scnd_stride.spec_value() as int,
            ),
    {
        let blen = buf.len();
        let ghost primv = prim_size.spec_value() as int;
        let ghost ps = prim_stride.spec_value() as int;
        let ghost scndv = scnd_size.spec_value() as int;
        let ghost ss = scnd_stride.spec_value() as int;
        proof {
            assert forall|r: int, c: int| 0 <= r < primv && 0 <= c < scndv implies #[trigger] lin_index(
                offset as int,
                r,
                ps,
                c,
                ss,
            ) < usize::MAX as int + 1 by {
                assert(lin_index(offset as int, r, ps, c, ss) < buf@.len() as int);
            }
        }
        let core = FullIterCore::new(offset, prim_size, prim_stride, scnd_size, scnd_stride);
        let it = FullIter { iter: core, buf };
        proof {
            lemma_grid_len(offset as int, 0, primv, ps, scndv, ss);
            if primv > 0 && scndv > 0 {
                assert forall|k: int| 0 <= k < it.iter.remaining().len() implies #[trigger] it.iter.remaining()[k]
                    < (buf@.len() as int) by {
                    lemma_grid_in_bounds(offset as int, primv, ps, scndv, ss, buf@.len() as int, k);
                }
            } else {
                assert(primv * scndv == 0) by (nonlinear_arith)
                    requires
                        primv == 0 || scndv == 0,
                ;
                assert(it.iter.remaining().len() == 0);
            }
            lemma_grid_reads_logical(buf@, offset as int, primv, ps, scndv, ss);
            if primv > 0 {
                assert(it.elems() =~= crate::layout::read_all(
                    buf@,
                    grid_offsets(offset as int, 0, primv, ps, scndv, ss),
                ));
            } else {
                assert(it.elems() =~= crate::layout::read_all(
                    buf@,
                    grid_offsets(offset as int, 0, primv, ps, scndv, ss),
                ));
            }
        }
        it
    }

    /// Returns the exact number of elements left, twice.
    pub fn size_hint(&self) -> (r: (usize, Option<usize>))
        requires
            self.wf(),
        ensures
            r.0 as nat == self.elems().len(),
            r.1 == Some(r.0),
    {
        self.iter.size_hint()
    }

    /// Yields the next element, or `None` when the walk is exhausted.
    pub fn next(&mut self) -> (r: Option<T>)
        requires
            old(self).wf(),
        ensures
            final(self).wf(),
            final(self).buf@ == old(self).buf@,
            old(self).elems().len() == 0 ==> r == None::<T> && final(self).elems() == old(
                self,
            ).elems(),
            old(self).elems().len() > 0 ==> match r {
                Some(v) => v == old(self).elems()[0] && final(self).elems() == old(
                    self,
                ).elems().drop_first(),
                None => false,
            },
    {
        match self.iter.next() {
            Some(off) => {
                proof {
                    assert(old(self).iter.remaining()[0] < self.buf@.len() as int);
                    assert forall|k: int| 0 <= k < self.iter.remaining().len() implies #[trigger] self.iter.remaining()[k]
                        < (self.buf@.len() as int) by {
                        assert(self.iter.remaining()[k] == old(self).iter.remaining()[k + 1]);
                    }
                    assert(self.elems() =~= old(self).elems().drop_first());
                }
                Some(self.buf[off])
            },
            None => {
                proof {
                    assert(self.elems() =~= old(self).elems());
                }
                None
            },
        }
    }

    /// Consumes the iterator and collects the elements it would yield.
    #[verifier::loop_isolation(false)]
    pub fn to_vec(self) -> (v: Vec<T>)
        requires
            self.wf(),
        ensures
            v@ == self.elems(),
    {
        let ghost e0 = self.elems();
        let mut it = self;
        let mut v: Vec<T> = Vec::new();
        loop
            invariant
                it.wf(),
                v@ + it.elems() == e0,
            decreases it.elems().len(),
        {
            match it.next() {
                Some(x) => {
                    v.push(x);
                    proof {
                        assert(v@ + it.elems() =~= e0);
                    }
                },
                None => {
                    proof {
                        assert(v@ =~= e0);
                    }
                    return v;
                },
            }
        }
    }
}

/// A full iterator descriptor for exclusive traversal: yields physical
/// offsets of a strided region in row-major logical order; reading resolves
/// against the storage the region came from.
#[derive(Debug)]
pub struct FullIterMut<T, P: Dim, PS: Dim, SS: Dim> {
    pub iter: FullIterCore<P, PS, SS>,
    pub buf_len: usize,
    pub elem: core::marker::PhantomData<T>,
}

impl<T: Copy, P: Dim, PS: Dim, SS: Dim> FullIterMut<T, P, PS, SS> {
    /// The physical offsets this iterator has yet to yield, in order.
    pub open spec fn offsets(&self) -> Seq<int> {
        self.iter.remaining()
    }

    /// The elements a buffer holds at the offsets yet to be yielded.
    pub open spec fn elems_in(&self, buf: Seq<T>) -> Seq<T> {
        Seq::new(self.offsets().len(), |i: int| buf[self.offsets()[i]])
    }

    /// Well-formedness: the offset walk is valid and stays inside a buffer of
    /// the recorded length.
    pub open spec fn wf(&self) -> bool {
        &&& self.iter.wf()
        &&& forall|k: int|
            0 <= k < self.offsets().len() ==> #[trigger] self.offsets()[k] < (self.buf_len as int)
    }

    /// Starts a full walk over a buffer of length `buf_len`: `prim_size`
    /// primary steps of `prim_stride` elements from `offset`, each nesting
    /// `scnd_size` secondary steps of `scnd_stride` elements.
    pub fn new<S: Dim>(
        buf_len: usize,
        offset: usize,
        prim_size: P,
        prim_stride: PS,
        scnd_size: S,
        scnd_stride: SS,
    ) -> (it: Self)
        requires
            prim_size.spec_value() * scnd_size.spec_value() <= usize::MAX,
            in_bounds_all(
                offset as int,
                prim_size.spec_value() as int,
                prim_stride.spec_value() as int,
                scnd_size.spec_value() as int,
                scnd_stride.spec_value() as int,
                buf_len as int,
            ),
        ensures
            it.wf(),
            it.buf_len == buf_len,
            prim_size.spec_value() > 0 ==> it.offsets() == grid_offsets(
                offset as int,
                0,
                prim_size.spec_value() as int,
                prim_stride.spec_value() as int,
                scnd_size.spec_value() as int,
                scnd_stride.spec_value() as int,
            ),
            prim_size.spec_value() == 0 ==> it.offsets() == Seq::<int>::empty(),
            forall|buf: Seq<T>|
                buf.len() == buf_len ==> #[trigger] it.elems_in(buf) == logical_of(
                    buf,
                    offset as int,
                    prim_size.spec_value() as int,
                    prim_stride.spec_value() as int,
                    scnd_size.spec_value() as int,
                    scnd_stride.spec_value() as int,
                ),
    {
        let ghost primv = prim_size.spec_value() as int;
        let ghost ps = prim_stride.spec_value() as int;
        let ghost scndv = scnd_size.spec_value() as int;
        let ghost ss = scnd_stride.spec_value() as int;
        proof {
            assert forall|r: int, c: int| 0 <= r < primv && 0 <= c < scndv implies #[trigger] lin_index(
                offset as int,
                r,
                ps,
                c,
                ss,
            ) < usize::MAX as int + 1 by {
                assert(lin_index(offset as int, r, ps, c, ss) < buf_len as int);
            }
        }
        let core = FullIterCore::new(offset, prim_size, prim_stride, scnd_size, scnd_stride);
        let it = FullIterMut { iter: core, buf_len, elem: core::marker::PhantomData };
        proof {
            lemma_grid_len(offset as int, 0, primv, ps, scndv, ss);
            if primv > 0 && scndv > 0 {
                assert forall|k: int| 0 <= k < it.offsets().len() implies #[trigger] it.offsets()[k]
                    < (buf_len as int) by {
                    lemma_grid_in_bounds(offset as int, primv, ps, scndv, ss, buf_len as int, k);
                }
            } else {
                assert(primv * scndv == 0) by (nonlinear_arith)
                    requires
                        primv == 0 || scndv == 0,
                ;
                assert(it.offsets().len() == 0);
            }
            assert forall|buf: Seq<T>| buf.len() == buf_len implies #[trigger] it.elems_in(buf)
                == logical_of(buf, offset as int, primv, ps, scndv, ss) by {
                lemma_grid_reads_logical(buf, offset as int, primv, ps, scndv, ss);
                if primv > 0 {
                    assert(it.elems_in(buf) =~= crate::layout::read_all(
                        buf,
                        grid_offsets(offset as int, 0, primv, ps, scndv, ss),
                    ));
                } else {
                    assert(it.elems_in(buf) =~= crate::layout::read_all(
                        buf,
                        grid_offsets(offset as int, 0, primv, ps, scndv, ss),
                    ));
                }
            }
        }
        it
    }

    /// Returns the exact number of offsets left, twice.
    pub fn size_hint(&self) -> (r: (usize, Option<usize>))
        requires
            self.wf(),
        ensures
            r.0 as nat == self.offsets().len(),
            r.1 == Some(r.0),
    {
        self.iter.size_hint()
    }

    /// Yields the next offset, or `None` when the walk is exhausted.
    pub fn next_offset(&mut self) -> (r: Option<usize>)
        requires
            old(self).wf(),
        ensures
            final(self).wf(),
            final(self).buf_len == old(self).buf_len,
            old(self).offsets().len() == 0 ==> r == None::<usize> && final(self).offsets() == old(
                self,
            ).offsets(),
            old(self).offsets().len() > 0 ==> match r {
                Some(o) => o as int == old(self).offsets()[0] && (o as int) < old(
                    self,
                ).buf_len as int && final(self).offsets() == old(self).offsets().drop_first(),
                None => false,
            },
    {
        let r = self.iter.next();
        proof {
            if old(self).offsets().len() > 0 {
                assert(old(self).offsets()[0] < old(self).buf_len as int);
                assert forall|k: int| 0 <= k < self.offsets().len() implies #[trigger] self.offsets()[k]
                    < (self.buf_len as int) by {
                    assert(self.offsets()[k] == old(self).offsets()[k + 1]);
                }
            }
        }
        r
    }

    /// Consumes the iterator and collects, from `src`, the elements at the
    /// offsets it would yield.
    #[verifier::loop_isolation(false)]
    pub fn to_vec<S: crate::storage::Storage<T>>(self, src: &S) -> (v: Vec<T>)
        requires
            self.wf(),
            src.wf(),
            self.buf_len == src.spec_buf().len(),
        ensures
            v@ == self.elems_in(src.spec_buf()),
    {
        let ghost e0 = self.elems_in(src.spec_buf());
        let mut it = self;
        let mut v: Vec<T> = Vec::new();
        loop
            invariant
                it.wf(),
                src.wf(),
                it.buf_len == src.spec_buf().len(),
                v@ + it.elems_in(src.spec_buf()) == e0,
            decreases it.offsets().len(),
        {
            match it.next_offset() {
                Some(off) => {
                    let x = src.read_index(off);
                    v.push(x);
                    proof {
                        assert(it.elems_in(src.spec_buf()) =~= Seq::new(
                            it.offsets().len(),
                            |i: int| src.spec_buf()[it.offsets()[i]],
                        ));
                        assert(v@ + it.elems_in(src.spec_buf()) =~= e0);
                    }
                },
                None => {
                    proof {
                        assert(v@ =~= e0);
                    }
                    return v;
                },
            }
        }
    }
}

/// An iterator that can be divided into two disjoint, order-preserving
/// continuations: the left one yields exactly the first `pos` offsets, the
/// right one exactly the rest, in the same relative order.
pub trait SplittableIterator: Sized {
    /// Well-formedness of the iterator's state.
    spec fn valid(&self) -> bool;

    /// The physical offsets this iterator has yet to yield, in order.
    spec fn offsets(&self) -> Seq<int>;

    /// Divides this iterator at `pos`.
    fn split_at(self, pos: usize) -> (r: (Self, Self))
        requires
            self.valid(),
            pos as nat <= self.offsets().len(),
        ensures
            r.0.valid(),
            r.1.valid(),
            r.0.offsets() == self.offsets().take(pos as int),
            r.1.offsets() == self.offsets().skip(pos as int),
    ;
}

impl<SS: Dim> SplittableIterator for AxisIterRaw<SS> {
    open spec fn valid(&self) -> bool {
        self.wf()
    }

    open spec fn offsets(&self) -> Seq<int> {
        self.remaining()
    }

    fn split_at(self, pos: usize) -> (AxisIterRaw<SS>, AxisIterRaw<SS>) {
        let mid = self.cursor + pos;
        let l = AxisIterRaw {
            length: mid,
            stride: self.stride,
            cursor: self.cursor,
            offset: self.offset,
        };
        let r = AxisIterRaw {
            length: self.length,
            stride: self.stride,
            cursor: mid,
            offset: self.offset,
        };
        proof {
            let st = self.stride.spec_value() as int;
            if mid > 0 {
                assert((mid - 1) as int * st <= (self.length - 1) as int * st)
                    by (nonlinear_arith)
                    requires
                        (mid - 1) as int <= (self.length - 1) as int,
                        st >= 0,
                ;
            }
            assert(l.remaining() =~= self.remaining().take(pos as int));
            assert(r.remaining() =~= self.remaining().skip(pos as int));
        }
        (l, r)
    }
}

/// Iterates the rows of a region as one-row slices over the same buffer. A
/// region with no columns yields no row slices.
#[derive(Clone, Copy, Debug)]
pub struct RowSliceIter<'a, T, R: Dim, RS: Dim, C: Dim, CS: Dim> {
    pub iter: AxisIterRaw<RS>,
    pub size: Size<R, C>,
    pub strides: Strides<RS, CS>,
    pub buf: &'a [T],
}

impl<'a, T: Copy, R: Dim, RS: Dim, C: Dim, CS: Dim> SplittableIterator for RowSliceIter<
    'a,
    T,
    R,
    RS,
    C,
    CS,
> {
    open spec fn valid(&self) -> bool {
        &&& self.iter.wf()
        &&& forall|k: int|
            0 <= k < self.iter.remaining().len() ==> layout_ok(
                #[trigger] self.iter.remaining()[k],
                1,
                self.strides.spec_row() as int,
                self.size.spec_cols() as int,
                self.strides.spec_col() as int,
                self.buf@.len() as int,
            )
    }

    open spec fn offsets(&self) -> Seq<int> {
        self.iter.remaining()
    }

    fn split_at(self, pos: usize) -> (RowSliceIter<'a, T, R, RS, C, CS>, RowSliceIter<
        'a,
        T,
        R,
        RS,
        C,
        CS,
    >) {
        let (il, ir) = self.iter.split_at(pos);
        let l = RowSliceIter { iter: il, size: self.size, strides: self.strides, buf: self.buf };
        let r = RowSliceIter { iter: ir, size: self.size, strides: self.strides, buf: self.buf };
        proof {
            assert forall|k: int| 0 <= k < l.iter.remaining().len() implies layout_ok(
                #[trigger] l.iter.remaining()[k],
                1,
                l.strides.spec_row() as int,
                l.size.spec_cols() as int,
                l.strides.spec_col() as int,
                l.buf@.len() as int,
            ) by {
                assert(l.iter.remaining()[k] == self.iter.remaining()[k]);
            }
            assert forall|k: int| 0 <= k < r.iter.remaining().len() implies layout_ok(
                #[trigger] r.iter.remaining()[k],
                1,
                r.strides.spec_row() as int,
                r.size.spec_cols() as int,
                r.strides.spec_col() as int,
                r.buf@.len() as int,
            ) by {
                assert(r.iter.remaining()[k] == self.iter.remaining()[pos + k]);
            }
        }
        (l, r)
    }
}

impl<'a, T: Copy, R: Dim, RS: Dim, C: Dim, CS: Dim> RowSliceIter<'a, T, R, RS, C, CS> {
    /// Starts a walk over the rows of `s`, one slice per row.
    pub fn from_storage<S>(s: &'a S) -> (it: Self) where
        S: Storage<T> + StorageSize<Rows = R, Cols = C> + Strided<RowStride = RS, ColStride = CS>,

        requires
            s.wf(),
        ensures
            it.valid(),
            it.buf@ == s.spec_buf(),
            it.size.spec_cols() == s.spec_cols(),
            it.strides.spec_row() == s.spec_row_stride(),
            it.strides.spec_col() == s.spec_col_stride(),
            s.spec_cols() > 0 ==> it.offsets().len() == s.spec_rows(),
            s.spec_cols() == 0 ==> it.offsets().len() == 0,
            forall|k: int|
                0 <= k < it.offsets().len() ==> #[trigger] it.offsets()[k] == s.spec_index(k, 0),
    {
        let rows = s.rows();
        let cols = s.cols();
        let n = if cols == 0 {
            0
        } else {
            rows
        };
        let off = s.offset();
        proof {
            s.lemma_wf();
            let offi = off as int;
            let rs = s.spec_row_stride() as int;
            let cs = s.spec_col_stride() as int;
            let len = s.spec_buf().len() as int;
            if n > 0 {
                assert(lin_index(offi, (n - 1) as int, rs, 0, cs) < len);
                assert(offi + (n - 1) as int * rs == lin_index(offi, (n - 1) as int, rs, 0, cs));
            }
        }
        let iter = AxisIterRaw::new(n, s.row_stride_dim(), 0, off);
        let it = RowSliceIter { iter, size: s.size(), strides: s.strides(), buf: s.as_slice() };
        proof {
            let offi = off as int;
            let srows = s.spec_rows() as int;
            let scols = s.spec_cols() as int;
            let rs = s.spec_row_stride() as int;
            let cs = s.spec_col_stride() as int;
            let len = s.spec_buf().len() as int;
            assert forall|k: int| 0 <= k < it.iter.remaining().len() implies layout_ok(
                #[trigger] it.iter.remaining()[k],
                1,
                it.strides.spec_row() as int,
                it.size.spec_cols() as int,
                it.strides.spec_col() as int,
                it.buf@.len() as int,
            ) && it.iter.remaining()[k] == s.spec_index(k, 0) by {
                lemma_subview_ok(offi, srows, rs, scols, cs, len, k, 0, 1, scols);
                assert(it.iter.remaining()[k] == offi + k * rs);
                assert(lin_index(offi, k, rs, 0, cs) == offi + k * rs);
            }
        }
        it
    }

    /// Wraps a row-start offset as a one-row slice.
    fn make_slice(&self, off: usize) -> (sl: Slice<'a, T, U1, RS, C, CS>)
        requires
            layout_ok(
                off as int,
                1,
                self.strides.spec_row() as int,
                self.size.spec_cols() as int,
                self.strides.spec_col() as int,
                self.buf@.len() as int,
            ),
        ensures
            sl.wf(),
            sl.spec_buf() == self.buf@,
            sl.spec_rows() == 1,
            sl.spec_cols() == self.size.spec_cols(),
            sl.spec_row_stride() == self.strides.spec_row(),
            sl.spec_col_stride() == self.strides.spec_col(),
            sl.spec_offset() == off as nat,
    {
        let u = U1;
        proof {
            assert(u.spec_value() == 1);
        }
        SliceBase::new(RefStorage::new(self.buf, off, Size::new(u, self.size.col_dim()), self.strides))
    }

    /// Yields the next row as a one-row slice, or `None` when every row has
    /// been yielded.
    pub fn next(&mut self) -> (r: Option<Slice<'a, T, U1, RS, C, CS>>)
        requires
            old(self).valid(),
        ensures
            final(self).valid(),
            final(self).buf@ == old(self).buf@,
            final(self).size == old(self).size,
            final(self).strides == old(self).strides,
            old(self).offsets().len() == 0 ==> r == None::<Slice<'a, T, U1, RS, C, CS>> && final(self).offsets() == old(self).offsets(),
            old(self).offsets().len() > 0 ==> match r {
                Some(sl) => {
                    &&& sl.wf()
                    &&& sl.spec_buf() == old(self).buf@
                    &&& sl.spec_rows() == 1
                    &&& sl.spec_cols() == old(self).size.spec_cols()
                    &&& sl.spec_row_stride() == old(self).strides.spec_row()
                    &&& sl.spec_col_stride() == old(self).strides.spec_col()
                    &&& sl.spec_offset() == old(self).offsets()[0]
                    &&& final(self).offsets() == old(self).offsets().drop_first()
                },
                None => false,
            },
    {
        match self.iter.next() {
            Some(off) => {
                proof {
                    assert(old(self).iter.remaining()[0] == off as int);
                    assert forall|k: int| 0 <= k < self.iter.remaining().len() implies layout_ok(
                        #[trigger] self.iter.remaining()[k],
                        1,
                        self.strides.spec_row() as int,
                        self.size.spec_cols() as int,
                        self.strides.spec_col() as int,
                        self.buf@.len() as int,
                    ) by {
                        assert(self.iter.remaining()[k] == old(self).iter.remaining()[k + 1]);
                    }
                }
                Some(self.make_slice(off))
            },
            None => None,
        }
    }
}

/// Iterates the columns of a region as one-column slices over the same
/// buffer. A region with no rows yields no column slices.
#[derive(Clone, Copy, Debug)]
pub struct ColSliceIter<'a, T, R: Dim, RS: Dim, C: Dim, CS: Dim> {
    pub iter: AxisIterRaw<CS>,
    pub size: Size<R, C>,
    pub strides: Strides<RS, CS>,
    pub buf: &'a [T],
}

impl<'a, T: Copy, R: Dim, RS: Dim, C: Dim, CS: Dim> SplittableIterator for ColSliceIter<
    'a,
    T,
    R,
    RS,
    C,
    CS,
> {
    open spec fn valid(&self) -> bool {
        &&& self.iter.wf()
        &&& forall|k: int|
            0 <= k < self.iter.remaining().len() ==> layout_ok(
                #[trigger] self.iter.remaining()[k],
                self.size.spec_rows() as int,
                self.strides.spec_row() as int,
                1,
                self.strides.spec_col() as int,
                self.buf@.len() as int,
            )
    }

    open spec fn offsets(&self) -> Seq<int> {
        self.iter.remaining()
    }

    fn split_at(self, pos: usize) -> (ColSliceIter<'a, T, R, RS, C, CS>, ColSliceIter<
        'a,
        T,
        R,
        RS,
        C,
        CS,
    >) {
        let (il, ir) = self.iter.split_at(pos);
        let l = ColSliceIter { iter: il, size: self.size, strides: self.strides, buf: self.buf };
        let r = ColSliceIter { iter: ir, size: self.size, strides: self.strides, buf: self.buf };
        proof {
            assert forall|k: int| 0 <= k < l.iter.remaining().len() implies layout_ok(
                #[trigger] l.iter.remaining()[k],
                l.size.spec_rows() as int,
                l.strides.spec_row() as int,
                1,
                l.strides.spec_col() as int,
                l.buf@.len() as int,
            ) by {
                assert(l.iter.remaining()[k] == self.iter.remaining()[k]);
            }
            assert forall|k: int| 0 <= k < r.iter.remaining().len() implies layout_ok(
                #[trigger] r.iter.remaining()[k],
                r.size.spec_rows() as int,
                r.strides.spec_row() as int,
                1,
                r.strides.spec_col() as int,
                r.buf@.len() as int,
            ) by {
                assert(r.iter.remaining()[k] == self.iter.remaining()[pos + k]);
            }
        }
        (l, r)
    }
}

impl<'a, T: Copy, R: Dim, RS: Dim, C: Dim, CS: Dim> ColSliceIter<'a, T, R, RS, C, CS> {
    /// Starts a walk over the columns of `s`, one slice per column.
    pub fn from_storage<S>(s: &'a S) -> (it: Self) where
        S: Storage<T> + StorageSize<Rows = R, Cols = C> + Strided<RowStride = RS, ColStride = CS>,

        requires
            s.wf(),
        ensures
            it.valid(),
            it.buf@ == s.spec_buf(),
            it.size.spec_rows() == s.spec_rows(),
            it.strides.spec_row() == s.spec_row_stride(),
            it.strides.spec_col() == s.spec_col_stride(),
            s.spec_rows() > 0 ==> it.offsets().len() == s.spec_cols(),
            s.spec_rows() == 0 ==> it.offsets().len() == 0,
            forall|k: int|
                0 <= k < it.offsets().len() ==> #[trigger] it.offsets()[k] == s.spec_index(0, k),
    {
        let rows = s.rows();
        let cols = s.cols();
        let n = if rows == 0 {
            0
        } else {
            cols
        };
        let off = s.offset();
        proof {
            s.lemma_wf();
            let offi = off as int;
            let rs = s.spec_row_stride() as int;
            let cs = s.spec_col_stride() as int;
            let len = s.spec_buf().len() as int;
            if n > 0 {
                assert(lin_index(offi, 0, rs, (n - 1) as int, cs) < len);
                assert(offi + (n - 1) as int * cs == lin_index(offi, 0, rs, (n - 1) as int, cs));
            }
        }
        let iter = AxisIterRaw::new(n, s.col_stride_dim(), 0, off);
        let it = ColSliceIter { iter, size: s.size(), strides: s.strides(), buf: s.as_slice() };
        proof {
            let offi = off as int;
            let srows = s.spec_rows() as int;
            let scols = s.spec_cols() as int;
            let rs = s.spec_row_stride() as int;
            let cs = s.spec_col_stride() as int;
            let len = s.spec_buf().len() as int;
            assert forall|k: int| 0 <= k < it.iter.remaining().len() implies layout_ok(
                #[trigger] it.iter.remaining()[k],
                it.size.spec_rows() as int,
                it.strides.spec_row() as int,
                1,
                it.strides.spec_col() as int,
                it.buf@.len() as int,
            ) && it.iter.remaining()[k] == s.spec_index(0, k) by {
                lemma_subview_ok(offi, srows, rs, scols, cs, len, 0, k, srows, 1);
                assert(it.iter.remaining()[k] == offi + k * cs);
                assert(lin_index(offi, 0, rs, k, cs) == offi + k * cs);
            }
        }
        it
    }

    /// Wraps a column-start offset as a one-column slice.
    fn make_slice(&self, off: usize) -> (sl: Slice<'a, T, R, RS, U1, CS>)
        requires
            layout_ok(
                off as int,
                self.size.spec_rows() as int,
                self.strides.spec_row() as int,
                1,
                self.strides.spec_col() as int,
                self.buf@.len() as int,
            ),
        ensures
            sl.wf(),
            sl.spec_buf() == self.buf@,
            sl.spec_cols() == 1,
            sl.spec_rows() == self.size.spec_rows(),
            sl.spec_row_stride() == self.strides.spec_row(),
            sl.spec_col_stride() == self.strides.spec_col(),
            sl.spec_offset() == off as nat,
    {
        let u = U1;
        proof {
            assert(u.spec_value() == 1);
        }
        SliceBase::new(RefStorage::new(self.buf, off, Size::new(self.size.row_dim(), u), self.strides))
    }

    /// Yields the next column as a one-column slice, or `None` when every
    /// column has been yielded.
    pub fn next(&mut self) -> (r: Option<Slice<'a, T, R, RS, U1, CS>>)
        requires
            old(self).valid(),
        ensures
            final(self).valid(),
            final(self).buf@ == old(self).buf@,
            final(self).size == old(self).size,
            final(self).strides == old(self).strides,
            old(self).offsets().len() == 0 ==> r == None::<Slice<'a, T, R, RS, U1, CS>> && final(self).offsets() == old(self).offsets(),
            old(self).offsets().len() > 0 ==> match r {
                Some(sl) => {
                    &&& sl.wf()
                    &&& sl.spec_buf() == old(self).buf@
                    &&& sl.spec_cols() == 1
                    &&& sl.spec_rows() == old(self).size.spec_rows()
                    &&& sl.spec_row_stride() == old(self).strides.spec_row()
                    &&& sl.spec_col_stride() == old(self).strides.spec_col()
                    &&& sl.spec_offset() == old(self).offsets()[0]
                    &&& final(self).offsets() == old(self).offsets().drop_first()
                },
                None => false,
            },
    {
        match self.iter.next() {
            Some(off) => {
                proof {
                    assert(old(self).iter.remaining()[0] == off as int);
                    assert forall|k: int| 0 <= k < self.iter.remaining().len() implies layout_ok(
                        #[trigger] self.iter.remaining()[k],
                        self.size.spec_rows() as int,
                        self.strides.spec_row() as int,
                        1,
                        self.strides.spec_col() as int,
                        self.buf@.len() as int,
                    ) by {
                        assert(self.iter.remaining()[k] == old(self).iter.remaining()[k + 1]);
                    }
                }
                Some(self.make_slice(off))
            },
            None => None,
        }
    }
}

/// Iterates the rows of a region as one-row exclusive slice descriptors. A
/// region with no columns yields no row slices.
#[derive(Debug)]
pub struct RowSliceIterMut<T, R: Dim, RS: Dim, C: Dim, CS: Dim> {
    pub iter: AxisIterRaw<RS>,
    pub size: Size<R, C>,
    pub strides: Strides<RS, CS>,
    pub buf_len: usize,
    pub elem: core::marker::PhantomData<T>,
}

impl<T: Copy, R: Dim, RS: Dim, C: Dim, CS: Dim> SplittableIterator for RowSliceIterMut<
    T,
    R,
    RS,
    C,
    CS,
> {
    open spec fn valid(&self) -> bool {
        &&& self.iter.wf()
        &&& forall|k: int|
            0 <= k < self.iter.remaining().len() ==> layout_ok(
                #[trigger] self.iter.remaining()[k],
                1,
                self.strides.spec_row() as int,
                self.size.spec_cols() as int,
                self.strides.spec_col() as int,
                self.buf_len as int,
            )
    }

    open spec fn offsets(&self) -> Seq<int> {
        self.iter.remaining()
    }

    fn split_at(self, pos: usize) -> (RowSliceIterMut<T, R, RS, C, CS>, RowSliceIterMut<
        T,
        R,
        RS,
        C,
        CS,
    >) {
        let RowSliceIterMut { iter, size, strides, buf_len, elem } = self;
        let (il, ir) = iter.split_at(pos);
        let l = RowSliceIterMut { iter: il, size, strides, buf_len, elem };
        let r = RowSliceIterMut {
            iter: ir,
            size,
            strides,
            buf_len,
            elem: core::marker::PhantomData,
        };
        proof {
            assert forall|k: int| 0 <= k < l.iter.remaining().len() implies layout_ok(
                #[trigger] l.iter.remaining()[k],
                1,
                l.strides.spec_row() as int,
                l.size.spec_cols() as int,
                l.strides.spec_col() as int,
                l.buf_len as int,
            ) by {
                assert(l.iter.remaining()[k] == self.iter.remaining()[k]);
            }
            assert forall|k: int| 0 <= k < r.iter.remaining().len() implies layout_ok(
                #[trigger] r.iter.remaining()[k],
                1,
                r.strides.spec_row() as int,
                r.size.spec_cols() as int,
                r.strides.spec_col() as int,
                r.buf_len as int,
            ) by {
                assert(r.iter.remaining()[k] == self.iter.remaining()[pos + k]);
            }
        }
        (l, r)
    }
}

impl<T: Copy, R: Dim, RS: Dim, C: Dim, CS: Dim> RowSliceIterMut<T, R, RS, C, CS> {
    /// Starts a walk over the rows of `s`, one exclusive descriptor per row.
    pub fn from_storage<S>(s: &S) -> (it: Self) where
        S: Storage<T> + StorageSize<Rows = R, Cols = C> + Strided<RowStride = RS, ColStride = CS>,

        requires
            s.wf(),
        ensures
            it.valid(),
            it.buf_len == s.spec_buf().len(),
            it.size.spec_cols() == s.spec_cols(),
            it.strides.spec_row() == s.spec_row_stride(),
            it.strides.spec_col() == s.spec_col_stride(),
            s.spec_cols() > 0 ==> it.offsets().len() == s.spec_rows(),
            s.spec_cols() == 0 ==> it.offsets().len() == 0,
            forall|k: int|
                0 <= k < it.offsets().len() ==> #[trigger] it.offsets()[k] == s.spec_index(k, 0),
    {
        let rows = s.rows();
        let cols = s.cols();
        let n = if cols == 0 {
            0
        } else {
            rows
        };
        let off = s.offset();
        let bl = s.as_slice().len();
        proof {
            s.lemma_wf();
            let offi = off as int;
            let rs = s.spec_row_stride() as int;
            let cs = s.spec_col_stride() as int;
            let len = s.spec_buf().len() as int;
            if n > 0 {
                assert(lin_index(offi, (n - 1) as int, rs, 0, cs) < len);
                assert(offi + (n - 1) as int * rs == lin_index(offi, (n - 1) as int, rs, 0, cs));
            }
        }
        let iter = AxisIterRaw::new(n, s.row_stride_dim(), 0, off);
        let it = RowSliceIterMut {
            iter,
            size: s.size(),
            strides: s.strides(),
            buf_len: bl,
            elem: core::marker::PhantomData,
        };
        proof {
            let offi = off as int;
            let srows = s.spec_rows() as int;
            let scols = s.spec_cols() as int;
            let rs = s.spec_row_stride() as int;
            let cs = s.spec_col_stride() as int;
            let len = s.spec_buf().len() as int;
            assert forall|k: int| 0 <= k < it.iter.remaining().len() implies layout_ok(
                #[trigger] it.iter.remaining()[k],
                1,
                it.strides.spec_row() as int,
                it.size.spec_cols() as int,
                it.strides.spec_col() as int,
                it.buf_len as int,
            ) && it.iter.remaining()[k] == s.spec_index(k, 0) by {
                lemma_subview_ok(offi, srows, rs, scols, cs, len, k, 0, 1, scols);
                assert(it.iter.remaining()[k] == offi + k * rs);
                assert(lin_index(offi, k, rs, 0, cs) == offi + k * rs);
            }
        }
        it
    }

    /// Wraps a row-start offset as a one-row exclusive descriptor.
    fn make_slice(&self, off: usize) -> (sl: SliceMut<T, U1, RS, C, CS>)
        requires
            layout_ok(
                off as int,
                1,
                self.strides.spec_row() as int,
                self.size.spec_cols() as int,
                self.strides.spec_col() as int,
                self.buf_len as int,
            ),
        ensures
            sl.wf(),
            sl.storage.buf_len == self.buf_len,
            sl.spec_rows() == 1,
            sl.spec_cols() == self.size.spec_cols(),
            sl.spec_row_stride() == self.strides.spec_row(),
            sl.spec_col_stride() == self.strides.spec_col(),
            sl.spec_offset() == off as nat,
    {
        let u = U1;
        proof {
            assert(u.spec_value() == 1);
        }
        SliceBase::new(
            RefStorageMut::new(off, self.buf_len, Size::new(u, self.size.col_dim()), self.strides),
        )
    }

    /// Yields the next row as a one-row exclusive descriptor, or `None` when
    /// every row has been yielded.
    pub fn next(&mut self) -> (r: Option<SliceMut<T, U1, RS, C, CS>>)
        requires
            old(self).valid(),
        ensures
            final(self).valid(),
            final(self).buf_len == old(self).buf_len,
            final(self).size == old(self).size,
            final(self).strides == old(self).strides,
            old(self).offsets().len() == 0 ==> r == None::<SliceMut<T, U1, RS, C, CS>> && final(self).offsets() == old(self).offsets(),
            old(self).offsets().len() > 0 ==> match r {
                Some(sl) => {
                    &&& sl.wf()
                    &&& sl.storage.buf_len == old(self).buf_len
                    &&& sl.spec_rows() == 1
                    &&& sl.spec_cols() == old(self).size.spec_cols()
                    &&& sl.spec_row_stride() == old(self).strides.spec_row()
                    &&& sl.spec_col_stride() == old(self).strides.spec_col()
                    &&& sl.spec_offset() == old(self).offsets()[0]
                    &&& final(self).offsets() == old(self).offsets().drop_first()
                },
                None => false,
            },
    {
        match self.iter.next() {
            Some(off) => {
                proof {
                    assert(old(self).iter.remaining()[0] == off as int);
                    assert forall|k: int| 0 <= k < self.iter.remaining().len() implies layout_ok(
                        #[trigger] self.iter.remaining()[k],
                        1,
                        self.strides.spec_row() as int,
                        self.size.spec_cols() as int,
                        self.strides.spec_col() as int,
                        self.buf_len as int,
                    ) by {
                        assert(self.iter.remaining()[k] == old(self).iter.remaining()[k + 1]);
                    }
                }
                Some(self.make_slice(off))
            },
            None => None,
        }
    }
}

/// Iterates the columns of a region as one-column exclusive slice
/// descriptors. A region with no rows yields no column slices.
#[derive(Debug)]
pub struct ColSliceIterMut<T, R: Dim, RS: Dim, C: Dim, CS: Dim> {
    pub iter: AxisIterRaw<CS>,
    pub size: Size<R, C>,
    pub strides: Strides<RS, CS>,
    pub buf_len: usize,
    pub elem: core::marker::PhantomData<T>,
}

impl<T: Copy, R: Dim, RS: Dim, C: Dim, CS: Dim> SplittableIterator for ColSliceIterMut<
    T,
    R,
    RS,
    C,
    CS,
> {
    open spec fn valid(&self) -> bool {
        &&& self.iter.wf()
        &&& forall|k: int|
            0 <= k < self.iter.remaining().len() ==> layout_ok(
                #[trigger] self.iter.remaining()[k],
                self.size.spec_rows() as int,
                self.strides.spec_row() as int,
                1,
                self.strides.spec_col() as int,
                self.buf_len as int,
            )
    }

    open spec fn offsets(&self) -> Seq<int> {
        self.iter.remaining()
    }

    fn split_at(self, pos: usize) -> (ColSliceIterMut<T, R, RS, C, CS>, ColSliceIterMut<
        T,
        R,
        RS,
        C,
        CS,
    >) {
        let ColSliceIterMut { iter, size, strides, buf_len, elem } = self;
        let (il, ir) = iter.split_at(pos);
        let l = ColSliceIterMut { iter: il, size, strides, buf_len, elem };
        let r = ColSliceIterMut {
            iter: ir,
            size,
            strides,
            buf_len,
            elem: core::marker::PhantomData,
        };
        proof {
            assert forall|k: int| 0 <= k < l.iter.remaining().len() implies layout_ok(
                #[trigger] l.iter.remaining()[k],
                l.size.spec_rows() as int,
                l.strides.spec_row() as int,
                1,
                l.strides.spec_col() as int,
                l.buf_len as int,
            ) by {
                assert(l.iter.remaining()[k] == self.iter.remaining()[k]);
            }
            assert forall|k: int| 0 <= k < r.iter.remaining().len() implies layout_ok(
                #[trigger] r.iter.remaining()[k],
                r.size.spec_rows() as int,
                r.strides.spec_row() as int,
                1,
                r.strides.spec_col() as int,
                r.buf_len as int,
            ) by {
                assert(r.iter.remaining()[k] == self.iter.remaining()[pos + k]);
            }
        }
        (l, r)
    }
}

impl<T: Copy, R: Dim, RS: Dim, C: Dim, CS: Dim> ColSliceIterMut<T, R, RS, C, CS> {
    /// Starts a walk over the columns of `s`, one exclusive descriptor per
    /// column.
    pub fn from_storage<S>(s: &S) -> (it: Self) where
        S: Storage<T> + StorageSize<Rows = R, Cols = C> + Strided<RowStride = RS, ColStride = CS>,

        requires
            s.wf(),
        ensures
            it.valid(),
            it.buf_len == s.spec_buf().len(),
            it.size.spec_rows() == s.spec_rows(),
            it.strides.spec_row() == s.spec_row_stride(),
            it.strides.spec_col() == s.spec_col_stride(),
            s.spec_rows() > 0 ==> it.offsets().len() == s.spec_cols(),
            s.spec_rows() == 0 ==> it.offsets().len() == 0,
            forall|k: int|
                0 <= k < it.offsets().len() ==> #[trigger] it.offsets()[k] == s.spec_index(0, k),
    {
        let rows = s.rows();
        let cols = s.cols();
        let n = if rows == 0 {
            0
        } else {
            cols
        };
        let off = s.offset();
        let bl = s.as_slice().len();
        proof {
            s.lemma_wf();
            let offi = off as int;
            let rs = s.spec_row_stride() as int;
            let cs = s.spec_col_stride() as int;
            let len = s.spec_buf().len() as int;
            if n > 0 {
                assert(lin_index(offi, 0, rs, (n - 1) as int, cs) < len);
                assert(offi + (n - 1) as int * cs == lin_index(offi, 0, rs, (n - 1) as int, cs));
            }
        }
        let iter = AxisIterRaw::new(n, s.col_stride_dim(), 0, off);
        let it = ColSliceIterMut {
            iter,
            size: s.size(),
            strides: s.strides(),
            buf_len: bl,
            elem: core::marker::PhantomData,
        };
        proof {
            let offi = off as int;
            let srows = s.spec_rows() as int;
            let scols = s.spec_cols() as int;
            let rs = s.spec_row_stride() as int;
            let cs = s.spec_col_stride() as int;
            let len = s.spec_buf().len() as int;
            assert forall|k: int| 0 <= k < it.iter.remaining().len() implies layout_ok(
                #[trigger] it.iter.remaining()[k],
                it.size.spec_rows() as int,
                it.strides.spec_row() as int,
                1,
                it.strides.spec_col() as int,
                it.buf_len as int,
            ) && it.iter.remaining()[k] == s.spec_index(0, k) by {
                lemma_subview_ok(offi, srows, rs, scols, cs, len, 0, k, srows, 1);
                assert(it.iter.remaining()[k] == offi + k * cs);
                assert(lin_index(offi, 0, rs, k, cs) == offi + k * cs);
            }
        }
        it
    }

    /// Wraps a column-start offset as a one-column exclusive descriptor.
    fn make_slice(&self, off: usize) -> (sl: SliceMut<T, R, RS, U1, CS>)
        requires
            layout_ok(
                off as int,
                self.size.spec_rows() as int,
                self.strides.spec_row() as int,
                1,
                self.strides.spec_col() as int,
                self.buf_len as int,
            ),
        ensures
            sl.wf(),
            sl.storage.buf_len == self.buf_len,
            sl.spec_cols() == 1,
            sl.spec_rows() == self.size.spec_rows(),
            sl.spec_row_stride() == self.strides.spec_row(),
            sl.spec_col_stride() == self.strides.spec_col(),
            sl.spec_offset() == off as nat,
    {
        let u = U1;
        proof {
            assert(u.spec_value() == 1);
        }
        SliceBase::new(
            RefStorageMut::new(
                off,
                self.buf_len,
                Size::new(self.size.row_dim(), u),
                self.strides,
            ),
        )
    }

    /// Yields the next column as a one-column exclusive descriptor, or `None`
    /// when every column has been yielded.
    pub fn next(&mut self) -> (r: Option<SliceMut<T, R, RS, U1, CS>>)
        requires
            old(self).valid(),
        ensures
            final(self).valid(),
            final(self).buf_len == old(self).buf_len,
            final(self).size == old(self).size,
            final(self).strides == old(self).strides,
            old(self).offsets().len() == 0 ==> r == None::<SliceMut<T, R, RS, U1, CS>> && final(self).offsets() == old(self).offsets(),
            old(self).offsets().len() > 0 ==> match r {
                Some(sl) => {
                    &&& sl.wf()
                    &&& sl.storage.buf_len == old(self).buf_len
                    &&& sl.spec_cols() == 1
                    &&& sl.spec_rows() == old(self).size.spec_rows()
                    &&& sl.spec_row_stride() == old(self).strides.spec_row()
                    &&& sl.spec_col_stride() == old(self).strides.spec_col()
                    &&& sl.spec_offset() == old(self).offsets()[0]
                    &&& final(self).offsets() == old(self).offsets().drop_first()
                },
                None => false,
            },
    {
        match self.iter.next() {
            Some(off) => {
                proof {
                    assert(old(self).iter.remaining()[0] == off as int);
                    assert forall|k: int| 0 <= k < self.iter.remaining().len() implies layout_ok(
                        #[trigger] self.iter.remaining()[k],
                        self.size.spec_rows() as int,
                        self.strides.spec_row() as int,
                        1,
                        self.strides.spec_col() as int,
                        self.buf_len as int,
                    ) by {
                        assert(self.iter.remaining()[k] == old(self).iter.remaining()[k + 1]);
                    }
                }
                Some(self.make_slice(off))
            },
            None => None,
        }
    }
}

/// Element iteration, available on every storage: full row-major or
/// column-major traversal, and traversal of a single row or column.
pub trait AxisIterable<T: Copy>: Storage<T> {
    /// Returns an iterator over all elements in row-major logical order,
    /// whatever the physical layout.
    fn as_iter<'a>(&'a self) -> (it: FullIter<'a, T, Self::Rows, Self::RowStride, Self::ColStride>)
        requires
            self.wf(),
        ensures
            it.wf(),
            it.elems() == self.logical(),
    {
        proof {
            self.lemma_wf();
        }
        FullIter::new(
            self.as_slice(),
            self.offset(),
            self.row_dim(),
            self.row_stride_dim(),
            self.col_dim(),
            self.col_stride_dim(),
        )
    }

    /// Returns an iterator over all elements in row-major logical order.
    fn as_row_iter<'a>(&'a self) -> (it: FullIter<
        'a,
        T,
        Self::Rows,
        Self::RowStride,
        Self::ColStride,
    >)
        requires
            self.wf(),
        ensures
            it.wf(),
            it.elems() == self.logical(),
    {
        self.as_iter()
    }

    /// Returns an iterator over all elements in column-major logical order:
    /// each column in full before the next.
    fn as_col_iter<'a>(&'a self) -> (it: FullIter<
        'a,
        T,
        Self::Cols,
        Self::ColStride,
        Self::RowStride,
    >)
        requires
            self.wf(),
        ensures
            it.wf(),
            it.elems() == logical_of(
                self.spec_buf(),
                self.spec_offset() as int,
                self.spec_cols() as int,
                self.spec_col_stride() as int,
                self.spec_rows() as int,
                self.spec_row_stride() as int,
            ),
    {
        proof {
            self.lemma_wf();
            let off = self.spec_offset() as int;
            let srows = self.spec_rows() as int;
            let scols = self.spec_cols() as int;
            let rs = self.spec_row_stride() as int;
            let cs = self.spec_col_stride() as int;
            let len = self.spec_buf().len() as int;
            assert(scols * srows <= usize::MAX) by (nonlinear_arith)
                requires
                    srows * scols <= usize::MAX,
            ;
            assert forall|c: int, r: int| 0 <= c < scols && 0 <= r < srows implies #[trigger] lin_index(
                off,
                c,
                cs,
                r,
                rs,
            ) < len by {
                assert(lin_index(off, r, rs, c, cs) < len);
            }
        }
        FullIter::new(
            self.as_slice(),
            self.offset(),
            self.col_dim(),
            self.col_stride_dim(),
            self.row_dim(),
            self.row_stride_dim(),
        )
    }

    /// Returns an iterator over the elements of row `r`, left to right.
    fn as_row_slice_iter<'a>(&'a self, r: usize) -> (it: FullIter<
        'a,
        T,
        U1,
        Self::RowStride,
        Self::ColStride,
    >)
        requires
            self.wf(),
            (r as nat) < self.spec_rows(),
        ensures
            it.wf(),
            it.elems().len() == self.spec_cols(),
            forall|c: int|
                0 <= c < self.spec_cols() ==> #[trigger] it.elems()[c] == self.spec_at(r as int, c),
    {
        let cols = self.cols();
        let roff = if cols > 0 {
            self.row_index(r)
        } else {
            self.offset()
        };
        let u = U1;
        proof {
            assert(u.spec_value() == 1);
            self.lemma_wf();
            let off = self.spec_offset() as int;
            let srows = self.spec_rows() as int;
            let scols = self.spec_cols() as int;
            let rs = self.spec_row_stride() as int;
            let cs = self.spec_col_stride() as int;
            let len = self.spec_buf().len() as int;
            assert(1 * scols <= srows * scols) by (nonlinear_arith)
                requires
                    1 <= srows,
                    0 <= scols,
            ;
            if cols > 0 {
                lemma_subview_ok(off, srows, rs, scols, cs, len, r as int, 0, 1, scols);
            } else {
                assert(layout_ok(roff as int, 1, rs, scols, cs, len));
            }
        }
        let it = FullIter::new(
            self.as_slice(),
            roff,
            u,
            self.row_stride_dim(),
            self.col_dim(),
            self.col_stride_dim(),
        );
        proof {
            let off = self.spec_offset() as int;
            let rs = self.spec_row_stride() as int;
            let cs = self.spec_col_stride() as int;
            let scols = self.spec_cols() as int;
            assert(1 * scols == scols) by (nonlinear_arith);
            assert forall|c: int| 0 <= c < scols implies #[trigger] it.elems()[c] == self.spec_at(
                r as int,
                c,
            ) by {
                lemma_logical_index(self.spec_buf(), roff as int, 1, rs, scols, cs, 0, c);
                assert(0 * scols + c == c);
                lemma_lin_rebase(off, rs, cs, r as int, 0, 0, c);
                assert(lin_index(roff as int, 0, rs, c, cs) == lin_index(off, r as int, rs, c, cs));
            }
        }
        it
    }

    /// Returns an iterator over the elements of column `c`, top to bottom.
    fn as_col_slice_iter<'a>(&'a self, c: usize) -> (it: FullIter<
        'a,
        T,
        U1,
        Self::ColStride,
        Self::RowStride,
    >)
        requires
            self.wf(),
            (c as nat) < self.spec_cols(),
        ensures
            it.wf(),
            it.elems().len() == self.spec_rows(),
            forall|r: int|
                0 <= r < self.spec_rows() ==> #[trigger] it.elems()[r] == self.spec_at(r, c as int),
    {
        let rows = self.rows();
        let coff = if rows > 0 {
            self.col_index(c)
        } else {
            self.offset()
        };
        let u = U1;
        proof {
            assert(u.spec_value() == 1);
            self.lemma_wf();
            let off = self.spec_offset() as int;
            let srows = self.spec_rows() as int;
            let scols = self.spec_cols() as int;
            let rs = self.spec_row_stride() as int;
            let cs = self.spec_col_stride() as int;
            let len = self.spec_buf().len() as int;
            assert(1 * srows <= srows * scols) by (nonlinear_arith)
                requires
                    1 <= scols,
                    0 <= srows,
            ;
            if rows > 0 {
                lemma_subview_ok(off, srows, rs, scols, cs, len, 0, c as int, srows, 1);
                assert forall|a: int, b: int| 0 <= a < 1 && 0 <= b < srows implies #[trigger] lin_index(
                    coff as int,
                    a,
                    cs,
                    b,
                    rs,
                ) < len by {
                    assert(lin_index(coff as int, b, rs, a, cs) < len);
                }
            } else {
                assert(layout_ok(coff as int, srows, rs, 1, cs, len));
            }
        }
        let it = FullIter::new(
            self.as_slice(),
            coff,
            u,
            self.col_stride_dim(),
            self.row_dim(),
            self.row_stride_dim(),
        );
        proof {
            let off = self.spec_offset() as int;
            let rs = self.spec_row_stride() as int;
            let cs = self.spec_col_stride() as int;
            let srows = self.spec_rows() as int;
            assert(1 * srows == srows) by (nonlinear_arith);
            assert forall|r: int| 0 <= r < srows implies #[trigger] it.elems()[r] == self.spec_at(
                r,
                c as int,
            ) by {
                lemma_logical_index(self.spec_buf(), coff as int, 1, cs, srows, rs, 0, r);
                assert(0 * srows + r == r);
                lemma_lin_rebase(off, rs, cs, 0, c as int, r, 0);
                assert(lin_index(coff as int, 0, cs, r, rs) == lin_index(
                    coff as int,
                    r,
                    rs,
                    0,
                    cs,
                ));
                assert(lin_index(coff as int, r, rs, 0, cs) == lin_index(off, r, rs, c as int, cs));
            }
        }
        it
    }

    /// Returns an exclusive iterator descriptor over the elements of row `r`,
    /// left to right: it yields offsets, resolved against this storage.
    fn as_row_slice_mut_iter(&self, r: usize) -> (it: FullIterMut<
        T,
        U1,
        Self::RowStride,
        Self::ColStride,
    >)
        requires
            self.wf(),
            (r as nat) < self.spec_rows(),
        ensures
            it.wf(),
            it.buf_len == self.spec_buf().len(),
            it.offsets().len() == self.spec_cols(),
            forall|c: int|
                0 <= c < self.spec_cols() ==> #[trigger] it.offsets()[c] == self.spec_index(
                    r as int,
                    c,
                ),
    {
        let cols = self.cols();
        let roff = if cols > 0 {
            self.row_index(r)
        } else {
            self.offset()
        };
        let u = U1;
        let bl = self.as_slice().len();
        proof {
            assert(u.spec_value() == 1);
            self.lemma_wf();
            let off = self.spec_offset() as int;
            let srows = self.spec_rows() as int;
            let scols = self.spec_cols() as int;
            let rs = self.spec_row_stride() as int;
            let cs = self.spec_col_stride() as int;
            let len = self.spec_buf().len() as int;
            assert(1 * scols <= srows * scols) by (nonlinear_arith)
                requires
                    1 <= srows,
                    0 <= scols,
            ;
            if cols > 0 {
                lemma_subview_ok(off, srows, rs, scols, cs, len, r as int, 0, 1, scols);
            } else {
                assert(layout_ok(roff as int, 1, rs, scols, cs, len));
            }
        }
        let it = FullIterMut::new(
            bl,
            roff,
            u,
            self.row_stride_dim(),
            self.col_dim(),
            self.col_stride_dim(),
        );
        proof {
            let off = self.spec_offset() as int;
            let rs = self.spec_row_stride() as int;
            let cs = self.spec_col_stride() as int;
            let scols = self.spec_cols() as int;
            crate::layout::lemma_grid_len(roff as int, 0, 1, rs, scols, cs);
            assert(1 * scols == scols) by (nonlinear_arith);
            assert forall|c: int| 0 <= c < scols implies #[trigger] it.offsets()[c]
                == self.spec_index(r as int, c) by {
                lemma_grid_index(roff as int, 0, 1, rs, scols, cs, c);
                vstd::arithmetic::div_mod::lemma_fundamental_div_mod_converse(c, scols, 0, c);
                lemma_lin_rebase(off, rs, cs, r as int, 0, 0, c);
                assert(lin_index(roff as int, 0, rs, c, cs) == lin_index(off, r as int, rs, c, cs));
            }
        }
        it
    }

    /// Returns an exclusive iterator descriptor over the elements of column
    /// `c`, top to bottom: it yields offsets, resolved against this storage.
    fn as_col_slice_mut_iter(&self, c: usize) -> (it: FullIterMut<
        T,
        U1,
        Self::ColStride,
        Self::RowStride,
    >)
        requires
            self.wf(),
            (c as nat) < self.spec_cols(),
        ensures
            it.wf(),
            it.buf_len == self.spec_buf().len(),
            it.offsets().len() == self.spec_rows(),
            forall|r: int|
                0 <= r < self.spec_rows() ==> #[trigger] it.offsets()[r] == self.spec_index(
                    r,
                    c as int,
                ),
    {
        let rows = self.rows();
        let coff = if rows > 0 {
            self.col_index(c)
        } else {
            self.offset()
        };
        let u = U1;
        let bl = self.as_slice().len();
        proof {
            assert(u.spec_value() == 1);
            self.lemma_wf();
            let off = self.spec_offset() as int;
            let srows = self.spec_rows() as int;
            let scols = self.spec_cols() as int;
            let rs = self.spec_row_stride() as int;
            let cs = self.spec_col_stride() as int;
            let len = self.spec_buf().len() as int;
            assert(1 * srows <= srows * scols) by (nonlinear_arith)
                requires
                    1 <= scols,
                    0 <= srows,
            ;
            if rows > 0 {
                lemma_subview_ok(off, srows, rs, scols, cs, len, 0, c as int, srows, 1);
                assert forall|a: int, b: int| 0 <= a < 1 && 0 <= b < srows implies #[trigger] lin_index(
                    coff as int,
                    a,
                    cs,
                    b,
                    rs,
                ) < len by {
                    assert(lin_index(coff as int, b, rs, a, cs) < len);
                }
            } else {
                assert(layout_ok(coff as int, srows, rs, 1, cs, len));
            }
        }
        let it = FullIterMut::new(
            bl,
            coff,
            u,
            self.col_stride_dim(),
            self.row_dim(),
            self.row_stride_dim(),
        );
        proof {
            let off = self.spec_offset() as int;
            let rs = self.spec_row_stride() as int;
            let cs = self.spec_col_stride() as int;
            let srows = self.spec_rows() as int;
            crate::layout::lemma_grid_len(coff as int, 0, 1, cs, srows, rs);
            assert(1 * srows == srows) by (nonlinear_arith);
            assert forall|r: int| 0 <= r < srows implies #[trigger] it.offsets()[r]
                == self.spec_index(r, c as int) by {
                lemma_grid_index(coff as int, 0, 1, cs, srows, rs, r);
                vstd::arithmetic::div_mod::lemma_fundamental_div_mod_converse(r, srows, 0, r);
                lemma_lin_rebase(off, rs, cs, 0, c as int, r, 0);
                assert(lin_index(coff as int, 0, cs, r, rs) == lin_index(
                    coff as int,
                    r,
                    rs,
                    0,
                    cs,
                ));
                assert(lin_index(coff as int, r, rs, 0, cs) == lin_index(off, r, rs, c as int, cs));
            }
        }
        it
    }

    /// Returns an iterator over the elements of the rows `range` selects, in
    /// row-major logical order.
    fn as_row_range_iter<'a, RR: SliceRange>(&'a self, range: RR) -> (it: FullIter<
        'a,
        T,
        RR::Size,
        Self::RowStride,
        Self::ColStride,
    >)
        requires
            self.wf(),
            range.spec_start() <= range.spec_end(),
            range.spec_end() <= self.spec_rows(),
        ensures
            it.wf(),
            it.elems().len() == (range.spec_end() - range.spec_start()) * self.spec_cols(),
            range.spec_start() < self.spec_rows() && self.spec_cols() > 0 ==> it.elems()
                == logical_of(
                self.spec_buf(),
                self.spec_index(range.spec_start() as int, 0),
                range.spec_end() - range.spec_start(),
                self.spec_row_stride() as int,
                self.spec_cols() as int,
                self.spec_col_stride() as int,
            ),
    {
        let rows = self.rows();
        let cols = self.cols();
        let start = range.start();
        let nrows = range.size_dim();
        let roff = if start < rows && cols > 0 {
            self.get_index(start, 0)
        } else {
            self.offset()
        };
        proof {
            self.lemma_wf();
            let off = self.spec_offset() as int;
            let srows = self.spec_rows() as int;
            let scols = self.spec_cols() as int;
            let rs = self.spec_row_stride() as int;
            let cs = self.spec_col_stride() as int;
            let len = self.spec_buf().len() as int;
            let s0 = range.spec_start() as int;
            let n = (range.spec_end() - range.spec_start()) as int;
            assert(n * scols <= srows * scols) by (nonlinear_arith)
                requires
                    0 <= n <= srows,
                    0 <= scols,
            ;
            if start < rows && cols > 0 {
                lemma_subview_ok(off, srows, rs, scols, cs, len, s0, 0, n, scols);
            } else {
                assert(n * scols == 0) by (nonlinear_arith)
                    requires
                        n == 0 || scols == 0,
                        0 <= n,
                ;
                assert(layout_ok(roff as int, n, rs, scols, cs, len));
            }
        }
        let it = FullIter::new(
            self.as_slice(),
            roff,
            nrows,
            self.row_stride_dim(),
            self.col_dim(),
            self.col_stride_dim(),
        );
        proof {
            let n = (range.spec_end() - range.spec_start()) as int;
            let scols = self.spec_cols() as int;
            if !(range.spec_start() < self.spec_rows() && self.spec_cols() > 0) {
                assert(n * scols == 0) by (nonlinear_arith)
                    requires
                        n == 0 || scols == 0,
                        0 <= n,
                ;
            }
        }
        it
    }

    /// Returns an iterator over the elements of the columns `range` selects,
    /// each column in full before the next.
    fn as_col_range_iter<'a, RR: SliceRange>(&'a self, range: RR) -> (it: FullIter<
        'a,
        T,
        RR::Size,
        Self::ColStride,
        Self::RowStride,
    >)
        requires
            self.wf(),
            range.spec_start() <= range.spec_end(),
            range.spec_end() <= self.spec_cols(),
        ensures
            it.wf(),
            it.elems().len() == (range.spec_end() - range.spec_start()) * self.spec_rows(),
            range.spec_start() < self.spec_cols() && self.spec_rows() > 0 ==> it.elems()
                == logical_of(
                self.spec_buf(),
                self.spec_index(0, range.spec_start() as int),
                range.spec_end() - range.spec_start(),
                self.spec_col_stride() as int,
                self.spec_rows() as int,
                self.spec_row_stride() as int,
            ),
    {
        let rows = self.rows();
        let cols = self.cols();
        let start = range.start();
        let ncols = range.size_dim();
        let coff = if start < cols && rows > 0 {
            self.get_index(0, start)
        } else {
            self.offset()
        };
        proof {
            self.lemma_wf();
            let off = self.spec_offset() as int;
            let srows = self.spec_rows() as int;
            let scols = self.spec_cols() as int;
            let rs = self.spec_row_stride() as int;
            let cs = self.spec_col_stride() as int;
            let len = self.spec_buf().len() as int;
            let s0 = range.spec_start() as int;
            let n = (range.spec_end() - range.spec_start()) as int;
            assert(n * srows <= srows * scols) by (nonlinear_arith)
                requires
                    0 <= n <= scols,
                    0 <= srows,
            ;
            if start < cols && rows > 0 {
                lemma_subview_ok(off, srows, rs, scols, cs, len, 0, s0, srows, n);
                assert forall|a: int, b: int| 0 <= a < n && 0 <= b < srows implies #[trigger] lin_index(
                    coff as int,
                    a,
                    cs,
                    b,
                    rs,
                ) < len by {
                    assert(lin_index(coff as int, b, rs, a, cs) < len);
                }
            } else {
                assert(n * srows == 0) by (nonlinear_arith)
                    requires
                        n == 0 || srows == 0,
                        0 <= n,
                ;
                assert(layout_ok(coff as int, n, cs, srows, rs, len)) by {
                    assert(n * srows == 0);
                };
            }
        }
        let it = FullIter::new(
            self.as_slice(),
            coff,
            ncols,
            self.col_stride_dim(),
            self.row_dim(),
            self.row_stride_dim(),
        );
        proof {
            let n = (range.spec_end() - range.spec_start()) as int;
            let srows = self.spec_rows() as int;
            if !(range.spec_start() < self.spec_cols() && self.spec_rows() > 0) {
                assert(n * srows == 0) by (nonlinear_arith)
                    requires
                        n == 0 || srows == 0,
                        0 <= n,
                ;
            }
        }
        it
    }
}

impl<T: Copy, X: Storage<T>> AxisIterable<T> for X {

}

} // verus!
