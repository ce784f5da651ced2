//! Buffer-level helpers shared by the owned storages: filling, resizing in
//! place, and relaying a buffer of fixed-stride lines when the outer extent
//! of a layout changes.
use crate::layout::flat_pos;
use vstd::prelude::*;

verus! {

/// Returns a buffer of `n` copies of `value`.
pub(crate) fn filled_vec<T: Copy>(n: usize, value: T) -> (v: Vec<T>)
    ensures
        v@.len() == n,
        forall|k: int| 0 <= k < n ==> v@[k] == value,
{
    let mut v: Vec<T> = Vec::new();
    let mut i: usize = 0;
    while i < n
        invariant
            i <= n,
            v@.len() == i,
            forall|k: int| 0 <= k < i ==> v@[k] == value,
        decreases n - i,
    {
        v.push(value);
        i += 1;
    }
    v
}

/// Returns a copy of a buffer.
pub(crate) fn copy_vec<T: Copy>(src: &Vec<T>) -> (v: Vec<T>)
    ensures
        v@ == src@,
{
    let n = src.len();
    let mut v: Vec<T> = Vec::new();
    let mut i: usize = 0;
    while i < n
        invariant
            i <= n,
            n == src@.len(),
            v@.len() == i,
            forall|k: int| 0 <= k < i ==> v@[k] == src@[k],
        decreases n - i,
    {
        let x = src[i];
        v.push(x);
        i += 1;
    }
    proof {
        assert(v@ =~= src@);
    }
    v
}

/// Grows or shrinks a buffer to `new_len` elements: the leading elements that
/// survive keep their values, new trailing elements hold `d`.
pub(crate) fn resize_element_count<T: Copy>(data: &mut Vec<T>, new_len: usize, d: T)
    ensures
        final(data)@.len() == new_len,
        forall|k: int|
            0 <= k < new_len && k < old(data)@.len() ==> final(data)@[k] == old(data)@[k],
        forall|k: int| old(data)@.len() <= k < new_len ==> final(data)@[k] == d,
{
    while data.len() > new_len
        invariant
            data@.len() <= old(data)@.len(),
            data@.len() >= new_len || data@.len() == old(data)@.len(),
            forall|k: int| 0 <= k < data@.len() ==> data@[k] == old(data)@[k],
        decreases data@.len(),
    {
        let _ = data.pop();
    }
    let ghost m = data@.len();
    proof {
        assert(m <= new_len);
        assert(m <= old(data)@.len());
        assert(m == new_len || m == old(data)@.len());
    }
    while data.len() < new_len
        invariant
            m <= data@.len() <= new_len,
            m <= old(data)@.len(),
            m == new_len || m == old(data)@.len(),
            forall|k: int| 0 <= k < m ==> data@[k] == old(data)@[k],
            forall|k: int| m <= k < data@.len() ==> data@[k] == d,
        decreases new_len - data.len(),
    {
        data.push(d);
    }
}

/// Rebuilds a buffer of `n` contiguous lines of `ol` elements each into `n`
/// contiguous lines of `nl` elements: each line keeps its leading
/// `min(ol, nl)` elements and is padded with `d`.
pub(crate) fn rebuild_lines<T: Copy>(src: &Vec<T>, n: usize, ol: usize, nl: usize, d: T) -> (v: Vec<
    T,
>)
    requires
        src@.len() == n * ol,
        n * nl <= usize::MAX,
    ensures
        v@.len() == n * nl,
        forall|i: int, j: int|
            0 <= i < n && 0 <= j < nl ==> v@[#[trigger] flat_pos(i, nl as int, j)] == (if j < ol {
                src@[flat_pos(i, ol as int, j)]
            } else {
                d
            }),
{
    let src_len = src.len();
    let mut v: Vec<T> = Vec::new();
    let mut i: usize = 0;
    while i < n
        invariant
            i <= n,
            src@.len() == n * ol,
            src@.len() == src_len,
            n * nl <= usize::MAX,
            v@.len() == i * nl,
            forall|a: int, b: int|
                0 <= a < i && 0 <= b < nl ==> v@[#[trigger] flat_pos(a, nl as int, b)] == (if b
                    < ol {
                    src@[flat_pos(a, ol as int, b)]
                } else {
                    d
                }),
        decreases n - i,
    {
        proof {
            assert(i * nl + nl <= n * nl && i * ol + ol <= n * ol) by (nonlinear_arith)
                requires
                    0 <= i < n,
                    0 <= nl,
                    0 <= ol,
            ;
        }
        let mut j: usize = 0;
        while j < nl
            invariant
                i < n,
                j <= nl,
                src@.len() == n * ol,
                src@.len() == src_len,
                i * nl + nl <= n * nl <= usize::MAX,
                i * ol + ol <= n * ol,
                v@.len() == i * nl + j,
                forall|a: int, b: int|
                    0 <= a < i && 0 <= b < nl ==> v@[#[trigger] flat_pos(a, nl as int, b)] == (if b
                        < ol {
                        src@[flat_pos(a, ol as int, b)]
                    } else {
                        d
                    }),
                forall|b: int|
                    0 <= b < j ==> v@[#[trigger] flat_pos(i as int, nl as int, b)] == (if b < ol {
                        src@[flat_pos(i as int, ol as int, b)]
                    } else {
                        d
                    }),
            decreases nl - j,
        {
            if j < ol {
                let x = src[i * ol + j];
                v.push(x);
            } else {
                v.push(d);
            }
            j += 1;
            proof {
                assert forall|a: int, b: int| 0 <= a < i && 0 <= b < nl implies v@[#[trigger] flat_pos(
                    a,
                    nl as int,
                    b,
                )] == (if b < ol {
                    src@[flat_pos(a, ol as int, b)]
                } else {
                    d
                }) by {
                    assert(0 <= a * nl + b < i * nl) by (nonlinear_arith)
                        requires
                            0 <= a < i,
                            0 <= b < nl,
                    ;
                }
                assert forall|b: int| 0 <= b < j implies v@[#[trigger] flat_pos(
                    i as int,
                    nl as int,
                    b,
                )] == (if b < ol {
                    src@[flat_pos(i as int, ol as int, b)]
                } else {
                    d
                }) by {
                    assert(0 <= i * nl + b && i * nl + j <= i * nl + nl);
                }
            }
        }
        proof {
            assert((i + 1) * nl == i * nl + nl) by (nonlinear_arith);
        }
        i += 1;
    }
    v
}

} // verus!
