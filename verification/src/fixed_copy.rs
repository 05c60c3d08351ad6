//! A branch-minimized copy for short byte spans: at most two chunk
//! transfers, sized by the largest power of two that fits, instead of a
//! byte-by-byte loop over the whole span.

use vstd::prelude::*;

verus! {

/// Copies `n` bytes from `src[spos..spos + n]` into `dst[dpos..dpos + n]`.
pub(crate) fn copy_chunk(src: &[u8], spos: usize, dst: &mut Vec<u8>, dpos: usize, n: usize)
    requires
        spos + n <= src@.len(),
        dpos + n <= old(dst)@.len(),
    ensures
        final(dst)@.len() == old(dst)@.len(),
        forall|j: int|
            dpos <= j < dpos + n ==> #[trigger] final(dst)@[j] == src@[spos + (j - dpos)],
        forall|j: int|
            0 <= j < final(dst)@.len() && !(dpos <= j < dpos + n) ==> #[trigger] final(dst)@[j]
                == old(dst)@[j],
{
    let src_len = src.len();
    let dst_len = dst.len();
    let mut k: usize = 0;
    while k < n
        invariant
            spos + n <= src_len,
            dpos + n <= dst_len,
            src_len == src@.len(),
            dst_len == dst@.len(),
            dst@.len() == old(dst)@.len(),
            k <= n,
            forall|j: int| dpos <= j < dpos + k ==> #[trigger] dst@[j] == src@[spos + (j - dpos)],
            forall|j: int|
                0 <= j < dst@.len() && !(dpos <= j < dpos + k) ==> #[trigger] dst@[j] == old(
                    dst,
                )@[j],
        decreases n - k,
    {
        let b = src[spos + k];
        dst.set(dpos + k, b);
        k += 1;
    }
}

/// Copies `len <= 16` bytes from the front of `src` into `dst` at `dpos`
/// with at most two transfers: a forward chunk covering the first bytes and
/// a second, possibly overlapping, chunk covering the last bytes, each of
/// the largest power-of-two width not exceeding `len`. The two chunks'
/// union covers the whole span and both write the bytes `src` holds there,
/// so the overlap is harmless: the effect equals a byte-for-byte copy.
pub fn memcpy_16(src: &[u8], dst: &mut Vec<u8>, dpos: usize, len: usize)
    requires
        len <= 16,
        len <= src@.len(),
        dpos + len <= old(dst)@.len(),
    ensures
        final(dst)@.len() == old(dst)@.len(),
        forall|j: int|
            dpos <= j < dpos + len ==> #[trigger] final(dst)@[j] == src@[j - dpos],
        forall|j: int|
            0 <= j < final(dst)@.len() && !(dpos <= j < dpos + len) ==> #[trigger] final(dst)@[j]
                == old(dst)@[j],
{
    if len == 0 {
        return ;
    }
    let w: usize = if len >= 8 {
        8
    } else if len >= 4 {
        4
    } else if len >= 2 {
        2
    } else {
        1
    };
    assert(w <= len && len <= 2 * w);
    let dst_len = dst.len();
    assert(dpos + len <= dst_len);
    copy_chunk(src, 0, dst, dpos, w);
    copy_chunk(src, len - w, dst, dpos + (len - w), w);
}

} // verus!
