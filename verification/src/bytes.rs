use vstd::prelude::*;

verus! {

/// The smaller of two lengths.
pub open spec fn min_len(a: int, b: int) -> int {
    if a <= b {
        a
    } else {
        b
    }
}

/// `dst` with `src` written over it from offset `off`.
pub open spec fn overwrite(dst: Seq<u8>, off: int, src: Seq<u8>) -> Seq<u8> {
    dst.take(off) + src + dst.skip(off + src.len())
}

/// A static buffer after the longest prefix of `src` that fits has been
/// copied to its start.
pub open spec fn stage(buf: Seq<u8>, src: Seq<u8>) -> Seq<u8> {
    overwrite(buf, 0, src.take(min_len(buf.len() as int, src.len() as int)))
}

/// Staging keeps the length of the static buffer.
pub broadcast proof fn lemma_stage_len(buf: Seq<u8>, src: Seq<u8>)
    ensures
        #[trigger] stage(buf, src).len() == buf.len(),
{
}

/// Copies `n` bytes of `src`, from `src_off`, into `dst` at `dst_off`.
pub fn copy_range(dst: &mut Vec<u8>, dst_off: usize, src: &[u8], src_off: usize, n: usize)
    requires
        dst_off + n <= old(dst)@.len(),
        src_off + n <= src@.len(),
    ensures
        final(dst)@ == overwrite(
            old(dst)@,
            dst_off as int,
            src@.subrange(src_off as int, src_off + n),
        ),
{
    let ghost d0 = dst@;
    let dl: usize = dst.len();
    let sl: usize = src.len();
    let mut i: usize = 0;
    while i < n
        invariant
            i <= n,
            dst_off + n <= d0.len(),
            src_off + n <= src@.len(),
            dst@.len() == d0.len(),
            dl == d0.len(),
            sl == src@.len(),
            forall|j: int| 0 <= j < dst_off ==> dst@[j] == d0[j],
            forall|j: int| dst_off + i <= j < d0.len() ==> dst@[j] == d0[j],
            forall|j: int|
                dst_off <= j < dst_off + i ==> dst@[j] == src@[src_off + (j - dst_off)],
        decreases n - i,
    {
        let b: u8 = src[src_off + i];
        dst[dst_off + i] = b;
        i = i + 1;
    }
    assert(dst@ =~= overwrite(d0, dst_off as int, src@.subrange(src_off as int, src_off + n)));
}

/// Copies the longest prefix of `src` that fits into `buf`, and returns its
/// length.
pub fn stage_prefix(buf: &mut Vec<u8>, src: &[u8]) -> (n: usize)
    ensures
        n == min_len(old(buf)@.len() as int, src@.len() as int),
        final(buf)@ == stage(old(buf)@, src@),
        final(buf)@.len() == old(buf)@.len(),
{
    let mut n: usize = buf.len();
    if n > src.len() {
        n = src.len();
    }
    copy_range(buf, 0, src, 0, n);
    assert(src@.subrange(0, n as int) =~= src@.take(n as int));
    n
}

/// A process's destination buffer `dest` after up to `static_len` bytes of
/// results in `buf` were copied to it at `offset`: all that fits when the
/// buffer is shorter than `static_len`, else the whole block if it fits.
pub open spec fn copied_back(dest: Seq<u8>, buf: Seq<u8>, offset: int, static_len: int) -> Seq<u8> {
    let app_len = dest.len() as int;
    if app_len < static_len {
        if app_len - offset > 0 {
            overwrite(dest, offset, buf.take(app_len - offset))
        } else {
            dest
        }
    } else if offset + static_len <= app_len {
        overwrite(dest, offset, buf.take(static_len))
    } else {
        dest
    }
}

/// Whether copying back with these lengths stays within machine integers.
pub open spec fn copy_back_fits(dest_len: int, offset: int, static_len: int) -> bool {
    &&& 0 <= offset
    &&& dest_len < static_len ==> offset <= dest_len
    &&& dest_len >= static_len ==> offset + static_len <= usize::MAX
}

/// Copies results from the static buffer `buf` to the process buffer
/// `dest` at `offset`.
pub fn copy_back(dest: &mut Vec<u8>, buf: &[u8], offset: usize, static_len: usize)
    requires
        static_len <= buf@.len(),
        copy_back_fits(old(dest)@.len() as int, offset as int, static_len as int),
    ensures
        final(dest)@ == copied_back(old(dest)@, buf@, offset as int, static_len as int),
{
    let app_len = dest.len();
    if app_len < static_len {
        if app_len - offset > 0 {
            copy_range(dest, offset, buf, 0, app_len - offset);
            assert(buf@.subrange(0, (app_len - offset) as int) =~= buf@.take(
                (app_len - offset) as int,
            ));
        }
    } else {
        if offset + static_len <= app_len {
            copy_range(dest, offset, buf, 0, static_len);
            assert(buf@.subrange(0, static_len as int) =~= buf@.take(static_len as int));
        }
    }
}

/// The static buffer `buf` after the data of `src` from `copied` on was
/// copied to its start, as much as fits.
pub open spec fn next_chunk(buf: Seq<u8>, src: Seq<u8>, copied: int) -> Seq<u8> {
    if src.len() > copied {
        overwrite(
            buf,
            0,
            src.subrange(copied, copied + min_len(src.len() - copied, buf.len() as int)),
        )
    } else {
        buf
    }
}

/// Copies the next chunk of `src`, from `copied` on, into `buf`.
pub fn load_next(buf: &mut Vec<u8>, src: &[u8], copied: usize)
    ensures
        final(buf)@ == next_chunk(old(buf)@, src@, copied as int),
{
    let static_buffer_len = buf.len();
    let data_len = src.len();
    if data_len > copied {
        let remaining_len = data_len - copied;
        if remaining_len < static_buffer_len {
            copy_range(buf, 0, src, copied, remaining_len);
        } else {
            copy_range(buf, 0, src, copied, static_buffer_len);
        }
    }
}

} // verus!
