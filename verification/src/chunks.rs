//! Slicing a block into bounded chunks.
//!
//! A streaming read serves a block of `len` bytes as `len / buffer` full
//! chunks of `buffer` bytes followed by one short final chunk of
//! `len % buffer` bytes, omitted when that remainder is zero. Chunks are
//! emitted strictly in ascending order, and concatenating them in that order
//! reconstructs the block exactly.

use vstd::arithmetic::div_mod::lemma_fundamental_div_mod;
use vstd::arithmetic::div_mod::lemma_fundamental_div_mod_converse;
use vstd::prelude::*;

verus! {

/// How many chunks a block of `len` bytes yields with chunk size `buf`:
/// `len / buf` rounded up, so a block whose size is an exact multiple of
/// `buf` has no trailing empty chunk, and an empty block has no chunks.
pub open spec fn num_chunks(len: nat, buf: nat) -> nat
    recommends
        buf > 0,
{
    ((len + buf - 1) / (buf as int)) as nat
}

/// Where chunk `i` of a block of `len` bytes ends: one past its last byte.
pub open spec fn chunk_end(len: nat, buf: nat, i: int) -> int {
    if len < (i + 1) * buf {
        len as int
    } else {
        (i + 1) * buf
    }
}

/// The chunks of `data` with chunk size `buf`, in delivery order.
pub open spec fn spec_chunks(data: Seq<u8>, buf: nat) -> Seq<Seq<u8>>
    decreases data.len(),
        when buf > 0
{
    if data.len() == 0 {
        Seq::empty()
    } else if data.len() <= buf {
        seq![data]
    } else {
        seq![data.take(buf as int)] + spec_chunks(data.skip(buf as int), buf)
    }
}

/// A block no longer than the chunk size yields no chunk when empty, else one.
proof fn lemma_num_chunks_small(len: nat, buf: nat)
    requires
        buf > 0,
        len <= buf,
    ensures
        num_chunks(len, buf) == if len == 0 {
            0int
        } else {
            1int
        },
{
    if len == 0 {
        lemma_fundamental_div_mod_converse((buf - 1) as int, buf as int, 0, (buf - 1) as int);
    } else {
        lemma_fundamental_div_mod_converse(
            (len + buf - 1) as int,
            buf as int,
            1,
            (len - 1) as int,
        );
    }
}

/// Taking one full chunk off the front removes exactly one chunk.
proof fn lemma_num_chunks_unfold(len: nat, buf: nat)
    requires
        buf > 0,
        len > buf,
    ensures
        num_chunks(len, buf) == num_chunks((len - buf) as nat, buf) + 1,
{
    let rest = (len - buf) as nat;
    lemma_fundamental_div_mod((rest + buf - 1) as int, buf as int);
    let q = (rest + buf - 1) as int / (buf as int);
    let r = (rest + buf - 1) as int % (buf as int);
    assert((len + buf - 1) as int == (q + 1) * (buf as int) + r) by (nonlinear_arith)
        requires
            (rest + buf - 1) as int == (buf as int) * q + r,
            len == rest + buf,
    ;
    lemma_fundamental_div_mod_converse((len + buf - 1) as int, buf as int, q + 1, r);
}

/// The chunk count `n` covers the whole block: `n * buf >= len`, while the
/// first `n - 1` chunks do not: `(n - 1) * buf < len` (for a non-empty block).
proof fn lemma_num_chunks_bounds(len: nat, buf: nat)
    requires
        buf > 0,
    ensures
        num_chunks(len, buf) * buf >= len,
        len > 0 ==> (num_chunks(len, buf) - 1) * buf < len,
        len > 0 ==> num_chunks(len, buf) >= 1,
        len == 0 ==> num_chunks(len, buf) == 0,
{
    lemma_fundamental_div_mod((len + buf - 1) as int, buf as int);
    let n = num_chunks(len, buf) as int;
    let r = (len + buf - 1) as int % (buf as int);
    assert(n * buf >= len && (len > 0 ==> (n - 1) * buf < len) && (len > 0 ==> n >= 1) && (len == 0
        ==> n == 0)) by (nonlinear_arith)
        requires
            buf > 0,
            0 <= r < buf,
            n == (len + buf - 1) as int / (buf as int),
            (len + buf - 1) as int == (buf as int) * n + r,
    ;
}

/// Chunk reconstruction: concatenating all chunks in delivery order
/// rebuilds exactly the bytes of the block, for any block length, whether or
/// not it is an exact multiple of the chunk size.
pub proof fn lemma_chunks_flatten(data: Seq<u8>, buf: nat)
    requires
        buf > 0,
    ensures
        spec_chunks(data, buf).flatten() == data,
    decreases data.len(),
{
    let cs = spec_chunks(data, buf);
    assert(Seq::<Seq<u8>>::empty().flatten() =~= Seq::<u8>::empty());
    if data.len() == 0 {
        assert(cs.flatten() =~= data);
    } else if data.len() <= buf {
        assert(cs.drop_first() =~= Seq::<Seq<u8>>::empty());
        assert(cs.flatten() =~= cs.first() + cs.drop_first().flatten());
        assert(cs.flatten() =~= data);
    } else {
        lemma_chunks_flatten(data.skip(buf as int), buf);
        assert(cs.drop_first() =~= spec_chunks(data.skip(buf as int), buf));
        assert(cs.first() == data.take(buf as int));
        assert(cs.flatten() =~= data.take(buf as int) + data.skip(buf as int));
        assert(data.take(buf as int) + data.skip(buf as int) =~= data);
    }
}

/// There are exactly `num_chunks` chunks.
pub proof fn lemma_chunks_len(data: Seq<u8>, buf: nat)
    requires
        buf > 0,
    ensures
        spec_chunks(data, buf).len() == num_chunks(data.len(), buf),
    decreases data.len(),
{
    let len = data.len();
    if len <= buf {
        lemma_num_chunks_small(len, buf);
    } else {
        lemma_chunks_len(data.skip(buf as int), buf);
        lemma_num_chunks_unfold(len, buf);
    }
}

/// Chunk `i` holds exactly the bytes from `i * buf` up to `chunk_end`.
pub proof fn lemma_chunk_index(data: Seq<u8>, buf: nat, i: int)
    requires
        buf > 0,
        0 <= i < num_chunks(data.len(), buf),
    ensures
        spec_chunks(data, buf)[i] == data.subrange(i * buf, chunk_end(data.len(), buf, i)),
    decreases data.len(),
{
    lemma_chunks_len(data, buf);
    let len = data.len();
    if i == 0 {
        if len <= buf {
            assert(spec_chunks(data, buf)[0] == data);
            assert(chunk_end(len, buf, 0) == len) by (nonlinear_arith)
                requires
                    0 < len <= buf,
            ;
            assert(data.subrange(0, chunk_end(len, buf, 0)) =~= data);
        } else {
            assert(spec_chunks(data, buf)[0] == data.take(buf as int));
            assert(chunk_end(len, buf, 0) == buf) by (nonlinear_arith)
                requires
                    len > buf,
            ;
            assert(data.take(buf as int) =~= data.subrange(0, chunk_end(len, buf, 0)));
        }
    } else {
        assert(len > buf) by {
            if len <= buf {
                lemma_num_chunks_small(len, buf);
            }
        }
        let rest = data.skip(buf as int);
        lemma_num_chunks_unfold(len, buf);
        lemma_chunk_index(rest, buf, i - 1);
        lemma_num_chunks_bounds(rest.len(), buf);
        assert(spec_chunks(data, buf)[i] == spec_chunks(rest, buf)[i - 1]);
        assert(i * buf == (i - 1) * buf + buf) by (nonlinear_arith);
        assert((i + 1) * buf == i * buf + buf) by (nonlinear_arith);
        assert(0 <= (i - 1) * buf <= chunk_end(rest.len(), buf, i - 1) <= rest.len())
            by (nonlinear_arith)
            requires
                buf > 0,
                1 <= i,
                rest.len() > 0,
                i - 1 < num_chunks(rest.len(), buf),
                (num_chunks(rest.len(), buf) - 1) * buf < rest.len(),
                chunk_end(rest.len(), buf, i - 1) == if rest.len() < i * buf {
                    rest.len() as int
                } else {
                    i * buf
                },
        ;
        assert(chunk_end(len, buf, i) == chunk_end(rest.len(), buf, i - 1) + buf);
        assert(rest.subrange((i - 1) * buf, chunk_end(rest.len(), buf, i - 1)) =~= data.subrange(
            i * buf,
            chunk_end(len, buf, i),
        ));
    }
}

/// The shape of the chunk sequence: every chunk before the last holds exactly
/// `buf` bytes, the last holds the remainder (or `buf` when the length is an
/// exact multiple), and no chunk is empty.
pub proof fn lemma_chunk_sizes(data: Seq<u8>, buf: nat, i: int)
    requires
        buf > 0,
        0 <= i < num_chunks(data.len(), buf),
    ensures
        i + 1 < num_chunks(data.len(), buf) ==> spec_chunks(data, buf)[i].len() == buf,
        i + 1 == num_chunks(data.len(), buf) ==> spec_chunks(data, buf)[i].len() == data.len() - i
            * buf,
        spec_chunks(data, buf)[i].len() > 0,
{
    let len = data.len();
    let n = num_chunks(len, buf) as int;
    lemma_chunk_index(data, buf, i);
    lemma_num_chunks_bounds(len, buf);
    if i + 1 < n {
        assert((i + 1) * buf <= (n - 1) * buf && i * buf < (i + 1) * buf && i * buf + buf == (i + 1)
            * buf) by (nonlinear_arith)
            requires
                i + 1 <= n - 1,
                buf > 0,
        ;
    } else {
        assert(i * buf < len && len <= (i + 1) * buf) by (nonlinear_arith)
            requires
                i == n - 1,
                buf > 0,
                (n - 1) * buf < len,
                n * buf >= len,
        ;
    }
}

/// Computes `num_chunks` as the engine does: full chunks plus one short final
/// chunk when the length is not an exact multiple of the buffer.
pub fn chunk_count(len: usize, buffer: usize) -> (n: usize)
    requires
        buffer > 0,
    ensures
        n == num_chunks(len as nat, buffer as nat),
{
    let q = len / buffer;
    let r = len % buffer;
    proof {
        lemma_fundamental_div_mod(len as int, buffer as int);
        if r == 0 {
            if len == 0 {
                lemma_num_chunks_small(0, buffer as nat);
            } else {
                assert((len + buffer - 1) as int == (q as int) * (buffer as int) + (buffer - 1))
                    by (nonlinear_arith)
                    requires
                        len as int == (buffer as int) * (q as int),
                        buffer > 0,
                ;
                lemma_fundamental_div_mod_converse(
                    (len + buffer - 1) as int,
                    buffer as int,
                    q as int,
                    (buffer - 1) as int,
                );
            }
        } else {
            assert(q < len && (len + buffer - 1) as int == (q as int + 1) * (buffer as int) + (
            r as int - 1)) by (nonlinear_arith)
                requires
                    len as int == (buffer as int) * (q as int) + (r as int),
                    0 < r < buffer,
                    q >= 0,
            ;
            lemma_fundamental_div_mod_converse(
                (len + buffer - 1) as int,
                buffer as int,
                q as int + 1,
                r as int - 1,
            );
        }
    }
    if r == 0 {
        q
    } else {
        q + 1
    }
}

/// The byte range of chunk `i` of a block of `len` bytes: `None` once `i` is
/// past the last chunk, else the start (inclusive) and end (exclusive)
/// offsets of a never-empty range.
pub fn chunk_range(len: usize, buffer: usize, i: usize) -> (r: Option<(usize, usize)>)
    requires
        buffer > 0,
    ensures
        i < num_chunks(len as nat, buffer as nat) ==> (r matches Some(se) && se.0 == i * buffer
            && se.1 == chunk_end(len as nat, buffer as nat, i as int) && se.0 < se.1 <= len),
        i >= num_chunks(len as nat, buffer as nat) ==> r is None,
{
    let n = chunk_count(len, buffer);
    if i >= n {
        return None;
    }
    proof {
        lemma_num_chunks_bounds(len as nat, buffer as nat);
        assert(i * buffer < len && (i + 1) * buffer == i * buffer + buffer) by (nonlinear_arith)
            requires
                0 <= i as int <= n - 1,
                buffer > 0,
                (n - 1) * (buffer as int) < len,
        ;
    }
    let start = i * buffer;
    let end = if len - start > buffer {
        start + buffer
    } else {
        len
    };
    Some((start, end))
}

} // verus!
