use vstd::prelude::*;

use crate::reader::{seek_target, SeekFrom};

verus! {

/// The bytes of a series of reads, in order.
pub open spec fn joined(chunks: Seq<Seq<u8>>) -> Seq<u8>
    decreases chunks.len(),
{
    if chunks.len() == 0 {
        Seq::empty()
    } else {
        chunks[0] + joined(chunks.skip(1))
    }
}

/// A series of reads from position `from` of `stream`, as `read` delivers them: each
/// read gives the bytes of the stream at the cursor, and moves the cursor past them.
pub open spec fn reads_from(stream: Seq<u8>, from: int, chunks: Seq<Seq<u8>>) -> bool
    decreases chunks.len(),
{
    if chunks.len() == 0 {
        true
    } else {
        &&& 0 <= from
        &&& from + chunks[0].len() <= stream.len()
        &&& chunks[0] == stream.subrange(from, from + chunks[0].len())
        &&& reads_from(stream, from + chunks[0].len(), chunks.skip(1))
    }
}

/// A series of reads from `from` delivers the stream from `from` on, without gaps.
pub proof fn lemma_reads_join(stream: Seq<u8>, from: int, chunks: Seq<Seq<u8>>)
    requires
        0 <= from <= stream.len(),
        reads_from(stream, from, chunks),
    ensures
        from + joined(chunks).len() <= stream.len(),
        joined(chunks) == stream.subrange(from, from + joined(chunks).len()),
    decreases chunks.len(),
{
    if chunks.len() > 0 {
        let next = from + chunks[0].len();
        lemma_reads_join(stream, next, chunks.skip(1));
        assert(joined(chunks) =~= stream.subrange(from, from + joined(chunks).len()));
    }
}

/// Replay: no operation changes `stream()`, and `read` delivers the stream at the
/// cursor. So a pass of reads from position 0 to the end of the stream delivers the
/// whole stream, and a second pass after seeking back to 0 delivers the same bytes.
pub proof fn lemma_replay(stream: Seq<u8>, first: Seq<Seq<u8>>, second: Seq<Seq<u8>>)
    requires
        reads_from(stream, 0, first),
        reads_from(stream, 0, second),
        joined(first).len() == stream.len(),
        joined(second).len() == stream.len(),
    ensures
        joined(first) == stream,
        joined(second) == stream,
        joined(first) == joined(second),
{
    lemma_reads_join(stream, 0, first);
    lemma_reads_join(stream, 0, second);
    assert(stream.subrange(0, stream.len() as int) =~= stream);
}

/// Relative seeks add up: moving forward by `a` and then by `b` lands where moving
/// forward once by `a + b` does, and each step stays within a stream that holds the
/// `a + b` bytes after the cursor.
pub proof fn lemma_relative_seeks_add(cursor: int, total: int, a: i64, b: i64)
    requires
        0 <= a,
        0 <= b,
        a + b <= i64::MAX,
        0 <= cursor,
        cursor + a + b <= total,
    ensures
        0 <= seek_target(SeekFrom::Current(a), cursor, total) <= total,
        0 <= seek_target(
            SeekFrom::Current(b),
            seek_target(SeekFrom::Current(a), cursor, total),
            total,
        ) <= total,
        seek_target(SeekFrom::Current(b), seek_target(SeekFrom::Current(a), cursor, total), total)
            == seek_target(SeekFrom::Current((a + b) as i64), cursor, total),
{
}

/// Seeking to `-k` from the end of a stream `s`, for `0 < k <= s.len()`, puts the
/// cursor where exactly the last `k` bytes remain; for `k > s.len()` the target lies
/// before the start, so the seek fails.
pub proof fn lemma_end_seek(s: Seq<u8>, cursor: int, k: int)
    requires
        0 < k <= i64::MAX,
    ensures
        k <= s.len() ==> {
            let t = seek_target(SeekFrom::End((-k) as i64), cursor, s.len() as int);
            &&& 0 <= t <= s.len()
            &&& s.subrange(t, s.len() as int) == s.subrange(s.len() - k, s.len() as int)
            &&& s.subrange(t, s.len() as int).len() == k
        },
        k > s.len() ==> seek_target(SeekFrom::End((-k) as i64), cursor, s.len() as int) < 0,
{
}

/// A seek from the start past the end of the stream aims beyond it, and a backward
/// seek from the cursor by more than the cursor aims before the start: `seek` rejects
/// both and leaves the cursor where it was.
pub proof fn lemma_out_of_range(cursor: int, total: int, n: u64, k: i64)
    requires
        0 <= cursor <= total,
    ensures
        n > total ==> seek_target(SeekFrom::Start(n), cursor, total) > total,
        k < 0 && -k > cursor ==> seek_target(SeekFrom::Current(k), cursor, total) < 0,
{
}

} // verus!
