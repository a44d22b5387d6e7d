use vstd::prelude::*;
use vstd::math::min;

use crate::source::Source;

verus! {

/// Capacity reserved for the accumulated bytes when none is given.
pub const DEFAULT_BUF_CAPACITY: usize = 4096;

/// Bytes asked of the source per refill of `fill_buf` when no increment is given.
pub const DEFAULT_BUF_INCREMENT: usize = 1024;

/// Largest single request made to the source while reading up to a position.
const CHUNK: usize = 4096;

/// Where a seek counts from.
#[derive(Debug, Clone, Copy, PartialEq, Eq)]
pub enum SeekFrom {
    /// An offset from the first byte of the stream.
    Start(u64),
    /// An offset from the end of the stream; reaching it reads the whole source.
    End(i64),
    /// An offset from the cursor.
    Current(i64),
}

/// What can go wrong in an `AccReader` operation.
#[derive(Debug)]
pub enum Error<E> {
    /// The source failed with an error that is not an interruption; it is passed on as is.
    Source(E),
    /// A seek aimed past the end of the stream.
    BeyondEnd,
    /// A seek aimed before the first byte of the stream.
    BeforeStart,
    /// `read_exact` met the end of the stream before its buffer was full.
    UnexpectedEof,
}

/// The class of an `Error`.
#[derive(Debug, Clone, Copy, PartialEq, Eq)]
pub enum ErrorKind {
    Source,
    InvalidInput,
    UnexpectedEof,
}

impl<E> Error<E> {
    pub open spec fn spec_kind(&self) -> ErrorKind {
        match self {
            Error::Source(_) => ErrorKind::Source,
            Error::BeyondEnd => ErrorKind::InvalidInput,
            Error::BeforeStart => ErrorKind::InvalidInput,
            Error::UnexpectedEof => ErrorKind::UnexpectedEof,
        }
    }

    /// Out-of-range seeks are invalid input; source failures and early ends keep their own class.
    pub fn kind(&self) -> (r: ErrorKind)
        ensures
            r == self.spec_kind(),
    {
        match self {
            Error::Source(_) => ErrorKind::Source,
            Error::BeyondEnd => ErrorKind::InvalidInput,
            Error::BeforeStart => ErrorKind::InvalidInput,
            Error::UnexpectedEof => ErrorKind::UnexpectedEof,
        }
    }
}

/// The position a seek aims at, for a cursor at `cursor` in a stream of `total` bytes.
/// It is valid when `0 <= seek_target(..) <= total`.
pub open spec fn seek_target(from: SeekFrom, cursor: int, total: int) -> int {
    match from {
        SeekFrom::Start(n) => n as int,
        SeekFrom::Current(k) => cursor + k,
        SeekFrom::End(k) => total + k,
    }
}

/// Whether a seek has to ask the source for bytes, with `len` bytes accumulated.
pub open spec fn seek_reads(from: SeekFrom, cursor: int, len: int) -> bool {
    match from {
        SeekFrom::Start(n) => n > len,
        SeekFrom::Current(k) => cursor + k > len,
        SeekFrom::End(k) => k <= 0,
    }
}

/// How many bytes are accumulated after a seek that meets no source error, with `len`
/// accumulated before it: a target past them is read up to, or up to the end of the
/// stream if that comes first, and a seek from the end reads the whole stream.
pub open spec fn seek_fill(from: SeekFrom, cursor: int, len: int, total: int) -> int {
    if !seek_reads(from, cursor, len) {
        len
    } else {
        match from {
            SeekFrom::End(_) => total,
            _ => min(seek_target(from, cursor, total), total),
        }
    }
}

/// An accumulating reader: it gives seeking to a forward-only `Source` by keeping
/// every byte the source has produced.
///
/// Its model is the accumulated bytes `buffered()`, the cursor into them, and the
/// wrapped source. `stream()`, the accumulated bytes followed by those the source
/// has yet to produce, is the whole content of the source; no operation changes it.
pub struct AccReader<R: Source> {
    source: R,
    buf: Vec<u8>,
    pos: usize,
    inc: usize,
}

/// Calls `src.read` until it reports something other than an interruption.
fn read_retrying<R: Source>(src: &mut R, buf: &mut [u8]) -> (r: Result<usize, R::Error>)
    ensures
        final(buf)@.len() == old(buf)@.len(),
        match r {
            Ok(n) => {
                &&& n <= old(buf)@.len()
                &&& n <= old(src).pending().len()
                &&& final(buf)@.subrange(0, n as int) == old(src).pending().subrange(0, n as int)
                &&& final(src).pending() == old(src).pending().subrange(
                    n as int,
                    old(src).pending().len() as int,
                )
                &&& (n == 0 ==> old(buf)@.len() == 0 || old(src).pending().len() == 0)
                &&& (R::fills() ==> n == min(old(buf)@.len() as int, old(src).pending().len() as int))
            },
            Err(e) => final(src).pending() == old(src).pending() && !R::interrupts(e) && R::can_report(e),
        },
{
    loop
        invariant
            src.pending() == old(src).pending(),
            buf@.len() == old(buf)@.len(),
        decreases src.stalls(),
    {
        match src.read(buf) {
            Ok(n) => {
                return Ok(n);
            },
            Err(e) => {
                if !R::is_interrupted(&e) {
                    return Err(e);
                }
            },
        }
    }
}

/// Appends `src[from..to]` to `dst`.
fn append_range(dst: &mut Vec<u8>, src: &[u8], from: usize, to: usize)
    requires
        from <= to <= src@.len(),
    ensures
        final(dst)@ == old(dst)@ + src@.subrange(from as int, to as int),
{
    let mut i: usize = from;
    while i < to
        invariant
            from <= i <= to,
            to <= src@.len(),
            dst@ == old(dst)@ + src@.subrange(from as int, i as int),
        decreases to - i,
    {
        dst.push(src[i]);
        i = i + 1;
        assert(dst@ =~= old(dst)@ + src@.subrange(from as int, i as int));
    }
}

impl<R: Source> AccReader<R> {
    /// Every byte read from the source so far, in order.
    pub closed spec fn buffered(&self) -> Seq<u8> {
        self.buf@
    }

    /// The read position within `buffered()`.
    pub closed spec fn cursor(&self) -> nat {
        self.pos as nat
    }

    /// How many bytes a refill of `fill_buf` asks for.
    pub closed spec fn increment(&self) -> nat {
        self.inc as nat
    }

    /// The wrapped source.
    pub closed spec fn inner(&self) -> R {
        self.source
    }

    /// The bytes the source has yet to produce.
    pub open spec fn pending(&self) -> Seq<u8> {
        self.inner().pending()
    }

    /// The whole content of the source: what was read, then what is still to come.
    pub open spec fn stream(&self) -> Seq<u8> {
        self.buffered() + self.pending()
    }

    /// The cursor stays within the accumulated bytes, and the whole stream can be held in memory.
    pub open spec fn wf(&self) -> bool {
        &&& self.cursor() <= self.buffered().len()
        &&& self.stream().len() <= usize::MAX
    }

    /// Wraps `source` with the default capacity and increment.
    pub fn new(source: R) -> (r: Self)
        requires
            source.pending().len() <= usize::MAX,
        ensures
            r.wf(),
            r.buffered() == Seq::<u8>::empty(),
            r.cursor() == 0,
            r.increment() == DEFAULT_BUF_INCREMENT,
            r.inner() == source,
    {
        AccReader::with_initial_capacity_and_increment(
            DEFAULT_BUF_CAPACITY,
            DEFAULT_BUF_INCREMENT,
            source,
        )
    }

    /// Wraps `source`, reserving room for `cap` bytes, with the default increment.
    pub fn with_initial_capacity(cap: usize, source: R) -> (r: Self)
        requires
            source.pending().len() <= usize::MAX,
        ensures
            r.wf(),
            r.buffered() == Seq::<u8>::empty(),
            r.cursor() == 0,
            r.increment() == DEFAULT_BUF_INCREMENT,
            r.inner() == source,
    {
        AccReader::with_initial_capacity_and_increment(cap, DEFAULT_BUF_INCREMENT, source)
    }

    /// Wraps `source` with the default capacity, refilling `fill_buf` by `inc` bytes.
    pub fn with_increment(inc: usize, source: R) -> (r: Self)
        requires
            source.pending().len() <= usize::MAX,
        ensures
            r.wf(),
            r.buffered() == Seq::<u8>::empty(),
            r.cursor() == 0,
            r.increment() == inc,
            r.inner() == source,
    {
        AccReader::with_initial_capacity_and_increment(DEFAULT_BUF_CAPACITY, inc, source)
    }

    /// Wraps `source`, reserving room for `cap` bytes and refilling `fill_buf` by `inc` bytes.
    /// Nothing is read from the source.
    pub fn with_initial_capacity_and_increment(cap: usize, inc: usize, source: R) -> (r: Self)
        requires
            source.pending().len() <= usize::MAX,
        ensures
            r.wf(),
            r.buffered() == Seq::<u8>::empty(),
            r.cursor() == 0,
            r.increment() == inc,
            r.inner() == source,
    {
        let r = AccReader { source: source, buf: Vec::with_capacity(cap), pos: 0, inc: inc };
        assert(r.stream() =~= source.pending());
        r
    }

    /// Gives the source back; the accumulated bytes are dropped.
    pub fn into_inner(self) -> (r: R)
        ensures
            r == self.inner(),
    {
        self.source
    }

    /// Asks the source once (retrying interruptions) for at most `max` bytes and
    /// appends what it gives.
    fn pull(&mut self, max: usize) -> (r: Result<usize, R::Error>)
        requires
            old(self).wf(),
        ensures
            final(self).wf(),
            final(self).stream() == old(self).stream(),
            final(self).cursor() == old(self).cursor(),
            final(self).increment() == old(self).increment(),
            match r {
                Ok(n) => {
                    &&& n <= max
                    &&& n <= old(self).pending().len()
                    &&& final(self).buffered() == old(self).buffered() + old(self).pending().subrange(0, n as int)
                    &&& (n == 0 ==> max == 0 || old(self).pending().len() == 0)
                    &&& (R::fills() ==> n == min(max as int, old(self).pending().len() as int))
                },
                Err(e) => final(self).buffered() == old(self).buffered() && !R::interrupts(e) && R::can_report(e),
            },
    {
        let mut chunk: Vec<u8> = vec![0u8; max];
        let r = read_retrying(&mut self.source, chunk.as_mut_slice());
        match r {
            Ok(n) => {
                append_range(&mut self.buf, chunk.as_slice(), 0, n);
                proof {
                    let p = old(self).pending();
                    assert(p =~= p.subrange(0, n as int) + p.subrange(n as int, p.len() as int));
                    assert(self.stream() =~= old(self).stream());
                }
                Ok(n)
            },
            Err(e) => Err(e),
        }
    }

    /// Reads from the source until `n` more bytes are accumulated or the source ends.
    fn read_up_to(&mut self, n: u128) -> (r: Result<(), R::Error>)
        requires
            old(self).wf(),
        ensures
            final(self).wf(),
            final(self).stream() == old(self).stream(),
            final(self).cursor() == old(self).cursor(),
            final(self).increment() == old(self).increment(),
            old(self).buffered().len() <= final(self).buffered().len(),
            final(self).buffered().len() <= old(self).buffered().len() + n,
            match r {
                Ok(()) => final(self).buffered().len() == min(
                    old(self).buffered().len() + n,
                    old(self).stream().len() as int,
                ),
                Err(e) => !R::interrupts(e) && R::can_report(e),
            },
    {
        let mut left: u128 = n;
        loop
            invariant
                self.wf(),
                self.stream() == old(self).stream(),
                self.cursor() == old(self).cursor(),
                self.increment() == old(self).increment(),
                old(self).buffered().len() <= self.buffered().len(),
                self.buffered().len() + left == old(self).buffered().len() + n,
            decreases self.pending().len(),
        {
            if left == 0 {
                return Ok(());
            }
            let want: usize = if left < CHUNK as u128 {
                left as usize
            } else {
                CHUNK
            };
            match self.pull(want) {
                Ok(got) => {
                    if got == 0 {
                        return Ok(());
                    }
                    left = left - got as u128;
                },
                Err(e) => {
                    return Err(e);
                },
            }
        }
    }

    /// Reads the rest of the source into the accumulated bytes.
    fn drain(&mut self) -> (r: Result<(), R::Error>)
        requires
            old(self).wf(),
        ensures
            final(self).wf(),
            final(self).stream() == old(self).stream(),
            final(self).cursor() == old(self).cursor(),
            final(self).increment() == old(self).increment(),
            old(self).buffered().len() <= final(self).buffered().len(),
            match r {
                Ok(()) => final(self).buffered() == old(self).stream(),
                Err(e) => !R::interrupts(e) && R::can_report(e),
            },
    {
        let r = self.read_up_to(usize::MAX as u128);
        proof {
            if r is Ok {
                assert(self.buffered() =~= self.stream());
            }
        }
        r
    }
    /// Moves the cursor to `target`, reading from the source first if it lies past
    /// the accumulated bytes.
    fn seek_to(&mut self, target: u128) -> (r: Result<u64, Error<R::Error>>)
        requires
            old(self).wf(),
        ensures
            final(self).wf(),
            final(self).stream() == old(self).stream(),
            final(self).increment() == old(self).increment(),
            old(self).buffered().len() <= final(self).buffered().len(),
            target <= old(self).buffered().len() ==> final(self).buffered() == old(self).buffered(),
            target > old(self).buffered().len() ==> final(self).buffered().len() <= min(
                target as int,
                old(self).stream().len() as int,
            ),
            target > old(self).buffered().len() && !(r matches Err(Error::Source(_)))
                ==> final(self).buffered().len() == min(target as int, old(self).stream().len() as int),
            match r {
                Ok(p) => p == target && final(self).cursor() == p,
                Err(Error::BeyondEnd) => target > old(self).stream().len() && final(self).cursor()
                    == old(self).cursor(),
                Err(Error::Source(e)) => {
                    &&& target > old(self).buffered().len()
                    &&& final(self).cursor() == old(self).cursor()
                    &&& !R::interrupts(e) && R::can_report(e)
                },
                Err(_) => false,
            },
    {
        let len = self.buf.len();
        if target <= len as u128 {
            self.pos = target as usize;
            return Ok(target as u64);
        }
        match self.read_up_to(target - len as u128) {
            Ok(()) => {},
            Err(e) => {
                return Err(Error::Source(e));
            },
        }
        if target > self.buf.len() as u128 {
            Err(Error::BeyondEnd)
        } else {
            self.pos = target as usize;
            Ok(target as u64)
        }
    }

    /// Moves the cursor as `from` says and returns the new position.
    ///
    /// A target past the accumulated bytes is read up to from the source first, and no
    /// further; `End` reads the whole source (see `seek_fill`). A target outside the stream fails and leaves the cursor where
    /// it was, keeping whatever bytes were read on the way.
    pub fn seek(&mut self, from: SeekFrom) -> (r: Result<u64, Error<R::Error>>)
        requires
            old(self).wf(),
        ensures
            final(self).wf(),
            final(self).stream() == old(self).stream(),
            final(self).increment() == old(self).increment(),
            old(self).buffered().len() <= final(self).buffered().len(),
            !seek_reads(from, old(self).cursor() as int, old(self).buffered().len() as int)
                ==> final(self).buffered() == old(self).buffered(),
            final(self).buffered().len() <= seek_fill(
                from,
                old(self).cursor() as int,
                old(self).buffered().len() as int,
                old(self).stream().len() as int,
            ),
            !(r matches Err(Error::Source(_))) ==> final(self).buffered().len() == seek_fill(
                from,
                old(self).cursor() as int,
                old(self).buffered().len() as int,
                old(self).stream().len() as int,
            ),
            match r {
                Ok(p) => {
                    &&& p == seek_target(from, old(self).cursor() as int, old(self).stream().len() as int)
                    &&& p <= old(self).stream().len()
                    &&& final(self).cursor() == p
                },
                Err(Error::BeforeStart) => {
                    &&& seek_target(from, old(self).cursor() as int, old(self).stream().len() as int) < 0
                    &&& final(self).cursor() == old(self).cursor()
                },
                Err(Error::BeyondEnd) => {
                    &&& seek_target(from, old(self).cursor() as int, old(self).stream().len() as int)
                        > old(self).stream().len()
                    &&& final(self).cursor() == old(self).cursor()
                },
                Err(Error::Source(e)) => {
                    &&& seek_reads(from, old(self).cursor() as int, old(self).buffered().len() as int)
                    &&& final(self).cursor() == old(self).cursor()
                    &&& !R::interrupts(e) && R::can_report(e)
                },
                Err(Error::UnexpectedEof) => false,
            },
    {
        match from {
            SeekFrom::End(k) => {
                if k > 0 {
                    return Err(Error::BeyondEnd);
                }
                match self.drain() {
                    Ok(()) => {},
                    Err(e) => {
                        return Err(Error::Source(e));
                    },
                }
                let len = self.buf.len();
                let back: u128 = (0i128 - k as i128) as u128;
                if back > len as u128 {
                    Err(Error::BeforeStart)
                } else {
                    self.pos = len - back as usize;
                    Ok(self.pos as u64)
                }
            },
            SeekFrom::Start(n) => self.seek_to(n as u128),
            SeekFrom::Current(k) => {
                if k == 0 {
                    Ok(self.pos as u64)
                } else if k < 0 {
                    let back: u128 = (0i128 - k as i128) as u128;
                    if back > self.pos as u128 {
                        Err(Error::BeforeStart)
                    } else {
                        self.pos = self.pos - back as usize;
                        Ok(self.pos as u64)
                    }
                } else {
                    self.seek_to(self.pos as u128 + k as u128)
                }
            },
        }
    }
    /// Copies `self.buf[pos..pos + n]` to the front of `dst`.
    fn copy_out(&self, dst: &mut [u8], n: usize)
        requires
            self.wf(),
            self.cursor() + n <= self.buffered().len(),
            n <= old(dst)@.len(),
        ensures
            final(dst)@.len() == old(dst)@.len(),
            final(dst)@.subrange(0, n as int) == self.buffered().subrange(
                self.cursor() as int,
                self.cursor() + n,
            ),
            final(dst)@.subrange(n as int, old(dst)@.len() as int) == old(dst)@.subrange(
                n as int,
                old(dst)@.len() as int,
            ),
    {
        let mut i: usize = 0;
        while i < n
            invariant
                i <= n,
                n <= dst@.len(),
                dst@.len() == old(dst)@.len(),
                self.wf(),
                self.cursor() + n <= self.buffered().len(),
                forall|j: int| 0 <= j < i ==> dst@[j] == self.buffered()[self.cursor() + j],
                forall|j: int| n <= j < dst@.len() ==> dst@[j] == old(dst)@[j],
            decreases n - i,
        {
            dst[i] = self.buf[self.pos + i];
            i = i + 1;
        }
        assert(dst@.subrange(0, n as int) =~= self.buffered().subrange(
            self.cursor() as int,
            self.cursor() + n,
        ));
        assert(dst@.subrange(n as int, old(dst)@.len() as int) =~= old(dst)@.subrange(
            n as int,
            old(dst)@.len() as int,
        ));
    }

    /// Reads up to `buf.len()` bytes at the cursor into `buf` and moves the cursor past them.
    ///
    /// Accumulated bytes after the cursor are served without touching the source. Only
    /// when none can be served (none are left, or `buf` is empty) is the source asked,
    /// once, straight into `buf`; what it gives is accumulated too. Zero means that `buf` is empty or the stream is at its end.
    pub fn read(&mut self, buf: &mut [u8]) -> (r: Result<usize, Error<R::Error>>)
        requires
            old(self).wf(),
        ensures
            final(self).wf(),
            final(self).stream() == old(self).stream(),
            final(self).increment() == old(self).increment(),
            old(self).buffered().len() <= final(self).buffered().len(),
            final(buf)@.len() == old(buf)@.len(),
            old(self).cursor() < old(self).buffered().len() && old(buf)@.len() > 0 ==> {
                &&& final(self).buffered() == old(self).buffered()
                &&& r == Ok::<usize, Error<R::Error>>(
                    min(old(buf)@.len() as int, old(self).buffered().len() - old(self).cursor())
                        as usize,
                )
            },
            match r {
                Ok(n) => {
                    &&& n <= old(buf)@.len()
                    &&& old(self).cursor() + n <= old(self).stream().len()
                    &&& final(buf)@.subrange(0, n as int) == old(self).stream().subrange(
                        old(self).cursor() as int,
                        old(self).cursor() + n,
                    )
                    &&& final(self).cursor() == old(self).cursor() + n
                    &&& (n == 0 ==> old(buf)@.len() == 0 || old(self).cursor() == old(self).stream().len())
                    &&& (old(self).cursor() < old(self).buffered().len() ==> {
                        &&& final(self).buffered() == old(self).buffered()
                        &&& final(buf)@.subrange(n as int, old(buf)@.len() as int)
                            == old(buf)@.subrange(n as int, old(buf)@.len() as int)
                    })
                    &&& (old(self).cursor() == old(self).buffered().len() ==> {
                        &&& final(self).buffered() == old(self).buffered() + final(buf)@.subrange(0, n as int)
                        &&& (R::fills() ==> n == min(
                            old(buf)@.len() as int,
                            old(self).stream().len() - old(self).cursor(),
                        ))
                    })
                },
                Err(Error::Source(e)) => {
                    &&& old(self).cursor() == old(self).buffered().len() || old(buf)@.len() == 0
                    &&& final(self).buffered() == old(self).buffered()
                    &&& final(self).cursor() == old(self).cursor()
                    &&& !R::interrupts(e) && R::can_report(e)
                },
                Err(_) => false,
            },
    {
        let avail = self.buf.len() - self.pos;
        let n: usize = if avail < buf.len() {
            avail
        } else {
            buf.len()
        };
        if n > 0 {
            self.copy_out(buf, n);
            proof {
                assert(old(self).stream().subrange(self.cursor() as int, self.cursor() + n)
                    =~= self.buffered().subrange(self.cursor() as int, self.cursor() + n));
            }
            self.pos = self.pos + n;
            Ok(n)
        } else {
            match read_retrying(&mut self.source, buf) {
                Ok(got) => {
                    append_range(&mut self.buf, buf, 0, got);
                    proof {
                        let p = old(self).pending();
                        assert(p =~= p.subrange(0, got as int) + p.subrange(got as int, p.len() as int));
                        assert(self.stream() =~= old(self).stream());
                        assert(old(self).stream().subrange(self.cursor() as int, self.cursor() + got)
                            =~= p.subrange(0, got as int));
                    }
                    self.pos = self.pos + got;
                    Ok(got)
                },
                Err(e) => Err(Error::Source(e)),
            }
        }
    }

    /// The accumulated bytes after the cursor, without moving it.
    ///
    /// When there are none, the source is asked once for up to `increment()` bytes, and
    /// what it gives is accumulated and returned. An empty result with a positive
    /// increment means that the stream is at its end.
    pub fn fill_buf(&mut self) -> (r: Result<&[u8], Error<R::Error>>)
        requires
            old(self).wf(),
        ensures
            final(self).wf(),
            final(self).stream() == old(self).stream(),
            final(self).increment() == old(self).increment(),
            final(self).cursor() == old(self).cursor(),
            old(self).buffered().len() <= final(self).buffered().len(),
            old(self).cursor() < old(self).buffered().len() ==> final(self).buffered() == old(self).buffered()
                && r is Ok,
            match r {
                Ok(s) => {
                    &&& s@ == final(self).buffered().subrange(
                        old(self).cursor() as int,
                        final(self).buffered().len() as int,
                    )
                    &&& (old(self).cursor() == old(self).buffered().len() ==> {
                        &&& s@.len() <= old(self).increment()
                        &&& (R::fills() ==> s@.len() == min(
                            old(self).increment() as int,
                            old(self).pending().len() as int,
                        ))
                        &&& (s@.len() == 0 ==> old(self).increment() == 0 || old(self).cursor()
                            == old(self).stream().len())
                    })
                },
                Err(Error::Source(e)) => {
                    &&& old(self).cursor() == old(self).buffered().len()
                    &&& final(self).buffered() == old(self).buffered()
                    &&& !R::interrupts(e) && R::can_report(e)
                },
                Err(_) => false,
            },
    {
        if self.pos == self.buf.len() {
            self.buf.reserve(self.inc);
            match self.pull(self.inc) {
                Ok(_) => {},
                Err(e) => {
                    return Err(Error::Source(e));
                },
            }
        }
        Ok(vstd::slice::slice_subrange(self.buf.as_slice(), self.pos, self.buf.len()))
    }

    /// Moves the cursor `amt` bytes on, but never past the accumulated bytes.
    pub fn consume(&mut self, amt: usize)
        requires
            old(self).wf(),
        ensures
            final(self).wf(),
            final(self).buffered() == old(self).buffered(),
            final(self).inner() == old(self).inner(),
            final(self).increment() == old(self).increment(),
            final(self).cursor() == min(old(self).cursor() + amt, old(self).buffered().len() as int),
    {
        let avail = self.buf.len() - self.pos;
        if amt < avail {
            self.pos = self.pos + amt;
        } else {
            self.pos = self.buf.len();
        }
    }

    /// Fills `buf` with the bytes at the cursor and moves the cursor past them, reading
    /// from the source as needed. If the stream ends first, the cursor goes to its end.
    pub fn read_exact(&mut self, buf: &mut [u8]) -> (r: Result<(), Error<R::Error>>)
        requires
            old(self).wf(),
        ensures
            final(self).wf(),
            final(self).stream() == old(self).stream(),
            final(self).increment() == old(self).increment(),
            old(self).buffered().len() <= final(self).buffered().len(),
            final(buf)@.len() == old(buf)@.len(),
            old(self).cursor() + old(buf)@.len() <= old(self).buffered().len() ==> r is Ok
                && final(self).buffered() == old(self).buffered(),
            match r {
                Ok(()) => {
                    &&& old(self).cursor() + old(buf)@.len() <= old(self).stream().len()
                    &&& final(buf)@ == old(self).stream().subrange(
                        old(self).cursor() as int,
                        old(self).cursor() + old(buf)@.len() as int,
                    )
                    &&& final(self).cursor() == old(self).cursor() + old(buf)@.len()
                },
                Err(Error::UnexpectedEof) => {
                    &&& old(self).cursor() + old(buf)@.len() > old(self).stream().len()
                    &&& final(self).cursor() == old(self).stream().len()
                },
                Err(Error::Source(e)) => final(self).cursor() == old(self).cursor() && !R::interrupts(e) && R::can_report(e),
                Err(_) => false,
            },
    {
        let want = buf.len();
        let avail = self.buf.len() - self.pos;
        if avail < want {
            match self.read_up_to((want - avail) as u128) {
                Ok(()) => {},
                Err(e) => {
                    return Err(Error::Source(e));
                },
            }
            if self.buf.len() - self.pos < want {
                self.pos = self.buf.len();
                return Err(Error::UnexpectedEof);
            }
        }
        self.copy_out(buf, want);
        proof {
            assert(buf@ =~= buf@.subrange(0, want as int));
            assert(old(self).stream().subrange(self.cursor() as int, self.cursor() + want)
                =~= self.buffered().subrange(self.cursor() as int, self.cursor() + want));
        }
        self.pos = self.pos + want;
        Ok(())
    }

    /// Appends everything from the cursor to the end of the stream to `out`, reading the
    /// rest of the source, and moves the cursor to the end. Returns how many bytes were
    /// appended.
    pub fn read_to_end(&mut self, out: &mut Vec<u8>) -> (r: Result<usize, Error<R::Error>>)
        requires
            old(self).wf(),
        ensures
            final(self).wf(),
            final(self).stream() == old(self).stream(),
            final(self).increment() == old(self).increment(),
            old(self).buffered().len() <= final(self).buffered().len(),
            match r {
                Ok(n) => {
                    &&& final(out)@ == old(out)@ + old(self).stream().subrange(
                        old(self).cursor() as int,
                        old(self).stream().len() as int,
                    )
                    &&& n == old(self).stream().len() - old(self).cursor()
                    &&& final(self).cursor() == old(self).stream().len()
                },
                Err(Error::Source(e)) => {
                    &&& final(out)@ == old(out)@
                    &&& final(self).cursor() == old(self).cursor()
                    &&& !R::interrupts(e) && R::can_report(e)
                },
                Err(_) => false,
            },
    {
        match self.drain() {
            Ok(()) => {},
            Err(e) => {
                return Err(Error::Source(e));
            },
        }
        let len = self.buf.len();
        append_range(out, self.buf.as_slice(), self.pos, len);
        let n = len - self.pos;
        self.pos = len;
        Ok(n)
    }
}

} // verus!
