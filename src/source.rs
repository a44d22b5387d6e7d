use vstd::prelude::*;
use vstd::math::min;

verus! {

/// A forward-only producer of bytes: the thing an `AccReader` wraps.
///
/// The model of a source is the finite sequence of bytes it has yet to produce,
/// `pending()`, and a bound on the interruptions it may still report, `stalls()`.
/// Implementors promise that each `read` hands out a prefix of `pending()`, that an
/// error hands out nothing and is one that `can_report` admits, and that an
/// interruption uses up one stall.
pub trait Source {
    type Error;

    /// The bytes this source will still produce, in order.
    spec fn pending(&self) -> Seq<u8>;

    /// How many more interruptions this source may report.
    spec fn stalls(&self) -> nat;

    /// Whether an error is transient, so that the read should simply be tried again.
    spec fn interrupts(err: Self::Error) -> bool;

    /// Whether every successful read of this kind of source fills the buffer as far as
    /// its remaining bytes allow.
    spec fn fills() -> bool;

    /// Whether this kind of source can report `err` at all.
    spec fn can_report(err: Self::Error) -> bool;

    fn is_interrupted(err: &Self::Error) -> (r: bool)
        ensures
            r == Self::interrupts(*err),
    ;

    /// Reads up to `buf.len()` bytes into the front of `buf` and says how many.
    /// Zero bytes on a non-empty `buf` means that the source is exhausted.
    fn read(&mut self, buf: &mut [u8]) -> (r: Result<usize, Self::Error>)
        ensures
            final(buf)@.len() == old(buf)@.len(),
            final(self).stalls() <= old(self).stalls(),
            match r {
                Ok(n) => {
                    &&& n <= old(buf)@.len()
                    &&& n <= old(self).pending().len()
                    &&& final(buf)@.subrange(0, n as int) == old(self).pending().subrange(0, n as int)
                    &&& final(self).pending() == old(self).pending().subrange(
                        n as int,
                        old(self).pending().len() as int,
                    )
                    &&& (n == 0 ==> old(buf)@.len() == 0 || old(self).pending().len() == 0)
                    &&& (Self::fills() ==> n == min(
                        old(buf)@.len() as int,
                        old(self).pending().len() as int,
                    ))
                },
                Err(e) => {
                    &&& Self::can_report(e)
                    &&& final(self).pending() == old(self).pending()
                    &&& (Self::interrupts(e) ==> final(self).stalls() < old(self).stalls())
                },
            },
    ;
}

/// The error type of a source that never fails: no read of it returns one.
#[derive(Debug, Clone, Copy, PartialEq, Eq)]
pub struct NoError;

/// A byte slice reads as a source of its own contents, front to back.
impl<'a> Source for &'a [u8] {
    type Error = NoError;

    open spec fn pending(&self) -> Seq<u8> {
        (*self)@
    }

    open spec fn stalls(&self) -> nat {
        0
    }

    open spec fn interrupts(err: NoError) -> bool {
        false
    }

    open spec fn fills() -> bool {
        true
    }

    open spec fn can_report(err: NoError) -> bool {
        false
    }

    fn is_interrupted(err: &NoError) -> (r: bool) {
        false
    }

    fn read(&mut self, buf: &mut [u8]) -> (r: Result<usize, NoError>) {
        let avail = self.len();
        let n: usize = if avail < buf.len() {
            avail
        } else {
            buf.len()
        };
        let mut i: usize = 0;
        while i < n
            invariant
                n <= avail,
                avail == old(self)@.len(),
                *self == *old(self),
                n <= buf@.len(),
                buf@.len() == old(buf)@.len(),
                i <= n,
                forall|j: int| 0 <= j < i ==> buf@[j] == old(self)@[j],
            decreases n - i,
        {
            buf[i] = self[i];
            i = i + 1;
        }
        assert(buf@.subrange(0, n as int) =~= old(self)@.subrange(0, n as int));
        *self = vstd::slice::slice_subrange(*self, n, avail);
        Ok(n)
    }
}

} // verus!
