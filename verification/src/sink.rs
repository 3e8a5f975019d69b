//! The destination of an archive's bytes.

use vstd::prelude::*;

verus! {

/// `std::io::Error`, carried through from a sink to the caller untouched.
#[verifier::external_type_specification]
#[verifier::external_body]
pub struct ExIoError(std::io::Error);

/// An ordered byte destination. It accepts bytes at its end and never takes
/// back one it has accepted.
///
/// The three spec functions are the model that the contracts speak of. An
/// implementation that is verified defines them. Their bodies here are for
/// one that is not, such as a sink on an operating-system stream, whose
/// history is no function of the value in hand: it leaves them alone, and
/// nothing that is proved of a writer speaks of it.
pub trait Sink {
    /// Every byte the sink has accepted, in order.
    open spec fn written(&self) -> Seq<u8> {
        Seq::empty()
    }

    /// How many of the accepted bytes are known to have been pushed on to
    /// where they are going.
    open spec fn flushed(&self) -> nat {
        0
    }

    /// Whether the sink is of a kind that accepts whatever it is given, now
    /// and from now on. Where this holds, no write and no flush fails.
    open spec fn never_fails(&self) -> bool {
        false
    }

    /// Appends `bytes`. On failure the sink may have accepted a front part of
    /// them, and nothing else.
    fn write_all(&mut self, bytes: &[u8]) -> (r: Result<(), std::io::Error>)
        ensures
            old(self).never_fails() ==> r is Ok && final(self).never_fails(),
            r is Ok ==> final(self).written() == old(self).written() + bytes@,
            old(self).flushed() <= final(self).flushed(),
            r is Err ==> old(self).written().is_prefix_of(final(self).written())
                && final(self).written().is_prefix_of(old(self).written() + bytes@),
    ;

    /// Pushes buffered bytes on to where they are going: after a success
    /// all of the accepted bytes have been. The accepted bytes stay as they
    /// are, whether or not this succeeds.
    fn flush(&mut self) -> (r: Result<(), std::io::Error>)
        ensures
            old(self).never_fails() ==> r is Ok && final(self).never_fails(),
            final(self).written() == old(self).written(),
            old(self).flushed() <= final(self).flushed(),
            r is Ok ==> final(self).flushed() == final(self).written().len(),
    ;
}

/// A sink in memory. It never fails, and what it has accepted has arrived.
#[derive(Debug)]
pub struct BufferSink {
    bytes: Vec<u8>,
}

impl BufferSink {
    /// An empty sink.
    pub fn new() -> (s: Self)
        ensures
            s.written() == Seq::<u8>::empty(),
            s.flushed() == 0,
    {
        BufferSink { bytes: Vec::new() }
    }

    /// The accepted bytes.
    pub fn as_slice(&self) -> (b: &[u8])
        ensures
            b@ == self.written(),
    {
        self.bytes.as_slice()
    }

    /// Gives up the accepted bytes.
    pub fn into_bytes(self) -> (b: Vec<u8>)
        ensures
            b@ == self.written(),
    {
        self.bytes
    }
}

impl Sink for BufferSink {
    closed spec fn written(&self) -> Seq<u8> {
        self.bytes@
    }

    closed spec fn flushed(&self) -> nat {
        self.bytes@.len()
    }

    open spec fn never_fails(&self) -> bool {
        true
    }

    fn write_all(&mut self, bytes: &[u8]) -> (r: Result<(), std::io::Error>)
    {
        self.bytes.extend_from_slice(bytes);
        Ok(())
    }

    fn flush(&mut self) -> (r: Result<(), std::io::Error>)
        ensures
            *final(self) == *old(self),
    {
        Ok(())
    }
}

} // verus!
