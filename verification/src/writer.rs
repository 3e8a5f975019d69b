//! The archive writer.

use vstd::prelude::*;
use cid::Cid;
use crate::cid_encoding::{append_cid_bytes, cid_bytes};
use crate::error::CarError;
use crate::format::{after_write, header_prefix, section, write_frame, write_section};
use crate::header::CarHeader;
use crate::sink::Sink;

verus! {

/// Writes one archive to a sink it owns: the header once, before the first
/// block, then a frame for each block.
#[derive(Debug)]
pub struct CarWriter<W> {
    header: CarHeader,
    writer: W,
    cid_buffer: Vec<u8>,
    is_header_written: bool,
}

impl<W: Sink> CarWriter<W> {
    /// The header this writer was made with.
    pub closed spec fn header(&self) -> CarHeader {
        self.header
    }

    /// The sink, as it stands.
    pub closed spec fn sink(&self) -> W {
        self.writer
    }

    /// Whether the header section has gone to the sink.
    pub closed spec fn header_written(&self) -> bool {
        self.is_header_written
    }

    /// A writer that has emitted nothing. The sink is not touched.
    pub fn new(header: CarHeader, writer: W) -> (w: Self)
        ensures
            w.header() == header,
            w.sink() == writer,
            !w.header_written(),
    {
        CarWriter { header, writer, cid_buffer: Vec::new(), is_header_written: false }
    }

    /// Emits the header section unless it is out already: then nothing
    /// happens. The header counts as emitted only when all of its section
    /// has been accepted. A header that cannot be encoded gives `Encode`
    /// before anything is written.
    pub fn write_header(&mut self) -> (r: Result<(), CarError>)
        ensures
            final(self).header() == old(self).header(),
            old(self).header_written() ==> r is Ok && final(self).sink() == old(self).sink(),
            r is Ok ==> final(self).header_written(),
            r is Ok ==> final(self).sink().written() == old(self).sink().written() + header_prefix(
                old(self).header_written(),
                old(self).header().encoding(),
            ),
            r is Err ==> !final(self).header_written(),
            r is Err ==> old(self).sink().written().is_prefix_of(final(self).sink().written()),
            r is Err ==> final(self).sink().written().is_prefix_of(
                old(self).sink().written() + section(old(self).header().encoding()),
            ),
            r matches Err(CarError::Encode) <==> !old(self).header_written()
                && !old(self).header().encodable(),
            r matches Err(CarError::Encode) ==> final(self).sink() == old(self).sink(),
            !(r matches Err(CarError::CidEncode)),
            old(self).sink().never_fails() ==> final(self).sink().never_fails(),
            old(self).sink().never_fails() ==> !(r matches Err(CarError::Io(_))),
            old(self).sink().never_fails() && old(self).header().encodable() ==> r is Ok,
    {
        if !self.is_header_written {
            let header_bytes = match self.header.encode() {
                Ok(bytes) => bytes,
                Err(e) => {
                    proof {
                        assert(self.writer.written() =~= (self.writer.written() + section(
                            self.header.encoding(),
                        )).subrange(0, self.writer.written().len() as int));
                    }
                    return Err(e);
                },
            };
            match write_section(&mut self.writer, header_bytes.as_slice()) {
                Ok(()) => {},
                Err(e) => {
                    return Err(e);
                },
            }
            self.is_header_written = true;
        } else {
            proof {
                assert(self.writer.written() + Seq::<u8>::empty() =~= self.writer.written());
            }
        }
        Ok(())
    }

    /// Writes one block: the header first where it is still owed, then the
    /// block's frame. Whatever fails, no byte of a frame reaches the sink
    /// before the whole header section has. The call succeeds wherever the
    /// header is out or can be encoded and the sink accepts what it is given.
    /// An identifier that could not be put in its binary form would give
    /// `CidEncode`; the encoder writes into memory, and there it does not fail.
    pub fn write(&mut self, cid: Cid, data: &[u8]) -> (r: Result<(), CarError>)
        ensures
            final(self).header() == old(self).header(),
            old(self).header_written() ==> final(self).header_written(),
            r is Ok ==> final(self).header_written(),
            r is Ok ==> final(self).sink().written() == after_write(
                old(self).sink().written(),
                old(self).header_written(),
                old(self).header().encoding(),
                cid_bytes(cid),
                data@,
            ),
            r is Err ==> old(self).sink().written().is_prefix_of(final(self).sink().written()),
            r is Err ==> final(self).sink().written().is_prefix_of(
                after_write(
                    old(self).sink().written(),
                    old(self).header_written(),
                    old(self).header().encoding(),
                    cid_bytes(cid),
                    data@,
                ),
            ),
            r matches Err(CarError::Encode) <==> !old(self).header_written()
                && !old(self).header().encodable(),
            r matches Err(CarError::Encode) ==> !final(self).header_written() && final(self).sink()
                == old(self).sink(),
            !(r matches Err(CarError::CidEncode)),
            old(self).sink().never_fails() && (old(self).header_written()
                || old(self).header().encodable()) ==> r is Ok,
            final(self).header_written() ==> (old(self).sink().written() + header_prefix(
                old(self).header_written(),
                old(self).header().encoding(),
            )).is_prefix_of(final(self).sink().written()),
            !final(self).header_written() ==> final(self).sink().written().is_prefix_of(
                old(self).sink().written() + section(old(self).header().encoding()),
            ),
            old(self).sink().never_fails() ==> final(self).sink().never_fails(),
            old(self).sink().never_fails() ==> !(r matches Err(CarError::Io(_))),
    {
        let ghost start = self.writer.written();
        let ghost whole = after_write(
            start,
            self.is_header_written,
            self.header.encoding(),
            cid_bytes(cid),
            data@,
        );
        match self.write_header() {
            Ok(()) => {},
            Err(e) => {
                proof {
                    assert(self.writer.written() =~= whole.subrange(
                        0,
                        self.writer.written().len() as int,
                    ));
                }
                return Err(e);
            },
        }
        self.cid_buffer.clear();
        match append_cid_bytes(&cid, &mut self.cid_buffer) {
            Ok(_) => {},
            Err(_) => {
                return Err(CarError::CidEncode);
            },
        }
        proof {
            assert(self.cid_buffer@ =~= cid_bytes(cid));
        }
        match write_frame(&mut self.writer, self.cid_buffer.as_slice(), data) {
            Ok(()) => Ok(()),
            Err(e) => {
                proof {
                    assert(start =~= self.writer.written().subrange(0, start.len() as int));
                }
                Err(e)
            },
        }
    }

    /// Flushes the sink and hands it back. Nothing is emitted for it: a
    /// writer that never wrote leaves the sink's bytes as they were given.
    pub fn finish(self) -> (r: Result<W, CarError>)
        ensures
            self.sink().never_fails() ==> r is Ok,
            r matches Ok(sink) ==> sink.written() == self.sink().written(),
            r matches Ok(sink) ==> sink.flushed() == sink.written().len(),
            r matches Ok(sink) ==> (self.sink().never_fails() ==> sink.never_fails()),
            r is Err ==> r matches Err(CarError::Io(_)),
    {
        let mut writer = self;
        match writer.flush() {
            Ok(()) => Ok(writer.writer),
            Err(e) => Err(e),
        }
    }

    /// Flushes the sink. The header is not emitted for it.
    pub fn flush(&mut self) -> (r: Result<(), CarError>)
        ensures
            final(self).header() == old(self).header(),
            final(self).header_written() == old(self).header_written(),
            final(self).sink().written() == old(self).sink().written(),
            old(self).sink().never_fails() ==> r is Ok && final(self).sink().never_fails(),
            old(self).sink().flushed() <= final(self).sink().flushed(),
            r is Ok ==> final(self).sink().flushed() == final(self).sink().written().len(),
            r is Err ==> r matches Err(CarError::Io(_)),
    {
        match self.writer.flush() {
            Ok(()) => Ok(()),
            Err(e) => Err(CarError::Io(e)),
        }
    }

    /// Hands the sink back as it stands: no write, no flush.
    pub fn into_inner(self) -> (sink: W)
        ensures
            sink == self.sink(),
    {
        self.writer
    }
}

} // verus!
