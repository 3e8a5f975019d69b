//! The byte layout of an archive: a header section, then one frame for each
//! block. A section is a body behind the varint of its length; a frame is the
//! section whose body is an identifier's binary form and then the payload.

use vstd::prelude::*;
use crate::error::CarError;
use crate::sink::Sink;
use crate::varint::{encode_varint, lemma_parse_varint, lemma_varint_len, parse_varint, varint};

verus! {

/// `body` behind its length.
pub open spec fn section(body: Seq<u8>) -> Seq<u8> {
    varint(body.len()) + body
}

/// The frame of one block. Its length prefix counts the identifier's bytes
/// and the payload's, and nothing else.
pub open spec fn block_frame(cid: Seq<u8>, payload: Seq<u8>) -> Seq<u8> {
    varint(cid.len() + payload.len()) + cid + payload
}

/// What has to precede a block: the header section, unless it was emitted.
pub open spec fn header_prefix(emitted: bool, header: Seq<u8>) -> Seq<u8> {
    if emitted {
        Seq::empty()
    } else {
        section(header)
    }
}

/// The sink's bytes after one block is written behind `out`.
pub open spec fn after_write(
    out: Seq<u8>,
    emitted: bool,
    header: Seq<u8>,
    cid: Seq<u8>,
    payload: Seq<u8>,
) -> Seq<u8> {
    out + header_prefix(emitted, header) + block_frame(cid, payload)
}

/// The sink's bytes after `blocks` are written in order to a sink that was
/// empty, by a writer that had not emitted its header.
pub open spec fn after_writes(header: Seq<u8>, blocks: Seq<(Seq<u8>, Seq<u8>)>) -> Seq<u8>
    decreases blocks.len(),
{
    if blocks.len() == 0 {
        Seq::empty()
    } else {
        after_write(
            after_writes(header, blocks.drop_last()),
            blocks.len() > 1,
            header,
            blocks.last().0,
            blocks.last().1,
        )
    }
}

/// A whole archive: the header section and the frames of `blocks`, each an
/// (identifier, payload) pair, in order.
pub open spec fn car_stream(header: Seq<u8>, blocks: Seq<(Seq<u8>, Seq<u8>)>) -> Seq<u8>
    decreases blocks.len(),
{
    if blocks.len() == 0 {
        section(header)
    } else {
        car_stream(header, blocks.drop_last()) + block_frame(blocks.last().0, blocks.last().1)
    }
}

/// The sections of `bodies`, one behind the other.
pub open spec fn sections(bodies: Seq<Seq<u8>>) -> Seq<u8>
    decreases bodies.len(),
{
    if bodies.len() == 0 {
        Seq::empty()
    } else {
        section(bodies.first()) + sections(bodies.drop_first())
    }
}

/// The body of each block's frame: identifier, then payload.
pub open spec fn frame_bodies(blocks: Seq<(Seq<u8>, Seq<u8>)>) -> Seq<Seq<u8>> {
    Seq::new(blocks.len(), |i: int| blocks[i].0 + blocks[i].1)
}

/// What a reader makes of `s`: the bodies of the sections that `s` consists
/// of, or `None` where `s` is not a run of whole sections.
pub open spec fn parse_sections(s: Seq<u8>) -> Option<Seq<Seq<u8>>>
    decreases s.len(),
{
    if s.len() == 0 {
        Some(Seq::empty())
    } else {
        match parse_varint(s) {
            None => None,
            Some((n, used)) => {
                if used == 0 || used + n > s.len() {
                    None
                } else {
                    match parse_sections(s.subrange((used + n) as int, s.len() as int)) {
                        None => None,
                        Some(tail) => Some(seq![s.subrange(used as int, (used + n) as int)] + tail),
                    }
                }
            },
        }
    }
}

/// A frame is the section of the identifier followed by the payload: its
/// length prefix is exact.
pub proof fn lemma_frame_is_section(cid: Seq<u8>, payload: Seq<u8>)
    ensures
        block_frame(cid, payload) == section(cid + payload),
        block_frame(cid, payload).len() == varint(cid.len() + payload.len()).len() + cid.len()
            + payload.len(),
{
    assert(block_frame(cid, payload) =~= section(cid + payload));
}

/// Emitting the header a second time adds nothing: once it is out, the
/// prefix owed is empty.
pub proof fn lemma_header_emitted_once(out: Seq<u8>, header: Seq<u8>)
    ensures
        out + header_prefix(false, header) + header_prefix(true, header) == out + header_prefix(
            false,
            header,
        ),
{
    assert(out + header_prefix(false, header) + header_prefix(true, header) =~= out
        + header_prefix(false, header));
}

/// Blocks written one after the other to a fresh writer on an empty sink
/// leave a whole archive there: the header first, then every frame in the
/// order of the calls. With no block written the sink stays empty.
pub proof fn lemma_writes_make_stream(header: Seq<u8>, blocks: Seq<(Seq<u8>, Seq<u8>)>)
    ensures
        blocks.len() == 0 ==> after_writes(header, blocks) == Seq::<u8>::empty(),
        blocks.len() > 0 ==> after_writes(header, blocks) == car_stream(header, blocks),
    decreases blocks.len(),
{
    if blocks.len() == 1 {
        assert(blocks.drop_last().len() == 0);
        assert(after_writes(header, blocks.drop_last()) == Seq::<u8>::empty());
        assert(car_stream(header, blocks.drop_last()) == section(header));
        assert(after_writes(header, blocks) =~= car_stream(header, blocks));
    } else if blocks.len() > 1 {
        lemma_writes_make_stream(header, blocks.drop_last());
        assert(after_writes(header, blocks) =~= car_stream(header, blocks));
    }
}

/// One more body adds one more section at the end.
pub proof fn lemma_sections_push(bodies: Seq<Seq<u8>>, body: Seq<u8>)
    ensures
        sections(bodies.push(body)) == sections(bodies) + section(body),
    decreases bodies.len(),
{
    let all = bodies.push(body);
    if bodies.len() == 0 {
        assert(all.drop_first() =~= Seq::<Seq<u8>>::empty());
        assert(sections(all.drop_first()) == Seq::<u8>::empty());
        assert(sections(all) =~= sections(bodies) + section(body));
    } else {
        lemma_sections_push(bodies.drop_first(), body);
        assert(all.drop_first() =~= bodies.drop_first().push(body));
        assert(all.first() == bodies.first());
        assert(sections(all) =~= sections(bodies) + section(body));
    }
}

/// A reader recovers every body from a run of sections.
pub proof fn lemma_parse_sections(bodies: Seq<Seq<u8>>)
    ensures
        parse_sections(sections(bodies)) == Some(bodies),
    decreases bodies.len(),
{
    if bodies.len() > 0 {
        let body = bodies.first();
        let rest = sections(bodies.drop_first());
        let s = sections(bodies);
        let prefix = varint(body.len());
        lemma_parse_sections(bodies.drop_first());
        lemma_varint_len(body.len());
        lemma_parse_varint(body.len(), body + rest);
        assert(s =~= prefix + (body + rest));
        let used = prefix.len();
        let n = body.len();
        assert(s.subrange((used + n) as int, s.len() as int) =~= rest);
        assert(s.subrange(used as int, (used + n) as int) =~= body);
        assert(seq![body] + bodies.drop_first() =~= bodies);
    }
}

/// An archive is the run of sections that starts with the header and goes
/// on with one body for each block.
pub proof fn lemma_stream_is_sections(header: Seq<u8>, blocks: Seq<(Seq<u8>, Seq<u8>)>)
    ensures
        car_stream(header, blocks) == sections(seq![header] + frame_bodies(blocks)),
    decreases blocks.len(),
{
    if blocks.len() == 0 {
        let one = seq![header] + frame_bodies(blocks);
        assert(one =~= Seq::<Seq<u8>>::empty().push(header));
        lemma_sections_push(Seq::<Seq<u8>>::empty(), header);
        assert(sections(Seq::<Seq<u8>>::empty()) + section(header) =~= section(header));
    } else {
        let front = blocks.drop_last();
        let last = blocks.last();
        lemma_stream_is_sections(header, front);
        lemma_sections_push(seq![header] + frame_bodies(front), last.0 + last.1);
        lemma_frame_is_section(last.0, last.1);
        assert((seq![header] + frame_bodies(front)).push(last.0 + last.1) =~= seq![header]
            + frame_bodies(blocks));
    }
}

/// A reader of the archive that `blocks` make gets the header back, and then
/// exactly one body for each block, identifier and payload, in order.
pub proof fn lemma_stream_round_trip(header: Seq<u8>, blocks: Seq<(Seq<u8>, Seq<u8>)>)
    ensures
        parse_sections(car_stream(header, blocks)) == Some(seq![header] + frame_bodies(blocks)),
{
    lemma_stream_is_sections(header, blocks);
    lemma_parse_sections(seq![header] + frame_bodies(blocks));
}

/// Writes `body` behind its length: the length first, then the body.
pub fn write_section<W: Sink>(sink: &mut W, body: &[u8]) -> (r: Result<(), CarError>)
    ensures
        old(sink).never_fails() ==> r is Ok && final(sink).never_fails(),
        r is Ok ==> final(sink).written() == old(sink).written() + section(body@),
        r is Err ==> r matches Err(CarError::Io(_)),
        r is Err ==> old(sink).written().is_prefix_of(final(sink).written())
            && final(sink).written().is_prefix_of(old(sink).written() + section(body@)),
{
    let prefix = encode_varint(body.len() as u128);
    match sink.write_all(prefix.as_slice()) {
        Ok(()) => {},
        Err(e) => {
            proof {
                lemma_prefix_extends(old(sink).written(), sink.written(), prefix@, body@);
                assert(old(sink).written() + prefix@ + body@ =~= old(sink).written() + section(body@));
            }
            return Err(CarError::Io(e));
        },
    }
    match sink.write_all(body) {
        Ok(()) => {},
        Err(e) => {
            proof {
                lemma_prefix_after(old(sink).written(), prefix@, sink.written(), body@);
                assert(old(sink).written() + prefix@ + body@ =~= old(sink).written() + section(body@));
            }
            return Err(CarError::Io(e));
        },
    }
    proof {
        assert(sink.written() =~= old(sink).written() + section(body@));
    }
    Ok(())
}

/// Writes the frame of one block: the length of identifier and payload
/// together, then the identifier's bytes, then the payload, as three writes.
pub fn write_frame<W: Sink>(sink: &mut W, cid: &[u8], payload: &[u8]) -> (r: Result<(), CarError>)
    ensures
        old(sink).never_fails() ==> r is Ok && final(sink).never_fails(),
        r is Ok ==> final(sink).written() == old(sink).written() + block_frame(cid@, payload@),
        r is Err ==> r matches Err(CarError::Io(_)),
        r is Err ==> old(sink).written().is_prefix_of(final(sink).written())
            && final(sink).written().is_prefix_of(
            old(sink).written() + block_frame(cid@, payload@),
        ),
{
    let ghost start = sink.written();
    let ghost whole = start + block_frame(cid@, payload@);
    let prefix = encode_varint(cid.len() as u128 + payload.len() as u128);
    match sink.write_all(prefix.as_slice()) {
        Ok(()) => {},
        Err(e) => {
            proof {
                lemma_prefix_extends(start, sink.written(), prefix@, cid@ + payload@);
                assert(start + prefix@ + (cid@ + payload@) =~= whole);
            }
            return Err(CarError::Io(e));
        },
    }
    match sink.write_all(cid) {
        Ok(()) => {},
        Err(e) => {
            proof {
                lemma_prefix_after(start, prefix@, sink.written(), cid@);
                lemma_prefix_extends(start, sink.written(), prefix@ + cid@, payload@);
                assert(start + prefix@ + cid@ =~= start + (prefix@ + cid@));
                assert(start + (prefix@ + cid@) + payload@ =~= whole);
            }
            return Err(CarError::Io(e));
        },
    }
    match sink.write_all(payload) {
        Ok(()) => {},
        Err(e) => {
            proof {
                lemma_prefix_after(start, prefix@ + cid@, sink.written(), payload@);
                assert(start + prefix@ + cid@ =~= start + (prefix@ + cid@));
                assert(start + (prefix@ + cid@) + payload@ =~= whole);
            }
            return Err(CarError::Io(e));
        },
    }
    proof {
        assert(sink.written() =~= whole);
    }
    Ok(())
}

/// What lies between `start` and `start + a` still lies between them when
/// more is to follow `a`.
proof fn lemma_prefix_extends(start: Seq<u8>, now: Seq<u8>, a: Seq<u8>, b: Seq<u8>)
    requires
        start.is_prefix_of(now),
        now.is_prefix_of(start + a),
    ensures
        now.is_prefix_of(start + a + b),
{
    assert(now =~= (start + a + b).subrange(0, now.len() as int));
}

/// What lies between `start + a` and `start + a + b` lies between `start`
/// and `start + a + b`.
proof fn lemma_prefix_after(start: Seq<u8>, a: Seq<u8>, now: Seq<u8>, b: Seq<u8>)
    requires
        (start + a).is_prefix_of(now),
        now.is_prefix_of(start + a + b),
    ensures
        start.is_prefix_of(now),
{
    assert(start =~= now.subrange(0, start.len() as int));
}

} // verus!
