use car_writer::format::{write_frame, write_section};
use car_writer::{BufferSink, CarError, CarHeader, CarWriter, Sink};
use cid::multihash::Multihash;
use cid::Cid;

fn cid_v1(fill: u8) -> Cid {
    Cid::new_v1(0x55, Multihash::<64>::wrap(0x12, &[fill; 32]).unwrap())
}

fn cid_v1_bytes(fill: u8) -> Vec<u8> {
    let mut bytes = vec![0x01, 0x55, 0x12, 0x20];
    bytes.extend_from_slice(&[fill; 32]);
    bytes
}

fn empty_header_bytes() -> Vec<u8> {
    let mut bytes = vec![0xa2, 0x65];
    bytes.extend_from_slice(b"roots");
    bytes.push(0x80);
    bytes.push(0x67);
    bytes.extend_from_slice(b"version");
    bytes.push(0x01);
    bytes
}

fn fresh_writer() -> CarWriter<BufferSink> {
    CarWriter::new(CarHeader::new_v1(Vec::new()), BufferSink::new())
}

/// Splits a stream into the bodies of its sections.
fn read_sections(stream: &[u8]) -> Vec<Vec<u8>> {
    let mut bodies = Vec::new();
    let mut at = 0;
    while at < stream.len() {
        let mut len: usize = 0;
        let mut shift = 0;
        loop {
            let byte = stream[at];
            at += 1;
            len |= ((byte & 0x7f) as usize) << shift;
            shift += 7;
            if byte < 0x80 {
                break;
            }
        }
        bodies.push(stream[at..at + len].to_vec());
        at += len;
    }
    bodies
}

/// A sink that accepts a fixed number of bytes and then refuses.
struct ShortSink {
    accepted: Vec<u8>,
    room: usize,
    fail_flush: bool,
}

impl Sink for ShortSink {
    fn write_all(&mut self, bytes: &[u8]) -> Result<(), std::io::Error> {
        if bytes.len() <= self.room {
            self.accepted.extend_from_slice(bytes);
            self.room -= bytes.len();
            Ok(())
        } else {
            self.accepted.extend_from_slice(&bytes[..self.room]);
            self.room = 0;
            Err(std::io::Error::from(std::io::ErrorKind::WriteZero))
        }
    }

    fn flush(&mut self) -> Result<(), std::io::Error> {
        if self.fail_flush {
            Err(std::io::Error::from(std::io::ErrorKind::BrokenPipe))
        } else {
            Ok(())
        }
    }
}

#[test]
fn two_blocks_then_finish() {
    let mut writer = fresh_writer();
    writer.write(cid_v1(0xaa), b"hello").unwrap();
    writer.write(cid_v1(0xbb), b"world").unwrap();
    let sink = writer.finish().unwrap();

    let mut expected = vec![17u8];
    expected.extend_from_slice(&empty_header_bytes());
    expected.push(41);
    expected.extend_from_slice(&cid_v1_bytes(0xaa));
    expected.extend_from_slice(b"hello");
    expected.push(41);
    expected.extend_from_slice(&cid_v1_bytes(0xbb));
    expected.extend_from_slice(b"world");
    assert_eq!(sink.into_bytes(), expected);
}

#[test]
fn first_block_emits_header_first() {
    let mut writer = fresh_writer();
    writer.write(cid_v1(0x01), b"x").unwrap();
    let bytes = writer.into_inner().into_bytes();
    assert_eq!(bytes[0], 17);
    assert_eq!(&bytes[1..18], &empty_header_bytes()[..]);
    assert_eq!(bytes[18], 37);
    assert_eq!(&bytes[19..55], &cid_v1_bytes(0x01)[..]);
    assert_eq!(&bytes[55..], b"x");
}

#[test]
fn into_inner_after_construction_is_empty() {
    let writer = fresh_writer();
    let sink = writer.into_inner();
    assert_eq!(sink.as_slice().len(), 0);
    assert_eq!(sink.into_bytes(), Vec::<u8>::new());
}

#[test]
fn into_inner_keeps_what_the_sink_held() {
    let mut sink = BufferSink::new();
    sink.write_all(&[9, 8, 7]).unwrap();
    let writer = CarWriter::new(CarHeader::new_v1(Vec::new()), sink);
    assert_eq!(writer.into_inner().into_bytes(), vec![9, 8, 7]);
}

#[test]
fn finish_without_blocks_writes_nothing() {
    let writer = fresh_writer();
    let sink = writer.finish().unwrap();
    assert_eq!(sink.into_bytes(), Vec::<u8>::new());
}

#[test]
fn flush_does_not_emit_header() {
    let mut writer = fresh_writer();
    writer.flush().unwrap();
    writer.flush().unwrap();
    assert_eq!(writer.into_inner().into_bytes(), Vec::<u8>::new());
}

#[test]
fn header_written_twice_equals_once() {
    let mut once = fresh_writer();
    once.write_header().unwrap();
    let mut twice = fresh_writer();
    twice.write_header().unwrap();
    twice.write_header().unwrap();
    let once = once.into_inner().into_bytes();
    let twice = twice.into_inner().into_bytes();
    assert_eq!(once, twice);

    let mut expected = vec![17u8];
    expected.extend_from_slice(&empty_header_bytes());
    assert_eq!(once, expected);
}

#[test]
fn explicit_header_then_block_has_one_header() {
    let mut explicit = fresh_writer();
    explicit.write_header().unwrap();
    explicit.write(cid_v1(0x33), b"abc").unwrap();
    let mut implicit = fresh_writer();
    implicit.write(cid_v1(0x33), b"abc").unwrap();
    assert_eq!(explicit.into_inner().into_bytes(), implicit.into_inner().into_bytes());
}

#[test]
fn frame_length_counts_identifier_and_payload() {
    for len in [0usize, 1, 5, 91, 92, 200, 20000] {
        let payload = vec![0x5a; len];
        let mut writer = fresh_writer();
        writer.write_header().unwrap();
        let header_len = writer.into_inner().into_bytes().len();

        let mut writer = fresh_writer();
        writer.write(cid_v1(0x10), &payload).unwrap();
        let bytes = writer.into_inner().into_bytes();
        let bodies = read_sections(&bytes);
        assert_eq!(bodies.len(), 2);
        assert_eq!(bodies[1].len(), 36 + len);
        let prefix_len = bytes.len() - header_len - 36 - len;
        let expected_prefix = if 36 + len < 128 {
            1
        } else if 36 + len < 16384 {
            2
        } else {
            3
        };
        assert_eq!(prefix_len, expected_prefix);
    }
}

#[test]
fn empty_payload_frame() {
    let mut writer = fresh_writer();
    writer.write(cid_v1(0x44), b"").unwrap();
    let bytes = writer.into_inner().into_bytes();
    let mut expected = vec![17u8];
    expected.extend_from_slice(&empty_header_bytes());
    expected.push(36);
    expected.extend_from_slice(&cid_v1_bytes(0x44));
    assert_eq!(bytes, expected);
}

#[test]
fn long_payload_has_two_byte_length() {
    let payload = vec![7u8; 264];
    let mut sink = BufferSink::new();
    write_frame(&mut sink, &cid_v1_bytes(0x01), &payload).unwrap();
    let bytes = sink.into_bytes();
    assert_eq!(&bytes[..2], &[0xac, 0x02]);
    assert_eq!(&bytes[2..38], &cid_v1_bytes(0x01)[..]);
    assert_eq!(&bytes[38..], &payload[..]);
}

#[test]
fn version_zero_identifier_is_written_bare() {
    let cid = Cid::new_v0(Multihash::<64>::wrap(0x12, &[0xcd; 32]).unwrap()).unwrap();
    let mut writer = fresh_writer();
    writer.write(cid, b"hi").unwrap();
    let bytes = writer.into_inner().into_bytes();
    let mut expected = vec![17u8];
    expected.extend_from_slice(&empty_header_bytes());
    expected.push(36);
    expected.extend_from_slice(&[0x12, 0x20]);
    expected.extend_from_slice(&[0xcd; 32]);
    expected.extend_from_slice(b"hi");
    assert_eq!(bytes, expected);
}

#[test]
fn identifier_bytes_match_the_cid_crate() {
    let cid = Cid::new_v1(0x0129, Multihash::<64>::wrap(0xb220, &[1, 2, 3, 4, 5]).unwrap());
    let mut writer = fresh_writer();
    writer.write_header().unwrap();
    let header_len = writer.into_inner().into_bytes().len();

    let mut writer = fresh_writer();
    writer.write(cid, b"payload").unwrap();
    let bytes = writer.into_inner().into_bytes();
    let encoded = cid.to_bytes();
    assert_eq!(bytes[header_len] as usize, encoded.len() + 7);
    assert_eq!(&bytes[header_len + 1..header_len + 1 + encoded.len()], &encoded[..]);
    assert_eq!(&bytes[header_len + 1 + encoded.len()..], b"payload");
}

#[test]
fn scratch_buffer_does_not_leak_between_blocks() {
    let long = Cid::new_v1(0x55, Multihash::<64>::wrap(0x13, &[0xee; 64]).unwrap());
    let short = Cid::new_v1(0x55, Multihash::<64>::wrap(0x00, &[0x11; 2]).unwrap());
    let mut writer = fresh_writer();
    writer.write(long, b"first").unwrap();
    writer.write(short, b"second").unwrap();
    let bodies = read_sections(&writer.into_inner().into_bytes());
    assert_eq!(bodies.len(), 3);
    let mut first = long.to_bytes();
    first.extend_from_slice(b"first");
    let mut second = short.to_bytes();
    second.extend_from_slice(b"second");
    assert_eq!(bodies[1], first);
    assert_eq!(bodies[2], second);
}

#[test]
fn reader_gets_header_and_blocks_in_order() {
    let roots = vec![cid_v1(0x77)];
    let header = CarHeader::new_v1(roots);
    let header_bytes = header.encode().unwrap();
    let mut writer = CarWriter::new(header, BufferSink::new());
    let mut expected = vec![header_bytes];
    for i in 0..20u8 {
        let payload = vec![i; (i as usize) * 13];
        writer.write(cid_v1(i), &payload).unwrap();
        let mut body = cid_v1_bytes(i);
        body.extend_from_slice(&payload);
        expected.push(body);
    }
    let bytes = writer.finish().unwrap().into_bytes();
    assert_eq!(read_sections(&bytes), expected);
}

#[test]
fn write_section_puts_length_first() {
    let mut sink = BufferSink::new();
    write_section(&mut sink, b"abc").unwrap();
    write_section(&mut sink, b"").unwrap();
    assert_eq!(sink.into_bytes(), vec![3, b'a', b'b', b'c', 0]);
}

#[test]
fn header_not_marked_written_when_body_fails() {
    let sink = ShortSink { accepted: Vec::new(), room: 1, fail_flush: false };
    let mut writer = CarWriter::new(CarHeader::new_v1(Vec::new()), sink);
    let err = writer.write_header().unwrap_err();
    assert!(matches!(err, CarError::Io(_)));
    let mut sink = writer.into_inner();
    assert_eq!(sink.accepted, vec![17]);

    sink.room = 100;
    let mut writer = CarWriter::new(CarHeader::new_v1(Vec::new()), sink);
    writer.write_header().unwrap();
    let sink = writer.into_inner();
    assert_eq!(sink.accepted.len(), 1 + 18);
}

#[test]
fn retry_after_failed_header_emits_again() {
    let sink = ShortSink { accepted: Vec::new(), room: 5, fail_flush: false };
    let mut writer = CarWriter::new(CarHeader::new_v1(Vec::new()), sink);
    assert!(matches!(writer.write_header(), Err(CarError::Io(_))));
    assert!(matches!(writer.write_header(), Err(CarError::Io(_))));
    let sink = writer.into_inner();
    assert_eq!(sink.accepted.len(), 5);
    assert_eq!(sink.accepted[0], 17);
}

#[test]
fn failed_block_write_leaves_partial_frame() {
    let sink = ShortSink { accepted: Vec::new(), room: 18 + 1 + 36 + 2, fail_flush: false };
    let mut writer = CarWriter::new(CarHeader::new_v1(Vec::new()), sink);
    let err = writer.write(cid_v1(0x42), b"hello").unwrap_err();
    match err {
        CarError::Io(e) => assert_eq!(e.kind(), std::io::ErrorKind::WriteZero),
        other => panic!("unexpected error {:?}", other),
    }
    let sink = writer.into_inner();
    let mut expected = vec![17u8];
    expected.extend_from_slice(&empty_header_bytes());
    expected.push(41);
    expected.extend_from_slice(&cid_v1_bytes(0x42));
    expected.extend_from_slice(b"he");
    assert_eq!(sink.accepted, expected);
}

#[test]
fn flush_failure_is_an_io_error() {
    let sink = ShortSink { accepted: Vec::new(), room: 1000, fail_flush: true };
    let mut writer = CarWriter::new(CarHeader::new_v1(Vec::new()), sink);
    writer.write(cid_v1(0x01), b"data").unwrap();
    match writer.flush() {
        Err(CarError::Io(e)) => assert_eq!(e.kind(), std::io::ErrorKind::BrokenPipe),
        other => panic!("unexpected result {:?}", other),
    }
    assert!(matches!(writer.finish(), Err(CarError::Io(_))));
}

/// A sink that refuses one call of `write_all`, by its number, and accepts
/// every other.
struct FlakySink {
    accepted: Vec<u8>,
    calls: usize,
    refuse_call: usize,
}

impl Sink for FlakySink {
    fn write_all(&mut self, bytes: &[u8]) -> Result<(), std::io::Error> {
        self.calls += 1;
        if self.calls == self.refuse_call {
            Err(std::io::Error::from(std::io::ErrorKind::Interrupted))
        } else {
            self.accepted.extend_from_slice(bytes);
            Ok(())
        }
    }

    fn flush(&mut self) -> Result<(), std::io::Error> {
        Ok(())
    }
}

#[test]
fn retry_on_the_same_writer_emits_the_section_in_full() {
    let sink = FlakySink { accepted: Vec::new(), calls: 0, refuse_call: 2 };
    let mut writer = CarWriter::new(CarHeader::new_v1(Vec::new()), sink);
    assert!(matches!(writer.write_header(), Err(CarError::Io(_))));
    writer.write_header().unwrap();
    writer.write_header().unwrap();
    let sink = writer.into_inner();
    let mut expected = vec![17u8, 17u8];
    expected.extend_from_slice(&empty_header_bytes());
    assert_eq!(sink.accepted, expected);
    assert_eq!(sink.calls, 4);
}

#[test]
fn header_of_128_bytes_has_two_byte_prefix() {
    let roots: Vec<Cid> = (0..3u8)
        .map(|i| Cid::new_v1(0x55, Multihash::<64>::wrap(0x00, &[i; 28]).unwrap()))
        .collect();
    let header = CarHeader::new_v1(roots);
    let header_bytes = header.encode().unwrap();
    assert_eq!(header_bytes.len(), 128);
    let mut writer = CarWriter::new(header, BufferSink::new());
    writer.write_header().unwrap();
    let bytes = writer.into_inner().into_bytes();
    assert_eq!(bytes.len(), 130);
    assert_eq!(&bytes[..2], &[0x80, 0x01]);
    assert_eq!(&bytes[2..], &header_bytes[..]);
}

#[test]
fn header_with_roots_then_blocks_succeeds() {
    let header = CarHeader::new_v1(vec![cid_v1(0x01), cid_v1(0x02)]);
    let header_bytes = header.encode().unwrap();
    let mut writer = CarWriter::new(header, BufferSink::new());
    writer.write(cid_v1(0x01), b"one").unwrap();
    writer.write(cid_v1(0x02), b"two").unwrap();
    let bodies = read_sections(&writer.finish().unwrap().into_bytes());
    let mut first = cid_v1_bytes(0x01);
    first.extend_from_slice(b"one");
    let mut second = cid_v1_bytes(0x02);
    second.extend_from_slice(b"two");
    assert_eq!(bodies, vec![header_bytes, first, second]);
}
