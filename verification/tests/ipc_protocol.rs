use kazoo_core::ipc::protocol::{
    decode_audio_frame_count, decode_header, encode_header, CallResult, FrameBuffer, FrameHeader,
    ReadOutcome, ReadState, HEADER_SIZE, MAX_PAYLOAD_SIZE,
};

#[test]
fn header_roundtrip() {
    let header = FrameHeader { msg_type: 0x10, payload_len: 1024, seq: 42 };
    let mut buf = [0u8; HEADER_SIZE];
    encode_header(&header, &mut buf);
    let decoded = decode_header(&buf);
    assert_eq!(header, decoded);
}

#[test]
fn header_zero_values() {
    let header = FrameHeader { msg_type: 0, payload_len: 0, seq: 0 };
    let mut buf = [0u8; HEADER_SIZE];
    encode_header(&header, &mut buf);
    let decoded = decode_header(&buf);
    assert_eq!(header, decoded);
}

#[test]
fn header_max_values() {
    let header = FrameHeader { msg_type: 0xFF, payload_len: u32::MAX, seq: u32::MAX };
    let mut buf = [0u8; HEADER_SIZE];
    encode_header(&header, &mut buf);
    let decoded = decode_header(&buf);
    assert_eq!(header, decoded);
}

#[test]
fn header_bytes_are_little_endian() {
    let header = FrameHeader { msg_type: 0x30, payload_len: 0x0102_0304, seq: 0xA0B0_C0D0 };
    let mut buf = [0u8; HEADER_SIZE];
    encode_header(&header, &mut buf);
    assert_eq!(buf, [0x30, 0x04, 0x03, 0x02, 0x01, 0xD0, 0xC0, 0xB0, 0xA0]);
}

#[test]
fn frame_buffer_blocking_roundtrip() {
    let mut write_buf = FrameBuffer::new();
    let payload = b"hello, kazoo!";
    write_buf.payload_mut()[..payload.len()].copy_from_slice(payload);

    let mut pipe = Vec::new();
    write_buf.write_frame(0x01, 7, payload.len(), &mut pipe).unwrap();

    assert_eq!(pipe.len(), HEADER_SIZE + payload.len());

    let mut read_buf = FrameBuffer::new();
    let header = read_buf.read_frame(&mut pipe.as_slice()).unwrap();

    assert_eq!(header.msg_type, 0x01);
    assert_eq!(header.payload_len, payload.len() as u32);
    assert_eq!(header.seq, 7);
    assert_eq!(&read_buf.payload()[..payload.len()], payload);
}

#[test]
fn frame_buffer_empty_payload() {
    let mut write_buf = FrameBuffer::new();
    let mut pipe = Vec::new();
    write_buf.write_frame(0xFF, 0, 0, &mut pipe).unwrap();

    let mut read_buf = FrameBuffer::new();
    let header = read_buf.read_frame(&mut pipe.as_slice()).unwrap();
    assert_eq!(header.msg_type, 0xFF);
    assert_eq!(header.payload_len, 0);
}

#[test]
fn frame_buffer_rejects_oversized_payload() {
    let mut buf = FrameBuffer::new();
    let header = FrameHeader { msg_type: 0x10, payload_len: MAX_PAYLOAD_SIZE as u32 + 1, seq: 0 };
    let mut wire = vec![0u8; HEADER_SIZE];
    encode_header(&header, &mut wire);
    let result = buf.read_frame(&mut wire.as_slice());
    assert!(result.is_err());
    assert_eq!(result.unwrap_err().kind(), std::io::ErrorKind::InvalidData);
}

#[test]
fn read_frame_reports_truncated_input() {
    let header = FrameHeader { msg_type: 0x10, payload_len: 10, seq: 3 };
    let mut wire = vec![0u8; HEADER_SIZE + 4];
    encode_header(&header, &mut wire);
    let mut buf = FrameBuffer::new();
    let result = buf.read_frame(&mut wire.as_slice());
    assert_eq!(result.unwrap_err().kind(), std::io::ErrorKind::UnexpectedEof);
}

#[test]
fn write_frame_refuses_length_beyond_u32() {
    if usize::BITS > 32 {
        let mut buf = FrameBuffer::new();
        let mut pipe = Vec::new();
        let too_long = (u32::MAX as usize) + 1;
        let result = buf.write_frame(0x10, 1, too_long, &mut pipe);
        assert_eq!(result.unwrap_err().kind(), std::io::ErrorKind::InvalidInput);
        assert!(pipe.is_empty());
    }
}

/// A reader that hands out its bytes in small pieces and reports
/// `WouldBlock` between them.
struct Trickle {
    data: Vec<u8>,
    pos: usize,
    step: usize,
    blocked: bool,
}

impl std::io::Read for Trickle {
    fn read(&mut self, out: &mut [u8]) -> std::io::Result<usize> {
        if self.blocked {
            self.blocked = false;
            return Err(std::io::Error::new(std::io::ErrorKind::WouldBlock, "later"));
        }
        self.blocked = true;
        let n = self.step.min(out.len()).min(self.data.len() - self.pos);
        out[..n].copy_from_slice(&self.data[self.pos..self.pos + n]);
        self.pos += n;
        Ok(n)
    }
}

#[test]
fn try_read_frame_resumes_after_would_block() {
    let mut writer = FrameBuffer::new();
    let payload = [9u8, 8, 7, 6, 5];
    writer.payload_mut()[..payload.len()].copy_from_slice(&payload);
    let mut wire = Vec::new();
    writer.write_frame(0x40, 11, payload.len(), &mut wire).unwrap();

    let mut reader = Trickle { data: wire, pos: 0, step: 3, blocked: false };
    let mut buf = FrameBuffer::new();
    let mut polls = 0;
    let header = loop {
        polls += 1;
        match buf.try_read_frame(&mut reader).unwrap() {
            Some(h) => break h,
            None => assert!(polls < 100),
        }
    };
    assert!(polls > 1);
    assert_eq!(header, FrameHeader { msg_type: 0x40, payload_len: 5, seq: 11 });
    assert_eq!(&buf.payload()[..5], &payload);
}

#[test]
fn try_read_frame_reports_eof() {
    let mut buf = FrameBuffer::new();
    let empty: &[u8] = &[];
    let mut reader = empty;
    let result = buf.try_read_frame(&mut reader);
    assert_eq!(result.unwrap_err().kind(), std::io::ErrorKind::UnexpectedEof);
}

#[test]
fn audio_frame_count_is_little_endian() {
    let buf = [0x00u8, 0x01, 0x00, 0x00, 0xFF];
    assert_eq!(decode_audio_frame_count(&buf), 256);
}

/// A reader that hands out a fixed script of read results, then end of input.
struct Script {
    steps: Vec<Option<Vec<u8>>>,
    next: usize,
}

impl std::io::Read for Script {
    fn read(&mut self, out: &mut [u8]) -> std::io::Result<usize> {
        if self.next >= self.steps.len() {
            return Ok(0);
        }
        let step = self.steps[self.next].clone();
        self.next += 1;
        match step {
            None => Err(std::io::Error::new(std::io::ErrorKind::WouldBlock, "later")),
            Some(bytes) => {
                assert!(bytes.len() <= out.len(), "read asked for fewer bytes than scripted");
                out[..bytes.len()].copy_from_slice(&bytes);
                Ok(bytes.len())
            }
        }
    }
}

fn wire_of(header: FrameHeader, payload: &[u8]) -> Vec<u8> {
    let mut bytes = vec![0u8; HEADER_SIZE];
    encode_header(&header, &mut bytes);
    bytes.extend_from_slice(payload);
    bytes
}

#[test]
fn try_read_frame_header_then_would_block_then_payload() {
    let mut fb = FrameBuffer::new();
    let mut reader = Script {
        steps: vec![Some(vec![0x10, 3, 0, 0, 0, 7, 0, 0, 0]), None, Some(vec![1, 2, 3])],
        next: 0,
    };
    assert!(fb.try_read_frame(&mut reader).unwrap().is_none());
    let header = fb.try_read_frame(&mut reader).unwrap().unwrap();
    assert_eq!(header, FrameHeader { msg_type: 0x10, payload_len: 3, seq: 7 });
    assert_eq!(&fb.payload()[..3], &[1, 2, 3]);
}

#[test]
fn try_read_frame_reads_back_to_back_frames() {
    let h1 = FrameHeader { msg_type: 1, payload_len: 2, seq: 1 };
    let h2 = FrameHeader { msg_type: 2, payload_len: 0, seq: 2 };
    let h3 = FrameHeader { msg_type: 3, payload_len: 4, seq: 3 };
    let mut wire = wire_of(h1, &[5, 6]);
    wire.extend(wire_of(h2, &[]));
    wire.extend(wire_of(h3, &[7, 8, 9, 10]));
    let mut reader = wire.as_slice();
    let mut fb = FrameBuffer::new();
    assert_eq!(fb.try_read_frame(&mut reader).unwrap(), Some(h1));
    assert_eq!(&fb.payload()[..2], &[5, 6]);
    assert_eq!(fb.try_read_frame(&mut reader).unwrap(), Some(h2));
    assert_eq!(fb.try_read_frame(&mut reader).unwrap(), Some(h3));
    assert_eq!(&fb.payload()[..4], &[7, 8, 9, 10]);
    assert_eq!(
        fb.try_read_frame(&mut reader).unwrap_err().kind(),
        std::io::ErrorKind::UnexpectedEof
    );
}

#[test]
fn try_read_frame_refuses_oversized_header_then_reads_next_frame() {
    let big = FrameHeader { msg_type: 0x10, payload_len: 65_537, seq: 0 };
    let next = FrameHeader { msg_type: 0x20, payload_len: 2, seq: 9 };
    let mut wire = wire_of(big, &[]);
    wire.extend(wire_of(next, &[4, 2]));
    let mut reader = wire.as_slice();
    let mut fb = FrameBuffer::new();
    let err = fb.try_read_frame(&mut reader).unwrap_err();
    assert_eq!(err.kind(), std::io::ErrorKind::InvalidData);
    assert_eq!(reader.len(), HEADER_SIZE + 2);
    assert_eq!(fb.try_read_frame(&mut reader).unwrap(), Some(next));
    assert_eq!(&fb.payload()[..2], &[4, 2]);
}

#[test]
fn try_read_frame_passes_reader_errors_on() {
    struct Broken;
    impl std::io::Read for Broken {
        fn read(&mut self, _out: &mut [u8]) -> std::io::Result<usize> {
            Err(std::io::Error::new(std::io::ErrorKind::ConnectionReset, "gone"))
        }
    }
    let mut fb = FrameBuffer::new();
    let err = fb.try_read_frame(&mut Broken).unwrap_err();
    assert_eq!(err.kind(), std::io::ErrorKind::ConnectionReset);
}

#[test]
fn try_read_frame_eof_mid_payload() {
    let wire = wire_of(FrameHeader { msg_type: 1, payload_len: 4, seq: 0 }, &[1, 2]);
    let mut reader = wire.as_slice();
    let mut fb = FrameBuffer::new();
    let err = fb.try_read_frame(&mut reader).unwrap_err();
    assert_eq!(err.kind(), std::io::ErrorKind::UnexpectedEof);
}

#[test]
fn reset_discards_partial_frame() {
    let mut fb = FrameBuffer::new();
    let mut partial = Script { steps: vec![Some(vec![0x30, 9, 0, 0]), None], next: 0 };
    assert!(fb.try_read_frame(&mut partial).unwrap().is_none());
    fb.reset_read_state();
    let h = FrameHeader { msg_type: 0x31, payload_len: 3, seq: 5 };
    let wire = wire_of(h, &[7, 7, 7]);
    let mut reader = wire.as_slice();
    assert_eq!(fb.try_read_frame(&mut reader).unwrap(), Some(h));
    assert_eq!(&fb.payload()[..3], &[7, 7, 7]);
}

#[test]
fn read_frame_consumes_exactly_one_frame() {
    let h1 = FrameHeader { msg_type: 1, payload_len: 3, seq: 1 };
    let h2 = FrameHeader { msg_type: 2, payload_len: 1, seq: 2 };
    let mut wire = wire_of(h1, &[1, 2, 3]);
    wire.extend(wire_of(h2, &[9]));
    let mut reader = wire.as_slice();
    let mut fb = FrameBuffer::new();
    assert_eq!(fb.read_frame(&mut reader).unwrap(), h1);
    assert_eq!(reader.len(), HEADER_SIZE + 1);
    assert_eq!(&fb.payload()[..3], &[1, 2, 3]);
    assert_eq!(fb.read_frame(&mut reader).unwrap(), h2);
    assert_eq!(fb.payload()[0], 9);
}

#[test]
fn encode_frame_gives_header_and_payload_prefix() {
    let mut fb = FrameBuffer::new();
    fb.payload_mut()[..3].copy_from_slice(&[0xAA, 0xBB, 0xCC]);
    let frame = fb.encode_frame(0x05, 0x0102_0304, 2).to_vec();
    assert_eq!(frame, vec![0x05, 2, 0, 0, 0, 0x04, 0x03, 0x02, 0x01, 0xAA, 0xBB]);
}

#[test]
fn read_state_steps() {
    let start = ReadState::Header { filled: 0 };
    assert!(start.needs_bytes());
    assert_eq!(start.window(), (0, HEADER_SIZE));
    assert_eq!(start.after_read(&ReadOutcome::Got(4)), (ReadState::Header { filled: 4 }, None));
    assert_eq!(start.after_read(&ReadOutcome::Got(0)), (start, Some(CallResult::EndOfInput)));
    assert_eq!(start.after_read(&ReadOutcome::WouldBlock), (start, Some(CallResult::Pending)));
    let failed = ReadOutcome::Failed(std::io::Error::new(std::io::ErrorKind::Other, "x"));
    assert_eq!(start.after_read(&failed), (start, Some(CallResult::ReaderFailed)));

    let h = FrameHeader { msg_type: 1, payload_len: 10, seq: 0 };
    let mut buf = [0u8; HEADER_SIZE];
    encode_header(&h, &mut buf);
    let full = ReadState::Header { filled: HEADER_SIZE };
    assert!(!full.needs_bytes());
    assert_eq!(full.settled(&buf), (ReadState::Payload { header: h, filled: 0 }, None));

    let mid = ReadState::Payload { header: h, filled: 4 };
    assert_eq!(mid.window(), (HEADER_SIZE + 4, HEADER_SIZE + 10));
    assert_eq!(mid.after_read(&ReadOutcome::Got(6)), (ReadState::Payload { header: h, filled: 10 }, None));
    let done = ReadState::Payload { header: h, filled: 10 };
    assert!(!done.needs_bytes());
    assert_eq!(done.settled(&buf), (ReadState::Header { filled: 0 }, Some(CallResult::Frame(h))));

    let big = FrameHeader { msg_type: 1, payload_len: (MAX_PAYLOAD_SIZE + 1) as u32, seq: 0 };
    encode_header(&big, &mut buf);
    assert_eq!(full.settled(&buf), (ReadState::Header { filled: 0 }, Some(CallResult::TooLarge)));
    let empty = FrameHeader { msg_type: 2, payload_len: 0, seq: 3 };
    encode_header(&empty, &mut buf);
    assert_eq!(full.settled(&buf), (ReadState::Header { filled: 0 }, Some(CallResult::Frame(empty))));
}

struct FailingIo(std::io::ErrorKind);

impl std::io::Read for FailingIo {
    fn read(&mut self, _out: &mut [u8]) -> std::io::Result<usize> {
        Err(std::io::Error::new(self.0, "failing reader"))
    }
}

impl std::io::Write for FailingIo {
    fn write(&mut self, _data: &[u8]) -> std::io::Result<usize> {
        Err(std::io::Error::new(self.0, "failing writer"))
    }
    fn flush(&mut self) -> std::io::Result<()> {
        Ok(())
    }
}

#[test]
fn read_frame_passes_reader_errors_on() {
    let mut fb = FrameBuffer::new();
    let err = fb.read_frame(&mut FailingIo(std::io::ErrorKind::ConnectionReset)).unwrap_err();
    assert_eq!(err.kind(), std::io::ErrorKind::ConnectionReset);
}

#[test]
fn write_frame_returns_the_writer_result() {
    let mut fb = FrameBuffer::new();
    let err = fb.write_frame(0x01, 1, 4, &mut FailingIo(std::io::ErrorKind::BrokenPipe)).unwrap_err();
    assert_eq!(err.kind(), std::io::ErrorKind::BrokenPipe);
    let mut pipe: Vec<u8> = Vec::new();
    fb.payload_mut()[..4].copy_from_slice(&[1, 2, 3, 4]);
    fb.write_frame(0x01, 1, 4, &mut pipe).unwrap();
    assert_eq!(pipe, vec![0x01, 4, 0, 0, 0, 1, 0, 0, 0, 1, 2, 3, 4]);
}
