use codec_reader::decoding::{new_decoder, CodecError};
use codec_reader::reader::{decoder_helper, CodecReadBuffer};
use codec_reader::DEFAULT_BUF_SIZE;
use std::cell::Cell;
use std::io::Read;

// The same document as the encoded inputs below, in UTF-8 without a BOM.
const DOC: &str = "<?xml version=\"1.0\"?>\n<doc lang=\"fr\">\n  <p>Ça répond: naïve café, €5, 漢字, 🎉.</p>\n</doc>\n";

const UTF8_BOM: [u8; 3] = [0xEF, 0xBB, 0xBF];

fn utf16le(text: &str, bom: bool) -> Vec<u8> {
    let mut out = Vec::new();
    if bom {
        out.extend_from_slice(&[0xFF, 0xFE]);
    }
    for unit in text.encode_utf16() {
        out.extend_from_slice(&unit.to_le_bytes());
    }
    out
}

fn utf16be(text: &str, bom: bool) -> Vec<u8> {
    let mut out = Vec::new();
    if bom {
        out.extend_from_slice(&[0xFE, 0xFF]);
    }
    for unit in text.encode_utf16() {
        out.extend_from_slice(&unit.to_be_bytes());
    }
    out
}

fn with_utf8_bom(text: &str) -> Vec<u8> {
    let mut out = UTF8_BOM.to_vec();
    out.extend_from_slice(text.as_bytes());
    out
}

fn drain<R: Read>(buffer: &mut CodecReadBuffer<R>) -> Result<Vec<u8>, CodecError> {
    let mut out = Vec::new();
    loop {
        let chunk = buffer.fill_buf()?;
        if chunk.is_empty() {
            return Ok(out);
        }
        let n = chunk.len();
        out.extend_from_slice(chunk);
        buffer.consume(n);
    }
}

fn read_to_end<R: Read>(buffer: &mut CodecReadBuffer<R>) -> Result<Vec<u8>, CodecError> {
    let mut out = Vec::new();
    let mut chunk = [0u8; 7];
    loop {
        let n = buffer.read(&mut chunk)?;
        if n == 0 {
            return Ok(out);
        }
        out.extend_from_slice(&chunk[..n]);
    }
}

fn decode_all(input: &[u8], label: &str) -> Vec<u8> {
    match CodecReadBuffer::for_encoding(input, label) {
        Ok(mut decoding_reader) => {
            read_to_end(&mut decoding_reader).expect("Failed decoding input data")
        }
        Err(e) => panic!("Failed initializing CodecReadBuffer: {:?}", e),
    }
}

/// A source that hands out its bytes in reads of the given sizes and counts
/// how often it was asked.
struct Pieces {
    data: Vec<u8>,
    sizes: Vec<usize>,
    pos: usize,
    reads: std::rc::Rc<Cell<usize>>,
}

impl Read for Pieces {
    fn read(&mut self, buf: &mut [u8]) -> std::io::Result<usize> {
        let call = self.reads.get();
        self.reads.set(call + 1);
        let want = self.sizes.get(call).copied().unwrap_or(usize::MAX);
        let n = want.min(buf.len()).min(self.data.len() - self.pos);
        buf[..n].copy_from_slice(&self.data[self.pos..self.pos + n]);
        self.pos += n;
        Ok(n)
    }
}

fn pieces(data: &[u8], sizes: &[usize]) -> (Pieces, std::rc::Rc<Cell<usize>>) {
    let reads = std::rc::Rc::new(Cell::new(0));
    let source = Pieces { data: data.to_vec(), sizes: sizes.to_vec(), pos: 0, reads: reads.clone() };
    (source, reads)
}

struct Failing;

impl Read for Failing {
    fn read(&mut self, _buf: &mut [u8]) -> std::io::Result<usize> {
        Err(std::io::Error::new(std::io::ErrorKind::Other, "source failed"))
    }
}

#[test]
fn test_utf8() {
    let utf8_validation = DOC.as_bytes().to_vec();
    let utf8_bytes = DOC.as_bytes().to_vec();
    let utf8_encoded_doc = decode_all(&utf8_bytes, "utf-8");
    assert_eq!(&utf8_validation, &utf8_encoded_doc);
}

#[test]
fn test_utf8_with_bom() {
    let utf8_validation = DOC.as_bytes().to_vec();
    let utf8_with_bom_bytes = with_utf8_bom(DOC);
    let utf8_encoded_doc = decode_all(&utf8_with_bom_bytes, "utf-8");
    assert_eq!(&utf8_encoded_doc[..3], &UTF8_BOM[..]);
    assert_eq!(&utf8_validation[..], &utf8_encoded_doc[3..]);
}

#[test]
fn test_utf16le() {
    let utf16_validation = DOC.as_bytes().to_vec();
    let utf16_bytes = utf16le(DOC, false);
    let utf8_encoded_doc = decode_all(&utf16_bytes, "utf-16le");
    assert_eq!(&utf16_validation, &utf8_encoded_doc);
}

#[test]
fn test_utf16le_with_bom() {
    let utf16_validation = DOC.as_bytes().to_vec();
    let utf16_with_bom_bytes = utf16le(DOC, true);
    let utf8_encoded_doc = decode_all(&utf16_with_bom_bytes, "utf-16le");
    assert_eq!(&utf8_encoded_doc[..3], &UTF8_BOM[..]);
    assert_eq!(&utf16_validation[..], &utf8_encoded_doc[3..]);
}

#[test]
fn test_utf16be() {
    let utf16_validation = DOC.as_bytes().to_vec();
    let utf16_bytes = utf16be(DOC, false);
    let utf8_encoded_doc = decode_all(&utf16_bytes, "utf-16be");
    assert_eq!(&utf16_validation, &utf8_encoded_doc);
}

#[test]
fn test_utf16be_with_bom() {
    let utf16_validation = DOC.as_bytes().to_vec();
    let utf16_with_bom_bytes = utf16be(DOC, true);
    let utf8_encoded_doc = decode_all(&utf16_with_bom_bytes, "utf-16be");
    assert_eq!(&utf8_encoded_doc[..3], &UTF8_BOM[..]);
    assert_eq!(&utf16_validation[..], &utf8_encoded_doc[3..]);
}

#[test]
fn single_byte_codepage_round_trip() {
    // "café" in windows-1252: é is 0xE9.
    let input = [0x63u8, 0x61, 0x66, 0xE9];
    assert_eq!(decode_all(&input, "windows-1252"), "café".as_bytes());
    assert_eq!(decode_all(&input, "latin1"), "café".as_bytes());
}

#[test]
fn one_byte_reads_match_default_reads() {
    for (bytes, label) in [
        (DOC.as_bytes().to_vec(), "utf-8"),
        (utf16le(DOC, true), "utf-16le"),
        (utf16be(DOC, false), "utf-16be"),
    ] {
        let mut small = CodecReadBuffer::for_encoding_with_capacity(&bytes[..], label, 1).unwrap();
        let mut large =
            CodecReadBuffer::for_encoding_with_capacity(&bytes[..], label, DEFAULT_BUF_SIZE).unwrap();
        let a = drain(&mut small).unwrap();
        let b = drain(&mut large).unwrap();
        assert_eq!(a, b);
    }
}

#[test]
fn character_split_across_reads() {
    // "€" is E2 82 AC in UTF-8; deliver it as 1 + 2 bytes.
    let bytes = [0x41u8, 0xE2, 0x82, 0xAC, 0x42];
    let (split, reads) = pieces(&bytes, &[2, 2, 1]);
    let mut buffer = CodecReadBuffer::for_encoding(split, "utf-8").unwrap();
    let out = drain(&mut buffer).unwrap();
    assert_eq!(out, "A€B".as_bytes());
    assert!(reads.get() >= 3);

    let (whole, _) = pieces(&bytes, &[5]);
    let mut buffer = CodecReadBuffer::for_encoding(whole, "utf-8").unwrap();
    assert_eq!(drain(&mut buffer).unwrap(), out);
}

#[test]
fn utf16_surrogate_pair_split_across_reads() {
    let bytes = utf16le("a🎉b", false);
    let (split, _) = pieces(&bytes, &[1, 2, 1, 3, 1]);
    let mut buffer = CodecReadBuffer::for_encoding(split, "utf-16le").unwrap();
    assert_eq!(drain(&mut buffer).unwrap(), "a🎉b".as_bytes());
}

#[test]
fn end_of_stream_is_stable() {
    let bytes = b"hi".to_vec();
    let mut buffer = CodecReadBuffer::for_encoding(&bytes[..], "utf-8").unwrap();
    assert_eq!(buffer.fill_buf().unwrap(), b"hi");
    buffer.consume(2);
    for _ in 0..5 {
        assert!(buffer.fill_buf().unwrap().is_empty());
        buffer.consume(10);
        let mut dest = [0u8; 4];
        assert_eq!(buffer.read(&mut dest).unwrap(), 0);
    }
}

#[test]
fn empty_source_yields_nothing() {
    let bytes: Vec<u8> = Vec::new();
    let mut buffer = CodecReadBuffer::for_encoding(&bytes[..], "utf-16be").unwrap();
    assert!(buffer.fill_buf().unwrap().is_empty());
}

#[test]
fn malformed_input_is_reported() {
    let bytes = [0x61u8, 0x62, 0x80, 0x63];
    let mut buffer = CodecReadBuffer::for_encoding(&bytes[..], "utf-8").unwrap();
    match buffer.fill_buf() {
        Err(CodecError::Malformed { input, position }) => {
            assert_eq!(input, bytes.to_vec());
            assert_eq!(position, 3);
        }
        other => panic!("expected a malformed-input error, got {:?}", other.map(|s| s.to_vec())),
    }
}

#[test]
fn malformed_input_is_not_replaced() {
    let bytes = [0xFFu8, 0xFE, 0x41];
    let mut buffer = CodecReadBuffer::for_encoding(&bytes[..], "utf-8").unwrap();
    assert!(matches!(buffer.fill_buf(), Err(CodecError::Malformed { .. })));
}

#[test]
fn unknown_label_reads_nothing() {
    let (source, reads) = pieces(b"abc", &[]);
    match CodecReadBuffer::for_encoding(source, "no-such-encoding") {
        Err(CodecError::UnrecognizedEncoding(name)) => assert_eq!(name, "no-such-encoding"),
        Err(e) => panic!("unexpected error {:?}", e),
        Ok(_) => panic!("an unknown label was accepted"),
    }
    assert_eq!(reads.get(), 0);
    assert!(matches!(
        CodecReadBuffer::for_encoding(&b""[..], "replacement"),
        Err(CodecError::UnrecognizedEncoding(_))
    ));
}

#[test]
fn known_label_reads_nothing_at_construction() {
    let (source, reads) = pieces(b"abc", &[]);
    let _buffer = CodecReadBuffer::for_encoding(source, "UTF-8").unwrap();
    assert_eq!(reads.get(), 0);
}

#[test]
fn source_error_is_passed_on() {
    let mut buffer = CodecReadBuffer::for_encoding(Failing, "utf-8").unwrap();
    match buffer.fill_buf() {
        Err(CodecError::Source(e)) => assert_eq!(e.to_string(), "source failed"),
        other => panic!("expected a source error, got {:?}", other.map(|s| s.to_vec())),
    }
}

#[test]
fn consume_saturates_at_chunk_end() {
    let bytes = b"abcdef".to_vec();
    let mut buffer = CodecReadBuffer::for_encoding(&bytes[..], "utf-8").unwrap();
    assert_eq!(buffer.fill_buf().unwrap(), b"abcdef");
    buffer.consume(2);
    assert_eq!(buffer.output_counts(), (4, 6));
    assert_eq!(buffer.fill_buf().unwrap(), b"cdef");
    buffer.consume(usize::MAX);
    assert_eq!(buffer.output_counts(), (0, 6));
    assert!(buffer.fill_buf().unwrap().is_empty());
}

#[test]
fn read_copies_and_consumes() {
    let bytes = utf16be("héllo", false);
    let mut buffer = CodecReadBuffer::for_encoding(&bytes[..], "utf-16be").unwrap();
    let mut dest = [0u8; 4];
    assert_eq!(buffer.read(&mut dest).unwrap(), 4);
    assert_eq!(&dest, b"h\xC3\xA9l");
    let mut rest = [0u8; 10];
    assert_eq!(buffer.read(&mut rest).unwrap(), 2);
    assert_eq!(&rest[..2], b"lo");
    assert_eq!(buffer.read(&mut rest).unwrap(), 0);
}

#[test]
fn initial_buffer_is_decoded_first() {
    let mut start = Vec::with_capacity(8);
    start.extend_from_slice(&[0x41u8, 0x00]);
    let rest = [0x42u8, 0x00];
    let mut buffer =
        CodecReadBuffer::for_encoding_with_initial_buffer(&rest[..], "utf-16le", start).unwrap();
    assert_eq!(drain(&mut buffer).unwrap(), b"AB");
}

#[test]
fn decoder_helper_decodes_and_carries_state() {
    let mut decoder = new_decoder("utf-16le").unwrap();
    // "é" is E9 00 in UTF-16LE; hand over its two bytes in separate calls.
    assert_eq!(decoder_helper(&mut decoder, &[0x41, 0x00, 0xE9]).unwrap(), b"A");
    assert_eq!(decoder_helper(&mut decoder, &[0x00]).unwrap(), "é".as_bytes());
    assert_eq!(decoder_helper(&mut decoder, &[]).unwrap(), b"");
}

#[test]
fn decoder_helper_reports_malformed_position() {
    let mut decoder = new_decoder("utf-8").unwrap();
    match decoder_helper(&mut decoder, &[0x31, 0x32, 0xC0, 0x33]) {
        Err(CodecError::Malformed { input, position }) => {
            assert_eq!(input, vec![0x31, 0x32, 0xC0, 0x33]);
            assert_eq!(position, 3);
        }
        other => panic!("expected a malformed-input error, got {:?}", other),
    }
}

#[test]
fn truncated_final_character_is_reported() {
    let bytes = [0x41u8, 0xE2, 0x82];
    let mut buffer = CodecReadBuffer::for_encoding(&bytes[..], "utf-8").unwrap();
    assert_eq!(buffer.fill_buf().unwrap(), b"A");
    buffer.consume(1);
    assert!(matches!(buffer.fill_buf(), Err(CodecError::Truncated)));
}

#[test]
fn odd_utf16_length_is_reported() {
    let bytes = [0x41u8, 0x00, 0x42];
    let mut buffer = CodecReadBuffer::for_encoding_with_capacity(&bytes[..], "utf-16le", 1).unwrap();
    assert!(matches!(drain(&mut buffer), Err(CodecError::Truncated)));
}

#[test]
fn chained_source_splits_character() {
    let source = Read::chain(&[0xE2u8][..], &[0x82u8, 0xAC][..]);
    let mut buffer = CodecReadBuffer::for_encoding(source, "utf-8").unwrap();
    assert_eq!(drain(&mut buffer).unwrap(), "€".as_bytes());
}

#[test]
fn one_byte_capacity_utf16() {
    let bytes = [0x41u8, 0x00, 0x42, 0x00];
    let mut small = CodecReadBuffer::for_encoding_with_capacity(&bytes[..], "utf-16le", 1).unwrap();
    let mut large = CodecReadBuffer::for_encoding_with_capacity(&bytes[..], "utf-16le", 4096).unwrap();
    assert_eq!(drain(&mut small).unwrap(), b"AB");
    assert_eq!(drain(&mut large).unwrap(), b"AB");
}

#[test]
fn bom_is_kept_as_zero_width_no_break_space() {
    let bytes = [0xFFu8, 0xFE, 0x41, 0x00];
    assert_eq!(decode_all(&bytes, "utf-16le"), vec![0xEF, 0xBB, 0xBF, 0x41]);
}

#[test]
fn read_after_end_returns_zero_and_keeps_buffer() {
    let bytes = b"hi".to_vec();
    let mut buffer = CodecReadBuffer::for_encoding(&bytes[..], "utf-8").unwrap();
    assert_eq!(read_to_end(&mut buffer).unwrap(), b"hi");
    let mut dest = [7u8; 8];
    assert_eq!(buffer.read(&mut dest).unwrap(), 0);
    assert_eq!(dest, [7u8; 8]);
    assert!(buffer.fill_buf().unwrap().is_empty());
}

#[test]
fn malformed_then_valid_continuation_is_not_accepted() {
    let bytes = [0xE2u8, 0x41, 0x82, 0xAC];
    let mut buffer = CodecReadBuffer::for_encoding(&bytes[..], "utf-8").unwrap();
    assert!(matches!(read_to_end(&mut buffer), Err(CodecError::Malformed { .. })));
}

#[test]
fn new_decoder_rejects_unknown_label() {
    assert!(new_decoder("no-such-encoding").is_none());
    assert!(new_decoder("latin2").is_some());
}
