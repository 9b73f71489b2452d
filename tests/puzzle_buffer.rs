use puzuzu::codec::TextCodec;
use puzuzu::error::PuzzleBufferError;
use puzuzu::puzzle_buffer::PuzzleBuffer;

#[test]
fn test_seek_to() {
    let data = "Hello there".as_bytes();
    let mut buffer = PuzzleBuffer::new(&data);

    assert!(buffer.seek_to("there", 2).is_ok());
    assert_eq!(buffer.position(), "Hello ".len() + 2);

    let err = buffer.seek_to("there", 2);
    assert!(err.is_err());
    assert_eq!(err.unwrap_err().to_string(), "Cannot find 'there' in data");
}

#[test]
fn seek_to_negative_offset_lands_before_marker() {
    let data = b"xxHEADER";
    let mut buffer = PuzzleBuffer::new(data);
    assert!(buffer.seek_to("HEAD", -2).is_ok());
    assert_eq!(buffer.position(), 0);
    assert_eq!(buffer.seen(), b"");
    assert_eq!(buffer.upcoming(), b"xxHEADER");
}

#[test]
fn seek_to_offset_before_start_is_refused() {
    let data = b"xHEADER";
    let mut buffer = PuzzleBuffer::new(data);
    let err = buffer.seek_to("HEAD", -2).unwrap_err();
    assert!(matches!(err, PuzzleBufferError::SeekOutOfRange(_)));
    assert_eq!(buffer.position(), 0);
}

#[test]
fn seen_and_upcoming_split_at_cursor() {
    let data = b"abcdef";
    let mut buffer = PuzzleBuffer::new(data);
    buffer.seek_to("cd", 0).unwrap();
    assert_eq!(buffer.seen(), b"ab");
    assert_eq!(buffer.upcoming(), b"cdef");
}

#[test]
fn reads_little_endian_integers() {
    let data = [0x34u8, 0x12, 1, 2, 3, 4, 5, 6, 7, 8, 9];
    let mut buffer = PuzzleBuffer::new(&data);
    assert_eq!(buffer.read_u16().unwrap(), 0x1234);
    assert_eq!(buffer.read_u64().unwrap(), 0x0807060504030201);
    assert_eq!(buffer.read_u8().unwrap(), 9);
    assert!(matches!(buffer.read_u8(), Err(PuzzleBufferError::UnexpectedEnd)));
}

#[test]
fn unpack_string_stops_at_null() {
    let data = b"ab\0cd";
    let mut buffer = PuzzleBuffer::new(data);
    assert!(matches!(buffer.unpack_string(), Err(PuzzleBufferError::EncodingNotInferred)));
    buffer.set_decoder(TextCodec::Latin1);
    assert_eq!(buffer.unpack_string().unwrap(), "ab");
    assert_eq!(buffer.position(), 3);
    assert!(matches!(buffer.unpack_string(), Err(PuzzleBufferError::NoTerminator)));
}

#[test]
fn unpack_grid_reads_exact_cell_count() {
    let data = b"ABCDEF";
    let mut buffer = PuzzleBuffer::new(data);
    buffer.set_decoder(TextCodec::Latin1);
    assert_eq!(buffer.unpack_solution(2, 2).unwrap(), "ABCD");
    assert!(matches!(buffer.unpack_fill(2, 2), Err(PuzzleBufferError::UnexpectedEnd)));
}

#[test]
fn utf8_grid_with_invalid_bytes_is_refused() {
    let data = [0xffu8, 0xfe];
    let mut buffer = PuzzleBuffer::new(&data);
    buffer.set_decoder(TextCodec::Utf8);
    assert!(matches!(
        buffer.unpack_solution(1, 2),
        Err(PuzzleBufferError::Undecodable(TextCodec::Utf8))
    ));
}

#[test]
fn unpack_extensions_stops_where_no_block_header_fits() {
    // one block "ABCD" with a 2-byte payload, then a short tail
    let payload = [7u8, 9];
    let checksum = puzuzu::checksum::data_checksum(&payload, 0);
    let mut data = b"ABCD".to_vec();
    data.extend_from_slice(&2u16.to_le_bytes());
    data.extend_from_slice(&checksum.to_le_bytes());
    data.extend_from_slice(&payload);
    data.push(0);
    data.extend_from_slice(b"\r\n\r\n");
    let mut buffer = PuzzleBuffer::new(&data);
    let extensions = buffer.unpack_extensions().unwrap();
    assert_eq!(extensions.len(), 1);
    assert_eq!(&extensions[0].code, b"ABCD");
    assert_eq!(extensions[0].bytes, vec![7, 9]);
    assert_eq!(buffer.upcoming(), b"\r\n\r\n");
}

#[test]
fn unpack_header_needs_the_whole_record() {
    let data = [0u8; 40];
    let mut buffer = PuzzleBuffer::new(&data);
    assert!(matches!(buffer.unpack_header(), Err(PuzzleBufferError::UnexpectedEnd)));
}

#[test]
fn unpack_header_rejects_unknown_solution_state() {
    let mut data = vec![0u8; 52];
    data[24..28].copy_from_slice(b"1.2\0");
    data[48] = 1;
    data[50] = 9;
    let mut buffer = PuzzleBuffer::new(&data);
    assert!(matches!(
        buffer.unpack_header(),
        Err(PuzzleBufferError::UnknownSolutionState(9))
    ));
    let mut buffer = PuzzleBuffer::new(&data[..50]);
    assert!(matches!(buffer.unpack_header(), Err(PuzzleBufferError::UnexpectedEnd)));
    data[50] = 4;
    let mut buffer = PuzzleBuffer::new(&data);
    let header = buffer.unpack_header().unwrap();
    assert_eq!(header.file_version, "1.2");
    assert_eq!(header.solution_state, puzuzu::SolutionState::Locked);
    assert_eq!(buffer.position(), 52);
}

#[test]
fn error_messages_name_their_values() {
    let e = PuzzleBufferError::ExtensionChecksum { code: *b"GRBS", calculated: 513, declared: 7 };
    assert_eq!(
        e.to_string(),
        "Extension GRBS calculated checksum (513) does not match header (7)"
    );
    assert_eq!(
        PuzzleBufferError::ExtensionTruncated(*b"LTIM").to_string(),
        "Extension LTIM runs past the end of data"
    );
    assert_eq!(
        PuzzleBufferError::UnknownPuzzleType(1025).to_string(),
        "1025 is not a known puzzle type"
    );
    assert_eq!(
        PuzzleBufferError::UnknownSolutionState(0).to_string(),
        "0 is not a known solution state"
    );
    assert_eq!(
        PuzzleBufferError::Undecodable(TextCodec::Utf8).to_string(),
        "Bytes are not valid UTF-8"
    );
    assert_eq!(TextCodec::Latin1.name(), "ISO-8859-1");
    assert_eq!(puzuzu::error::decimal_text(65535), "65535");
}
