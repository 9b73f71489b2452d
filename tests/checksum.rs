use puzuzu::checksum::data_checksum;
use puzuzu::codec::{latin1_text, TextCodec};
use puzuzu::header::Header;
use puzuzu::{PuzzleType, SolutionState};

#[test]
fn checksum_rotates_then_adds() {
    assert_eq!(data_checksum(&[], 0x1234), 0x1234);
    assert_eq!(data_checksum(&[1], 0), 1);
    // 1 rotated right is 0x8000, plus 2
    assert_eq!(data_checksum(&[1, 2], 0), 0x8002);
    // 0xffff rotated is 0xffff, plus 1 wraps to 0
    assert_eq!(data_checksum(&[1], 0xffff), 0);
}

#[test]
fn checksum_chains_over_concatenation() {
    let a = b"ACROSS";
    let b = b"&DOWN";
    let whole = b"ACROSS&DOWN";
    for seed in [0u16, 1, 0x8001, 0xffff] {
        assert_eq!(data_checksum(whole, seed), data_checksum(b, data_checksum(a, seed)));
    }
}

#[test]
fn latin1_codec_maps_bytes_to_code_points() {
    assert_eq!(TextCodec::Latin1.decode(&[0x41, 0xe9]).unwrap(), "A\u{e9}");
    assert_eq!(latin1_text(&[0x31, 0x2e, 0x33]), "1.3");
    assert_eq!(TextCodec::Latin1.encode("A\u{e9}").unwrap(), vec![0x41, 0xe9]);
    assert!(TextCodec::Latin1.encode("\u{100}").is_none());
}

#[test]
fn utf8_codec_checks_sequences() {
    assert_eq!(TextCodec::Utf8.decode(&[0xc3, 0xa9]).unwrap(), "\u{e9}");
    assert!(TextCodec::Utf8.decode(&[0xc3]).is_none());
    assert_eq!(TextCodec::Utf8.encode("\u{e9}").unwrap(), vec![0xc3, 0xa9]);
    assert_eq!(TextCodec::for_major(1), TextCodec::Latin1);
    assert_eq!(TextCodec::for_major(2), TextCodec::Utf8);
}

fn header(version: &str) -> Header {
    Header {
        global_checksum: 0,
        header_checksum: 0,
        magic_checksum: 0,
        file_version: version.to_string(),
        scrambled_checksum: 0,
        width: 15,
        height: 15,
        clue_count: 78,
        puzzle_type: PuzzleType::Normal,
        solution_state: SolutionState::Unlocked,
    }
}

#[test]
fn version_tuple_needs_two_integers() {
    assert_eq!(header("1.2").version_tuple().unwrap(), (1, 2));
    assert_eq!(header("10.25").version_tuple().unwrap(), (10, 25));
    assert!(header("12").version_tuple().is_err());
    assert!(header("1.").version_tuple().is_err());
    assert!(header("a.b").version_tuple().is_err());
    assert!(header("1.2.3").version_tuple().is_err());
    assert!(header("99999999999999999999.1").version_tuple().is_err());
    assert_eq!(header("1.3").get_decoder().unwrap(), TextCodec::Latin1);
    assert_eq!(header("2.0").get_encoder().unwrap(), TextCodec::Utf8);
}

#[test]
fn header_checksum_covers_packed_fields() {
    let h = header("1.2");
    let packed = [15u8, 15, 78, 0, 1, 0, 0, 0];
    assert_eq!(h.calculate_checksum(), data_checksum(&packed, 0));
}

#[test]
fn enum_codes_round_trip() {
    assert_eq!(PuzzleType::try_from(0x0001), Ok(PuzzleType::Normal));
    assert_eq!(PuzzleType::try_from(0x0401), Ok(PuzzleType::Diagramless));
    assert_eq!(PuzzleType::try_from(0x0002), Err(()));
    assert_eq!(PuzzleType::Diagramless.into(), 0x0401);
    assert_eq!(SolutionState::try_from(0x0000), Ok(SolutionState::Unlocked));
    assert_eq!(SolutionState::try_from(0x0004), Ok(SolutionState::Locked));
    assert_eq!(SolutionState::try_from(0x0001), Err(()));
    assert_eq!(SolutionState::Locked.into(), 0x0004);
}

#[test]
fn version_parts_may_carry_a_plus_sign() {
    assert_eq!(header("+1.2").version_tuple().unwrap(), (1, 2));
    assert_eq!(header("1.+3").version_tuple().unwrap(), (1, 3));
    assert!(header("+.2").version_tuple().is_err());
    assert!(header("++1.2").version_tuple().is_err());
    assert!(header("-1.2").version_tuple().is_err());
}
