use puzuzu::checksum::data_checksum;
use puzuzu::error::{Field, PuzzleBufferError, PuzzleError};
use puzuzu::{Puzzle, PuzzleType, SolutionState};

/// The parts of a file that the tests vary.
struct Parts {
    preamble: Vec<u8>,
    version: [u8; 4],
    width: u8,
    height: u8,
    puzzle_type: u16,
    solution: Vec<u8>,
    fill: Vec<u8>,
    title: Vec<u8>,
    author: Vec<u8>,
    copyright: Vec<u8>,
    clues: Vec<Vec<u8>>,
    clue_count: Option<u16>,
    notes: Vec<u8>,
    extensions: Vec<([u8; 4], Vec<u8>, Option<u16>)>,
    postscript: Vec<u8>,
}

fn parts() -> Parts {
    Parts {
        preamble: vec![],
        version: *b"1.2\0",
        width: 3,
        height: 3,
        puzzle_type: 0x0001,
        solution: b"CATA.OTOE".to_vec(),
        fill: b"----.----".to_vec(),
        title: b"Tiny".to_vec(),
        author: b"Someone".to_vec(),
        copyright: b"".to_vec(),
        clues: vec![b"Feline".to_vec(), b"Taxi".to_vec(), b"Bobbin".to_vec(), b"Digit".to_vec()],
        clue_count: None,
        notes: b"A note".to_vec(),
        extensions: vec![],
        postscript: vec![],
    }
}

fn zstring(v: &[u8]) -> Vec<u8> {
    let mut r = v.to_vec();
    r.push(0);
    r
}

fn text_checksum(p: &Parts, mut c: u16) -> u16 {
    for s in [&p.title, &p.author, &p.copyright] {
        if !s.is_empty() {
            c = data_checksum(&zstring(s), c);
        }
    }
    for clue in &p.clues {
        c = data_checksum(clue, c);
    }
    let major = p.version[0] - b'0';
    let minor = p.version[2] - b'0';
    if major > 1 || (major == 1 && minor >= 3) {
        c = data_checksum(&zstring(&p.notes), c);
    }
    c
}

/// Builds a file whose checksums are all right.
fn build(p: &Parts) -> Vec<u8> {
    let count = p.clue_count.unwrap_or(p.clues.len() as u16);
    let packed = [
        p.width,
        p.height,
        (count & 0xff) as u8,
        (count >> 8) as u8,
        (p.puzzle_type & 0xff) as u8,
        (p.puzzle_type >> 8) as u8,
        0,
        0,
    ];
    let header_checksum = data_checksum(&packed, 0);
    let global = text_checksum(
        p,
        data_checksum(&p.fill, data_checksum(&p.solution, header_checksum)),
    );
    let parts = [
        header_checksum,
        data_checksum(&p.solution, 0),
        data_checksum(&p.fill, 0),
        text_checksum(p, 0),
    ];
    let mask = b"ICHEATED";
    let magic = parts.iter().enumerate().rev().fold(0u64, |mut m, (i, c)| {
        m <<= 8;
        m |= mask[i] as u64 ^ (*c as u64 & 0xff);
        m |= (mask[i + 4] as u64 ^ (*c as u64 >> 8)) << 32;
        m
    });

    let mut d = p.preamble.clone();
    d.extend_from_slice(&global.to_le_bytes());
    d.extend_from_slice(b"ACROSS&DOWN\0");
    d.extend_from_slice(&header_checksum.to_le_bytes());
    d.extend_from_slice(&magic.to_le_bytes());
    d.extend_from_slice(&p.version);
    d.extend_from_slice(&[0; 2]);
    d.extend_from_slice(&0u16.to_le_bytes());
    d.extend_from_slice(&[0; 12]);
    d.push(p.width);
    d.push(p.height);
    d.extend_from_slice(&count.to_le_bytes());
    d.extend_from_slice(&p.puzzle_type.to_le_bytes());
    d.extend_from_slice(&0u16.to_le_bytes());
    d.extend_from_slice(&p.solution);
    d.extend_from_slice(&p.fill);
    for s in [&p.title, &p.author, &p.copyright] {
        d.extend_from_slice(&zstring(s));
    }
    for clue in &p.clues {
        d.extend_from_slice(&zstring(clue));
    }
    d.extend_from_slice(&zstring(&p.notes));
    for (code, payload, declared) in &p.extensions {
        d.extend_from_slice(code);
        d.extend_from_slice(&(payload.len() as u16).to_le_bytes());
        let checksum = declared.unwrap_or(data_checksum(payload, 0));
        d.extend_from_slice(&checksum.to_le_bytes());
        d.extend_from_slice(payload);
        d.push(0);
    }
    d.extend_from_slice(&p.postscript);
    d
}

/// Where the solution grid starts in a file built without a preamble.
const GRID_START: usize = 52;

#[test]
fn decodes_a_valid_file() {
    let p = parts();
    let bytes = build(&p);
    let puzzle = Puzzle::from_puz(bytes).unwrap();
    assert_eq!(puzzle.header.file_version, "1.2");
    assert_eq!(puzzle.header.width, 3);
    assert_eq!(puzzle.header.height, 3);
    assert_eq!(puzzle.header.clue_count, 4);
    assert_eq!(puzzle.header.puzzle_type, PuzzleType::Normal);
    assert_eq!(puzzle.header.solution_state, SolutionState::Unlocked);
    assert_eq!(puzzle.solution, "CATA.OTOE");
    assert_eq!(puzzle.fill, "----.----");
    assert_eq!(puzzle.title, "Tiny");
    assert_eq!(puzzle.author, "Someone");
    assert_eq!(puzzle.copyright, "");
    assert_eq!(puzzle.notes, "A note");
    assert_eq!(puzzle.all_clues, vec!["Feline", "Taxi", "Bobbin", "Digit"]);
    assert!(puzzle.preamble.is_empty());
    assert!(puzzle.postscript.is_empty());
    assert!(puzzle.extensions.is_empty());
    assert_eq!(puzzle.width(), 3);
    assert_eq!(puzzle.height(), 3);
}

#[test]
fn decoded_clues_use_up_the_clue_count() {
    let puzzle = Puzzle::from_puz(build(&parts())).unwrap();
    assert_eq!(
        puzzle.clues.across.len() + puzzle.clues.down.len(),
        puzzle.header.clue_count
    );
    let clue = puzzle.get_across_clue(2, 1).unwrap();
    assert_eq!(clue.clue_number, 3);
    assert_eq!(clue.text, "Digit");
    let clue = puzzle.get_down_clue(1, 2).unwrap();
    assert_eq!(clue.clue_number, 2);
    assert!(puzzle.get_across_clue(1, 1).is_none());
    let again = puzzle.clues().unwrap();
    assert_eq!(again.across, puzzle.clues.across);
    assert_eq!(again.down, puzzle.clues.down);
}

#[test]
fn recomputed_checksums_match_the_header() {
    let puzzle = Puzzle::from_puz(build(&parts())).unwrap();
    assert_eq!(puzzle.calculate_global_checksum().unwrap(), puzzle.header.global_checksum);
    assert_eq!(puzzle.header.calculate_checksum(), puzzle.header.header_checksum);
    assert_eq!(puzzle.calculate_magic_checksum().unwrap(), puzzle.header.magic_checksum);
}

#[test]
fn preamble_and_postscript_are_kept() {
    let mut p = parts();
    p.preamble = b"junk before".to_vec();
    p.postscript = b"\r\n\r\n".to_vec();
    let puzzle = Puzzle::from_puz(build(&p)).unwrap();
    assert_eq!(puzzle.preamble, b"junk before".to_vec());
    assert_eq!(puzzle.postscript, b"\r\n\r\n".to_vec());
}

#[test]
fn extensions_are_read_in_order() {
    let mut p = parts();
    p.extensions = vec![
        (*b"GRBS", vec![0, 1, 0, 0, 2, 0, 0, 0, 0], None),
        (*b"RTBL", b" 0:X;".to_vec(), None),
    ];
    p.postscript = b"\r\n".to_vec();
    let puzzle = Puzzle::from_puz(build(&p)).unwrap();
    assert_eq!(puzzle.extensions.len(), 2);
    assert_eq!(&puzzle.extensions[0].code, b"GRBS");
    assert_eq!(puzzle.extensions[0].bytes, vec![0, 1, 0, 0, 2, 0, 0, 0, 0]);
    assert_eq!(&puzzle.extensions[1].code, b"RTBL");
    assert_eq!(puzzle.postscript, b"\r\n".to_vec());
}

#[test]
fn extension_with_wrong_checksum_is_refused() {
    let mut p = parts();
    let payload = b"payload".to_vec();
    let right = data_checksum(&payload, 0);
    p.extensions = vec![(*b"LTIM", payload, Some(right ^ 1))];
    match Puzzle::from_puz(build(&p)) {
        Err(PuzzleError::Read(
            Field::Extensions,
            PuzzleBufferError::ExtensionChecksum { code, calculated, declared },
        )) => {
            assert_eq!(&code, b"LTIM");
            assert_eq!(calculated, right);
            assert_eq!(declared, right ^ 1);
        }
        other => panic!("unexpected result {:?}", other.map(|_| ())),
    }
}

#[test]
fn truncated_extension_is_refused() {
    let mut p = parts();
    p.extensions = vec![(*b"GEXT", vec![0; 9], None)];
    let mut bytes = build(&p);
    bytes.truncate(bytes.len() - 3);
    assert!(matches!(
        Puzzle::from_puz(bytes),
        Err(PuzzleError::Read(Field::Extensions, PuzzleBufferError::ExtensionTruncated(c))) if &c == b"GEXT"
    ));
}

#[test]
fn corrupted_grid_byte_fails_the_global_checksum() {
    let bytes = build(&parts());
    for offset in 0..18 {
        let mut corrupted = bytes.clone();
        corrupted[GRID_START + offset] ^= 0x20;
        assert!(matches!(
            Puzzle::from_puz(corrupted),
            Err(PuzzleError::GlobalChecksum { .. })
        ));
    }
}

#[test]
fn wrong_header_and_magic_checksums_are_refused() {
    let bytes = build(&parts());
    let mut corrupted = bytes.clone();
    corrupted[14] ^= 1;
    // the global checksum is seeded with the header checksum, so it fails first
    assert!(matches!(Puzzle::from_puz(corrupted), Err(PuzzleError::GlobalChecksum { .. })));
    let mut corrupted = bytes.clone();
    corrupted[16] ^= 1;
    assert!(matches!(Puzzle::from_puz(corrupted), Err(PuzzleError::MagicChecksum { .. })));
}

#[test]
fn notes_count_from_version_one_three() {
    let mut p = parts();
    p.version = *b"1.3\0";
    let puzzle = Puzzle::from_puz(build(&p)).unwrap();
    assert_eq!(puzzle.notes, "A note");
    // a 1.2 checksum on a 1.3 file leaves the notes out and fails
    let mut bytes = build(&parts());
    bytes[24..28].copy_from_slice(b"1.3\0");
    assert!(matches!(Puzzle::from_puz(bytes), Err(PuzzleError::GlobalChecksum { .. })));
}

#[test]
fn empty_notes_still_add_their_null_byte() {
    let mut p = parts();
    p.version = *b"1.4\0";
    p.notes = vec![];
    let puzzle = Puzzle::from_puz(build(&p)).unwrap();
    assert_eq!(puzzle.notes, "");
    // with every text field empty, the text checksum is that of one null byte
    let mut q = parts();
    q.version = *b"1.3\0";
    q.title = vec![];
    q.author = vec![];
    q.clues = vec![];
    q.notes = vec![];
    q.fill = b".........".to_vec();
    q.solution = b".........".to_vec();
    let puzzle = Puzzle::from_puz(build(&q)).unwrap();
    assert_eq!(puzzle.text_checksum(1).unwrap(), data_checksum(&[0], 1));
}

#[test]
fn version_two_reads_utf8() {
    let mut p = parts();
    p.version = *b"2.0\0";
    p.title = "Caf\u{e9}".as_bytes().to_vec();
    let puzzle = Puzzle::from_puz(build(&p)).unwrap();
    assert_eq!(puzzle.title, "Caf\u{e9}");

    p.title = vec![0xff];
    match Puzzle::from_puz(build(&p)) {
        Err(PuzzleError::Decode { field, major, minor, .. }) => {
            assert_eq!(field, Field::Title);
            assert_eq!((major, minor), (2, 0));
        }
        other => panic!("unexpected result {:?}", other.map(|_| ())),
    }
}

#[test]
fn missing_marker_is_refused() {
    assert!(matches!(
        Puzzle::from_puz(b"no crossword here".to_vec()),
        Err(PuzzleError::MarkerNotFound)
    ));
    let bytes = build(&parts());
    assert!(matches!(Puzzle::from_puz(bytes[1..].to_vec()), Err(PuzzleError::MarkerNotFound)));
}

#[test]
fn unknown_puzzle_type_is_refused() {
    let mut p = parts();
    p.puzzle_type = 0x0002;
    assert!(matches!(
        Puzzle::from_puz(build(&p)),
        Err(PuzzleError::Read(Field::Header, PuzzleBufferError::UnknownPuzzleType(2)))
    ));
}

#[test]
fn diagramless_type_is_read() {
    let mut p = parts();
    p.puzzle_type = 0x0401;
    let puzzle = Puzzle::from_puz(build(&p)).unwrap();
    assert_eq!(puzzle.header.puzzle_type, PuzzleType::Diagramless);
}

#[test]
fn bad_version_is_refused() {
    let mut p = parts();
    p.version = *b"x.2\0";
    assert!(matches!(Puzzle::from_puz(build(&p)), Err(PuzzleError::VersionFormat)));
}

#[test]
fn truncated_header_is_refused() {
    let bytes = build(&parts());
    assert!(matches!(
        Puzzle::from_puz(bytes[..40].to_vec()),
        Err(PuzzleError::Read(Field::Header, PuzzleBufferError::UnexpectedEnd))
    ));
}

#[test]
fn missing_clue_text_names_its_index() {
    let mut p = parts();
    p.clue_count = Some(4);
    p.clues.truncate(2);
    p.notes = vec![];
    let mut bytes = build(&p);
    // drop the notes' terminator: the third clue now has none
    bytes.pop();
    assert!(matches!(
        Puzzle::from_puz(bytes),
        Err(PuzzleError::Read(Field::Clue(2), PuzzleBufferError::NoTerminator))
    ));
}

#[test]
fn too_few_clue_texts_for_the_grid_are_refused() {
    let mut p = parts();
    p.clues.truncate(3);
    assert!(matches!(Puzzle::from_puz(build(&p)), Err(PuzzleError::OutOfClues)));
}

#[test]
fn clue_count_must_match_the_numbering() {
    let mut p = parts();
    p.clues.push(b"Spare".to_vec());
    assert!(matches!(
        Puzzle::from_puz(build(&p)),
        Err(PuzzleError::ClueCountMismatch { declared: 5, numbered: 4 })
    ));
}

#[test]
fn bad_extension_after_good_ones_is_named() {
    let mut p = parts();
    let payload = b"xyz".to_vec();
    let right = data_checksum(&payload, 0);
    p.extensions = vec![
        (*b"GRBS", vec![0; 9], None),
        (*b"RTBL", payload, Some(right.wrapping_add(1))),
    ];
    match Puzzle::from_puz(build(&p)) {
        Err(PuzzleError::Read(Field::Extensions, e)) => {
            let expected = format!(
                "Extension RTBL calculated checksum ({}) does not match header ({})",
                right,
                right.wrapping_add(1)
            );
            assert_eq!(e.to_string(), expected);
        }
        other => panic!("unexpected result {:?}", other.map(|_| ())),
    }
}

#[test]
fn crlf_appended_to_a_file_becomes_its_postscript() {
    let mut p = parts();
    p.extensions = vec![(*b"GEXT", vec![0; 9], None)];
    let mut bytes = build(&p);
    let plain = Puzzle::from_puz(bytes.clone()).unwrap();
    assert!(plain.postscript.is_empty());
    bytes.extend_from_slice(b"\r\n\r\n");
    let puzzle = Puzzle::from_puz(bytes).unwrap();
    assert_eq!(puzzle.postscript, b"\r\n\r\n".to_vec());
    assert_eq!(puzzle.extensions.len(), 1);
    assert_eq!(puzzle.title, plain.title);
}
