//! Decoding a whole puzzle file and checking its checksums.
use crate::checksum::{checksum_of, data_checksum};
use crate::clues::{
    clue_views, lemma_numbering_bounds, numbering_of, text_views, Clue, ClueView, Clues,
};
use crate::codec::{encoded, lemma_decoded_empty, TextCodec};
use crate::error::{Field, PuzzleBufferError, PuzzleError};
use crate::extension::{extension_views, extensions_from, Extension, ExtensionView};
use crate::grid::Grid;
use crate::header::{header_at, header_checksum_of, version_of, Header, HeaderView};
use crate::puzzle_buffer::{
    find_marker, lemma_find_marker_bounds, string_at, text_at, u64_at, PuzzleBuffer,
};
use vstd::prelude::*;
use vstd::slice::slice_to_vec;

verus! {

/// The marker `ACROSS&DOWN`; the header starts two bytes before it.
pub open spec fn marker() -> Seq<u8> {
    seq![0x41u8, 0x43, 0x52, 0x4f, 0x53, 0x53, 0x26, 0x44, 0x4f, 0x57, 0x4e]
}

/// The mask `ICHEATED` of the magic checksum.
pub open spec fn mask() -> Seq<u8> {
    seq![0x49u8, 0x43, 0x48, 0x45, 0x41, 0x54, 0x45, 0x44]
}

/// A decoded puzzle file.
#[derive(Debug)]
pub struct Puzzle {
    /// The bytes before the header, kept as they are.
    pub preamble: Vec<u8>,
    pub header: Header,
    /// The bytes after the last extension, kept as they are.
    pub postscript: Vec<u8>,
    pub title: String,
    pub author: String,
    pub copyright: String,
    pub fill: String,
    pub solution: String,
    /// The clue texts in file order.
    pub all_clues: Vec<String>,
    /// The numbered entries of the grid.
    pub clues: Clues,
    pub notes: String,
    pub extensions: Vec<Extension>,
}

/// The value of a `Puzzle`.
pub ghost struct PuzzleView {
    pub preamble: Seq<u8>,
    pub header: HeaderView,
    pub postscript: Seq<u8>,
    pub title: Seq<char>,
    pub author: Seq<char>,
    pub copyright: Seq<char>,
    pub fill: Seq<char>,
    pub solution: Seq<char>,
    pub all_clues: Seq<Seq<char>>,
    pub across: Seq<ClueView>,
    pub down: Seq<ClueView>,
    pub notes: Seq<char>,
    pub extensions: Seq<ExtensionView>,
}

impl View for Puzzle {
    type V = PuzzleView;

    open spec fn view(&self) -> PuzzleView {
        PuzzleView {
            preamble: self.preamble@,
            header: self.header@,
            postscript: self.postscript@,
            title: self.title@,
            author: self.author@,
            copyright: self.copyright@,
            fill: self.fill@,
            solution: self.solution@,
            all_clues: text_views(self.all_clues@),
            across: clue_views(self.clues.across@),
            down: clue_views(self.clues.down@),
            notes: self.notes@,
            extensions: extension_views(self.extensions@),
        }
    }
}

/// The checksum of `s` encoded, chained from `seed`, with a null byte after it
/// when `terminated`.
pub open spec fn text_sum(codec: TextCodec, s: Seq<char>, terminated: bool, seed: u16) -> Option<u16> {
    match encoded(codec, s) {
        None => None,
        Some(b) => Some(checksum_of(if terminated { b.push(0) } else { b }, seed)),
    }
}

/// Like `text_sum` with a terminator, but an empty string adds nothing.
pub open spec fn nonempty_sum(codec: TextCodec, s: Seq<char>, seed: u16) -> Option<u16> {
    if s.len() == 0 {
        Some(seed)
    } else {
        text_sum(codec, s, true, seed)
    }
}

/// The clue texts, each encoded without a terminator, chained from `seed`.
pub open spec fn clues_sum(codec: TextCodec, clues: Seq<Seq<char>>, seed: u16) -> Option<u16>
    decreases clues.len(),
{
    if clues.len() == 0 {
        Some(seed)
    } else {
        match clues_sum(codec, clues.drop_last(), seed) {
            None => None,
            Some(x) => text_sum(codec, clues.last(), false, x),
        }
    }
}

/// Whether the notes count in the checksums: from version 1.3 on.
pub open spec fn notes_counted(major: u64, minor: u64) -> bool {
    major > 1 || (major == 1 && minor >= 3)
}

/// The text checksum: title, author and copyright (each only if non-empty,
/// null-terminated), every clue text (no terminator), then from version 1.3
/// on the notes, null-terminated even when empty.
pub open spec fn text_checksum_with(
    codec: TextCodec,
    p: PuzzleView,
    major: u64,
    minor: u64,
    seed: u16,
) -> Option<u16> {
    match nonempty_sum(codec, p.title, seed) {
        None => None,
        Some(s1) => match nonempty_sum(codec, p.author, s1) {
            None => None,
            Some(s2) => match nonempty_sum(codec, p.copyright, s2) {
                None => None,
                Some(s3) => match clues_sum(codec, p.all_clues, s3) {
                    None => None,
                    Some(s4) => if notes_counted(major, minor) {
                        text_sum(codec, p.notes, true, s4)
                    } else {
                        Some(s4)
                    },
                },
            },
        },
    }
}

/// The global checksum: from the header checksum, through the encoded solution
/// and fill, then the text checksum.
pub open spec fn global_checksum_with(
    codec: TextCodec,
    p: PuzzleView,
    major: u64,
    minor: u64,
) -> Option<u16> {
    match (encoded(codec, p.solution), encoded(codec, p.fill)) {
        (Some(sb), Some(fb)) => text_checksum_with(
            codec,
            p,
            major,
            minor,
            checksum_of(fb, checksum_of(sb, p.header.header_checksum)),
        ),
        _ => None,
    }
}

/// The magic checksum of four 16-bit checksums: byte `k` of the low half is
/// `mask[k]` xor the low byte of checksum `k`, byte `k` of the high half is
/// `mask[k + 4]` xor its high byte.
pub open spec fn magic_of(c0: u16, c1: u16, c2: u16, c3: u16) -> u64 {
    u64_at(
        seq![
            mask()[0] ^ (c0 % 0x100) as u8,
            mask()[1] ^ (c1 % 0x100) as u8,
            mask()[2] ^ (c2 % 0x100) as u8,
            mask()[3] ^ (c3 % 0x100) as u8,
            mask()[4] ^ (c0 / 0x100) as u8,
            mask()[5] ^ (c1 / 0x100) as u8,
            mask()[6] ^ (c2 / 0x100) as u8,
            mask()[7] ^ (c3 / 0x100) as u8,
        ],
        0,
    )
}

/// The magic checksum: the recomputed header checksum and the checksums of
/// the encoded solution, the encoded fill and the text, each from 0.
pub open spec fn magic_checksum_with(
    codec: TextCodec,
    p: PuzzleView,
    major: u64,
    minor: u64,
) -> Option<u64> {
    match (encoded(codec, p.solution), encoded(codec, p.fill), text_checksum_with(codec, p, major, minor, 0)) {
        (Some(sb), Some(fb), Some(t)) => Some(
            magic_of(header_checksum_of(p.header), checksum_of(sb, 0), checksum_of(fb, 0), t),
        ),
        _ => None,
    }
}

/// A checksum of the puzzle's fields, with the codec and version its header names.
pub open spec fn with_version<T>(
    p: PuzzleView,
    f: spec_fn(TextCodec, u64, u64) -> Option<T>,
) -> Result<T, PuzzleError> {
    match version_of(p.header.file_version) {
        None => Err(PuzzleError::VersionFormat),
        Some((major, minor)) => match f(TextCodec::spec_for_major(major), major, minor) {
            None => Err(PuzzleError::Encode { codec: TextCodec::spec_for_major(major) }),
            Some(x) => Ok(x),
        },
    }
}

pub open spec fn text_checksum_of(p: PuzzleView, seed: u16) -> Result<u16, PuzzleError> {
    with_version(p, |c: TextCodec, major: u64, minor: u64| text_checksum_with(c, p, major, minor, seed))
}

pub open spec fn global_checksum_of(p: PuzzleView) -> Result<u16, PuzzleError> {
    with_version(p, |c: TextCodec, major: u64, minor: u64| global_checksum_with(c, p, major, minor))
}

pub open spec fn magic_checksum_of(p: PuzzleView) -> Result<u64, PuzzleError> {
    with_version(p, |c: TextCodec, major: u64, minor: u64| magic_checksum_with(c, p, major, minor))
}


/// A read error of the given field, with the version for a text that did not decode.
pub open spec fn lift(e: PuzzleBufferError, field: Field, major: u64, minor: u64) -> PuzzleError {
    match e {
        PuzzleBufferError::Undecodable(codec) => PuzzleError::Decode { field, codec, major, minor },
        _ => PuzzleError::Read(field, e),
    }
}

/// `n` null-terminated clue texts from `p`; on failure, the index of the clue
/// that could not be read.
pub open spec fn clue_texts_at(d: Seq<u8>, p: int, decoder: Option<TextCodec>, n: nat) -> Result<
    (Seq<Seq<char>>, int),
    (nat, PuzzleBufferError),
>
    decreases n,
{
    if n == 0 {
        Ok((seq![], p))
    } else {
        match clue_texts_at(d, p, decoder, (n - 1) as nat) {
            Err(e) => Err(e),
            Ok((texts, q)) => match string_at(d, q, decoder) {
                Ok((t, q2)) => Ok((texts.push(t), q2)),
                Err(e) => Err(((n - 1) as nat, e)),
            },
        }
    }
}

/// The checks that follow the reads: the global, header and magic checksums,
/// then the numbering of the grid, whose entries must use up every clue text.
#[verifier::opaque]
pub open spec fn validated(p: PuzzleView) -> Result<PuzzleView, PuzzleError> {
    match global_checksum_of(p) {
        Err(e) => Err(e),
        Ok(g) => if g != p.header.global_checksum {
            Err(PuzzleError::GlobalChecksum { calculated: g, declared: p.header.global_checksum })
        } else if header_checksum_of(p.header) != p.header.header_checksum {
            Err(
                PuzzleError::HeaderChecksum {
                    calculated: header_checksum_of(p.header),
                    declared: p.header.header_checksum,
                },
            )
        } else {
            match magic_checksum_of(p) {
                Err(e) => Err(e),
                Ok(m) => if m != p.header.magic_checksum {
                    Err(PuzzleError::MagicChecksum { calculated: m, declared: p.header.magic_checksum })
                } else {
                    match numbering_of(
                        p.fill,
                        p.header.width as int,
                        p.header.height as int,
                        p.all_clues,
                    ) {
                        None => Err(PuzzleError::OutOfClues),
                        Some(st) => if st.across.len() + st.down.len() != p.header.clue_count {
                            Err(
                                PuzzleError::ClueCountMismatch {
                                    declared: p.header.clue_count,
                                    numbered: (st.across.len() + st.down.len()) as usize,
                                },
                            )
                        } else {
                            Ok(PuzzleView { across: st.across, down: st.down, ..p })
                        },
                    }
                },
            }
        }
    }
}

/// The fields after the header, read with the codec of the version; the
/// entries of the grid are not numbered yet.
#[verifier::opaque]
pub open spec fn read_fields(
    d: Seq<u8>,
    pos0: int,
    h: HeaderView,
    pos1: int,
    major: u64,
    minor: u64,
) -> Result<PuzzleView, PuzzleError> {
    let dec = Some(TextCodec::spec_for_major(major));
    let n = h.width * h.height;
    match text_at(d, pos1, n, dec) {
        Err(e) => Err(lift(e, Field::Solution, major, minor)),
        Ok((solution, pos2)) => match text_at(d, pos2, n, dec) {
            Err(e) => Err(lift(e, Field::Fill, major, minor)),
            Ok((fill, pos3)) => match string_at(d, pos3, dec) {
                Err(e) => Err(lift(e, Field::Title, major, minor)),
                Ok((title, pos4)) => match string_at(d, pos4, dec) {
                    Err(e) => Err(lift(e, Field::Author, major, minor)),
                    Ok((author, pos5)) => match string_at(d, pos5, dec) {
                        Err(e) => Err(lift(e, Field::Copyright, major, minor)),
                        Ok((copyright, pos6)) => match clue_texts_at(d, pos6, dec, h.clue_count as nat) {
                            Err((i, e)) => Err(lift(e, Field::Clue(i as usize), major, minor)),
                            Ok((all_clues, pos7)) => match string_at(d, pos7, dec) {
                                Err(e) => Err(lift(e, Field::Notes, major, minor)),
                                Ok((notes, pos8)) => match extensions_from(d, pos8) {
                                    Err(e) => Err(PuzzleError::Read(Field::Extensions, e)),
                                    Ok((extensions, pos9)) => Ok(
                                        PuzzleView {
                                            preamble: d.subrange(0, pos0),
                                            header: h,
                                            postscript: d.subrange(pos9, d.len() as int),
                                            title,
                                            author,
                                            copyright,
                                            fill,
                                            solution,
                                            all_clues,
                                            across: seq![],
                                            down: seq![],
                                            notes,
                                            extensions,
                                        },
                                    ),
                                },
                            },
                        },
                    },
                },
            },
        },
    }
}

/// The fields after the header, read and then checked.
pub open spec fn decode_body(
    d: Seq<u8>,
    pos0: int,
    h: HeaderView,
    pos1: int,
    major: u64,
    minor: u64,
) -> Result<PuzzleView, PuzzleError> {
    match read_fields(d, pos0, h, pos1, major, minor) {
        Err(e) => Err(e),
        Ok(v) => validated(v),
    }
}

/// What decoding the file `d` gives: the puzzle, or the first error.
pub open spec fn decode_puzzle(d: Seq<u8>) -> Result<PuzzleView, PuzzleError> {
    match find_marker(d, marker(), 0) {
        None => Err(PuzzleError::MarkerNotFound),
        Some(m) => if m < 2 {
            Err(PuzzleError::MarkerNotFound)
        } else {
            match header_at(d, m - 2) {
                Err(e) => Err(PuzzleError::Read(Field::Header, e)),
                Ok((h, pos1)) => match version_of(h.file_version) {
                    None => Err(PuzzleError::VersionFormat),
                    Some((major, minor)) => decode_body(d, m - 2, h, pos1, major, minor),
                },
            }
        },
    }
}

proof fn lemma_clue_texts_err_stays(d: Seq<u8>, p: int, decoder: Option<TextCodec>, k: nat, n: nat)
    requires
        k <= n,
        clue_texts_at(d, p, decoder, k) is Err,
    ensures
        clue_texts_at(d, p, decoder, n) == clue_texts_at(d, p, decoder, k),
    decreases n - k,
{
    if k < n {
        lemma_clue_texts_err_stays(d, p, decoder, k + 1, n);
    }
}

fn lift_error(e: PuzzleBufferError, field: Field, major: u64, minor: u64) -> (r: PuzzleError)
    ensures
        r == lift(e, field, major, minor),
{
    match e {
        PuzzleBufferError::Undecodable(codec) => PuzzleError::Decode { field, codec, major, minor },
        _ => PuzzleError::Read(field, e),
    }
}

/// Reads `n` null-terminated clue texts; on failure, gives the index of the
/// clue that could not be read.
fn read_clue_texts(reader: &mut PuzzleBuffer, n: usize) -> (r: Result<
    Vec<String>,
    (usize, PuzzleBufferError),
>)
    requires
        old(reader).wf(),
    ensures
        final(reader).wf(),
        final(reader)@.data == old(reader)@.data,
        final(reader)@.decoder == old(reader)@.decoder,
        match clue_texts_at(old(reader)@.data, old(reader)@.position, old(reader)@.decoder, n as nat) {
            Ok((texts, q)) => r matches Ok(v) && text_views(v@) == texts && final(reader)@.position == q,
            Err((i, e)) => r matches Err((i2, e2)) && i2 == i && e2 == e,
        },
{
    let ghost d = reader@.data;
    let ghost pos0 = reader@.position;
    let ghost dec = reader@.decoder;
    let mut texts: Vec<String> = Vec::new();
    let mut k: usize = 0;
    assert(text_views(texts@) =~= seq![]);
    while k < n
        invariant
            reader.wf(),
            reader@.data == d,
            reader@.decoder == dec,
            d == old(reader)@.data,
            pos0 == old(reader)@.position,
            dec == old(reader)@.decoder,
            k <= n,
            clue_texts_at(d, pos0, dec, k as nat) == Ok::<(Seq<Seq<char>>, int), (nat, PuzzleBufferError)>(
                (text_views(texts@), reader@.position),
            ),
        decreases n - k,
    {
        match reader.unpack_string() {
            Ok(t) => {
                let ghost before = text_views(texts@);
                texts.push(t);
                assert(text_views(texts@) =~= before.push(t@));
            },
            Err(e) => {
                proof {
                    lemma_clue_texts_err_stays(d, pos0, dec, (k + 1) as nat, n as nat);
                }
                return Err((k, e));
            },
        }
        k = k + 1;
    }
    Ok(texts)
}

/// The checksum of `s` encoded, chained from `seed`, with a null byte after it
/// when `terminated`.
fn sum_text(codec: TextCodec, s: &str, terminated: bool, seed: u16) -> (r: Option<u16>)
    ensures
        r == text_sum(codec, s@, terminated, seed),
{
    match codec.encode(s) {
        None => None,
        Some(mut bytes) => {
            if terminated {
                bytes.push(0);
            }
            Some(data_checksum(bytes.as_slice(), seed))
        },
    }
}

fn sum_nonempty(codec: TextCodec, s: &str, seed: u16) -> (r: Option<u16>)
    ensures
        r == nonempty_sum(codec, s@, seed),
{
    if s.is_empty() {
        Some(seed)
    } else {
        sum_text(codec, s, true, seed)
    }
}

/// The magic checksum of the four component checksums.
fn combine_magic(c0: u16, c1: u16, c2: u16, c3: u16) -> (r: u64)
    ensures
        r == magic_of(c0, c1, c2, c3),
{
    let b0: u8 = 0x49u8 ^ (c0 % 0x100) as u8;
    let b1: u8 = 0x43u8 ^ (c1 % 0x100) as u8;
    let b2: u8 = 0x48u8 ^ (c2 % 0x100) as u8;
    let b3: u8 = 0x45u8 ^ (c3 % 0x100) as u8;
    let b4: u8 = 0x41u8 ^ (c0 / 0x100) as u8;
    let b5: u8 = 0x54u8 ^ (c1 / 0x100) as u8;
    let b6: u8 = 0x45u8 ^ (c2 / 0x100) as u8;
    let b7: u8 = 0x44u8 ^ (c3 / 0x100) as u8;
    let ghost bytes = seq![b0, b1, b2, b3, b4, b5, b6, b7];
    assert(bytes[0] == b0 && bytes[1] == b1 && bytes[2] == b2 && bytes[3] == b3);
    assert(bytes[4] == b4 && bytes[5] == b5 && bytes[6] == b6 && bytes[7] == b7);
    b0 as u64 + b1 as u64 * 0x100 + b2 as u64 * 0x10000 + b3 as u64 * 0x1000000 + b4 as u64
        * 0x100000000 + b5 as u64 * 0x10000000000 + b6 as u64 * 0x1000000000000 + b7 as u64
        * 0x100000000000000
}

impl Puzzle {
    fn text_checksum_with_codec(&self, codec: TextCodec, major: u64, minor: u64, seed: u16) -> (r:
        Option<u16>)
        ensures
            r == text_checksum_with(codec, self@, major, minor, seed),
    {
        let s1 = match sum_nonempty(codec, self.title.as_str(), seed) {
            Some(s) => s,
            None => {
                return None;
            },
        };
        let s2 = match sum_nonempty(codec, self.author.as_str(), s1) {
            Some(s) => s,
            None => {
                return None;
            },
        };
        let s3 = match sum_nonempty(codec, self.copyright.as_str(), s2) {
            Some(s) => s,
            None => {
                return None;
            },
        };
        let ghost texts = text_views(self.all_clues@);
        let mut sum = s3;
        let mut i: usize = 0;
        assert(texts.subrange(0, 0).len() == 0);
        while i < self.all_clues.len()
            invariant
                texts == text_views(self.all_clues@),
                nonempty_sum(codec, self@.title, seed) == Some(s1),
                nonempty_sum(codec, self@.author, s1) == Some(s2),
                nonempty_sum(codec, self@.copyright, s2) == Some(s3),
                i <= self.all_clues@.len(),
                clues_sum(codec, texts.subrange(0, i as int), s3) == Some(sum),
            decreases self.all_clues@.len() - i,
        {
            assert(texts.subrange(0, i + 1).drop_last() =~= texts.subrange(0, i as int));
            assert(texts.subrange(0, i + 1).last() == self.all_clues@[i as int]@);
            sum = match sum_text(codec, self.all_clues[i].as_str(), false, sum) {
                Some(s) => s,
                None => {
                    proof {
                        lemma_clues_sum_none_stays(codec, texts, s3, (i + 1) as nat);
                    }
                    return None;
                },
            };
            i = i + 1;
        }
        assert(texts.subrange(0, i as int) =~= texts);
        if major > 1 || (major == 1 && minor >= 3) {
            sum_text(codec, self.notes.as_str(), true, sum)
        } else {
            Some(sum)
        }
    }

    /// The text checksum chained from `seed`.
    pub fn text_checksum(&self, seed: u16) -> (r: Result<u16, PuzzleError>)
        ensures
            r == text_checksum_of(self@, seed),
    {
        let (major, minor) = match self.header.version_tuple() {
            Ok(v) => v,
            Err(e) => {
                return Err(e);
            },
        };
        let codec = TextCodec::for_major(major);
        match self.text_checksum_with_codec(codec, major, minor, seed) {
            Some(s) => Ok(s),
            None => Err(PuzzleError::Encode { codec }),
        }
    }

    /// Recomputes the global checksum.
    pub fn calculate_global_checksum(&self) -> (r: Result<u16, PuzzleError>)
        ensures
            r == global_checksum_of(self@),
    {
        let (major, minor) = match self.header.version_tuple() {
            Ok(v) => v,
            Err(e) => {
                return Err(e);
            },
        };
        let codec = TextCodec::for_major(major);
        let solution = codec.encode(self.solution.as_str());
        let fill = codec.encode(self.fill.as_str());
        match (solution, fill) {
            (Some(sb), Some(fb)) => {
                let seed = data_checksum(fb.as_slice(), data_checksum(sb.as_slice(), self.header.header_checksum));
                match self.text_checksum_with_codec(codec, major, minor, seed) {
                    Some(s) => Ok(s),
                    None => Err(PuzzleError::Encode { codec }),
                }
            },
            _ => Err(PuzzleError::Encode { codec }),
        }
    }

    /// Recomputes the magic checksum.
    pub fn calculate_magic_checksum(&self) -> (r: Result<u64, PuzzleError>)
        ensures
            r == magic_checksum_of(self@),
    {
        let (major, minor) = match self.header.version_tuple() {
            Ok(v) => v,
            Err(e) => {
                return Err(e);
            },
        };
        let codec = TextCodec::for_major(major);
        let solution = codec.encode(self.solution.as_str());
        let fill = codec.encode(self.fill.as_str());
        let text = self.text_checksum_with_codec(codec, major, minor, 0);
        match (solution, fill, text) {
            (Some(sb), Some(fb), Some(t)) => Ok(
                combine_magic(
                    self.header.calculate_checksum(),
                    data_checksum(sb.as_slice(), 0),
                    data_checksum(fb.as_slice(), 0),
                    t,
                ),
            ),
            _ => Err(PuzzleError::Encode { codec }),
        }
    }
}

proof fn lemma_clues_sum_none_stays(codec: TextCodec, texts: Seq<Seq<char>>, seed: u16, k: nat)
    requires
        k <= texts.len(),
        clues_sum(codec, texts.subrange(0, k as int), seed) is None,
    ensures
        clues_sum(codec, texts, seed) is None,
    decreases texts.len() - k,
{
    if k < texts.len() {
        assert(texts.subrange(0, k as int + 1).drop_last() =~= texts.subrange(0, k as int));
        lemma_clues_sum_none_stays(codec, texts, seed, k + 1);
    } else {
        assert(texts.subrange(0, k as int) =~= texts);
    }
}

impl Puzzle {
    /// Decodes a puzzle file: the header after the preamble, the grids, the
    /// strings, the clue texts, the notes and the extensions, then checks the
    /// three checksums and numbers the grid. The puzzle comes back only if
    /// every step succeeds.
    pub fn from_puz(data: Vec<u8>) -> (r: Result<Puzzle, PuzzleError>)
        ensures
            match decode_puzzle(data@) {
                Ok(v) => r matches Ok(p) && p@ == v,
                Err(e) => r matches Err(e2) && e2 == e,
            },
            r matches Ok(p) ==> p.clues.across@.len() + p.clues.down@.len() == p.header.clue_count,
            r matches Ok(p) ==> global_checksum_of(p@) == Ok::<u16, PuzzleError>(
                p.header.global_checksum,
            ) && header_checksum_of(p.header@) == p.header.header_checksum && magic_checksum_of(p@)
                == Ok::<u64, PuzzleError>(p.header.magic_checksum),
    {
        proof {
            lemma_accepted_file(data@);
        }
        let ghost d = data@;
        let mut buffer = PuzzleBuffer::new(data.as_slice());
        let start_marker: Vec<u8> = vec![0x41u8, 0x43, 0x52, 0x4f, 0x53, 0x53, 0x26, 0x44, 0x4f, 0x57, 0x4e];
        assert(start_marker@ =~= marker());
        proof {
            if find_marker(d, marker(), 0) is Some {
                lemma_find_marker_bounds(d, marker(), 0);
            }
        }
        if buffer.seek_to_bytes(start_marker.as_slice(), -2).is_err() {
            return Err(PuzzleError::MarkerNotFound);
        }
        let preamble = slice_to_vec(buffer.seen());
        let header = match buffer.unpack_header() {
            Ok(h) => h,
            Err(e) => {
                return Err(PuzzleError::Read(Field::Header, e));
            },
        };
        let (major, minor) = match header.version_tuple() {
            Ok(v) => v,
            Err(e) => {
                return Err(e);
            },
        };
        let codec = TextCodec::for_major(major);
        buffer.set_decoder(codec);
        let puz = match Puzzle::read_fields(&mut buffer, preamble, header, major, minor) {
            Ok(p) => p,
            Err(e) => {
                return Err(e);
            },
        };
        Puzzle::validate(puz)
    }

    /// Checks the three checksums of a puzzle whose fields were read, then
    /// numbers its grid.
    fn validate(puz: Puzzle) -> (r: Result<Puzzle, PuzzleError>)
        requires
            puz@.across.len() == 0,
            puz@.down.len() == 0,
            puz.header.width > 0 || puz@.fill.len() == 0,
        ensures
            match validated(puz@) {
                Ok(v) => r matches Ok(p) && p@ == v,
                Err(e) => r matches Err(e2) && e2 == e,
            },
    {
        reveal(validated);
        let mut puz = puz;
        let global = match puz.calculate_global_checksum() {
            Ok(c) => c,
            Err(e) => {
                return Err(e);
            },
        };
        if global != puz.header.global_checksum {
            return Err(
                PuzzleError::GlobalChecksum { calculated: global, declared: puz.header.global_checksum },
            );
        }
        let header_checksum = puz.header.calculate_checksum();
        if header_checksum != puz.header.header_checksum {
            return Err(
                PuzzleError::HeaderChecksum {
                    calculated: header_checksum,
                    declared: puz.header.header_checksum,
                },
            );
        }
        let magic = match puz.calculate_magic_checksum() {
            Ok(c) => c,
            Err(e) => {
                return Err(e);
            },
        };
        if magic != puz.header.magic_checksum {
            return Err(
                PuzzleError::MagicChecksum { calculated: magic, declared: puz.header.magic_checksum },
            );
        }
        proof {
            if puz.header.width == 0 {
                assert(puz.fill@.len() == 0);
            }
        }
        let clues = match Clues::new(
            Grid::new(puz.fill.as_str(), puz.solution.as_str(), puz.header.width, puz.header.height),
            puz.all_clues.as_slice(),
        ) {
            Ok(c) => c,
            Err(e) => {
                return Err(e);
            },
        };
        proof {
            lemma_numbering_bounds(
                puz.fill@,
                puz.header.width as int,
                puz.header.height as int,
                text_views(puz.all_clues@),
                puz.fill@.len(),
            );
        }
        let total_texts = puz.all_clues.len();
        assert(clues.across@.len() + clues.down@.len() <= total_texts);
        let numbered = clues.across.len() + clues.down.len();
        if numbered != puz.header.clue_count {
            return Err(PuzzleError::ClueCountMismatch { declared: puz.header.clue_count, numbered });
        }
        puz.clues = clues;
        Ok(puz)
    }
}

impl Puzzle {
    /// Reads the fields after the header, with the codec already chosen.
    fn read_fields(
        buffer: &mut PuzzleBuffer,
        preamble: Vec<u8>,
        header: Header,
        major: u64,
        minor: u64,
    ) -> (r: Result<Puzzle, PuzzleError>)
        requires
            old(buffer).wf(),
            old(buffer)@.decoder == Some(TextCodec::spec_for_major(major)),
            preamble@ == old(buffer)@.data.subrange(0, old(buffer)@.position - 52),
            old(buffer)@.position >= 52,
        ensures
            match read_fields(old(buffer)@.data, old(buffer)@.position - 52, header@, old(buffer)@.position, major, minor) {
                Ok(v) => r matches Ok(p) && p@ == v && (p.header.width > 0 || p@.fill.len() == 0)
                    && p@.across.len() == 0 && p@.down.len() == 0,
                Err(e) => r matches Err(e2) && e2 == e,
            },
    {
        reveal(read_fields);
        let ghost pos1 = buffer@.position;
        let solution = match buffer.unpack_solution(header.width, header.height) {
            Ok(s) => s,
            Err(e) => {
                return Err(lift_error(e, Field::Solution, major, minor));
            },
        };
        let fill = match buffer.unpack_fill(header.width, header.height) {
            Ok(s) => s,
            Err(e) => {
                return Err(lift_error(e, Field::Fill, major, minor));
            },
        };
        let title = match buffer.unpack_string() {
            Ok(s) => s,
            Err(e) => {
                return Err(lift_error(e, Field::Title, major, minor));
            },
        };
        let author = match buffer.unpack_string() {
            Ok(s) => s,
            Err(e) => {
                return Err(lift_error(e, Field::Author, major, minor));
            },
        };
        let copyright = match buffer.unpack_string() {
            Ok(s) => s,
            Err(e) => {
                return Err(lift_error(e, Field::Copyright, major, minor));
            },
        };
        let all_clues = match read_clue_texts(buffer, header.clue_count) {
            Ok(v) => v,
            Err((i, e)) => {
                return Err(lift_error(e, Field::Clue(i), major, minor));
            },
        };
        let notes = match buffer.unpack_string() {
            Ok(s) => s,
            Err(e) => {
                return Err(lift_error(e, Field::Notes, major, minor));
            },
        };
        let extensions = match buffer.unpack_extensions() {
            Ok(v) => v,
            Err(e) => {
                return Err(PuzzleError::Read(Field::Extensions, e));
            },
        };
        let postscript = slice_to_vec(buffer.upcoming());
        proof {
            if header.width == 0 {
                lemma_decoded_empty(TextCodec::spec_for_major(major));
                assert(buffer@.data.subrange(pos1, pos1 + 0) =~= Seq::<u8>::empty());
            }
        }
        let puz = Puzzle {
            preamble,
            header,
            postscript,
            title,
            author,
            copyright,
            fill,
            solution,
            all_clues,
            clues: Clues { across: Vec::new(), down: Vec::new() },
            notes,
            extensions,
        };
        assert(clue_views(puz.clues.across@) =~= seq![]);
        assert(clue_views(puz.clues.down@) =~= seq![]);
        Ok(puz)
    }
}

/// A file that decodes has as many across and down entries together as its
/// header declares clues, and its three checksums, recomputed from the decoded
/// fields, are the ones its header declares.
pub proof fn lemma_accepted_file(d: Seq<u8>)
    ensures
        decode_puzzle(d) matches Ok(v) ==> {
            &&& v.across.len() + v.down.len() == v.header.clue_count
            &&& global_checksum_of(v) == Ok::<u16, PuzzleError>(v.header.global_checksum)
            &&& header_checksum_of(v.header) == v.header.header_checksum
            &&& magic_checksum_of(v) == Ok::<u64, PuzzleError>(v.header.magic_checksum)
        },
{
    reveal(validated);
}

/// The index of the first across entry from `from` on that covers the cell at
/// `row`, `column`.
pub open spec fn across_entry_at(s: Seq<ClueView>, row: nat, column: nat, from: int) -> Option<int>
    decreases s.len() - from,
{
    if from < 0 || from >= s.len() {
        None
    } else if s[from].row == row && s[from].column <= column < s[from].column + s[from].length {
        Some(from)
    } else {
        across_entry_at(s, row, column, from + 1)
    }
}

/// The index of the first down entry from `from` on that covers the cell at
/// `row`, `column`.
pub open spec fn down_entry_at(s: Seq<ClueView>, row: nat, column: nat, from: int) -> Option<int>
    decreases s.len() - from,
{
    if from < 0 || from >= s.len() {
        None
    } else if s[from].column == column && s[from].row <= row < s[from].row + s[from].length {
        Some(from)
    } else {
        down_entry_at(s, row, column, from + 1)
    }
}

impl Puzzle {
    pub fn height(&self) -> (r: usize)
        ensures
            r == self.header.height,
    {
        self.header.height
    }

    pub fn width(&self) -> (r: usize)
        ensures
            r == self.header.width,
    {
        self.header.width
    }

    /// The across entry whose cells include the one at `row`, `column`.
    pub fn get_across_clue(&self, row: usize, column: usize) -> (r: Option<&Clue>)
        ensures
            match across_entry_at(self@.across, row as nat, column as nat, 0) {
                Some(i) => r matches Some(c) && c@ == self@.across[i],
                None => r is None,
            },
    {
        let ghost s = self@.across;
        let mut i: usize = 0;
        while i < self.clues.across.len()
            invariant
                s == clue_views(self.clues.across@),
                i <= self.clues.across@.len(),
                across_entry_at(s, row as nat, column as nat, 0) == across_entry_at(
                    s,
                    row as nat,
                    column as nat,
                    i as int,
                ),
            decreases self.clues.across@.len() - i,
        {
            let clue = &self.clues.across[i];
            assert(s[i as int] == clue@);
            if clue.row == row && clue.column <= column && column - clue.column < clue.length {
                return Some(clue);
            }
            i = i + 1;
        }
        None
    }

    /// The down entry whose cells include the one at `row`, `column`.
    pub fn get_down_clue(&self, row: usize, column: usize) -> (r: Option<&Clue>)
        ensures
            match down_entry_at(self@.down, row as nat, column as nat, 0) {
                Some(i) => r matches Some(c) && c@ == self@.down[i],
                None => r is None,
            },
    {
        let ghost s = self@.down;
        let mut i: usize = 0;
        while i < self.clues.down.len()
            invariant
                s == clue_views(self.clues.down@),
                i <= self.clues.down@.len(),
                down_entry_at(s, row as nat, column as nat, 0) == down_entry_at(
                    s,
                    row as nat,
                    column as nat,
                    i as int,
                ),
            decreases self.clues.down@.len() - i,
        {
            let clue = &self.clues.down[i];
            assert(s[i as int] == clue@);
            if clue.column == column && clue.row <= row && row - clue.row < clue.length {
                return Some(clue);
            }
            i = i + 1;
        }
        None
    }

    /// The grid of this puzzle.
    pub fn grid<'a>(&'a self) -> (r: Grid<'a>)
        ensures
            r.fill@ == self.fill@,
            r.solution@ == self.solution@,
            r.width == self.header.width,
            r.height == self.header.height,
    {
        Grid::for_puzzle(self)
    }

    /// Numbers the grid again from the fill and the clue texts.
    pub fn clues(&self) -> (r: Result<Clues, PuzzleError>)
        requires
            self.header.width > 0 || self.fill@.len() == 0,
        ensures
            match numbering_of(self@.fill, self.header.width as int, self.header.height as int, self@.all_clues) {
                Some(st) => r matches Ok(c) && clue_views(c.across@) == st.across && clue_views(c.down@) == st.down,
                None => r matches Err(e) && e is OutOfClues,
            },
    {
        Clues::for_puzzle(self)
    }
}

} // verus!
