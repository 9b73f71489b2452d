//! The fixed-size header record that follows the file's preamble.
use crate::checksum::{checksum_of, data_checksum};
use crate::codec::{latin1_chars, latin1_text, TextCodec};
use crate::error::{PuzzleBufferError, PuzzleError};
use crate::puzzle_buffer::{u16_at, u64_at, PuzzleBuffer};
use crate::puzzle_type::{puzzle_type_code, puzzle_type_of, PuzzleType};
use crate::solution_state::{solution_state_code, solution_state_of, SolutionState};
use vstd::prelude::*;

verus! {

/// The number of bytes of the header record.
pub const HEADER_LEN: usize = 52;

#[derive(Debug)]
pub struct Header {
    pub global_checksum: u16,
    pub header_checksum: u16,
    pub magic_checksum: u64,
    /// The first three characters of the version field, such as `1.3`.
    pub file_version: String,
    pub scrambled_checksum: u16,
    pub width: usize,
    pub height: usize,
    pub clue_count: usize,
    pub puzzle_type: PuzzleType,
    pub solution_state: SolutionState,
}

/// The value of a `Header`.
pub ghost struct HeaderView {
    pub global_checksum: u16,
    pub header_checksum: u16,
    pub magic_checksum: u64,
    pub file_version: Seq<char>,
    pub scrambled_checksum: u16,
    pub width: usize,
    pub height: usize,
    pub clue_count: usize,
    pub puzzle_type: PuzzleType,
    pub solution_state: SolutionState,
}

impl View for Header {
    type V = HeaderView;

    open spec fn view(&self) -> HeaderView {
        HeaderView {
            global_checksum: self.global_checksum,
            header_checksum: self.header_checksum,
            magic_checksum: self.magic_checksum,
            file_version: self.file_version@,
            scrambled_checksum: self.scrambled_checksum,
            width: self.width,
            height: self.height,
            clue_count: self.clue_count,
            puzzle_type: self.puzzle_type,
            solution_state: self.solution_state,
        }
    }
}

/// The header record at `p`, with the position after it. The layout, all
/// integers little-endian: global checksum (2), marker (11), pad (1), header
/// checksum (2), magic checksum (8), version (4), reserved (2), scrambled
/// checksum (2), reserved (12), width (1), height (1), clue count (2), puzzle
/// type (2), solution state (2).
pub open spec fn header_at(d: Seq<u8>, p: int) -> Result<(HeaderView, int), PuzzleBufferError> {
    if p + 50 > d.len() {
        Err(PuzzleBufferError::UnexpectedEnd)
    } else {
        match puzzle_type_of(u16_at(d, p + 48)) {
            None => Err(PuzzleBufferError::UnknownPuzzleType(u16_at(d, p + 48))),
            Some(puzzle_type) => if p + 52 > d.len() {
                Err(PuzzleBufferError::UnexpectedEnd)
            } else {
                match solution_state_of(u16_at(d, p + 50)) {
                    None => Err(PuzzleBufferError::UnknownSolutionState(u16_at(d, p + 50))),
                    Some(solution_state) => Ok(
                        (
                            HeaderView {
                                global_checksum: u16_at(d, p),
                                header_checksum: u16_at(d, p + 14),
                                magic_checksum: u64_at(d, p + 16),
                                file_version: latin1_chars(d.subrange(p + 24, p + 27)),
                                scrambled_checksum: u16_at(d, p + 30),
                                width: d[p + 44] as usize,
                                height: d[p + 45] as usize,
                                clue_count: u16_at(d, p + 46) as usize,
                                puzzle_type,
                                solution_state,
                            },
                            p + 52,
                        ),
                    ),
                }
            },
        }
    }
}

/// The bytes the header checksum covers: width, height, clue count, puzzle
/// type and solution state, packed as `u8 u8 u16 u16 u16` little-endian.
pub open spec fn header_checksum_bytes(h: HeaderView) -> Seq<u8> {
    let count = h.clue_count as u16;
    let kind = puzzle_type_code(h.puzzle_type);
    let state = solution_state_code(h.solution_state);
    seq![
        h.width as u8,
        h.height as u8,
        (count % 0x100) as u8,
        (count / 0x100) as u8,
        (kind % 0x100) as u8,
        (kind / 0x100) as u8,
        (state % 0x100) as u8,
        (state / 0x100) as u8,
    ]
}

/// The header checksum recomputed from the header's fields.
pub open spec fn header_checksum_of(h: HeaderView) -> u16 {
    checksum_of(header_checksum_bytes(h), 0)
}

pub open spec fn is_digit(c: char) -> bool {
    '0' <= c <= '9'
}

/// The decimal value of a sequence of digits.
pub open spec fn digits_value(s: Seq<char>) -> nat
    decreases s.len(),
{
    if s.len() == 0 {
        0
    } else {
        digits_value(s.drop_last()) * 10 + (s.last() as nat - '0' as nat) as nat
    }
}

/// The digits of an unsigned integer: `s` without one leading `+`, if any.
pub open spec fn unsigned_digits(s: Seq<char>) -> Seq<char> {
    if s.len() > 0 && s[0] == '+' {
        s.drop_first()
    } else {
        s
    }
}

/// An unsigned integer: one optional `+`, then a non-empty run of decimal
/// digits whose value fits in a `u64`.
pub open spec fn parse_u64(s: Seq<char>) -> Option<u64> {
    plain_u64(unsigned_digits(s))
}

/// A non-empty run of decimal digits whose value fits in a `u64`.
pub open spec fn plain_u64(s: Seq<char>) -> Option<u64> {
    if s.len() > 0 && (forall|i: int| 0 <= i < s.len() ==> is_digit(#[trigger] s[i]))
        && digits_value(s) <= u64::MAX {
        Some(digits_value(s) as u64)
    } else {
        None
    }
}

/// The index of the first `.` in `s`, from `from` on.
pub open spec fn find_dot(s: Seq<char>, from: int) -> Option<int>
    decreases s.len() - from,
{
    if from < 0 || from >= s.len() {
        None
    } else if s[from] == '.' {
        Some(from)
    } else {
        find_dot(s, from + 1)
    }
}

/// A version string `major.minor` read as two integers.
pub open spec fn version_of(s: Seq<char>) -> Option<(u64, u64)> {
    match find_dot(s, 0) {
        None => None,
        Some(k) => match (parse_u64(s.subrange(0, k)), parse_u64(s.subrange(k + 1, s.len() as int))) {
            (Some(major), Some(minor)) => Some((major, minor)),
            _ => None,
        },
    }
}

proof fn lemma_digits_value_grows(s: Seq<char>, i: int)
    requires
        0 <= i <= s.len(),
    ensures
        digits_value(s.subrange(0, i)) <= digits_value(s),
    decreases s.len() - i,
{
    if i < s.len() {
        lemma_digits_value_grows(s, i + 1);
        assert(s.subrange(0, i + 1).drop_last() =~= s.subrange(0, i));
    } else {
        assert(s.subrange(0, i) =~= s);
    }
}

/// Parses the characters `s[from..to]` as an unsigned integer, with an
/// optional leading `+`.
fn parse_digits(s: &str, from: usize, to: usize) -> (r: Option<u64>)
    requires
        from <= to <= s@.len(),
    ensures
        r == parse_u64(s@.subrange(from as int, to as int)),
{
    let ghost t = s@.subrange(from as int, to as int);
    if from < to && s.get_char(from) == '+' {
        assert(t.drop_first() =~= s@.subrange(from + 1, to as int));
        parse_plain_digits(s, from + 1, to)
    } else {
        parse_plain_digits(s, from, to)
    }
}

/// Parses the characters `s[from..to]` as a run of decimal digits.
fn parse_plain_digits(s: &str, from: usize, to: usize) -> (r: Option<u64>)
    requires
        from <= to <= s@.len(),
    ensures
        r == plain_u64(s@.subrange(from as int, to as int)),
{
    let ghost t = s@.subrange(from as int, to as int);
    if from == to {
        return None;
    }
    let mut value: u64 = 0;
    let mut i: usize = from;
    assert(t.subrange(0, 0).len() == 0);
    while i < to
        invariant
            from <= i <= to <= s@.len(),
            t == s@.subrange(from as int, to as int),
            value == digits_value(t.subrange(0, i - from)),
            forall|k: int| 0 <= k < i - from ==> is_digit(#[trigger] t[k]),
        decreases to - i,
    {
        let c = s.get_char(i);
        assert(c == t[i - from]);
        assert(t.subrange(0, i - from + 1).drop_last() =~= t.subrange(0, i - from));
        if !('0' <= c && c <= '9') {
            return None;
        }
        let d = (c as u32 - '0' as u32) as u64;
        if value > (u64::MAX - d) / 10 {
            proof {
                assert(value * 10 + d > u64::MAX) by (nonlinear_arith)
                    requires
                        value > (u64::MAX - d) / 10,
                        d <= 9,
                ;
                lemma_digits_value_grows(t, i - from + 1);
            }
            return None;
        }
        assert(value * 10 + d <= u64::MAX) by (nonlinear_arith)
            requires
                value <= (u64::MAX - d) / 10,
                d <= 9,
        ;
        value = value * 10 + d;
        i = i + 1;
    }
    assert(t.subrange(0, to - from) =~= t);
    Some(value)
}

impl Header {
    /// Reads the header record at the cursor.
    pub fn from_cursor(reader: &mut PuzzleBuffer) -> (r: Result<Header, PuzzleBufferError>)
        requires
            old(reader).wf(),
        ensures
            final(reader).wf(),
            final(reader)@.data == old(reader)@.data,
            final(reader)@.decoder == old(reader)@.decoder,
            match header_at(old(reader)@.data, old(reader)@.position) {
                Ok((h, q)) => r matches Ok(hd) && hd@ == h && final(reader)@.position == q,
                Err(e) => r matches Err(e2) && e2 == e,
            },
    {
        let ghost d = reader@.data;
        let ghost p = reader@.position;
        let global_checksum = reader.read_u16()?;
        let _marker = reader.read_bytes(11)?;
        let _pad = reader.read_u8()?;
        let header_checksum = reader.read_u16()?;
        let magic_checksum = reader.read_u64()?;
        let version = reader.read_bytes(4)?;
        let file_version = latin1_text(&version[0..3]);
        assert(version@.subrange(0, 3) =~= d.subrange(p + 24, p + 27));
        let _reserved = reader.read_bytes(2)?;
        let scrambled_checksum = reader.read_u16()?;
        let _reserved = reader.read_bytes(12)?;
        let width = reader.read_u8()? as usize;
        let height = reader.read_u8()? as usize;
        let clue_count = reader.read_u16()? as usize;
        let code = reader.read_u16()?;
        let puzzle_type = match PuzzleType::try_from(code) {
            Ok(t) => t,
            Err(()) => {
                return Err(PuzzleBufferError::UnknownPuzzleType(code));
            },
        };
        let code = reader.read_u16()?;
        let solution_state = match SolutionState::try_from(code) {
            Ok(s) => s,
            Err(()) => {
                return Err(PuzzleBufferError::UnknownSolutionState(code));
            },
        };
        Ok(Header {
            global_checksum,
            header_checksum,
            magic_checksum,
            file_version,
            scrambled_checksum,
            width,
            height,
            clue_count,
            puzzle_type,
            solution_state,
        })
    }

    /// The file version as `(major, minor)`; fails unless it is two
    /// dot-separated runs of decimal digits.
    pub fn version_tuple(&self) -> (r: Result<(u64, u64), PuzzleError>)
        ensures
            match version_of(self.file_version@) {
                Some(v) => r matches Ok(t) && t == v,
                None => r matches Err(e) && e is VersionFormat,
            },
    {
        let s = self.file_version.as_str();
        let n = s.unicode_len();
        let ghost v = s@;
        let mut k: usize = 0;
        while k < n && s.get_char(k) != '.'
            invariant
                n == v.len(),
                v == self.file_version@,
                v == s@,
                k <= n,
                find_dot(v, 0) == find_dot(v, k as int),
            decreases n - k,
        {
            k = k + 1;
        }
        if k == n {
            return Err(PuzzleError::VersionFormat);
        }
        let major = parse_digits(s, 0, k);
        let minor = parse_digits(s, k + 1, n);
        match (major, minor) {
            (Some(major), Some(minor)) => Ok((major, minor)),
            _ => Err(PuzzleError::VersionFormat),
        }
    }

    /// The codec that decodes the file's text.
    pub fn get_decoder(&self) -> (r: Result<TextCodec, PuzzleError>)
        ensures
            match version_of(self.file_version@) {
                Some(v) => r matches Ok(c) && c == TextCodec::spec_for_major(v.0),
                None => r matches Err(e) && e is VersionFormat,
            },
    {
        let (major, _minor) = self.version_tuple()?;
        Ok(TextCodec::for_major(major))
    }

    /// The codec that encodes the file's text; the same as its decoder.
    pub fn get_encoder(&self) -> (r: Result<TextCodec, PuzzleError>)
        ensures
            match version_of(self.file_version@) {
                Some(v) => r matches Ok(c) && c == TextCodec::spec_for_major(v.0),
                None => r matches Err(e) && e is VersionFormat,
            },
    {
        self.get_decoder()
    }

    /// Recomputes the header checksum from width, height, clue count, puzzle
    /// type and solution state.
    pub fn calculate_checksum(&self) -> (r: u16)
        ensures
            r == header_checksum_of(self@),
    {
        let count = self.clue_count as u16;
        let kind = self.puzzle_type.into();
        let state = self.solution_state.into();
        let bytes: Vec<u8> = vec![
            self.width as u8,
            self.height as u8,
            (count % 0x100) as u8,
            (count / 0x100) as u8,
            (kind % 0x100) as u8,
            (kind / 0x100) as u8,
            (state % 0x100) as u8,
            (state / 0x100) as u8,
        ];
        assert(bytes@ =~= header_checksum_bytes(self@));
        data_checksum(bytes.as_slice(), 0)
    }
}

} // verus!
