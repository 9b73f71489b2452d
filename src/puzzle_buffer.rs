//! A read cursor over the bytes of a puzzle file.
use crate::codec::{decoded, TextCodec};
use crate::error::PuzzleBufferError;
use crate::extension::{extension_views, extensions_from, Extension};
use crate::header::{header_at, Header};
use vstd::prelude::*;
use vstd::string::StringSliceAdditionalSpecFns;

verus! {

/// The little-endian value of the two bytes at `p`.
pub open spec fn u16_at(d: Seq<u8>, p: int) -> u16 {
    (d[p] as int + d[p + 1] as int * 0x100) as u16
}

/// The little-endian value of the eight bytes at `p`.
pub open spec fn u64_at(d: Seq<u8>, p: int) -> u64 {
    (d[p] as int + d[p + 1] as int * 0x100 + d[p + 2] as int * 0x10000 + d[p + 3] as int
        * 0x1000000 + d[p + 4] as int * 0x100000000 + d[p + 5] as int * 0x10000000000 + d[p
        + 6] as int * 0x1000000000000 + d[p + 7] as int * 0x100000000000000) as u64
}

/// The first index at or after `from` where `marker` occurs in `d`.
pub open spec fn find_marker(d: Seq<u8>, marker: Seq<u8>, from: int) -> Option<int>
    decreases d.len() + 1 - from,
{
    if from < 0 || from + marker.len() > d.len() {
        None
    } else if d.subrange(from, from + marker.len()) == marker {
        Some(from)
    } else {
        find_marker(d, marker, from + 1)
    }
}

/// A marker that was found lies within the data, at or after the start of the search.
pub proof fn lemma_find_marker_bounds(d: Seq<u8>, marker: Seq<u8>, from: int)
    requires
        find_marker(d, marker, from) is Some,
    ensures
        from <= find_marker(d, marker, from).unwrap(),
        find_marker(d, marker, from).unwrap() + marker.len() <= d.len(),
        d.subrange(
            find_marker(d, marker, from).unwrap(),
            find_marker(d, marker, from).unwrap() + marker.len(),
        ) == marker,
    decreases d.len() + 1 - from,
{
    if !(from < 0 || from + marker.len() > d.len()) && d.subrange(from, from + marker.len()) != marker {
        lemma_find_marker_bounds(d, marker, from + 1);
    }
}

/// The first index at or after `from` that holds a null byte.
pub open spec fn find_null(d: Seq<u8>, from: int) -> Option<int>
    decreases d.len() - from,
{
    if from < 0 || from >= d.len() {
        None
    } else if d[from] == 0 {
        Some(from)
    } else {
        find_null(d, from + 1)
    }
}

/// Decoding with the cursor's codec, if one was chosen.
pub open spec fn decode_with(decoder: Option<TextCodec>, bytes: Seq<u8>) -> Result<
    Seq<char>,
    PuzzleBufferError,
> {
    match decoder {
        None => Err(PuzzleBufferError::EncodingNotInferred),
        Some(c) => match decoded(c, bytes) {
            Some(s) => Ok(s),
            None => Err(PuzzleBufferError::Undecodable(c)),
        },
    }
}

/// A null-terminated string at `p`: its text and the position after the null.
pub open spec fn string_at(d: Seq<u8>, p: int, decoder: Option<TextCodec>) -> Result<
    (Seq<char>, int),
    PuzzleBufferError,
> {
    match find_null(d, p) {
        None => Err(PuzzleBufferError::NoTerminator),
        Some(z) => match decode_with(decoder, d.subrange(p, z)) {
            Ok(s) => Ok((s, z + 1)),
            Err(e) => Err(e),
        },
    }
}

/// `n` bytes at `p` read as text, with the position after them.
pub open spec fn text_at(d: Seq<u8>, p: int, n: int, decoder: Option<TextCodec>) -> Result<
    (Seq<char>, int),
    PuzzleBufferError,
> {
    if p + n > d.len() {
        Err(PuzzleBufferError::UnexpectedEnd)
    } else {
        match decode_with(decoder, d.subrange(p, p + n)) {
            Ok(s) => Ok((s, p + n)),
            Err(e) => Err(e),
        }
    }
}

/// The state of a cursor: the whole data, the offset, and the chosen codec.
pub ghost struct BufferView {
    pub data: Seq<u8>,
    pub position: int,
    pub decoder: Option<TextCodec>,
}

/// Wraps the data of a puzzle file and reads it front to back.
pub struct PuzzleBuffer<'a> {
    data: &'a [u8],
    position: usize,
    decoder: Option<TextCodec>,
}

impl<'a> View for PuzzleBuffer<'a> {
    type V = BufferView;

    closed spec fn view(&self) -> BufferView {
        BufferView { data: self.data@, position: self.position as int, decoder: self.decoder }
    }
}

impl<'a> PuzzleBuffer<'a> {
    /// The offset lies within the data.
    pub open spec fn wf(&self) -> bool {
        0 <= self@.position <= self@.data.len()
    }

    /// The same cursor moved to `position`.
    pub open spec fn moved(old: BufferView, position: int) -> BufferView {
        BufferView { position, ..old }
    }

    pub fn new(data: &'a [u8]) -> (r: PuzzleBuffer<'a>)
        ensures
            r@ == (BufferView { data: data@, position: 0, decoder: None }),
            r.wf(),
    {
        PuzzleBuffer { data, position: 0, decoder: None }
    }

    /// Chooses the codec for all later text reads.
    pub fn set_decoder(&mut self, decoder: TextCodec)
        ensures
            final(self)@ == (BufferView { decoder: Some(decoder), ..old(self)@ }),
    {
        self.decoder = Some(decoder);
    }

    pub fn decode_string(&self, bytes: &[u8]) -> (r: Result<String, PuzzleBufferError>)
        ensures
            match decode_with(self@.decoder, bytes@) {
                Ok(s) => r matches Ok(t) && t@ == s,
                Err(e) => r matches Err(e2) && e2 == e,
            },
    {
        match self.decoder {
            None => Err(PuzzleBufferError::EncodingNotInferred),
            Some(codec) => match codec.decode(bytes) {
                Some(s) => Ok(s),
                None => Err(PuzzleBufferError::Undecodable(codec)),
            },
        }
    }

    pub fn position(&self) -> (r: usize)
        ensures
            r == self@.position,
    {
        self.position
    }

    /// The bytes before the cursor.
    pub fn seen(&self) -> (r: &'a [u8])
        requires
            self.wf(),
        ensures
            r@ == self@.data.subrange(0, self@.position),
    {
        &self.data[0..self.position]
    }

    /// The bytes from the cursor on.
    pub fn upcoming(&self) -> (r: &'a [u8])
        requires
            self.wf(),
        ensures
            r@ == self@.data.subrange(self@.position, self@.data.len() as int),
    {
        &self.data[self.position..self.data.len()]
    }

    /// Moves the cursor to the first occurrence of `marker` at or after it,
    /// shifted by `offset`. On failure, tells whether the marker was found.
    pub fn seek_to_bytes(&mut self, marker: &[u8], offset: i32) -> (r: Result<(), bool>)
        requires
            old(self).wf(),
        ensures
            final(self).wf(),
            match find_marker(old(self)@.data, marker@, old(self)@.position) {
                None => r == Err::<(), bool>(false) && final(self)@ == old(self)@,
                Some(i) => if 0 <= i + offset <= old(self)@.data.len() {
                    r is Ok && final(self)@ == PuzzleBuffer::moved(old(self)@, i + offset)
                } else {
                    r == Err::<(), bool>(true) && final(self)@ == old(self)@
                },
            },
    {
        let n = self.data.len();
        let m = marker.len();
        let mut i: usize = self.position;
        while i <= n && m <= n - i
            invariant
                n == self.data@.len(),
                m == marker@.len(),
                self@ == old(self)@,
                old(self).wf(),
                self.position <= i,
                find_marker(self.data@, marker@, self.position as int) == find_marker(
                    self.data@,
                    marker@,
                    i as int,
                ),
            decreases n - i,
        {
            let mut j: usize = 0;
            let mut same = true;
            assert(self.data@.subrange(i as int, i as int) =~= marker@.subrange(0, 0));
            while j < m
                invariant
                    i + m <= n == self.data@.len(),
                    m == marker@.len(),
                    j <= m,
                    same == (self.data@.subrange(i as int, i + j) == marker@.subrange(0, j as int)),
                decreases m - j,
            {
                proof {
                    assert(self.data@.subrange(i as int, i + j + 1) == self.data@.subrange(i as int, i + j).push(self.data@[i + j]));
                    assert(marker@.subrange(0, j + 1) == marker@.subrange(0, j as int).push(marker@[j as int]));
                    if !same {
                        let a = self.data@.subrange(i as int, i + j + 1);
                        let b = marker@.subrange(0, j + 1);
                        if a == b {
                            assert(self.data@.subrange(i as int, i + j) =~= a.subrange(0, j as int));
                            assert(marker@.subrange(0, j as int) =~= b.subrange(0, j as int));
                        }
                    }
                    if same && self.data@[i + j] != marker@[j as int] {
                        let a = self.data@.subrange(i as int, i + j + 1);
                        let b = marker@.subrange(0, j + 1);
                        assert(a[j as int] != b[j as int]);
                    }
                }
                if self.data[i + j] != marker[j] {
                    same = false;
                }
                j = j + 1;
            }
            assert(marker@.subrange(0, m as int) =~= marker@);
            if same {
                let target: i128 = i as i128 + offset as i128;
                if target < 0 || target > n as i128 {
                    return Err(true);
                }
                self.position = target as usize;
                return Ok(());
            }
            i = i + 1;
        }
        Err(false)
    }

    /// Moves the cursor to the first occurrence of `substring` at or after it,
    /// shifted by `offset` bytes (a negative offset moves before the occurrence).
    pub fn seek_to(&mut self, substring: &str, offset: i32) -> (r: Result<(), PuzzleBufferError>)
        requires
            old(self).wf(),
        ensures
            final(self).wf(),
            match find_marker(old(self)@.data, substring.spec_bytes(), old(self)@.position) {
                None => r matches Err(PuzzleBufferError::SeekError(s)) && s@ == substring@
                    && final(self)@ == old(self)@,
                Some(i) => if 0 <= i + offset <= old(self)@.data.len() {
                    r is Ok && final(self)@ == PuzzleBuffer::moved(old(self)@, i + offset)
                } else {
                    r matches Err(PuzzleBufferError::SeekOutOfRange(s)) && s@ == substring@
                        && final(self)@ == old(self)@
                },
            },
    {
        match self.seek_to_bytes(substring.as_bytes(), offset) {
            Ok(()) => Ok(()),
            Err(found) => {
                if !found {
                    Err(PuzzleBufferError::SeekError(String::from_str(substring)))
                } else {
                    Err(PuzzleBufferError::SeekOutOfRange(String::from_str(substring)))
                }
            },
        }
    }

    /// The number of bytes from the cursor on.
    pub fn remaining(&self) -> (r: usize)
        requires
            self.wf(),
        ensures
            r == self@.data.len() - self@.position,
    {
        self.data.len() - self.position
    }

    /// Reads `n` raw bytes.
    pub fn read_bytes(&mut self, n: usize) -> (r: Result<&'a [u8], PuzzleBufferError>)
        requires
            old(self).wf(),
        ensures
            final(self).wf(),
            final(self)@.data == old(self)@.data,
            final(self)@.decoder == old(self)@.decoder,
            if old(self)@.position + n <= old(self)@.data.len() {
                r matches Ok(b) && b@ == old(self)@.data.subrange(
                    old(self)@.position,
                    old(self)@.position + n,
                ) && final(self)@ == PuzzleBuffer::moved(old(self)@, old(self)@.position + n)
            } else {
                r matches Err(e) && e == PuzzleBufferError::UnexpectedEnd
            },
    {
        if n > self.data.len() - self.position {
            return Err(PuzzleBufferError::UnexpectedEnd);
        }
        let start = self.position;
        self.position = start + n;
        Ok(&self.data[start..start + n])
    }

    pub fn read_u8(&mut self) -> (r: Result<u8, PuzzleBufferError>)
        requires
            old(self).wf(),
        ensures
            final(self).wf(),
            final(self)@.data == old(self)@.data,
            final(self)@.decoder == old(self)@.decoder,
            if old(self)@.position + 1 <= old(self)@.data.len() {
                r == Ok::<u8, PuzzleBufferError>(old(self)@.data[old(self)@.position])
                    && final(self)@ == PuzzleBuffer::moved(old(self)@, old(self)@.position + 1)
            } else {
                r matches Err(e) && e == PuzzleBufferError::UnexpectedEnd
            },
    {
        if self.position >= self.data.len() {
            return Err(PuzzleBufferError::UnexpectedEnd);
        }
        let b = self.data[self.position];
        self.position = self.position + 1;
        Ok(b)
    }

    /// Reads a little-endian `u16`.
    pub fn read_u16(&mut self) -> (r: Result<u16, PuzzleBufferError>)
        requires
            old(self).wf(),
        ensures
            final(self).wf(),
            final(self)@.data == old(self)@.data,
            final(self)@.decoder == old(self)@.decoder,
            if old(self)@.position + 2 <= old(self)@.data.len() {
                r == Ok::<u16, PuzzleBufferError>(u16_at(old(self)@.data, old(self)@.position))
                    && final(self)@ == PuzzleBuffer::moved(old(self)@, old(self)@.position + 2)
            } else {
                r matches Err(e) && e == PuzzleBufferError::UnexpectedEnd
            },
    {
        let b = self.read_bytes(2)?;
        Ok(b[0] as u16 + b[1] as u16 * 0x100)
    }

    /// Reads a little-endian `u64`.
    pub fn read_u64(&mut self) -> (r: Result<u64, PuzzleBufferError>)
        requires
            old(self).wf(),
        ensures
            final(self).wf(),
            final(self)@.data == old(self)@.data,
            final(self)@.decoder == old(self)@.decoder,
            if old(self)@.position + 8 <= old(self)@.data.len() {
                r == Ok::<u64, PuzzleBufferError>(u64_at(old(self)@.data, old(self)@.position))
                    && final(self)@ == PuzzleBuffer::moved(old(self)@, old(self)@.position + 8)
            } else {
                r matches Err(e) && e == PuzzleBufferError::UnexpectedEnd
            },
    {
        let b = self.read_bytes(8)?;
        Ok(b[0] as u64 + b[1] as u64 * 0x100 + b[2] as u64 * 0x10000 + b[3] as u64 * 0x1000000
            + b[4] as u64 * 0x100000000 + b[5] as u64 * 0x10000000000 + b[6] as u64
            * 0x1000000000000 + b[7] as u64 * 0x100000000000000)
    }

    /// Reads `width * height` bytes and decodes them as one grid of text.
    pub fn unpack_grid(&mut self, width: usize, height: usize) -> (r: Result<String, PuzzleBufferError>)
        requires
            old(self).wf(),
        ensures
            final(self).wf(),
            final(self)@.data == old(self)@.data,
            final(self)@.decoder == old(self)@.decoder,
            match text_at(old(self)@.data, old(self)@.position, width * height, old(self)@.decoder) {
                Ok((s, q)) => r matches Ok(t) && t@ == s && final(self)@ == PuzzleBuffer::moved(old(self)@, q),
                Err(e) => r matches Err(e2) && e2 == e,
            },
    {
        let n = match width.checked_mul(height) {
            Some(n) => n,
            None => {
                let total = self.data.len();
                assert(width * height > total);
                return Err(PuzzleBufferError::UnexpectedEnd);
            },
        };
        let bytes = self.read_bytes(n)?;
        self.decode_string(bytes)
    }

    /// Reads the solution grid.
    pub fn unpack_solution(&mut self, width: usize, height: usize) -> (r: Result<String, PuzzleBufferError>)
        requires
            old(self).wf(),
        ensures
            final(self).wf(),
            final(self)@.data == old(self)@.data,
            final(self)@.decoder == old(self)@.decoder,
            match text_at(old(self)@.data, old(self)@.position, width * height, old(self)@.decoder) {
                Ok((s, q)) => r matches Ok(t) && t@ == s && final(self)@ == PuzzleBuffer::moved(old(self)@, q),
                Err(e) => r matches Err(e2) && e2 == e,
            },
    {
        self.unpack_grid(width, height)
    }

    /// Reads the fill grid.
    pub fn unpack_fill(&mut self, width: usize, height: usize) -> (r: Result<String, PuzzleBufferError>)
        requires
            old(self).wf(),
        ensures
            final(self).wf(),
            final(self)@.data == old(self)@.data,
            final(self)@.decoder == old(self)@.decoder,
            match text_at(old(self)@.data, old(self)@.position, width * height, old(self)@.decoder) {
                Ok((s, q)) => r matches Ok(t) && t@ == s && final(self)@ == PuzzleBuffer::moved(old(self)@, q),
                Err(e) => r matches Err(e2) && e2 == e,
            },
    {
        self.unpack_grid(width, height)
    }

    /// Reads the header record.
    pub fn unpack_header(&mut self) -> (r: Result<Header, PuzzleBufferError>)
        requires
            old(self).wf(),
        ensures
            final(self).wf(),
            final(self)@.data == old(self)@.data,
            final(self)@.decoder == old(self)@.decoder,
            match header_at(old(self)@.data, old(self)@.position) {
                Ok((h, q)) => r matches Ok(hd) && hd@ == h && final(self)@.position == q,
                Err(e) => r matches Err(e2) && e2 == e,
            },
    {
        Header::from_cursor(self)
    }

    /// Reads the extension blocks up to where no block header fits.
    pub fn unpack_extensions(&mut self) -> (r: Result<Vec<Extension>, PuzzleBufferError>)
        requires
            old(self).wf(),
        ensures
            final(self).wf(),
            final(self)@.data == old(self)@.data,
            final(self)@.decoder == old(self)@.decoder,
            match extensions_from(old(self)@.data, old(self)@.position) {
                Ok((exts, q)) => r matches Ok(v) && extension_views(v@) == exts
                    && final(self)@.position == q,
                Err(e) => r matches Err(e2) && e2 == e,
            },
    {
        Extension::parse_extensions_from_cursor(self)
    }

    /// Reads a null-terminated string and moves past its null byte.
    pub fn unpack_string(&mut self) -> (r: Result<String, PuzzleBufferError>)
        requires
            old(self).wf(),
        ensures
            final(self).wf(),
            final(self)@.data == old(self)@.data,
            final(self)@.decoder == old(self)@.decoder,
            match string_at(old(self)@.data, old(self)@.position, old(self)@.decoder) {
                Ok((s, q)) => r matches Ok(t) && t@ == s && final(self)@ == PuzzleBuffer::moved(old(self)@, q),
                Err(e) => r matches Err(e2) && e2 == e,
            },
    {
        let n = self.data.len();
        let start = self.position;
        let mut z: usize = start;
        while z < n
            invariant
                self@ == old(self)@,
                n == self.data@.len(),
                start == self.position,
                start <= z <= n,
                find_null(self.data@, start as int) == find_null(self.data@, z as int),
            decreases n - z,
        {
            if self.data[z] == 0 {
                let bytes = &self.data[start..z];
                let s = self.decode_string(bytes)?;
                self.position = z + 1;
                return Ok(s);
            }
            z = z + 1;
        }
        Err(PuzzleBufferError::NoTerminator)
    }
}

} // verus!
