//! The optional, individually checksummed blocks after the notes.
use crate::checksum::{checksum_of, data_checksum};
use crate::error::PuzzleBufferError;
use crate::puzzle_buffer::{u16_at, PuzzleBuffer};
use vstd::prelude::*;
use vstd::slice::slice_to_vec;

verus! {

/// The 4-byte code at `p`.
pub open spec fn code_at(d: Seq<u8>, p: int) -> [u8; 4] {
    [d[p], d[p + 1], d[p + 2], d[p + 3]]
}

/// The value of an `Extension`.
pub ghost struct ExtensionView {
    pub code: [u8; 4],
    pub bytes: Seq<u8>,
}

/// The extension blocks from `p` on, with the position after the last one.
/// A block is a code (4), a payload length (2), a checksum (2), the payload
/// and one trailing byte. Reading stops, without error, where fewer than 8
/// bytes are left for a block header.
pub open spec fn extensions_from(d: Seq<u8>, p: int) -> Result<
    (Seq<ExtensionView>, int),
    PuzzleBufferError,
>
    decreases d.len() - p,
{
    if p < 0 || p + 8 > d.len() {
        Ok((seq![], p))
    } else {
        let code = code_at(d, p);
        let declared = u16_at(d, p + 6);
        let end = p + 8 + u16_at(d, p + 4);
        if end + 1 > d.len() {
            Err(PuzzleBufferError::ExtensionTruncated(code))
        } else if checksum_of(d.subrange(p + 8, end), 0) != declared {
            Err(
                PuzzleBufferError::ExtensionChecksum {
                    code,
                    calculated: checksum_of(d.subrange(p + 8, end), 0),
                    declared,
                },
            )
        } else {
            match extensions_from(d, end + 1) {
                Ok((rest, q)) => Ok(
                    (seq![ExtensionView { code, bytes: d.subrange(p + 8, end) }] + rest, q),
                ),
                Err(e) => Err(e),
            }
        }
    }
}

/// The header of one extension block.
struct ExtensionHeader {
    pub code: [u8; 4],
    pub length: u16,
    pub checksum: u16,
}

impl ExtensionHeader {
    fn parse_from_cursor(reader: &mut PuzzleBuffer) -> (r: Result<ExtensionHeader, PuzzleBufferError>)
        requires
            old(reader).wf(),
        ensures
            final(reader).wf(),
            if old(reader)@.position + 8 <= old(reader)@.data.len() {
                r matches Ok(h) && h.code == code_at(old(reader)@.data, old(reader)@.position)
                    && h.length == u16_at(old(reader)@.data, old(reader)@.position + 4)
                    && h.checksum == u16_at(old(reader)@.data, old(reader)@.position + 6)
                    && final(reader)@ == PuzzleBuffer::moved(old(reader)@, old(reader)@.position + 8)
            } else {
                r matches Err(e) && e == PuzzleBufferError::UnexpectedEnd && final(reader)@ == old(reader)@
            },
    {
        if reader.remaining() < 8 {
            return Err(PuzzleBufferError::UnexpectedEnd);
        }
        let code = reader.read_bytes(4)?;
        let code = [code[0], code[1], code[2], code[3]];
        let length = reader.read_u16()?;
        let checksum = reader.read_u16()?;
        Ok(ExtensionHeader { code, length, checksum })
    }
}

#[derive(Debug)]
pub struct Extension {
    pub code: [u8; 4],
    pub bytes: Vec<u8>,
}

impl View for Extension {
    type V = ExtensionView;

    open spec fn view(&self) -> ExtensionView {
        ExtensionView { code: self.code, bytes: self.bytes@ }
    }
}

pub open spec fn extension_views(v: Seq<Extension>) -> Seq<ExtensionView> {
    v.map_values(|e: Extension| e@)
}

impl Extension {
    /// Reads extension blocks until fewer than 8 bytes are left, checking
    /// each payload against its declared checksum.
    pub fn parse_extensions_from_cursor(reader: &mut PuzzleBuffer) -> (r: Result<
        Vec<Extension>,
        PuzzleBufferError,
    >)
        requires
            old(reader).wf(),
        ensures
            final(reader).wf(),
            final(reader)@.data == old(reader)@.data,
            final(reader)@.decoder == old(reader)@.decoder,
            match extensions_from(old(reader)@.data, old(reader)@.position) {
                Ok((exts, q)) => r matches Ok(v) && extension_views(v@) == exts
                    && final(reader)@.position == q,
                Err(e) => r matches Err(e2) && e2 == e,
            },
    {
        let ghost d = reader@.data;
        let ghost pos0 = reader@.position;
        let mut extensions: Vec<Extension> = Vec::new();
        while reader.remaining() >= 8
            invariant
                reader.wf(),
                reader@.data == d,
                reader@.decoder == old(reader)@.decoder,
                d == old(reader)@.data,
                pos0 == old(reader)@.position,
                match extensions_from(d, reader@.position) {
                    Ok((rest, q)) => extensions_from(d, pos0) == Ok::<
                        (Seq<ExtensionView>, int),
                        PuzzleBufferError,
                    >((extension_views(extensions@) + rest, q)),
                    Err(e) => extensions_from(d, pos0) == Err::<
                        (Seq<ExtensionView>, int),
                        PuzzleBufferError,
                    >(e),
                },
            decreases d.len() - reader@.position,
        {
            let ghost p = reader@.position;
            let header = ExtensionHeader::parse_from_cursor(reader)?;
            let bytes = match reader.read_bytes(header.length as usize) {
                Ok(b) => b,
                Err(_) => {
                    return Err(PuzzleBufferError::ExtensionTruncated(header.code));
                },
            };
            if reader.read_u8().is_err() {
                return Err(PuzzleBufferError::ExtensionTruncated(header.code));
            }
            let calculated = data_checksum(bytes, 0);
            if calculated != header.checksum {
                return Err(
                    PuzzleBufferError::ExtensionChecksum {
                        code: header.code,
                        calculated,
                        declared: header.checksum,
                    },
                );
            }
            let ghost before = extension_views(extensions@);
            let ext = Extension { code: header.code, bytes: slice_to_vec(bytes) };
            extensions.push(ext);
            assert(extension_views(extensions@) =~= before.push(ext@));
            proof {
                match extensions_from(d, reader@.position) {
                    Ok((rest, q)) => {
                        assert(before + (seq![ext@] + rest) =~= before.push(ext@) + rest);
                    },
                    Err(e) => {},
                }
            }
        }
        Ok(extensions)
    }
}

/// The position after the extension block at `p`: header, payload and trailing byte.
pub open spec fn block_end(d: Seq<u8>, p: int) -> int {
    p + 8 + u16_at(d, p + 4) + 1
}

/// The payload of the extension block at `p`.
pub open spec fn block_payload(d: Seq<u8>, p: int) -> Seq<u8> {
    d.subrange(p + 8, block_end(d, p) - 1)
}

/// A whole extension block stands at `p`.
pub open spec fn block_fits(d: Seq<u8>, p: int) -> bool {
    0 <= p && p + 8 <= d.len() && block_end(d, p) <= d.len()
}

/// `n` whole blocks with matching checksums lead from `p` to `q`.
pub open spec fn good_blocks(d: Seq<u8>, p: int, q: int, n: nat) -> bool
    decreases n,
{
    if n == 0 {
        p == q
    } else {
        block_fits(d, p) && checksum_of(block_payload(d, p), 0) == u16_at(d, p + 6) && good_blocks(
            d,
            block_end(d, p),
            q,
            (n - 1) as nat,
        )
    }
}

/// A whole block whose payload does not have its declared checksum, after
/// blocks that do, fails the extension reads with an error that names its
/// code, the computed checksum and the declared one.
pub proof fn lemma_bad_extension_named(d: Seq<u8>, p: int, q: int, n: nat)
    requires
        good_blocks(d, p, q, n),
        block_fits(d, q),
        checksum_of(block_payload(d, q), 0) != u16_at(d, q + 6),
    ensures
        extensions_from(d, p) == Err::<(Seq<ExtensionView>, int), PuzzleBufferError>(
            PuzzleBufferError::ExtensionChecksum {
                code: code_at(d, q),
                calculated: checksum_of(block_payload(d, q), 0),
                declared: u16_at(d, q + 6),
            },
        ),
    decreases n,
{
    if n > 0 {
        lemma_bad_extension_named(d, block_end(d, p), q, (n - 1) as nat);
    }
}

} // verus!
