//! What a file that decodes says about nearby files: changing a byte of its
//! grids makes the decode fail, and a few bytes added at its end become its
//! postscript.
use crate::checksum::{checksum_of, lemma_checksum_one_byte, lemma_checksum_seed_injective};
use crate::codec::{decoded, encoded, lemma_decode_encode, TextCodec};
use crate::error::{PuzzleBufferError, PuzzleError};
use crate::extension::{code_at, extensions_from};
use crate::header::{header_at, version_of, HeaderView};
use crate::puzzle::{
    clue_texts_at, clues_sum, decode_body, decode_puzzle, global_checksum_of, global_checksum_with,
    marker, nonempty_sum, notes_counted, read_fields, text_checksum_with, text_sum, validated,
    PuzzleView,
};
use crate::puzzle_buffer::{find_marker, find_null, lemma_find_marker_bounds, string_at, text_at, u16_at};
use vstd::prelude::*;

verus! {

/// Two files of the same length that hold the same bytes from `p` on.
pub open spec fn agree_from(d: Seq<u8>, d2: Seq<u8>, p: int) -> bool {
    d.len() == d2.len() && forall|i: int| p <= i < d.len() ==> d[i] == d2[i]
}

proof fn lemma_find_null_agree(d: Seq<u8>, d2: Seq<u8>, p: int, j: int)
    requires
        agree_from(d, d2, p),
        p <= j,
    ensures
        find_null(d2, j) == find_null(d, j),
        find_null(d, j) matches Some(z) ==> j <= z < d.len(),
    decreases d.len() - j,
{
    if !(j < 0 || j >= d.len()) && d[j] != 0 {
        lemma_find_null_agree(d, d2, p, j + 1);
    }
}

proof fn lemma_string_at_agree(d: Seq<u8>, d2: Seq<u8>, p: int, j: int, dec: Option<TextCodec>)
    requires
        agree_from(d, d2, p),
        p <= j,
    ensures
        string_at(d2, j, dec) == string_at(d, j, dec),
        string_at(d, j, dec) matches Ok((_, q)) ==> j < q <= d.len(),
{
    lemma_find_null_agree(d, d2, p, j);
    if let Some(z) = find_null(d, j) {
        assert(d2.subrange(j, z) =~= d.subrange(j, z));
    }
}

proof fn lemma_clue_texts_agree(
    d: Seq<u8>,
    d2: Seq<u8>,
    p: int,
    j: int,
    dec: Option<TextCodec>,
    n: nat,
)
    requires
        agree_from(d, d2, p),
        p <= j <= d.len(),
    ensures
        clue_texts_at(d2, j, dec, n) == clue_texts_at(d, j, dec, n),
        clue_texts_at(d, j, dec, n) matches Ok((_, q)) ==> j <= q <= d.len(),
    decreases n,
{
    if n > 0 {
        lemma_clue_texts_agree(d, d2, p, j, dec, (n - 1) as nat);
        if let Ok((_, q)) = clue_texts_at(d, j, dec, (n - 1) as nat) {
            lemma_string_at_agree(d, d2, p, q, dec);
        }
    }
}

proof fn lemma_extensions_agree(d: Seq<u8>, d2: Seq<u8>, p: int, j: int)
    requires
        agree_from(d, d2, p),
        p <= j,
    ensures
        extensions_from(d2, j) == extensions_from(d, j),
        0 <= j <= d.len() ==> (extensions_from(d, j) matches Ok((_, q)) ==> j <= q <= d.len()),
    decreases d.len() - j,
{
    if !(j < 0 || j + 8 > d.len()) {
        let end = j + 8 + u16_at(d, j + 4);
        assert(code_at(d2, j) == code_at(d, j));
        assert(u16_at(d2, j + 4) == u16_at(d, j + 4));
        assert(u16_at(d2, j + 6) == u16_at(d, j + 6));
        if end + 1 <= d.len() {
            assert(d2.subrange(j + 8, end) =~= d.subrange(j + 8, end));
            lemma_extensions_agree(d, d2, p, end + 1);
        }
    }
}

proof fn lemma_text_sum_seed(codec: TextCodec, s: Seq<char>, terminated: bool, a: u16, b: u16)
    requires
        a != b,
        text_sum(codec, s, terminated, a) is Some,
    ensures
        text_sum(codec, s, terminated, b) is Some,
        text_sum(codec, s, terminated, a) != text_sum(codec, s, terminated, b),
{
    let bytes = encoded(codec, s).unwrap();
    lemma_checksum_seed_injective(if terminated { bytes.push(0) } else { bytes }, a, b);
}

proof fn lemma_clues_sum_seed(codec: TextCodec, clues: Seq<Seq<char>>, a: u16, b: u16)
    requires
        a != b,
        clues_sum(codec, clues, a) is Some,
    ensures
        clues_sum(codec, clues, b) is Some,
        clues_sum(codec, clues, a) != clues_sum(codec, clues, b),
    decreases clues.len(),
{
    if clues.len() > 0 {
        lemma_clues_sum_seed(codec, clues.drop_last(), a, b);
        lemma_text_sum_seed(
            codec,
            clues.last(),
            false,
            clues_sum(codec, clues.drop_last(), a).unwrap(),
            clues_sum(codec, clues.drop_last(), b).unwrap(),
        );
    }
}

proof fn lemma_nonempty_sum_seed(codec: TextCodec, s: Seq<char>, a: u16, b: u16)
    requires
        a != b,
        nonempty_sum(codec, s, a) is Some,
    ensures
        nonempty_sum(codec, s, b) is Some,
        nonempty_sum(codec, s, a) != nonempty_sum(codec, s, b),
{
    if s.len() > 0 {
        lemma_text_sum_seed(codec, s, true, a, b);
    }
}

/// Distinct seeds give distinct text checksums.
proof fn lemma_text_checksum_seed(
    codec: TextCodec,
    p: PuzzleView,
    major: u64,
    minor: u64,
    a: u16,
    b: u16,
)
    requires
        a != b,
        text_checksum_with(codec, p, major, minor, a) is Some,
    ensures
        text_checksum_with(codec, p, major, minor, b) is Some,
        text_checksum_with(codec, p, major, minor, a) != text_checksum_with(codec, p, major, minor, b),
{
    lemma_nonempty_sum_seed(codec, p.title, a, b);
    let (a1, b1) = (nonempty_sum(codec, p.title, a).unwrap(), nonempty_sum(codec, p.title, b).unwrap());
    lemma_nonempty_sum_seed(codec, p.author, a1, b1);
    let (a2, b2) = (nonempty_sum(codec, p.author, a1).unwrap(), nonempty_sum(codec, p.author, b1).unwrap());
    lemma_nonempty_sum_seed(codec, p.copyright, a2, b2);
    let (a3, b3) = (
        nonempty_sum(codec, p.copyright, a2).unwrap(),
        nonempty_sum(codec, p.copyright, b2).unwrap(),
    );
    lemma_clues_sum_seed(codec, p.all_clues, a3, b3);
    let (a4, b4) = (clues_sum(codec, p.all_clues, a3).unwrap(), clues_sum(codec, p.all_clues, b3).unwrap());
    if notes_counted(major, minor) {
        lemma_text_sum_seed(codec, p.notes, true, a4, b4);
    }
}

proof fn lemma_find_marker_prefix(d: Seq<u8>, d2: Seq<u8>, m: int, j: int)
    requires
        0 <= j <= m,
        find_marker(d, marker(), j) == Some(m),
        m + marker().len() <= d.len() == d2.len(),
        forall|i: int| 0 <= i < m + marker().len() ==> d[i] == d2[i],
    ensures
        find_marker(d2, marker(), j) == Some(m),
    decreases m - j,
{
    assert(d2.subrange(j, j + marker().len()) =~= d.subrange(j, j + marker().len()));
    lemma_find_marker_bounds(d, marker(), j);
    if j < m {
        if d.subrange(j, j + marker().len()) == marker() {
            assert(find_marker(d, marker(), j) == Some(j));
        }
        assert(find_marker(d, marker(), j + 1) == Some(m));
        lemma_find_marker_prefix(d, d2, m, j + 1);
    }
}

/// Where the solution and fill grids of the file `d` lie, as a start and an
/// end offset, if its marker and header can be read.
pub open spec fn grids_span(d: Seq<u8>) -> Option<(int, int)> {
    match find_marker(d, marker(), 0) {
        None => None,
        Some(m) => if m < 2 {
            None
        } else {
            match header_at(d, m - 2) {
                Ok((h, pos1)) => Some((pos1, pos1 + 2 * (h.width * h.height))),
                Err(_) => None,
            }
        },
    }
}

/// Fields that were read lie within the data, the grids first.
proof fn lemma_read_fields_grids(d: Seq<u8>, pos0: int, h: HeaderView, pos1: int, major: u64, minor: u64)
    requires
        read_fields(d, pos0, h, pos1, major, minor) is Ok,
    ensures
        pos1 + 2 * (h.width * h.height) <= d.len(),
        read_fields(d, pos0, h, pos1, major, minor)->Ok_0.header == h,
        text_at(d, pos1, h.width * h.height, Some(TextCodec::spec_for_major(major))) == Ok::<
            (Seq<char>, int),
            PuzzleBufferError,
        >((read_fields(d, pos0, h, pos1, major, minor)->Ok_0.solution, pos1 + h.width * h.height)),
        text_at(d, pos1 + h.width * h.height, h.width * h.height, Some(TextCodec::spec_for_major(major)))
            == Ok::<(Seq<char>, int), PuzzleBufferError>(
            (read_fields(d, pos0, h, pos1, major, minor)->Ok_0.fill, pos1 + 2 * (h.width * h.height)),
        ),
{
    reveal(read_fields);
}

/// A grid that does not decode fails the reads with a decode error.
proof fn lemma_grid_undecodable(d: Seq<u8>, pos0: int, h: HeaderView, pos1: int, major: u64, minor: u64)
    requires
        pos1 + 2 * (h.width * h.height) <= d.len(),
        decoded(TextCodec::spec_for_major(major), d.subrange(pos1, pos1 + h.width * h.height)) is None
            || decoded(
            TextCodec::spec_for_major(major),
            d.subrange(pos1 + h.width * h.height, pos1 + 2 * (h.width * h.height)),
        ) is None,
    ensures
        read_fields(d, pos0, h, pos1, major, minor) matches Err(e) && e is Decode,
{
    reveal(read_fields);
}

/// A puzzle whose only change from an accepted one is a global checksum that
/// no longer matches is refused for that checksum.
proof fn lemma_validated_global(v: PuzzleView, v2: PuzzleView)
    requires
        validated(v) is Ok,
        v2.header == v.header,
        global_checksum_of(v2) is Ok,
        global_checksum_of(v2) != global_checksum_of(v),
    ensures
        validated(v2) matches Err(e) && e is GlobalChecksum,
{
    reveal(validated);
}

/// An accepted puzzle has the global checksum its header declares.
proof fn lemma_validated_has_global(v: PuzzleView)
    requires
        validated(v) is Ok,
    ensures
        global_checksum_of(v) == Ok::<u16, PuzzleError>(v.header.global_checksum),
{
    reveal(validated);
}

/// Reads after the grids see the same bytes when only the grids changed.
proof fn lemma_fields_after_grids(
    d: Seq<u8>,
    d2: Seq<u8>,
    pos0: int,
    h: HeaderView,
    pos1: int,
    major: u64,
    minor: u64,
)
    requires
        0 <= pos0 <= pos1,
        agree_from(d, d2, pos1 + 2 * (h.width * h.height)),
        forall|i: int| 0 <= i < pos0 ==> d[i] == d2[i],
        read_fields(d, pos0, h, pos1, major, minor) is Ok,
        text_at(d2, pos1, h.width * h.height, Some(TextCodec::spec_for_major(major))) is Ok,
        text_at(d2, pos1 + h.width * h.height, h.width * h.height, Some(TextCodec::spec_for_major(major))) is Ok,
    ensures
        read_fields(d2, pos0, h, pos1, major, minor) == Ok::<PuzzleView, PuzzleError>(
            PuzzleView {
                solution: text_at(d2, pos1, h.width * h.height, Some(TextCodec::spec_for_major(major)))->Ok_0.0,
                fill: text_at(
                    d2,
                    pos1 + h.width * h.height,
                    h.width * h.height,
                    Some(TextCodec::spec_for_major(major)),
                )->Ok_0.0,
                ..read_fields(d, pos0, h, pos1, major, minor)->Ok_0
            },
        ),
{
    reveal(read_fields);
    let n = h.width * h.height;
    let dec = Some(TextCodec::spec_for_major(major));
    let pos3 = pos1 + 2 * n;
    assert(text_at(d, pos1, n, dec) is Ok);
    assert(text_at(d, pos1 + n, n, dec)->Ok_0.1 == pos3);
    assert(text_at(d2, pos1 + n, n, dec)->Ok_0.1 == pos3);
    lemma_string_at_agree(d, d2, pos3, pos3, dec);
    let (title, pos4) = string_at(d, pos3, dec)->Ok_0;
    lemma_string_at_agree(d, d2, pos3, pos4, dec);
    let (author, pos5) = string_at(d, pos4, dec)->Ok_0;
    lemma_string_at_agree(d, d2, pos3, pos5, dec);
    let (copyright, pos6) = string_at(d, pos5, dec)->Ok_0;
    lemma_clue_texts_agree(d, d2, pos3, pos6, dec, h.clue_count as nat);
    let (all_clues, pos7) = clue_texts_at(d, pos6, dec, h.clue_count as nat)->Ok_0;
    lemma_string_at_agree(d, d2, pos3, pos7, dec);
    let (notes, pos8) = string_at(d, pos7, dec)->Ok_0;
    lemma_extensions_agree(d, d2, pos3, pos8);
    let (extensions, pos9) = extensions_from(d, pos8)->Ok_0;
    assert(d2.subrange(0, pos0) =~= d.subrange(0, pos0));
    assert(d2.subrange(pos9, d2.len() as int) =~= d.subrange(pos9, d.len() as int));
}

/// The text checksum reads only the strings and the clue texts.
proof fn lemma_text_checksum_same_text(
    codec: TextCodec,
    v: PuzzleView,
    v2: PuzzleView,
    major: u64,
    minor: u64,
    seed: u16,
)
    requires
        v2.title == v.title,
        v2.author == v.author,
        v2.copyright == v.copyright,
        v2.all_clues == v.all_clues,
        v2.notes == v.notes,
    ensures
        text_checksum_with(codec, v2, major, minor, seed) == text_checksum_with(codec, v, major, minor, seed),
{
}

/// The global checksum changes when the chained grid checksums do.
proof fn lemma_global_checksum_changes(
    codec: TextCodec,
    v: PuzzleView,
    v2: PuzzleView,
    major: u64,
    minor: u64,
    sb: Seq<u8>,
    fb: Seq<u8>,
    sb2: Seq<u8>,
    fb2: Seq<u8>,
)
    requires
        decoded(codec, sb) == Some(v.solution),
        decoded(codec, fb) == Some(v.fill),
        decoded(codec, sb2) == Some(v2.solution),
        decoded(codec, fb2) == Some(v2.fill),
        v2 == (PuzzleView { solution: v2.solution, fill: v2.fill, ..v }),
        checksum_of(fb, checksum_of(sb, v.header.header_checksum)) != checksum_of(
            fb2,
            checksum_of(sb2, v.header.header_checksum),
        ),
        global_checksum_with(codec, v, major, minor) is Some,
    ensures
        global_checksum_with(codec, v2, major, minor) is Some,
        global_checksum_with(codec, v2, major, minor) != global_checksum_with(codec, v, major, minor),
{
    lemma_decode_encode(codec, sb);
    lemma_decode_encode(codec, fb);
    lemma_decode_encode(codec, sb2);
    lemma_decode_encode(codec, fb2);
    let hc = v.header.header_checksum;
    let seed = checksum_of(fb, checksum_of(sb, hc));
    let seed2 = checksum_of(fb2, checksum_of(sb2, hc));
    assert(global_checksum_with(codec, v, major, minor) == text_checksum_with(codec, v, major, minor, seed));
    lemma_text_checksum_same_text(codec, v, v2, major, minor, seed2);
    assert(global_checksum_with(codec, v2, major, minor) == text_checksum_with(codec, v, major, minor, seed2));
    lemma_text_checksum_seed(codec, v, major, minor, seed, seed2);
}

/// Changing any one byte of the solution or fill grid of a file that decodes
/// makes the decode fail: the global checksum no longer matches, or (in
/// UTF-8) the grid no longer decodes.
pub proof fn lemma_grid_corruption_rejected(d: Seq<u8>, k: int, byte: u8)
    requires
        decode_puzzle(d) is Ok,
        grids_span(d) matches Some((start, end)) && start <= k < end,
        byte != d[k],
    ensures
        decode_puzzle(d.update(k, byte)) matches Err(e) && (e is GlobalChecksum || e is Decode),
{
    let d2 = d.update(k, byte);
    let m = find_marker(d, marker(), 0).unwrap();
    lemma_find_marker_bounds(d, marker(), 0);
    let pos0 = m - 2;
    let (h, pos1) = header_at(d, pos0).unwrap();
    let n = h.width * h.height;
    let (major, minor) = version_of(h.file_version).unwrap();
    assert(decode_puzzle(d) == decode_body(d, pos0, h, pos1, major, minor));
    lemma_read_fields_grids(d, pos0, h, pos1, major, minor);
    assert(d2.len() == d.len());
    lemma_find_marker_prefix(d, d2, m, 0);
    assert(d2.subrange(pos0 + 24, pos0 + 27) =~= d.subrange(pos0 + 24, pos0 + 27));
    assert(header_at(d2, pos0) == header_at(d, pos0));
    let codec = TextCodec::spec_for_major(major);
    let dec = Some(codec);
    assert(decode_puzzle(d2) == decode_body(d2, pos0, h, pos1, major, minor));
    let v = read_fields(d, pos0, h, pos1, major, minor)->Ok_0;
    let sb = d.subrange(pos1, pos1 + n);
    let fb = d.subrange(pos1 + n, pos1 + 2 * n);
    let sb2 = d2.subrange(pos1, pos1 + n);
    let fb2 = d2.subrange(pos1 + n, pos1 + 2 * n);
    assert(text_at(d, pos1, n, dec) is Ok);
    if k < pos1 + n {
        assert(sb2 =~= sb.update(k - pos1, byte));
        assert(fb2 =~= fb);
    } else {
        assert(sb2 =~= sb);
        assert(fb2 =~= fb.update(k - pos1 - n, byte));
    }
    if decoded(codec, sb2) is None || decoded(codec, fb2) is None {
        lemma_grid_undecodable(d2, pos0, h, pos1, major, minor);
        return;
    }
    lemma_fields_after_grids(d, d2, pos0, h, pos1, major, minor);
    let v2 = read_fields(d2, pos0, h, pos1, major, minor)->Ok_0;
    let hc = h.header_checksum;
    if k < pos1 + n {
        lemma_checksum_one_byte(sb, k - pos1, byte, hc);
        lemma_checksum_seed_injective(fb, checksum_of(sb, hc), checksum_of(sb2, hc));
    } else {
        lemma_checksum_one_byte(fb, k - pos1 - n, byte, checksum_of(sb, hc));
    }
    lemma_validated_has_global(v);
    assert(global_checksum_with(codec, v, major, minor) == Some(h.global_checksum));
    lemma_global_checksum_changes(codec, v, v2, major, minor, sb, fb, sb2, fb2);
    lemma_validated_global(v, v2);
}

/// `d2` starts with all of `d`.
pub open spec fn extends(d: Seq<u8>, d2: Seq<u8>) -> bool {
    d.len() <= d2.len() && forall|i: int| 0 <= i < d.len() ==> d[i] == d2[i]
}

proof fn lemma_find_marker_extends(d: Seq<u8>, d2: Seq<u8>, j: int)
    requires
        extends(d, d2),
        0 <= j,
        find_marker(d, marker(), j) is Some,
    ensures
        find_marker(d2, marker(), j) == find_marker(d, marker(), j),
    decreases d.len() + 1 - j,
{
    lemma_find_marker_bounds(d, marker(), j);
    if j + marker().len() <= d.len() {
        assert(d2.subrange(j, j + marker().len()) =~= d.subrange(j, j + marker().len()));
        if d.subrange(j, j + marker().len()) != marker() {
            lemma_find_marker_extends(d, d2, j + 1);
        }
    }
}

proof fn lemma_find_null_extends(d: Seq<u8>, d2: Seq<u8>, j: int)
    requires
        extends(d, d2),
        find_null(d, j) is Some,
    ensures
        find_null(d2, j) == find_null(d, j),
        j <= find_null(d, j).unwrap() < d.len(),
    decreases d.len() - j,
{
    if d[j] != 0 {
        lemma_find_null_extends(d, d2, j + 1);
    }
}

proof fn lemma_string_at_extends(d: Seq<u8>, d2: Seq<u8>, j: int, dec: Option<TextCodec>)
    requires
        extends(d, d2),
        string_at(d, j, dec) is Ok,
    ensures
        string_at(d2, j, dec) == string_at(d, j, dec),
        j < string_at(d, j, dec)->Ok_0.1 <= d.len(),
{
    lemma_find_null_extends(d, d2, j);
    let z = find_null(d, j).unwrap();
    assert(d2.subrange(j, z) =~= d.subrange(j, z));
}

proof fn lemma_clue_texts_extends(d: Seq<u8>, d2: Seq<u8>, j: int, dec: Option<TextCodec>, n: nat)
    requires
        extends(d, d2),
        clue_texts_at(d, j, dec, n) is Ok,
    ensures
        clue_texts_at(d2, j, dec, n) == clue_texts_at(d, j, dec, n),
    decreases n,
{
    if n > 0 {
        lemma_clue_texts_extends(d, d2, j, dec, (n - 1) as nat);
        lemma_string_at_extends(d, d2, clue_texts_at(d, j, dec, (n - 1) as nat)->Ok_0.1, dec);
    }
}

proof fn lemma_extensions_extends(d: Seq<u8>, d2: Seq<u8>, j: int)
    requires
        extends(d, d2),
        d2.len() < d.len() + 8,
        0 <= j,
        extensions_from(d, j) matches Ok((_, q)) && q == d.len(),
    ensures
        extensions_from(d2, j) == extensions_from(d, j),
    decreases d.len() - j,
{
    if j + 8 <= d.len() {
        let end = j + 8 + u16_at(d, j + 4);
        assert(code_at(d2, j) == code_at(d, j));
        assert(u16_at(d2, j + 4) == u16_at(d, j + 4));
        assert(u16_at(d2, j + 6) == u16_at(d, j + 6));
        assert(d2.subrange(j + 8, end) =~= d.subrange(j + 8, end));
        lemma_extensions_extends(d, d2, end + 1);
    }
}

proof fn lemma_read_fields_extends(
    d: Seq<u8>,
    d2: Seq<u8>,
    pos0: int,
    h: HeaderView,
    pos1: int,
    major: u64,
    minor: u64,
)
    requires
        extends(d, d2),
        d2.len() < d.len() + 8,
        0 <= pos0 <= pos1,
        read_fields(d, pos0, h, pos1, major, minor) matches Ok(v) && v.postscript.len() == 0,
    ensures
        read_fields(d2, pos0, h, pos1, major, minor) == Ok::<PuzzleView, PuzzleError>(
            PuzzleView {
                postscript: d2.subrange(d.len() as int, d2.len() as int),
                ..read_fields(d, pos0, h, pos1, major, minor)->Ok_0
            },
        ),
{
    reveal(read_fields);
    let n = h.width * h.height;
    let dec = Some(TextCodec::spec_for_major(major));
    assert(d2.subrange(pos1, pos1 + n) =~= d.subrange(pos1, pos1 + n));
    assert(d2.subrange(pos1 + n, pos1 + 2 * n) =~= d.subrange(pos1 + n, pos1 + 2 * n));
    let pos3 = pos1 + 2 * n;
    lemma_string_at_extends(d, d2, pos3, dec);
    let pos4 = string_at(d, pos3, dec)->Ok_0.1;
    lemma_string_at_extends(d, d2, pos4, dec);
    let pos5 = string_at(d, pos4, dec)->Ok_0.1;
    lemma_string_at_extends(d, d2, pos5, dec);
    let pos6 = string_at(d, pos5, dec)->Ok_0.1;
    lemma_clue_texts_extends(d, d2, pos6, dec, h.clue_count as nat);
    let pos7 = clue_texts_at(d, pos6, dec, h.clue_count as nat)->Ok_0.1;
    lemma_string_at_extends(d, d2, pos7, dec);
    let pos8 = string_at(d, pos7, dec)->Ok_0.1;
    let pos9 = extensions_from(d, pos8)->Ok_0.1;
    lemma_extensions_agree(d, d, 0, pos8);
    assert(pos9 == d.len());
    lemma_extensions_extends(d, d2, pos8);
    assert(d2.subrange(0, pos0) =~= d.subrange(0, pos0));
}

proof fn lemma_validated_postscript(v: PuzzleView, postscript: Seq<u8>)
    requires
        validated(v) is Ok,
    ensures
        validated(PuzzleView { postscript, ..v }) == Ok::<PuzzleView, PuzzleError>(
            PuzzleView { postscript, ..validated(v)->Ok_0 },
        ),
{
    reveal(validated);
}

/// A file that decodes with nothing after its last field still decodes when
/// fewer than 8 bytes are added at its end, to the same puzzle with those
/// bytes as its postscript.
pub proof fn lemma_trailing_bytes_kept(d: Seq<u8>, tail: Seq<u8>)
    requires
        decode_puzzle(d) matches Ok(v) && v.postscript.len() == 0,
        tail.len() < 8,
    ensures
        decode_puzzle(d + tail) == Ok::<PuzzleView, PuzzleError>(
            PuzzleView { postscript: tail, ..decode_puzzle(d)->Ok_0 },
        ),
{
    let d2 = d + tail;
    assert(extends(d, d2));
    let m = find_marker(d, marker(), 0).unwrap();
    lemma_find_marker_extends(d, d2, 0);
    let pos0 = m - 2;
    let (h, pos1) = header_at(d, pos0)->Ok_0;
    assert(d2.subrange(pos0 + 24, pos0 + 27) =~= d.subrange(pos0 + 24, pos0 + 27));
    assert(header_at(d2, pos0) == header_at(d, pos0));
    let (major, minor) = version_of(h.file_version).unwrap();
    let v = read_fields(d, pos0, h, pos1, major, minor)->Ok_0;
    lemma_validated_postscript(v, tail);
    assert(validated(v)->Ok_0.postscript == v.postscript) by {
        reveal(validated);
    }
    lemma_read_fields_extends(d, d2, pos0, h, pos1, major, minor);
    assert(d2.subrange(d.len() as int, d2.len() as int) =~= tail);
}

} // verus!
