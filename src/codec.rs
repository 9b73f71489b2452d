//! The two text codecs of the format: ISO-8859-1 for files before version 2,
//! UTF-8 from version 2 on.
use encoding::all::{ISO_8859_1, UTF_8};
use encoding::{DecoderTrap, EncoderTrap, Encoding};
use vstd::prelude::*;
use vstd::utf8::{decode_utf8, decode_utf8_encode_utf8, encode_utf8, valid_utf8};

verus! {

/// The codec that turns grid and string bytes into text and back.
#[derive(Debug, Clone, Copy, PartialEq, Eq, Structural)]
pub enum TextCodec {
    /// ISO-8859-1: one byte per character, code point equal to the byte.
    Latin1,
    /// UTF-8.
    Utf8,
}

/// Each byte read as the character whose code point is that byte.
pub open spec fn latin1_chars(bytes: Seq<u8>) -> Seq<char> {
    bytes.map_values(|b: u8| b as char)
}

/// Whether every character has a code point below 256.
pub open spec fn is_latin1(s: Seq<char>) -> bool {
    forall|i: int| 0 <= i < s.len() ==> (#[trigger] s[i]) as u32 <= 0xff
}

/// Each character written as the byte equal to its code point.
pub open spec fn latin1_bytes(s: Seq<char>) -> Seq<u8> {
    s.map_values(|c: char| c as u8)
}

/// The text that `codec` decodes `bytes` to, or `None` where they are not valid for it.
pub open spec fn decoded(codec: TextCodec, bytes: Seq<u8>) -> Option<Seq<char>> {
    match codec {
        TextCodec::Latin1 => Some(latin1_chars(bytes)),
        TextCodec::Utf8 => if valid_utf8(bytes) {
            Some(decode_utf8(bytes))
        } else {
            None
        },
    }
}

/// The bytes that `codec` encodes `s` to, or `None` where `s` cannot be written in it.
pub open spec fn encoded(codec: TextCodec, s: Seq<char>) -> Option<Seq<u8>> {
    match codec {
        TextCodec::Latin1 => if is_latin1(s) {
            Some(latin1_bytes(s))
        } else {
            None
        },
        TextCodec::Utf8 => Some(encode_utf8(s)),
    }
}

/// Relies on encoding's `ISO_8859_1.decode` with the strict trap: every byte
/// maps to the character of the same code point, so it never fails.
#[verifier::external_body]
fn latin1_decode(bytes: &[u8]) -> (r: Option<String>)
    ensures
        r is Some,
        r.unwrap()@ == latin1_chars(bytes@),
{
    ISO_8859_1.decode(bytes, DecoderTrap::Strict).ok()
}

/// Relies on encoding's `UTF_8.decode` with the strict trap: it accepts exactly
/// the valid UTF-8 sequences and returns the characters they encode.
#[verifier::external_body]
fn utf8_decode(bytes: &[u8]) -> (r: Option<String>)
    ensures
        r is Some <==> valid_utf8(bytes@),
        r is Some ==> r.unwrap()@ == decode_utf8(bytes@),
{
    UTF_8.decode(bytes, DecoderTrap::Strict).ok()
}

/// Relies on encoding's `ISO_8859_1.encode` with the strict trap: a character
/// below 256 becomes the byte of its code point, any other one fails.
#[verifier::external_body]
fn latin1_encode(s: &str) -> (r: Option<Vec<u8>>)
    ensures
        r is Some <==> is_latin1(s@),
        r is Some ==> r.unwrap()@ == latin1_bytes(s@),
{
    ISO_8859_1.encode(s, EncoderTrap::Strict).ok()
}

/// Relies on encoding's `UTF_8.encode`: it writes the string's own UTF-8 bytes
/// and never fails.
#[verifier::external_body]
fn utf8_encode(s: &str) -> (r: Option<Vec<u8>>)
    ensures
        r is Some,
        r.unwrap()@ == encode_utf8(s@),
{
    UTF_8.encode(s, EncoderTrap::Strict).ok()
}

/// Reads bytes as ISO-8859-1 text, which never fails.
pub fn latin1_text(bytes: &[u8]) -> (r: String)
    ensures
        r@ == latin1_chars(bytes@),
{
    match latin1_decode(bytes) {
        Some(s) => s,
        None => String::new(),
    }
}

impl TextCodec {
    /// The codec a file of the given major version uses.
    pub open spec fn spec_for_major(major: u64) -> TextCodec {
        if major < 2 {
            TextCodec::Latin1
        } else {
            TextCodec::Utf8
        }
    }

    pub fn for_major(major: u64) -> (r: TextCodec)
        ensures
            r == TextCodec::spec_for_major(major),
    {
        if major < 2 {
            TextCodec::Latin1
        } else {
            TextCodec::Utf8
        }
    }

    /// Decodes `bytes` into text; `None` where they are not valid for this codec.
    pub fn decode(&self, bytes: &[u8]) -> (r: Option<String>)
        ensures
            match r {
                Some(s) => decoded(*self, bytes@) == Some(s@),
                None => decoded(*self, bytes@) is None,
            },
    {
        match self {
            TextCodec::Latin1 => latin1_decode(bytes),
            TextCodec::Utf8 => utf8_decode(bytes),
        }
    }

    /// Encodes `s` into bytes; `None` where it cannot be written in this codec.
    pub fn encode(&self, s: &str) -> (r: Option<Vec<u8>>)
        ensures
            match r {
                Some(b) => encoded(*self, s@) == Some(b@),
                None => encoded(*self, s@) is None,
            },
    {
        match self {
            TextCodec::Latin1 => latin1_encode(s),
            TextCodec::Utf8 => utf8_encode(s),
        }
    }

    /// The name of the codec, as the format's documentation writes it.
    pub open spec fn spec_name(self) -> Seq<char> {
        match self {
            TextCodec::Latin1 => "ISO-8859-1"@,
            TextCodec::Utf8 => "UTF-8"@,
        }
    }

    pub fn name(&self) -> (r: &'static str)
        ensures
            r@ == self.spec_name(),
    {
        match self {
            TextCodec::Latin1 => "ISO-8859-1",
            TextCodec::Utf8 => "UTF-8",
        }
    }
}

/// Text that a codec decoded encodes back to the same bytes.
pub proof fn lemma_decode_encode(codec: TextCodec, bytes: Seq<u8>)
    requires
        decoded(codec, bytes) is Some,
    ensures
        encoded(codec, decoded(codec, bytes).unwrap()) == Some(bytes),
{
    match codec {
        TextCodec::Latin1 => {
            let s = latin1_chars(bytes);
            assert forall|i: int| 0 <= i < s.len() implies (#[trigger] s[i]) as u32 <= 0xff by {
                let b = bytes[i];
                assert((b as char) as u32 == b as u32);
            }
            assert(latin1_bytes(s) =~= bytes);
        },
        TextCodec::Utf8 => {
            decode_utf8_encode_utf8(bytes);
        },
    }
}

/// Every codec decodes no bytes to no text.
pub proof fn lemma_decoded_empty(codec: TextCodec)
    ensures
        decoded(codec, Seq::<u8>::empty()) == Some(Seq::<char>::empty()),
{
    assert(latin1_chars(Seq::<u8>::empty()) =~= Seq::<char>::empty());
}

} // verus!
