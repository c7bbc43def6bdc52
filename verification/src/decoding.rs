//! Decoding source bytes into text: with an explicit encoding when one is
//! named, else by the byte order mark the bytes start with, else as UTF-8.
use vstd::prelude::*;

use crate::text::owned;
use vstd::utf8::{decode_utf8, valid_utf8};

verus! {

/// `encoding_rs::Encoding`, an encoding of the WHATWG Encoding Standard.
#[verifier::external_type_specification]
#[verifier::external_body]
pub struct ExEncoding(encoding_rs::Encoding);

/// Whether `label`, lowercased in ASCII and without surrounding whitespace,
/// is one of the labels the Encoding Standard defines.
pub uninterp spec fn encoding_label_known(label: Seq<char>) -> bool;

/// An encoding found by its label, with the label it was found by.
#[derive(Clone)]
pub struct LabeledEncoding {
    encoding: &'static encoding_rs::Encoding,
    label: String,
}

impl LabeledEncoding {
    /// The label the encoding was found by.
    pub closed spec fn label(&self) -> Seq<char> {
        self.label@
    }
}

/// The encoding a text is decoded with.
#[derive(Clone)]
pub enum Decoder {
    Utf8,
    Utf16Le,
    Utf16Be,
    /// An encoding found by its label.
    Labeled(LabeledEncoding),
}

/// A label of the encoding `d` stands for.
pub open spec fn decoder_label(d: Decoder) -> Seq<char> {
    match d {
        Decoder::Utf8 => "utf-8"@,
        Decoder::Utf16Le => "utf-16le"@,
        Decoder::Utf16Be => "utf-16be"@,
        Decoder::Labeled(l) => l.label(),
    }
}

/// The text that decoding `bytes` with the encoding `label` names gives
/// (a leading byte order mark overriding the encoding and left out), and
/// whether malformed sequences were replaced.
pub uninterp spec fn decoded(label: Seq<char>, bytes: Seq<u8>) -> (Seq<char>, bool);

/// `encoding_rs::Encoding::for_label`: the encoding `label` names, when it
/// names one, kept with the label. Which labels name one is the table of the
/// Encoding Standard, given a name here and not written out.
#[verifier::external_body]
fn encoding_for_label(label: &str) -> (r: Option<LabeledEncoding>)
    ensures
        r is Some == encoding_label_known(label@),
        r matches Some(e) ==> e.label() == label@,
{
    match encoding_rs::Encoding::for_label(label.as_bytes()) {
        Some(encoding) => Some(LabeledEncoding { encoding, label: label.to_string() }),
        None => None,
    }
}

/// Whether `bytes` start with one of the byte order marks that decoding
/// sniffs: UTF-8 (`EF BB BF`), UTF-16 LE (`FF FE`) or UTF-16 BE (`FE FF`).
pub open spec fn starts_with_bom(bytes: Seq<u8>) -> bool {
    ||| (bytes.len() >= 3 && bytes[0] == 0xEFu8 && bytes[1] == 0xBBu8 && bytes[2] == 0xBFu8)
    ||| (bytes.len() >= 2 && bytes[0] == 0xFFu8 && bytes[1] == 0xFEu8)
    ||| (bytes.len() >= 2 && bytes[0] == 0xFEu8 && bytes[1] == 0xFFu8)
}

/// `encoding_rs::Encoding::decode` with the encoding `decoder` stands for:
/// the text (a leading byte order mark overriding the encoding and left
/// out) and whether malformed sequences were replaced, named by the
/// encoding's label (see [`decoded`]). For UTF-8 on bytes that start with no
/// byte order mark, it is also stated that sequences are malformed exactly
/// when the bytes are not valid UTF-8, and that valid bytes give their UTF-8
/// decoding. The bound on the length keeps the output buffer's size
/// calculation, which panics on overflow, in range.
#[verifier::external_body]
fn decode_with(decoder: &Decoder, bytes: &[u8]) -> (r: (String, bool))
    requires
        bytes@.len() <= isize::MAX / 4,
    ensures
        (r.0@, r.1) == decoded(decoder_label(*decoder), bytes@),
        *decoder is Utf8 && !starts_with_bom(bytes@) ==> {
            &&& r.1 == !valid_utf8(bytes@)
            &&& !r.1 ==> r.0@ == decode_utf8(bytes@)
        },
{
    let encoding = match decoder {
        Decoder::Utf8 => encoding_rs::UTF_8,
        Decoder::Utf16Le => encoding_rs::UTF_16LE,
        Decoder::Utf16Be => encoding_rs::UTF_16BE,
        Decoder::Labeled(e) => e.encoding,
    };
    let (text, _, had_errors) = encoding.decode(bytes);
    (text.into_owned(), had_errors)
}

/// Why source bytes could not be decoded.
#[derive(Debug, PartialEq, Eq)]
pub enum DecodeError {
    /// The named encoding is not one the Encoding Standard knows.
    UnknownEncoding(String),
    /// No encoding was named, no byte order mark found, and the bytes of
    /// this source are not UTF-8.
    UnrecognizedEncodingInFile(String),
}

/// The byte order mark `bytes` start with: the encoding it announces and
/// its length.
pub open spec fn bom_of(bytes: Seq<u8>) -> Option<(Decoder, int)> {
    if bytes.len() >= 3 && bytes[0] == 0xEFu8 && bytes[1] == 0xBBu8 && bytes[2] == 0xBFu8 {
        Some((Decoder::Utf8, 3))
    } else if bytes.len() >= 2 && bytes[0] == 0xFFu8 && bytes[1] == 0xFEu8 {
        Some((Decoder::Utf16Le, 2))
    } else if bytes.len() >= 2 && bytes[0] == 0xFEu8 && bytes[1] == 0xFFu8 {
        Some((Decoder::Utf16Be, 2))
    } else {
        None
    }
}

/// Decode source bytes: with the named encoding when one is named (an
/// unknown name is an error); else by a leading byte order mark (UTF-8,
/// UTF-16 LE or UTF-16 BE), which is left out; else as UTF-8, which the bytes
/// must then be (else the error names `source`).
///
/// A known encoding, and a byte order mark, always give text: the
/// decoding that encoding's label names (see [`decoded`]). After a UTF-8
/// byte order mark, valid UTF-8 that starts with no further mark gives its
/// UTF-8 decoding.
pub fn decode_bytes(bytes: &[u8], encoding: Option<&str>, source: &str) -> (r: Result<
    String,
    DecodeError,
>)
    requires
        bytes@.len() <= isize::MAX / 4,
    ensures
        match encoding {
            Some(label) => if encoding_label_known(label@) {
                r matches Ok(t) && t@ == decoded(label@, bytes@).0
            } else {
                r matches Err(DecodeError::UnknownEncoding(l)) && l@ == label@
            },
            None => match bom_of(bytes@) {
                Some((d, n)) => {
                    let rest = bytes@.skip(n);
                    &&& r matches Ok(t) && t@ == decoded(decoder_label(d), rest).0
                    &&& (d is Utf8 && !starts_with_bom(rest) && valid_utf8(rest)) ==> (r matches Ok(
                        t) && t@ == decode_utf8(rest))
                },
                None => if valid_utf8(bytes@) {
                    r matches Ok(t) && t@ == decode_utf8(bytes@)
                } else {
                    r matches Err(DecodeError::UnrecognizedEncodingInFile(s)) && s@ == source@
                },
            },
        },
{
    match encoding {
        Some(label) => {
            match encoding_for_label(label) {
                Some(e) => {
                    let (text, _) = decode_with(&Decoder::Labeled(e), bytes);
                    Ok(text)
                },
                None => Err(DecodeError::UnknownEncoding(owned(label))),
            }
        },
        None => {
            let n = bytes.len();
            let (bom, skip): (Option<Decoder>, usize) = if n >= 3 && bytes[0] == 0xEFu8 && bytes[1]
                == 0xBBu8 && bytes[2] == 0xBFu8 {
                (Some(Decoder::Utf8), 3)
            } else if n >= 2 && bytes[0] == 0xFFu8 && bytes[1] == 0xFEu8 {
                (Some(Decoder::Utf16Le), 2)
            } else if n >= 2 && bytes[0] == 0xFEu8 && bytes[1] == 0xFFu8 {
                (Some(Decoder::Utf16Be), 2)
            } else {
                (None, 0)
            };
            match bom {
                Some(d) => {
                    let rest = &bytes[skip..n];
                    assert(rest@ =~= bytes@.skip(skip as int));
                    let (text, _) = decode_with(&d, rest);
                    Ok(text)
                },
                None => {
                    let (text, had_errors) = decode_with(&Decoder::Utf8, bytes);
                    if had_errors {
                        Err(DecodeError::UnrecognizedEncodingInFile(owned(source)))
                    } else {
                        Ok(text)
                    }
                },
            }
        },
    }
}

} // verus!
