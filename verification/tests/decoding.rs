use acdc_parser::decoding::{decode_bytes, DecodeError};

const CONTENT: &str = "= Test Document\n\nThis is a test with special chars: é, ñ, ü.\n";

fn utf16(text: &str, little_endian: bool) -> Vec<u8> {
    let mut bytes = if little_endian { vec![0xFF, 0xFE] } else { vec![0xFE, 0xFF] };
    for unit in text.encode_utf16() {
        let pair = if little_endian { unit.to_le_bytes() } else { unit.to_be_bytes() };
        bytes.extend_from_slice(&pair);
    }
    bytes
}

#[test]
fn test_utf8_bom_detection() -> Result<(), DecodeError> {
    let mut bytes = vec![0xEF, 0xBB, 0xBF];
    bytes.extend_from_slice(CONTENT.as_bytes());
    let content = decode_bytes(&bytes, None, "utf8_bom.adoc")?;

    assert!(content.contains("= Test Document"));
    assert!(content.contains("This is a test with special chars: é, ñ, ü."));
    assert!(!content.starts_with('\u{FEFF}'));
    Ok(())
}

#[test]
fn test_utf16le_bom_detection() -> Result<(), DecodeError> {
    let content = decode_bytes(&utf16(CONTENT, true), None, "utf16le_bom.adoc")?;

    assert!(content.contains("= Test Document"));
    assert!(content.contains("This is a test with special chars: é, ñ, ü."));
    Ok(())
}

#[test]
fn test_utf16be_bom_detection() -> Result<(), DecodeError> {
    let content = decode_bytes(&utf16(CONTENT, false), None, "utf16be_bom.adoc")?;

    assert!(content.contains("= Test Document"));
    assert!(content.contains("This is a test with special chars: é, ñ, ü."));
    Ok(())
}

#[test]
fn test_utf8_no_bom() -> Result<(), DecodeError> {
    let content = decode_bytes(CONTENT.as_bytes(), None, "utf8_no_bom.adoc")?;

    assert!(content.contains("= Test Document"));
    assert!(content.contains("This is a test with special chars: é, ñ, ü."));
    Ok(())
}

#[test]
fn test_explicit_encoding_override() -> Result<(), DecodeError> {
    let content = decode_bytes(CONTENT.as_bytes(), Some("utf-8"), "utf8_no_bom.adoc")?;

    assert!(content.contains("= Test Document"));
    Ok(())
}

#[test]
fn test_unknown_encoding_error() {
    let result = decode_bytes(CONTENT.as_bytes(), Some("unknown-encoding-12345"), "utf8_no_bom.adoc");

    assert!(matches!(result, Err(DecodeError::UnknownEncoding(_))));
}

#[test]
fn decoding_spells_out_each_outcome() {
    assert_eq!(decode_bytes(b"abc", None, "s"), Ok("abc".to_string()));
    assert_eq!(decode_bytes(&[0xEF, 0xBB, 0xBF, b'a'], None, "s"), Ok("a".to_string()));
    assert_eq!(decode_bytes(&[0xFF, 0xFE, b'a', 0], None, "s"), Ok("a".to_string()));
    assert_eq!(decode_bytes(&[0xFE, 0xFF, 0, b'a'], None, "s"), Ok("a".to_string()));
    assert_eq!(decode_bytes(&[0xE9], Some("latin1"), "s"), Ok("é".to_string()));
    assert_eq!(decode_bytes(&[0xE9], Some(" Latin1 "), "s"), Ok("é".to_string()));
    assert_eq!(
        decode_bytes(&[b'a', 0xC3], None, "doc.adoc"),
        Err(DecodeError::UnrecognizedEncodingInFile("doc.adoc".to_string()))
    );
    assert_eq!(
        decode_bytes(b"abc", Some("nope"), "s"),
        Err(DecodeError::UnknownEncoding("nope".to_string()))
    );
}

#[test]
fn labelled_encodings_decode_by_their_label() {
    assert_eq!(decode_bytes(&[0x63, 0x61, 0x66, 0xE9], Some("windows-1252"), "s"), Ok("café".to_string()));
    assert_eq!(decode_bytes(&[0x61, 0x00], Some("utf-16le"), "s"), Ok("a".to_string()));
    assert_eq!(decode_bytes(&[0xFF, 0xFE, 0xE9, 0x00], None, "s"), Ok("é".to_string()));
}
