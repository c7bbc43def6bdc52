use acdc_parser::media::Source;

#[test]
fn source_display_preserves_trailing_slash() -> Result<(), url::ParseError> {
    let source = Source::from_str_borrowed("http://example.com/")?;
    assert_eq!(source.to_string(), "http://example.com/");
    Ok(())
}

#[test]
fn source_display_no_trailing_slash_when_absent() -> Result<(), url::ParseError> {
    let source = Source::from_str_borrowed("http://example.com")?;
    assert_eq!(source.to_string(), "http://example.com");
    Ok(())
}

#[test]
fn source_display_preserves_path_trailing_slash() -> Result<(), url::ParseError> {
    let source = Source::from_str_borrowed("http://example.com/foo/")?;
    assert_eq!(source.to_string(), "http://example.com/foo/");
    Ok(())
}

#[test]
fn source_display_preserves_path_without_trailing_slash() -> Result<(), url::ParseError> {
    let source = Source::from_str_borrowed("http://example.com/foo")?;
    assert_eq!(source.to_string(), "http://example.com/foo");
    Ok(())
}

#[test]
fn source_display_preserves_query_without_path() -> Result<(), url::ParseError> {
    let source = Source::from_str_borrowed("https://example.com?a=1&b=2")?;
    assert_eq!(source.to_string(), "https://example.com?a=1&b=2");
    Ok(())
}

#[test]
fn source_display_preserves_trailing_slash_with_query() -> Result<(), url::ParseError> {
    let source = Source::from_str_borrowed("https://example.com/?a=1&b=2")?;
    assert_eq!(source.to_string(), "https://example.com/?a=1&b=2");
    Ok(())
}
