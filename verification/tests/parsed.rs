use acdc_parser::conditional::SourceLocation;
use acdc_parser::expansion::Warning;
use acdc_parser::location::{Location, Position};
use acdc_parser::parsed::{OwnedSource, ParseInlineResult, ParseResult};

fn warning(message: &str) -> Warning {
    Warning {
        message: message.to_string(),
        location: SourceLocation { file: None, location: Location::point(Position::new(1, 1)) },
    }
}

#[test]
fn taking_warnings_leaves_the_document_and_no_warnings() {
    let mut result = ParseResult::new("= Doc".to_string(), "document", vec![warning("a"), warning("b")]);
    assert_eq!(result.warnings().len(), 2);
    let taken = result.take_warnings();
    assert_eq!(taken.iter().map(|w| w.message.as_str()).collect::<Vec<_>>(), vec!["a", "b"]);
    assert!(result.warnings().is_empty());
    assert_eq!(*result.document(), "document");
    assert_eq!(result.source(), "= Doc");
    assert!(result.take_warnings().is_empty());
}

#[test]
fn taking_inline_warnings_leaves_the_nodes() {
    let mut result = ParseInlineResult::new("*a*".to_string(), vec![1, 2, 3], vec![warning("c")]);
    assert_eq!(result.take_warnings().len(), 1);
    assert!(result.warnings().is_empty());
    assert_eq!(result.nodes(), &[1, 2, 3]);
    assert_eq!(result.source(), "*a*");
}

#[test]
fn owned_source_gives_its_text_back() {
    assert_eq!(OwnedSource::new("= A".to_string()).source(), "= A");
    assert_eq!(OwnedSource::from_text("= B").source(), "= B");
}
