use std::collections::hash_map::DefaultHasher;
use std::hash::{Hash, Hasher};
use std::sync::Arc;

use acdc_parser::location::{calculate_leveloffset_at, LeveloffsetRange, Location, Position};

#[test]
fn position_equality_is_provenance_aware() {
    fn hash(p: &Position) -> u64 {
        let mut h = DefaultHasher::new();
        p.hash(&mut h);
        h.finish()
    }
    let pos = |chain: &[&str]| {
        let mut p = Position::new(1, 1);
        if !chain.is_empty() {
            p.file = Some(Arc::new(
                chain.iter().map(|s| (*s).to_string()).collect::<Vec<_>>(),
            ));
        }
        p
    };

    let primary = pos(&[]);
    let included = pos(&["inc.adoc"]);

    assert_ne!(primary, included, "primary input vs included differ");
    assert_ne!(
        included,
        pos(&["other.adoc"]),
        "different include chains differ"
    );
    assert_ne!(hash(&primary), hash(&included));

    assert_eq!(included, pos(&["inc.adoc"]));
    assert_eq!(hash(&included), hash(&pos(&["inc.adoc"])));
}

#[test]
fn byte_len_only_within_a_single_file() {
    let chain = |c: &[&str]| Arc::new(c.iter().map(|s| (*s).to_string()).collect::<Vec<_>>());

    let same = Location {
        absolute_start: 10,
        absolute_end: 19,
        start: Position::new(1, 1),
        end: Position::new(1, 10),
    };
    assert_eq!(same.byte_len(), Some(10));

    let mut start = Position::new(1, 1);
    start.file = Some(chain(&["a.adoc"]));
    let mut end = Position::new(5, 1);
    end.file = Some(chain(&["b.adoc"]));
    let cross = Location {
        absolute_start: 10,
        absolute_end: 400,
        start,
        end,
    };
    assert_eq!(cross.byte_len(), None);
}

#[test]
fn positions_from_line_and_column_saturate() {
    let p = Position::from_line_col(usize::MAX, 3);
    assert_eq!(p.line, u32::MAX);
    assert_eq!(p.column, 3);
    assert_eq!(Position::new(4, 2).to_string(), "line: 4, column: 2");
    let point = Location::point(Position::new(2, 5));
    assert_eq!(point.start, point.end);
    assert_eq!(point.absolute_start, 0);
}

#[test]
fn leveloffsets_add_up_over_containing_ranges() {
    let ranges = vec![
        LeveloffsetRange::new(0, 100, 1),
        LeveloffsetRange::new(50, 80, 2),
    ];
    assert_eq!(calculate_leveloffset_at(&ranges, 10), 1);
    assert_eq!(calculate_leveloffset_at(&ranges, 60), 3);
    assert_eq!(calculate_leveloffset_at(&ranges, 200), 0);
}
