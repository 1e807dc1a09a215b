//! Lines, columns and spans.

use gitlab_ci_bash_ls::extract::{extract_scripts, is_reserved};
use gitlab_ci_bash_ls::node::{is_reference, Builder, Node};
use gitlab_ci_bash_ls::scalar::scalar_positions;
use gitlab_ci_bash_ls::script::{Script, SourceSpan};
use gitlab_ci_bash_ls::source::{Pos, Source};
use gitlab_ci_bash_ls::yaml::{ScalarStyle, YamlEvent};

fn pos(line: usize, col: usize) -> Pos {
    Pos { line, col }
}

fn span(from: (usize, usize), to: (usize, usize)) -> SourceSpan {
    SourceSpan {
        start: pos(from.0, from.1),
        end: pos(to.0, to.1),
    }
}

#[test]
fn columns_and_utf16_columns_convert_both_ways() {
    let source = Source::new("a\r\nä😀b\nlast");
    assert_eq!(source.line_count(), 3);
    assert_eq!(source.line(0), ['a']);
    assert_eq!(source.line(7), []);
    let units: Vec<usize> = (0..6).map(|col| source.utf16_col(pos(1, col))).collect();
    assert_eq!(units, [0, 1, 3, 4, 5, 6]);
    for col in 0..4 {
        assert_eq!(source.pos(1, units[col]), pos(1, col));
    }
    // In the middle of a character, and past the end of the line or the file.
    assert_eq!(source.pos(1, 2), pos(1, 2));
    assert_eq!(source.pos(1, 99), pos(1, 3));
    assert_eq!(source.pos(9, 4), pos(9, 0));
}

#[test]
fn positions_in_a_script_convert_both_ways() {
    let text = "x😀\n\nyz";
    let chars: Vec<char> = text.chars().collect();
    let map = vec![None; chars.len()];
    let script = Script::new("s".to_owned(), chars, map);
    let expected = [(0, 0), (0, 1), (0, 3), (1, 0), (2, 0), (2, 1), (2, 2)];
    for (offset, position) in expected.iter().enumerate() {
        assert_eq!(script.position(offset), *position);
        assert_eq!(script.offset(position.0, position.1), offset);
    }
    assert_eq!(script.position(99), (2, 2));
    assert_eq!(script.offset(0, 99), 2);
    assert_eq!(script.offset(9, 0), 6);
    assert_eq!(script.to_source(0), None);
    assert_eq!(script.source_range(0, 1), None);
}

#[test]
fn only_boundaries_of_mapped_characters_are_inside_a_script() {
    let map = vec![
        Some(span((1, 4), (1, 8))),
        None,
        Some(span((1, 8), (1, 9))),
        Some(span((0, 2), (0, 3))),
    ];
    let script = Script::new("s".to_owned(), "abcd".chars().collect(), map);
    assert_eq!(script.offset_of_source(pos(1, 4)), Some(0));
    assert_eq!(script.offset_of_source(pos(1, 5)), None);
    assert_eq!(script.offset_of_source(pos(1, 8)), Some(2));
    assert_eq!(script.offset_of_source(pos(1, 9)), Some(3));
    assert_eq!(script.offset_of_source(pos(0, 3)), Some(4));
    assert_eq!(script.source_range(0, 1), Some((pos(1, 4), pos(1, 8))));
    assert_eq!(script.source_range(1, 2), None);
    // The end is not mapped, or comes before the start.
    assert_eq!(script.source_range(0, 2), Some((pos(1, 4), pos(1, 4))));
    assert_eq!(script.source_range(2, 4), Some((pos(1, 8), pos(1, 8))));
    assert_eq!(script.source_range(9, 9), Some((pos(0, 3), pos(0, 3))));
    let moved = script.duplicate().prepend_line("#!");
    assert_eq!(moved.text(), "#!\nabcd");
    assert_eq!(moved.offset_of_source(pos(1, 4)), Some(3));
    assert_eq!(moved.position(3), (1, 0));
    assert_eq!(moved.source_range(2, 3), None);
}

#[test]
fn characters_that_are_not_found_share_the_last_span() {
    let source = Source::new("ab");
    let value: Vec<char> = "axy".chars().collect();
    let spans = scalar_positions(&source, &value, ScalarStyle::Plain, 1, 0);
    assert_eq!(spans, [span((0, 0), (0, 1)); 3]);
    let spans = scalar_positions(&source, &value[1..], ScalarStyle::Plain, 1, 1);
    assert_eq!(spans, [span((0, 1), (0, 2)); 2]);
    // Escapes end with their line.
    let source = Source::new("\"\\u0\"");
    let spans = scalar_positions(&source, &['0'], ScalarStyle::DoubleQuoted, 1, 0);
    assert_eq!(spans, [span((0, 1), (0, 5))]);
}

fn scalar(value: &str) -> YamlEvent {
    YamlEvent::Scalar {
        value: value.to_owned(),
        style: ScalarStyle::DoubleQuoted,
        line: 1,
        col: 0,
        tag: None,
    }
}

#[test]
fn events_build_the_tree_they_describe() {
    let mut builder = Builder::new();
    for event in [
        YamlEvent::Boundary,
        YamlEvent::MappingStart,
        scalar("key"),
        YamlEvent::SequenceStart {
            tag: Some(("!".to_owned(), "reference".to_owned())),
        },
        scalar("a"),
        YamlEvent::Alias,
        YamlEvent::SequenceEnd,
        YamlEvent::MappingEnd,
        scalar("second"),
    ] {
        builder.on_event(event);
    }
    let documents = builder.finish();
    assert_eq!(documents.len(), 2);
    match documents[0].get("key") {
        Some(Node::Sequence { items, reference }) => {
            assert!(*reference);
            assert_eq!(items[0].as_str(), Some("a"));
            assert!(matches!(items[1], Node::Alias));
        }
        other => panic!("{other:?}"),
    }
    assert!(documents[0].get("other").is_none());
    assert_eq!(documents[1].as_str(), Some("second"));
    assert!(!is_reference(&None));
    assert!(!is_reference(&Some(("!".to_owned(), "ref".to_owned()))));
}

#[test]
fn complete_entries_keep_their_scripts_wherever_the_events_stop() {
    let events = || {
        vec![
            YamlEvent::MappingStart,
            scalar("job"),
            YamlEvent::MappingStart,
            scalar("script"),
            scalar("one"),
            YamlEvent::MappingEnd,
            scalar("next"),
            YamlEvent::MappingStart,
            scalar("script"),
            YamlEvent::SequenceStart { tag: None },
            scalar(""),
            scalar("two"),
            scalar("three"),
        ]
    };
    let source = Source::new("");
    for count in 6..14 {
        let scripts = extract_scripts(&source, events().into_iter().take(count).collect());
        assert_eq!(scripts[0].name(), "job/script");
        assert_eq!(scripts[0].text(), "one");
    }
    let scripts = extract_scripts(&source, events());
    assert_eq!(scripts[1].name(), "next/script");
    // An empty first command leaves no line behind.
    assert_eq!(scripts[1].text(), "two\nthree");
}

#[test]
fn reserved_keys_are_compared_as_a_whole() {
    assert!(is_reserved("include"));
    assert!(is_reserved("workflow"));
    assert!(!is_reserved("includes"));
    assert!(!is_reserved(""));
    assert!(!is_reserved("default"));
}
