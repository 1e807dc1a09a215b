//! Scripts in GitLab CI files and their positions.

use gitlab_ci_bash_ls::extract::{parse, Pos, Script, Source, RESERVED_KEYS};

/// The job-name exclusions of the injection queries.
const INJECTIONS: &str = r#"
((block_mapping_pair
  key: (flow_node) @_job
  value: (block_node))
  (#not-match? @_job "^[\"']?(after_script|before_script|cache|hooks|image|include|nil|pre_get_sources_script|script|services|spec|stages|true|false|types|variables|workflow)[\"']?$"))

((flow_pair
  key: (flow_node) @_job)
  (#not-match? @_job "^[\"']?(after_script|before_script|cache|hooks|image|include|nil|pre_get_sources_script|script|services|spec|stages|true|false|types|variables|workflow)[\"']?$"))
"#;


fn scripts(text: &str) -> (Source, Vec<Script>) {
    parse(text)
}

/// Returns the YAML position of the first occurrence of `needle` in the script.
fn source_of(script: &Script, needle: &str) -> Pos {
    let byte = script.text().find(needle).expect("needle in script");
    let offset = script.text()[..byte].chars().count();
    script.to_source(offset).expect("mapped")
}

#[test]
fn combines_before_script_and_script() {
    let (_, scripts) = scripts(
        "job:\n  script:\n    - echo main\n  before_script: echo setup\n  after_script:\n    - echo done\n",
    );
    let names: Vec<_> = scripts.iter().map(|s| s.name()).collect();
    assert_eq!(names, ["job/script", "job/after_script"]);
    assert_eq!(scripts[0].text(), "echo setup\necho main");
    assert_eq!(scripts[1].text(), "echo done");
}

#[test]
fn maps_plain_and_literal_items() {
    let text = "deploy:\n  script:\n    - echo \"Deploying ${PACKAGE_DIR}\"\n    - |\n      echo \"jojo\"\n      echo $HI\n";
    let (_, scripts) = scripts(text);
    let script = &scripts[0];
    assert_eq!(
        script.text(),
        "echo \"Deploying ${PACKAGE_DIR}\"\necho \"jojo\"\necho $HI\n"
    );
    assert_eq!(
        source_of(script, "${PACKAGE_DIR}"),
        Pos { line: 2, col: 22 }
    );
    assert_eq!(source_of(script, "\"jojo\""), Pos { line: 4, col: 11 });
    assert_eq!(source_of(script, "$HI"), Pos { line: 5, col: 11 });
}

#[test]
fn maps_quoted_scalars() {
    let text = "job:\n  script:\n    - 'it''s $A'\n    - \"a\\tb $B \\\"q\\\"\"\n";
    let (_, scripts) = scripts(text);
    let script = &scripts[0];
    assert_eq!(script.text(), "it's $A\na\tb $B \"q\"");
    assert_eq!(source_of(script, "$A"), Pos { line: 2, col: 13 });
    assert_eq!(source_of(script, "\tb"), Pos { line: 3, col: 8 });
    assert_eq!(source_of(script, "$B"), Pos { line: 3, col: 12 });
    assert_eq!(source_of(script, "\"q"), Pos { line: 3, col: 15 });
}

#[test]
fn maps_escaped_space_after_folded_continuation() {
    for (trailing, indent) in [("", "    "), (" \t", "    "), ("", "    \t")] {
        let text = format!("job:\n  script: \"echo{trailing}\n{indent}\\x20$FOO\"\n");
        let (_, scripts) = scripts(&text);
        let script = &scripts[0];
        let col = indent.chars().count();
        assert_eq!(script.text(), "echo  $FOO");
        let range = (
            Pos {
                line: 2,
                col: col + 4,
            },
            Pos {
                line: 2,
                col: col + 8,
            },
        );
        assert_eq!(script.source_range(6, 10), Some(range));
        assert_eq!(script.offset_of_source(range.0), Some(6));
        assert_eq!(script.offset_of_source(range.1), Some(10));
        assert_eq!(
            script.source_range(5, 6),
            Some((Pos { line: 2, col }, range.0))
        );
        assert_eq!(script.offset_of_source(Pos { line: 2, col: 0 }), None);
        assert_replacement(&text, script, 6, 10, "$BAR", "echo  $BAR");
    }
}

#[test]
fn maps_complete_escape_spans_and_rejects_interior_positions() {
    for (encoded, decoded) in [
        ("\\x4f", 'O'),
        ("\\u004f", 'O'),
        ("\\U0000004f", 'O'),
        ("\\U0001f600", '😀'),
        ("\\t", '\t'),
        ("\\\"", '"'),
        ("\\\\", '\\'),
    ] {
        let text = format!("job:\n  script: \"echo $FO{encoded}\"\n");
        let (source, scripts) = scripts(&text);
        let script = &scripts[0];
        let start = Pos { line: 1, col: 19 };
        let end = Pos {
            line: 1,
            col: 19 + encoded.chars().count(),
        };
        assert_eq!(script.text(), format!("echo $FO{decoded}"));
        assert_eq!(script.source_range(8, 9), Some((start, end)));
        assert_eq!(
            script.source_range(5, 9),
            Some((Pos { line: 1, col: 16 }, end))
        );
        assert_eq!(script.source_range(9, 9), Some((end, end)));
        assert_eq!(script.offset_of_source(start), Some(8));
        assert_eq!(script.offset_of_source(end), Some(9));
        for col in start.col + 1..end.col {
            assert_eq!(script.offset_of_source(Pos { line: 1, col }), None);
        }
        // Neither the opening quote nor a position after the closing quote is script text.
        assert_eq!(script.offset_of_source(Pos { line: 1, col: 10 }), None);
        assert_eq!(script.offset_of_source(end.next()), None);
        assert_eq!(script.position(9), (0, 8 + decoded.len_utf16()));
        assert_eq!(script.offset(0, 8 + decoded.len_utf16()), 9);
        assert_eq!(source.pos(1, source.utf16_col(end)), end);
        assert_replacement(&text, script, 5, 9, "$BAR", "echo $BAR");
    }
}

#[test]
fn maps_doubled_single_quote_end() {
    let text = "job:\n  script: 'echo it'''\n";
    let (_, scripts) = scripts(text);
    let script = &scripts[0];
    let start = Pos { line: 1, col: 18 };
    let end = Pos { line: 1, col: 20 };
    assert_eq!(script.text(), "echo it'");
    assert_eq!(script.source_range(7, 8), Some((start, end)));
    assert_eq!(script.source_range(8, 8), Some((end, end)));
    assert_eq!(script.offset_of_source(start), Some(7));
    assert_eq!(script.offset_of_source(start.next()), None);
    assert_eq!(script.offset_of_source(end), Some(8));
    assert_eq!(script.offset_of_source(end.next()), None);
    assert_replacement(text, script, 5, 8, "$BAR", "echo $BAR");
}

/// Exercise a completion-style edit and ensure no escape suffix or YAML quote is left behind.
fn assert_replacement(
    text: &str,
    script: &Script,
    start: usize,
    end: usize,
    replacement: &str,
    expected: &str,
) {
    let (from, to) = script.source_range(start, end).expect("mapped replacement");
    let byte_offset = |pos: Pos| {
        let line_start: usize = text
            .split_inclusive('\n')
            .take(pos.line)
            .map(str::len)
            .sum();
        line_start
            + text[line_start..]
                .chars()
                .take(pos.col)
                .map(char::len_utf8)
                .sum::<usize>()
    };
    let mut edited = text.to_owned();
    edited.replace_range(byte_offset(from)..byte_offset(to), replacement);
    let (_, scripts) = scripts(&edited);
    assert_eq!(scripts.len(), 1, "{edited}");
    assert_eq!(scripts[0].text(), expected, "{edited}");
}

#[test]
fn maps_escaped_continuations_and_preserves_block_indentation() {
    for (text, decoded, line, col) in [
        (
            "job:\n  script: \"echo\\\n    \\x20$FOO\"\n",
            "echo $FOO",
            2,
            8,
        ),
        (
            "job:\n  script: \"echo\n\n    \\x20$FOO\"\n",
            "echo\n $FOO",
            3,
            8,
        ),
        ("job:\n  script: echo\n    $FOO\n", "echo $FOO", 2, 4),
        ("job:\n  script: 'echo\n    $FOO'\n", "echo $FOO", 2, 4),
        (
            "job:\n  script: |-\n    echo\n      $FOO\n",
            "echo\n  $FOO",
            3,
            6,
        ),
        (
            "job:\n  script: >-\n    echo\n      $FOO\n",
            "echo\n  $FOO",
            3,
            6,
        ),
    ] {
        let (_, scripts) = scripts(text);
        let script = &scripts[0];
        assert_eq!(script.text(), decoded);
        let start = decoded.find("$FOO").unwrap();
        let from = Pos { line, col };
        let to = Pos { line, col: col + 4 };
        assert_eq!(script.source_range(start, start + 4), Some((from, to)));
        assert_eq!(script.offset_of_source(from), Some(start));
        assert_eq!(script.offset_of_source(to), Some(start + 4));
        assert_replacement(
            text,
            script,
            start,
            start + 4,
            "$BAR",
            &decoded.replace("$FOO", "$BAR"),
        );
    }
}

#[test]
fn maps_escape_endpoints_through_script_composition() {
    // YAML order differs from execution order, so the source map is not sorted.
    let text = "job:\n  script: \"echo $BA\\x52\"\n  before_script: \"echo $FO\\u004f\"\n";
    let (_, scripts) = scripts(text);
    let script = &scripts[0];
    assert_eq!(script.text(), "echo $FOO\necho $BAR");
    let before_end = Pos { line: 2, col: 32 };
    assert_eq!(
        script.source_range(5, 9),
        Some((Pos { line: 2, col: 23 }, before_end))
    );
    assert_eq!(script.source_range(9, 9), Some((before_end, before_end)));
    // The inserted newline must not consume the closing YAML quote.
    assert_eq!(script.source_range(9, 10), Some((before_end, before_end)));
    assert_eq!(script.offset_of_source(before_end), Some(9));
    assert_eq!(script.offset_of_source(before_end.next()), None);
    assert_eq!(script.offset_of_source(Pos { line: 2, col: 27 }), None);
    let main_end = Pos { line: 1, col: 23 };
    assert_eq!(
        script.source_range(15, 19),
        Some((Pos { line: 1, col: 16 }, main_end))
    );
    assert_eq!(script.offset_of_source(main_end), Some(19));
    assert_replacement(text, script, 5, 9, "$SETUP", "echo $SETUP\necho $BAR");
    assert_replacement(text, script, 15, 19, "$MAIN", "echo $FOO\necho $MAIN");

    let script = with_directive(script);
    let start = script.offset(1, 5);
    let end = script.offset(1, 9);
    assert_eq!(script.offset_of_source(before_end), Some(end));
    assert_eq!(script.source_range(start, end).unwrap().1, before_end);
    assert_eq!(script.source_range(0, 1), None);
}

#[test]
fn maps_escaped_and_literal_astral_characters_with_utf16() {
    let text = "job:\n  script: \"echo 😀\\U0001f600 $FO\\u004f\"\n";
    let (source, scripts) = scripts(text);
    let script = &scripts[0];
    assert_eq!(script.text(), "echo 😀😀 $FOO");
    let escape_start = Pos { line: 1, col: 17 };
    let escape_end = Pos { line: 1, col: 27 };
    assert_eq!(script.source_range(6, 7), Some((escape_start, escape_end)));
    assert_eq!(source.utf16_col(escape_start), 18);
    assert_eq!(source.utf16_col(escape_end), 28);
    assert_eq!(script.position(6), (0, 7));
    assert_eq!(script.position(7), (0, 9));
    assert_eq!(script.offset(0, 9), 7);
    assert_eq!(script.offset_of_source(source.pos(1, 28)), Some(7));
    for col in 19..28 {
        assert_eq!(script.offset_of_source(source.pos(1, col)), None);
    }
    let range = (Pos { line: 1, col: 28 }, Pos { line: 1, col: 37 });
    assert_eq!(script.source_range(8, 12), Some(range));
    assert_eq!(source.utf16_col(range.0), 29);
    assert_eq!(source.utf16_col(range.1), 38);
    let end = script.offset_of_source(source.pos(1, 38)).unwrap();
    assert_eq!(end, 12);
    assert_eq!(script.position(end), (0, 14));
    assert_replacement(text, script, 8, 12, "$BAR", "echo 😀😀 $BAR");
}

#[test]
fn maps_folded_and_leading_blank_lines() {
    let text = "job:\n  script:\n    - >\n      echo a\n      $B\n\n      echo $C\n    - |\n\n      echo $D\n";
    let (_, scripts) = scripts(text);
    let script = &scripts[0];
    assert_eq!(script.text(), "echo a $B\necho $C\n\n\necho $D\n");
    assert_eq!(source_of(script, "$B"), Pos { line: 4, col: 6 });
    assert_eq!(source_of(script, "$C"), Pos { line: 6, col: 11 });
    assert_eq!(source_of(script, "$D"), Pos { line: 9, col: 11 });
}

#[test]
fn maps_multibyte_columns_to_utf16() {
    let text = "job:\n  script: echo \"ä😀\" $X\n";
    let (source, scripts) = scripts(text);
    let pos = source_of(&scripts[0], "$X");
    assert_eq!(pos, Pos { line: 1, col: 20 });
    assert_eq!(source.utf16_col(pos), 21);
    assert_eq!(source.pos(1, 21), pos);
}

#[test]
fn skips_references_reserved_keys_and_other_properties() {
    let text = "variables:\n  script: echo no\nworkflow:\n  script: echo no\njob:\n  image: alpine\n  script:\n    - !reference [.setup, script]\n    - echo yes\nother:\n  script: !reference [.setup, script]\n";
    let (_, scripts) = scripts(text);
    assert_eq!(scripts.len(), 1);
    assert_eq!(scripts[0].name(), "job/script");
    assert_eq!(scripts[0].text(), "echo yes");
}

#[test]
fn handles_globals_hooks_nested_lists_and_spec_documents() {
    let text = "spec:\n  inputs: {}\n---\nbefore_script: echo global\njob:\n  hooks:\n    pre_get_sources_script: echo hook\n  script:\n    - [echo one, [echo two]]\n";
    let (_, scripts) = scripts(text);
    let found: Vec<_> = scripts
        .iter()
        .map(|s| (s.name(), s.text()))
        .collect();
    assert_eq!(
        found,
        [
            ("before_script", "echo global"),
            ("job/script", "echo one\necho two"),
            ("job/hooks/pre_get_sources_script", "echo hook"),
        ]
    );
}

#[test]
fn keeps_scripts_before_a_syntax_error() {
    let text = "job:\n  script:\n    - echo ok\nbroken: [\n";
    let (_, scripts) = scripts(text);
    assert_eq!(scripts[0].text(), "echo ok");
}

#[test]
fn translates_positions_both_ways() {
    let text = "job:\n  script:\n    - echo $A\n    - echo $B\n";
    let (source, scripts) = scripts(text);
    let script = with_directive(&scripts[0]);
    // `$B` is on line 1 of the original script, line 2 after the directive.
    let offset = script.offset(2, 5);
    assert_eq!(
        script.source_range(offset, offset + 2),
        Some((Pos { line: 3, col: 11 }, Pos { line: 3, col: 13 }))
    );
    let back = script.offset_of_source(source.pos(3, 12)).unwrap();
    assert_eq!(script.position(back), (2, 6));
    // End of line: just past the last char still maps into the script.
    let end = script.offset_of_source(Pos { line: 3, col: 13 }).unwrap();
    assert_eq!(script.position(end), (2, 7));
    // The synthetic directive line has no source position.
    assert_eq!(script.source_range(0, 3), None);
    assert_eq!(script.offset_of_source(Pos { line: 0, col: 0 }), None);
}

#[test]
fn reserved_keys_match_injection_query() {
    let query = INJECTIONS;
    let prefix = "(#not-match? @_job \"^[\\\"']?(";
    let lists: Vec<Vec<&str>> = query
        .lines()
        .filter_map(|line| line.trim().strip_prefix(prefix))
        .map(|rest| rest.split(')').next().unwrap().split('|').collect())
        .collect();
    assert!(!lists.is_empty());
    for list in lists {
        assert_eq!(list, RESERVED_KEYS);
    }
}

fn with_directive(script: &Script) -> Script {
    script.duplicate().prepend_line("# shellcheck shell=sh")
}
