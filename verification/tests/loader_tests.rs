use xtop_layout::{
    is_layout_extension, merge_layouts, strip_jsonc_comments, Direction, LayoutArea,
    LayoutConstraint, LayoutDef, LayoutNode,
};

/// A stand-in for the embedded "Dashboard" default: a header over a CPU area.
fn dashboard() -> LayoutDef {
    LayoutDef {
        name: "Dashboard".into(),
        root: LayoutNode::Split {
            direction: Direction::Vertical,
            areas: vec![
                LayoutArea {
                    constraint: LayoutConstraint::Length(3),
                    node: LayoutNode::Widget {
                        name: "header".into(),
                        options: None,
                    },
                },
                LayoutArea {
                    constraint: LayoutConstraint::Fill,
                    node: LayoutNode::Widget {
                        name: "cpu".into(),
                        options: None,
                    },
                },
            ],
        },
    }
}

fn named(name: &str, direction: Direction) -> LayoutDef {
    LayoutDef {
        name: name.into(),
        root: LayoutNode::Split {
            direction,
            areas: vec![],
        },
    }
}

#[test]
fn test_strip_keeps_urls_inside_strings() {
    let jsonc = r#"{
            // comment
            "name": "x",
            "root": { "direction": "vertical", "areas": [] }
        }"#;
    let cleaned = strip_jsonc_comments(jsonc);
    assert!(cleaned.contains("\"name\": \"x\""));
}

#[test]
fn test_merge_user_overrides_default() {
    let mut defaults = vec![dashboard()];
    defaults.truncate(1); // keep only Dashboard
    let mut custom = defaults.clone();
    custom[0].root = LayoutNode::Split {
        direction: Direction::Horizontal,
        areas: vec![],
    };
    custom.push(LayoutDef {
        name: "My Layout".into(),
        root: LayoutNode::Split {
            direction: Direction::Vertical,
            areas: vec![],
        },
    });
    let merged = merge_layouts(defaults, custom.clone());
    assert_eq!(merged.len(), 2);
    assert_eq!(merged[0].root, custom[0].root);
    assert_eq!(merged[1].name, "My Layout");
}

#[test]
fn strip_removes_line_and_block_comments() {
    assert_eq!(strip_jsonc_comments("a // b\nc"), "a \nc");
    assert_eq!(strip_jsonc_comments("a /* b */c"), "a c");
    assert_eq!(strip_jsonc_comments("a /* b\n * more\n */c"), "a c");
    assert_eq!(strip_jsonc_comments("// only a comment"), "");
    assert_eq!(strip_jsonc_comments("x//"), "x");
}

#[test]
fn strip_unterminated_block_comment_eats_the_rest() {
    assert_eq!(strip_jsonc_comments("a /* never closed"), "a ");
    // The opening `/*` cannot also close the comment.
    assert_eq!(strip_jsonc_comments("a/*/b"), "a");
    assert_eq!(strip_jsonc_comments("a/**/b"), "ab");
}

#[test]
fn strip_keeps_string_literals_and_escapes() {
    let src = r#"{"url": "http://x/*y*/", 'q': 'it''s // here', "e": "a\"//b"}"#;
    assert_eq!(strip_jsonc_comments(src), src);
    // A backslash at the very end of an unterminated string is kept.
    assert_eq!(strip_jsonc_comments("\"ab\\"), "\"ab\\");
    // After a string closes, comments are stripped again.
    assert_eq!(strip_jsonc_comments("\"a\" // c"), "\"a\" ");
}

#[test]
fn strip_leaves_text_without_slash_alone() {
    let src = "{ \"name\": \"plain\", 'x': [1, 2, 3] }\n\t* % ééé";
    assert_eq!(strip_jsonc_comments(src), src);
    assert_eq!(strip_jsonc_comments(""), "");
    assert_eq!(strip_jsonc_comments("/"), "/");
    assert_eq!(strip_jsonc_comments("a / b"), "a / b");
}

#[test]
fn strip_handles_non_ascii_text() {
    assert_eq!(strip_jsonc_comments("héllo /* ç */ wörld // ünïcode"), "héllo  wörld ");
}

#[test]
fn merge_appends_new_and_replaces_in_place() {
    let defaults = vec![
        named("A", Direction::Vertical),
        named("B", Direction::Vertical),
        named("C", Direction::Vertical),
    ];
    let custom = vec![
        named("X", Direction::Horizontal),
        named("B", Direction::Horizontal),
        named("Y", Direction::Vertical),
        named("X", Direction::Vertical),
        named("B", Direction::Vertical),
    ];
    let merged = merge_layouts(defaults.clone(), custom.clone());
    let names: Vec<&str> = merged.iter().map(|d| d.name.as_str()).collect();
    assert_eq!(names, ["A", "B", "C", "X", "Y"]);
    // The last user layout of each name wins.
    assert_eq!(merged[1], custom[4]);
    assert_eq!(merged[3], custom[3]);
    assert_eq!(merged[4], custom[2]);
    // Untouched defaults stay as they were.
    assert_eq!(merged[0], defaults[0]);
    assert_eq!(merged[2], defaults[2]);
}

#[test]
fn merge_with_nothing_on_either_side() {
    let defaults = vec![named("A", Direction::Vertical)];
    assert_eq!(merge_layouts(defaults.clone(), vec![]), defaults);
    let custom = vec![named("A", Direction::Horizontal), named("B", Direction::Vertical)];
    assert_eq!(merge_layouts(vec![], custom.clone()), custom);
    // Names compare exactly and case-sensitively.
    let merged = merge_layouts(defaults, vec![named("a", Direction::Horizontal)]);
    assert_eq!(merged.len(), 2);
}

#[test]
fn layout_file_extensions() {
    assert!(is_layout_extension(Some("json")));
    assert!(is_layout_extension(Some("jsonc")));
    assert!(!is_layout_extension(Some("JSON")));
    assert!(!is_layout_extension(Some("txt")));
    assert!(!is_layout_extension(Some("")));
    assert!(!is_layout_extension(None));
}

fn is_subsequence(t: &str, s: &str) -> bool {
    let mut rest = s.chars();
    t.chars().all(|c| rest.any(|d| d == c))
}

#[test]
fn stripping_twice_is_stripping_once() {
    for src in [
        "a // b\nc /* d */ e",
        "/ /* x */* y */",
        "\"a/\"/*c*/*b",
        "'q' /* \" */ x \" y // z\n",
        "a/**//x",
        "\"esc \\\" // still\" // gone",
        "/* unterminated",
    ] {
        let once = strip_jsonc_comments(src);
        assert_eq!(strip_jsonc_comments(&once), once);
    }
}

#[test]
fn stripping_only_removes_characters() {
    for src in [
        "a // b\nc /* d */ e",
        "{ \"u\": \"http://x\" } // tail",
        "x /* y */ z /* w",
    ] {
        let out = strip_jsonc_comments(src);
        assert!(is_subsequence(&out, src));
    }
}

#[test]
fn merging_twice_is_merging_once() {
    let defaults = vec![
        named("A", Direction::Vertical),
        named("A", Direction::Horizontal),
        named("B", Direction::Vertical),
    ];
    let custom = vec![
        named("X", Direction::Horizontal),
        named("A", Direction::Horizontal),
        named("X", Direction::Vertical),
        named("Y", Direction::Vertical),
    ];
    let once = merge_layouts(defaults, custom.clone());
    let twice = merge_layouts(once.clone(), custom);
    assert_eq!(twice, once);
}

#[test]
fn new_names_follow_the_defaults_in_first_occurrence_order() {
    let defaults = vec![named("A", Direction::Vertical), named("B", Direction::Vertical)];
    let custom = vec![
        named("Z", Direction::Vertical),
        named("B", Direction::Horizontal),
        named("Y", Direction::Vertical),
        named("Z", Direction::Horizontal),
    ];
    let merged = merge_layouts(defaults, custom.clone());
    let names: Vec<&str> = merged.iter().map(|d| d.name.as_str()).collect();
    assert_eq!(names, ["A", "B", "Z", "Y"]);
    assert_eq!(merged[2], custom[3]);
    assert_eq!(merged[3], custom[2]);
    assert_eq!(merged[1], custom[1]);
}
