use xtop_layout::{
    Direction, LayoutArea, LayoutAreaRaw, LayoutConstraint, LayoutDef, LayoutDefRaw, LayoutNode,
    SizeRaw,
};

fn raw_widget(name: &str, size: Option<SizeRaw>) -> LayoutAreaRaw {
    LayoutAreaRaw {
        size,
        widget: Some(name.to_string()),
        direction: None,
        areas: None,
        options: None,
    }
}

fn raw_split(direction: &str, areas: Option<Vec<LayoutAreaRaw>>) -> LayoutAreaRaw {
    LayoutAreaRaw {
        size: None,
        widget: None,
        direction: Some(direction.to_string()),
        areas,
        options: None,
    }
}

fn size_str(s: &str) -> Option<SizeRaw> {
    Some(SizeRaw::Str(s.to_string()))
}

fn constraint_of(size: Option<SizeRaw>) -> Result<LayoutConstraint, String> {
    LayoutArea::try_from(raw_widget("cpu", size)).map(|a| a.constraint)
}

/// Parse a bare root area (the grammar every area shares).
fn parse_root_area(raw: LayoutAreaRaw) -> LayoutNode {
    LayoutArea::try_from(raw).unwrap().node
}

#[test]
fn test_widget_options_absent_and_null_parse_to_none() {
    // `{"widget":"cpu"}` and `{"widget":"cpu","options":null}` both reach the
    // model with no options.
    let absent = parse_root_area(raw_widget("cpu", None));
    assert!(matches!(absent, LayoutNode::Widget { options: None, .. }));
    let null = parse_root_area(raw_widget("cpu", None));
    assert!(matches!(null, LayoutNode::Widget { options: None, .. }));
}

#[test]
fn sizes_map_to_constraints() {
    assert_eq!(constraint_of(None), Ok(LayoutConstraint::Fill));
    assert_eq!(constraint_of(Some(SizeRaw::Num(3))), Ok(LayoutConstraint::Length(3)));
    assert_eq!(constraint_of(Some(SizeRaw::Num(0))), Ok(LayoutConstraint::Length(0)));
    assert_eq!(constraint_of(size_str("*")), Ok(LayoutConstraint::Fill));
    assert_eq!(constraint_of(size_str("45%")), Ok(LayoutConstraint::Percentage(45)));
    assert_eq!(constraint_of(size_str("0%")), Ok(LayoutConstraint::Percentage(0)));
    assert_eq!(constraint_of(size_str("007%")), Ok(LayoutConstraint::Percentage(7)));
    assert_eq!(constraint_of(size_str("+5%")), Ok(LayoutConstraint::Percentage(5)));
    // All trailing percent signs are trimmed.
    assert_eq!(constraint_of(size_str("50%%")), Ok(LayoutConstraint::Percentage(50)));
    assert_eq!(
        constraint_of(size_str("65535%")),
        Ok(LayoutConstraint::Percentage(65535))
    );
}

#[test]
fn invalid_sizes_are_reported() {
    assert_eq!(
        constraint_of(size_str("65536%")),
        Err("invalid percentage: 65536%".to_string())
    );
    assert_eq!(constraint_of(size_str("%")), Err("invalid percentage: %".to_string()));
    assert_eq!(constraint_of(size_str("+%")), Err("invalid percentage: +%".to_string()));
    assert_eq!(constraint_of(size_str("-1%")), Err("invalid percentage: -1%".to_string()));
    assert_eq!(constraint_of(size_str("4 5%")), Err("invalid percentage: 4 5%".to_string()));
    assert_eq!(
        constraint_of(size_str("99999999999999999999%")),
        Err("invalid percentage: 99999999999999999999%".to_string())
    );
    assert_eq!(
        constraint_of(size_str("abc")),
        Err("invalid size constraint: abc".to_string())
    );
    assert_eq!(constraint_of(size_str("")), Err("invalid size constraint: ".to_string()));
    assert_eq!(
        constraint_of(size_str("%5")),
        Err("invalid size constraint: %5".to_string())
    );
    assert_eq!(constraint_of(size_str("**")), Err("invalid size constraint: **".to_string()));
}

#[test]
fn directions_are_matched_case_insensitively() {
    let node = parse_root_area(raw_split("HoRiZoNtAl", None));
    assert_eq!(
        node,
        LayoutNode::Split {
            direction: Direction::Horizontal,
            areas: vec![]
        }
    );
    let node = parse_root_area(raw_split("VERTICAL", Some(vec![])));
    assert_eq!(
        node,
        LayoutNode::Split {
            direction: Direction::Vertical,
            areas: vec![]
        }
    );
    assert_eq!(
        LayoutArea::try_from(raw_split("diagonal", None)),
        Err("invalid direction: diagonal".to_string())
    );
    assert_eq!(
        LayoutArea::try_from(raw_split(" vertical", None)),
        Err("invalid direction:  vertical".to_string())
    );
}

#[test]
fn an_area_needs_a_widget_or_a_direction() {
    let raw = LayoutAreaRaw {
        size: None,
        widget: None,
        direction: None,
        areas: Some(vec![raw_widget("cpu", None)]),
        options: None,
    };
    assert_eq!(
        LayoutArea::try_from(raw),
        Err("layout area must have 'widget' or 'direction'".to_string())
    );
}

#[test]
fn a_widget_wins_over_a_direction() {
    let raw = LayoutAreaRaw {
        size: Some(SizeRaw::Num(3)),
        widget: Some("header".to_string()),
        direction: Some("nonsense".to_string()),
        areas: Some(vec![raw_split("nonsense", None)]),
        options: None,
    };
    let area = LayoutArea::try_from(raw).unwrap();
    assert_eq!(area.constraint, LayoutConstraint::Length(3));
    assert_eq!(
        area.node,
        LayoutNode::Widget {
            name: "header".to_string(),
            options: None
        }
    );
}

#[test]
fn the_first_error_in_document_order_is_reported() {
    // The size is checked before the node.
    let mut raw = raw_split("diagonal", None);
    raw.size = size_str("big");
    assert_eq!(
        LayoutArea::try_from(raw),
        Err("invalid size constraint: big".to_string())
    );
    // Among children, the first failing one decides.
    let raw = raw_split(
        "vertical",
        Some(vec![
            raw_widget("header", Some(SizeRaw::Num(3))),
            raw_widget("cpu", size_str("x%")),
            raw_split("sideways", None),
        ]),
    );
    assert_eq!(
        LayoutArea::try_from(raw),
        Err("invalid percentage: x%".to_string())
    );
    // Nested errors surface through their parents.
    let raw = raw_split(
        "vertical",
        Some(vec![raw_split("horizontal", Some(vec![raw_split("up", None)]))]),
    );
    assert_eq!(
        LayoutArea::try_from(raw),
        Err("invalid direction: up".to_string())
    );
}

#[test]
fn nested_tree_converts() {
    let raw = raw_split(
        "vertical",
        Some(vec![
            raw_widget("header", Some(SizeRaw::Num(3))),
            LayoutAreaRaw {
                size: size_str("60%"),
                ..raw_split(
                    "Horizontal",
                    Some(vec![raw_widget("cpu", None), raw_widget("memory", size_str("*"))]),
                )
            },
        ]),
    );
    let node = parse_root_area(raw);
    let expected = LayoutNode::Split {
        direction: Direction::Vertical,
        areas: vec![
            LayoutArea {
                constraint: LayoutConstraint::Length(3),
                node: LayoutNode::Widget {
                    name: "header".into(),
                    options: None,
                },
            },
            LayoutArea {
                constraint: LayoutConstraint::Percentage(60),
                node: LayoutNode::Split {
                    direction: Direction::Horizontal,
                    areas: vec![
                        LayoutArea {
                            constraint: LayoutConstraint::Fill,
                            node: LayoutNode::Widget {
                                name: "cpu".into(),
                                options: None,
                            },
                        },
                        LayoutArea {
                            constraint: LayoutConstraint::Fill,
                            node: LayoutNode::Widget {
                                name: "memory".into(),
                                options: None,
                            },
                        },
                    ],
                },
            },
        ],
    };
    assert_eq!(node, expected);
}

#[test]
fn definition_keeps_name_and_drops_root_size() {
    let raw = LayoutDefRaw {
        name: "My Layout".into(),
        root: LayoutAreaRaw {
            size: Some(SizeRaw::Num(7)),
            ..raw_widget("cpu", None)
        },
    };
    let def = LayoutDef::try_from(raw).unwrap();
    assert_eq!(def.name, "My Layout");
    assert_eq!(
        def.root,
        LayoutNode::Widget {
            name: "cpu".into(),
            options: None
        }
    );
    // An invalid root size still rejects the definition.
    let raw = LayoutDefRaw {
        name: "Bad".into(),
        root: LayoutAreaRaw {
            size: size_str("huge"),
            ..raw_widget("cpu", None)
        },
    };
    assert_eq!(
        LayoutDef::try_from(raw),
        Err("invalid size constraint: huge".to_string())
    );
}

#[test]
fn options_pass_through_untouched() {
    let options: serde_json::Value = serde_json::from_str(
        r#"{"cpu": "total", "cores": {"filter": [0, 2, "4-7"], "note": null}, "show_freq": true}"#,
    )
    .unwrap();
    let raw = LayoutAreaRaw {
        options: Some(options.clone()),
        ..raw_widget("cpu", None)
    };
    let node = parse_root_area(raw);
    let LayoutNode::Widget {
        name,
        options: parsed,
    } = &node
    else {
        panic!("expected widget node");
    };
    assert_eq!(name, "cpu");
    assert_eq!(parsed.as_ref().unwrap(), &options);
    // A copy of the node carries the same options.
    assert_eq!(node.clone(), node);
}

fn sample_def() -> LayoutDef {
    let options: serde_json::Value = serde_json::from_str(r#"{"cores": "all"}"#).unwrap();
    LayoutDef {
        name: "RT".into(),
        root: LayoutNode::Split {
            direction: Direction::Horizontal,
            areas: vec![
                LayoutArea {
                    constraint: LayoutConstraint::Length(3),
                    node: LayoutNode::Widget {
                        name: "header".into(),
                        options: None,
                    },
                },
                LayoutArea {
                    constraint: LayoutConstraint::Percentage(45),
                    node: LayoutNode::Widget {
                        name: "cpu".into(),
                        options: Some(options),
                    },
                },
                LayoutArea {
                    constraint: LayoutConstraint::Fill,
                    node: LayoutNode::Split {
                        direction: Direction::Vertical,
                        areas: vec![],
                    },
                },
            ],
        },
    }
}

#[test]
fn raw_shape_spells_sizes_and_directions() {
    let raw = sample_def().into_raw();
    assert_eq!(raw.name, "RT");
    assert_eq!(raw.root.size, None);
    assert_eq!(raw.root.direction.as_deref(), Some("horizontal"));
    let areas = raw.root.areas.as_ref().unwrap();
    assert_eq!(areas.len(), 3);
    assert_eq!(areas[0].size, Some(SizeRaw::Num(3)));
    assert_eq!(areas[0].widget.as_deref(), Some("header"));
    assert_eq!(areas[0].options, None);
    assert_eq!(areas[1].size, Some(SizeRaw::Str("45%".into())));
    assert!(areas[1].options.is_some());
    assert_eq!(areas[2].size, Some(SizeRaw::Str("*".into())));
    assert_eq!(areas[2].direction.as_deref(), Some("vertical"));
    assert_eq!(areas[2].areas.as_ref().map(|a| a.len()), Some(0));
}

#[test]
fn raw_shape_reads_back_as_the_same_definition() {
    let def = sample_def();
    let back = LayoutDef::try_from(def.clone().into_raw()).unwrap();
    assert_eq!(back, def);
    for p in [0u16, 7, 10, 99, 100, 1000, 65535] {
        let area = LayoutArea {
            constraint: LayoutConstraint::Percentage(p),
            node: LayoutNode::Widget {
                name: "w".into(),
                options: None,
            },
        };
        assert_eq!(LayoutArea::try_from(area.clone().into_raw()), Ok(area));
    }
}
