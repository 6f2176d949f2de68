use xtop_layout::{
    detect_effective_layout, layout_index_from_mode, layout_mode_for_name, merge_layouts,
    mode_from_layout_index, Direction, EffectiveLayout, LayoutDef, LayoutMode, LayoutNode,
    LAYOUT_MODE_NAMES,
};

/// A layout with the given name and an empty vertical split as its tree.
fn named(name: &str) -> LayoutDef {
    LayoutDef {
        name: name.to_string(),
        root: LayoutNode::Split {
            direction: Direction::Vertical,
            areas: vec![],
        },
    }
}

/// Layouts carrying the names of the default palette, in palette order.
fn palette() -> Vec<LayoutDef> {
    [
        "Dashboard",
        "Vertical",
        "Horizontal",
        "CPU Focus",
        "Memory Focus",
        "Network Focus",
        "Process Focus",
        "Detail Dashboard",
        "Detail Network",
        "Detail Processes",
    ]
    .iter()
    .map(|n| named(n))
    .collect()
}

const ALL_MODES: [LayoutMode; 7] = [
    LayoutMode::Dashboard,
    LayoutMode::Vertical,
    LayoutMode::Horizontal,
    LayoutMode::CpuFocus,
    LayoutMode::MemoryFocus,
    LayoutMode::NetworkFocus,
    LayoutMode::ProcessFocus,
];

#[test]
fn test_layout_mode_next() {
    assert_eq!(LayoutMode::Dashboard.next(), LayoutMode::Vertical);
    assert_eq!(LayoutMode::Vertical.next(), LayoutMode::Horizontal);
    assert_eq!(LayoutMode::Horizontal.next(), LayoutMode::CpuFocus);
    assert_eq!(LayoutMode::CpuFocus.next(), LayoutMode::MemoryFocus);
    assert_eq!(LayoutMode::MemoryFocus.next(), LayoutMode::NetworkFocus);
    assert_eq!(LayoutMode::NetworkFocus.next(), LayoutMode::ProcessFocus);
    assert_eq!(LayoutMode::ProcessFocus.next(), LayoutMode::Dashboard);
}

#[test]
fn test_layout_mode_label_roundtrip() {
    for mode in [
        LayoutMode::Dashboard,
        LayoutMode::Vertical,
        LayoutMode::Horizontal,
        LayoutMode::CpuFocus,
        LayoutMode::MemoryFocus,
        LayoutMode::NetworkFocus,
        LayoutMode::ProcessFocus,
    ] {
        assert_eq!(LayoutMode::from_label(mode.label()), Some(mode));
    }
    assert_eq!(LayoutMode::from_label("My Custom"), None);
}

#[test]
fn test_layout_mode_helpers() {
    let defs = palette();
    assert_eq!(layout_index_from_mode(LayoutMode::CpuFocus, &defs), 3);
    assert_eq!(mode_from_layout_index(3), LayoutMode::CpuFocus);
    assert_eq!(mode_from_layout_index(42), LayoutMode::Dashboard);
    assert_eq!(
        layout_mode_for_name("My Custom", LayoutMode::Vertical),
        LayoutMode::Vertical
    );
    assert_eq!(
        layout_mode_for_name("Dashboard", LayoutMode::Vertical),
        LayoutMode::Dashboard
    );
}

#[test]
fn test_detect_effective_layout_large() {
    assert_eq!(
        detect_effective_layout(120, 40, LayoutMode::Dashboard),
        EffectiveLayout::Dashboard
    );
}

#[test]
fn test_detect_effective_layout_compact() {
    assert_eq!(
        detect_effective_layout(90, 30, LayoutMode::Dashboard),
        EffectiveLayout::Compact
    );
}

#[test]
fn test_detect_effective_layout_narrow() {
    assert_eq!(
        detect_effective_layout(70, 30, LayoutMode::Dashboard),
        EffectiveLayout::Vertical
    );
}

#[test]
fn test_detect_effective_layout_minimal() {
    assert_eq!(
        detect_effective_layout(50, 15, LayoutMode::Dashboard),
        EffectiveLayout::Minimal
    );
}

#[test]
fn test_detect_effective_layout_focus_respected() {
    assert_eq!(
        detect_effective_layout(80, 30, LayoutMode::CpuFocus),
        EffectiveLayout::CpuFocus
    );
    assert_eq!(
        detect_effective_layout(80, 30, LayoutMode::NetworkFocus),
        EffectiveLayout::NetworkFocus
    );
}

#[test]
fn test_detect_effective_layout_focus_downgrade() {
    assert_eq!(
        detect_effective_layout(50, 30, LayoutMode::CpuFocus),
        EffectiveLayout::Minimal
    );
}

#[test]
fn detect_thresholds_at_their_edges() {
    // Exactly 60x14 is the smallest regular terminal.
    assert_eq!(
        detect_effective_layout(60, 14, LayoutMode::Vertical),
        EffectiveLayout::Vertical
    );
    assert_eq!(
        detect_effective_layout(59, 40, LayoutMode::Vertical),
        EffectiveLayout::Minimal
    );
    assert_eq!(
        detect_effective_layout(200, 13, LayoutMode::ProcessFocus),
        EffectiveLayout::Minimal
    );
    // The dashboard: vertical below 80 columns, compact below 100x28.
    assert_eq!(
        detect_effective_layout(79, 40, LayoutMode::Dashboard),
        EffectiveLayout::Vertical
    );
    assert_eq!(
        detect_effective_layout(80, 40, LayoutMode::Dashboard),
        EffectiveLayout::Compact
    );
    assert_eq!(
        detect_effective_layout(100, 27, LayoutMode::Dashboard),
        EffectiveLayout::Compact
    );
    assert_eq!(
        detect_effective_layout(100, 28, LayoutMode::Dashboard),
        EffectiveLayout::Dashboard
    );
    assert_eq!(
        detect_effective_layout(u16::MAX, u16::MAX, LayoutMode::Dashboard),
        EffectiveLayout::Dashboard
    );
    assert_eq!(
        detect_effective_layout(0, 0, LayoutMode::MemoryFocus),
        EffectiveLayout::Minimal
    );
}

#[test]
fn dashboard_never_worsens_on_a_larger_terminal() {
    fn rank(l: EffectiveLayout) -> u8 {
        match l {
            EffectiveLayout::Minimal => 0,
            EffectiveLayout::Vertical => 1,
            EffectiveLayout::Compact => 2,
            _ => 3,
        }
    }
    let sizes = [0u16, 13, 14, 59, 60, 79, 80, 99, 100, 27, 28, 500];
    for &w1 in &sizes {
        for &h1 in &sizes {
            for &w2 in &sizes {
                for &h2 in &sizes {
                    if w1 <= w2 && h1 <= h2 {
                        let a = detect_effective_layout(w1, h1, LayoutMode::Dashboard);
                        let b = detect_effective_layout(w2, h2, LayoutMode::Dashboard);
                        assert!(rank(a) <= rank(b));
                    }
                }
            }
        }
    }
}

#[test]
fn label_and_names_table_agree_with_slots() {
    for (i, mode) in ALL_MODES.iter().enumerate() {
        assert_eq!(LAYOUT_MODE_NAMES[i], mode.label());
        assert_eq!(mode_from_layout_index(i), *mode);
    }
}

#[test]
fn labels_resolve_exactly() {
    assert_eq!(LayoutMode::CpuFocus.label(), "CPU Focus");
    assert_eq!(LayoutMode::MemoryFocus.label(), "Memory Focus");
    assert_eq!(LayoutMode::from_label("cpu focus"), None);
    assert_eq!(LayoutMode::from_label("Dashboard "), None);
    assert_eq!(LayoutMode::from_label(""), None);
    assert_eq!(
        layout_mode_for_name("Network Focus", LayoutMode::Dashboard),
        LayoutMode::NetworkFocus
    );
}

#[test]
fn seven_steps_of_next_cycle_back() {
    for mode in ALL_MODES {
        let mut m = mode;
        for _ in 0..7 {
            m = m.next();
        }
        assert_eq!(m, mode);
    }
}

#[test]
fn layout_index_falls_back_to_zero() {
    let defs = vec![named("Mine"), named("Other")];
    assert_eq!(layout_index_from_mode(LayoutMode::ProcessFocus, &defs), 0);
    assert_eq!(layout_index_from_mode(LayoutMode::Dashboard, &[]), 0);
    // The first layout of the name wins.
    let defs = vec![named("Mine"), named("Vertical"), named("Vertical")];
    assert_eq!(layout_index_from_mode(LayoutMode::Vertical, &defs), 1);
}

#[test]
fn mode_slots_survive_a_merge() {
    let defaults: Vec<LayoutDef> = palette().into_iter().take(7).collect();
    let mut custom = vec![named("My Layout"), named("CPU Focus"), named("Other")];
    custom[1].root = LayoutNode::Split {
        direction: Direction::Horizontal,
        areas: vec![],
    };
    let merged = merge_layouts(defaults, custom);
    assert_eq!(merged.len(), 9);
    for (i, mode) in ALL_MODES.iter().enumerate() {
        assert_eq!(layout_index_from_mode(*mode, &merged), i);
        assert_eq!(
            mode_from_layout_index(layout_index_from_mode(*mode, &merged)),
            *mode
        );
    }
}
