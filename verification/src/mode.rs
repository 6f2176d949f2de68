//! Layout modes and effective-layout detection: how the requested layout
//! mode degrades depending on the terminal size.

use vstd::prelude::*;
use vstd::string::*;

use crate::loader::{lemma_merge_keeps_slots, merge_spec};
use crate::model::{find_named, index_named, lemma_index_named, LayoutDef};
use crate::text::str_eq;

verus! {

/// The built-in layout modes. Extra user layouts are not represented here:
/// they are addressed by name through the layout definition's name.
#[derive(Clone, Copy, Debug, PartialEq, Eq, Structural)]
pub enum LayoutMode {
    Dashboard,
    Vertical,
    Horizontal,
    CpuFocus,
    MemoryFocus,
    NetworkFocus,
    ProcessFocus,
}

/// Names of the built-in layout modes, in default palette order.
pub const LAYOUT_MODE_NAMES: [&'static str; 7] = [
    "Dashboard",
    "Vertical",
    "Horizontal",
    "CPU Focus",
    "Memory Focus",
    "Network Focus",
    "Process Focus",
];

/// Which layout the user asked for, possibly degraded to fit the terminal.
#[derive(Clone, Copy, Debug, PartialEq, Eq, Structural)]
pub enum EffectiveLayout {
    Dashboard,
    /// Dashboard squeezed below 100x28 (same visual, less padding).
    Compact,
    Vertical,
    Horizontal,
    CpuFocus,
    MemoryFocus,
    NetworkFocus,
    ProcessFocus,
    /// Terminal too small for any regular layout: minimal renderer only.
    Minimal,
}

/// Number of built-in modes, which is also the number of palette slots
/// bound to a mode.
pub open spec fn mode_count() -> nat {
    7
}

/// Display label of a built-in mode (also the name of its default layout).
pub open spec fn spec_label(mode: LayoutMode) -> Seq<char> {
    match mode {
        LayoutMode::Dashboard => "Dashboard"@,
        LayoutMode::Vertical => "Vertical"@,
        LayoutMode::Horizontal => "Horizontal"@,
        LayoutMode::CpuFocus => "CPU Focus"@,
        LayoutMode::MemoryFocus => "Memory Focus"@,
        LayoutMode::NetworkFocus => "Network Focus"@,
        LayoutMode::ProcessFocus => "Process Focus"@,
    }
}

/// Palette slot of a built-in mode among the default layouts.
pub open spec fn spec_mode_slot(mode: LayoutMode) -> nat {
    match mode {
        LayoutMode::Dashboard => 0,
        LayoutMode::Vertical => 1,
        LayoutMode::Horizontal => 2,
        LayoutMode::CpuFocus => 3,
        LayoutMode::MemoryFocus => 4,
        LayoutMode::NetworkFocus => 5,
        LayoutMode::ProcessFocus => 6,
    }
}

/// The mode cycled to after `mode`, in palette order, wrapping around.
pub open spec fn spec_next(mode: LayoutMode) -> LayoutMode {
    match mode {
        LayoutMode::Dashboard => LayoutMode::Vertical,
        LayoutMode::Vertical => LayoutMode::Horizontal,
        LayoutMode::Horizontal => LayoutMode::CpuFocus,
        LayoutMode::CpuFocus => LayoutMode::MemoryFocus,
        LayoutMode::MemoryFocus => LayoutMode::NetworkFocus,
        LayoutMode::NetworkFocus => LayoutMode::ProcessFocus,
        LayoutMode::ProcessFocus => LayoutMode::Dashboard,
    }
}

/// The mode bound to a palette slot; slots past the seven defaults have no
/// mode of their own and map to the dashboard.
pub open spec fn spec_mode_from_index(index: int) -> LayoutMode {
    if index == 0 {
        LayoutMode::Dashboard
    } else if index == 1 {
        LayoutMode::Vertical
    } else if index == 2 {
        LayoutMode::Horizontal
    } else if index == 3 {
        LayoutMode::CpuFocus
    } else if index == 4 {
        LayoutMode::MemoryFocus
    } else if index == 5 {
        LayoutMode::NetworkFocus
    } else if index == 6 {
        LayoutMode::ProcessFocus
    } else {
        LayoutMode::Dashboard
    }
}

/// The mode whose label is `label`, if any built-in mode has it.
pub open spec fn spec_from_label(label: Seq<char>) -> Option<LayoutMode> {
    if label == spec_label(LayoutMode::Dashboard) {
        Some(LayoutMode::Dashboard)
    } else if label == spec_label(LayoutMode::Vertical) {
        Some(LayoutMode::Vertical)
    } else if label == spec_label(LayoutMode::Horizontal) {
        Some(LayoutMode::Horizontal)
    } else if label == spec_label(LayoutMode::CpuFocus) {
        Some(LayoutMode::CpuFocus)
    } else if label == spec_label(LayoutMode::MemoryFocus) {
        Some(LayoutMode::MemoryFocus)
    } else if label == spec_label(LayoutMode::NetworkFocus) {
        Some(LayoutMode::NetworkFocus)
    } else if label == spec_label(LayoutMode::ProcessFocus) {
        Some(LayoutMode::ProcessFocus)
    } else {
        None
    }
}

/// The effective layout for a `width` x `height` terminal when the user
/// asked for `user_mode`: below 60x14 only the minimal renderer fits; the
/// dashboard falls back to the vertical stack below 80 columns and to its
/// compact variant below 100x28; every other mode is kept as requested.
pub open spec fn spec_effective_layout(width: u16, height: u16, user_mode: LayoutMode) -> EffectiveLayout {
    if width < 60 || height < 14 {
        EffectiveLayout::Minimal
    } else {
        match user_mode {
            LayoutMode::Dashboard => if width < 80 {
                EffectiveLayout::Vertical
            } else if width < 100 || height < 28 {
                EffectiveLayout::Compact
            } else {
                EffectiveLayout::Dashboard
            },
            LayoutMode::Vertical => EffectiveLayout::Vertical,
            LayoutMode::Horizontal => EffectiveLayout::Horizontal,
            LayoutMode::CpuFocus => EffectiveLayout::CpuFocus,
            LayoutMode::MemoryFocus => EffectiveLayout::MemoryFocus,
            LayoutMode::NetworkFocus => EffectiveLayout::NetworkFocus,
            LayoutMode::ProcessFocus => EffectiveLayout::ProcessFocus,
        }
    }
}

impl LayoutMode {
    /// The mode that follows `self` when cycling through the palette.
    pub fn next(self) -> (r: Self)
        ensures
            r == spec_next(self),
    {
        match self {
            LayoutMode::Dashboard => LayoutMode::Vertical,
            LayoutMode::Vertical => LayoutMode::Horizontal,
            LayoutMode::Horizontal => LayoutMode::CpuFocus,
            LayoutMode::CpuFocus => LayoutMode::MemoryFocus,
            LayoutMode::MemoryFocus => LayoutMode::NetworkFocus,
            LayoutMode::NetworkFocus => LayoutMode::ProcessFocus,
            LayoutMode::ProcessFocus => LayoutMode::Dashboard,
        }
    }

    /// Display label of the mode, as used for the name of its default layout.
    pub fn label(self) -> (r: &'static str)
        ensures
            r@ == spec_label(self),
    {
        match self {
            LayoutMode::Dashboard => "Dashboard",
            LayoutMode::Vertical => "Vertical",
            LayoutMode::Horizontal => "Horizontal",
            LayoutMode::CpuFocus => "CPU Focus",
            LayoutMode::MemoryFocus => "Memory Focus",
            LayoutMode::NetworkFocus => "Network Focus",
            LayoutMode::ProcessFocus => "Process Focus",
        }
    }

    /// Resolve a layout mode from a display name; `None` for custom layouts
    /// outside the built-ins.
    pub fn from_label(label: &str) -> (r: Option<Self>)
        ensures
            r == spec_from_label(label@),
    {
        if str_eq(label, "Dashboard") {
            Some(LayoutMode::Dashboard)
        } else if str_eq(label, "Vertical") {
            Some(LayoutMode::Vertical)
        } else if str_eq(label, "Horizontal") {
            Some(LayoutMode::Horizontal)
        } else if str_eq(label, "CPU Focus") {
            Some(LayoutMode::CpuFocus)
        } else if str_eq(label, "Memory Focus") {
            Some(LayoutMode::MemoryFocus)
        } else if str_eq(label, "Network Focus") {
            Some(LayoutMode::NetworkFocus)
        } else if str_eq(label, "Process Focus") {
            Some(LayoutMode::ProcessFocus)
        } else {
            None
        }
    }
}

/// Inverse of the palette-slot mapping for the first seven slots (the
/// defaults); any other slot maps to the dashboard.
pub fn mode_from_layout_index(index: usize) -> (r: LayoutMode)
    ensures
        r == spec_mode_from_index(index as int),
{
    match index {
        0 => LayoutMode::Dashboard,
        1 => LayoutMode::Vertical,
        2 => LayoutMode::Horizontal,
        3 => LayoutMode::CpuFocus,
        4 => LayoutMode::MemoryFocus,
        5 => LayoutMode::NetworkFocus,
        6 => LayoutMode::ProcessFocus,
        _ => LayoutMode::Dashboard,
    }
}

/// Map a layout name back to its mode; custom names fall back to `fallback`.
pub fn layout_mode_for_name(name: &str, fallback: LayoutMode) -> (r: LayoutMode)
    ensures
        r == (match spec_from_label(name@) {
            Some(m) => m,
            None => fallback,
        }),
{
    match LayoutMode::from_label(name) {
        Some(m) => m,
        None => fallback,
    }
}

/// How the requested mode degrades for a `width` x `height` terminal.
pub fn detect_effective_layout(width: u16, height: u16, user_mode: LayoutMode) -> (r: EffectiveLayout)
    ensures
        r == spec_effective_layout(width, height, user_mode),
{
    if width < 60 || height < 14 {
        return EffectiveLayout::Minimal;
    }
    match user_mode {
        LayoutMode::Dashboard => {
            if width < 80 {
                EffectiveLayout::Vertical
            } else if width < 100 || height < 28 {
                EffectiveLayout::Compact
            } else {
                EffectiveLayout::Dashboard
            }
        },
        LayoutMode::Vertical => EffectiveLayout::Vertical,
        LayoutMode::Horizontal => EffectiveLayout::Horizontal,
        LayoutMode::CpuFocus => EffectiveLayout::CpuFocus,
        LayoutMode::MemoryFocus => EffectiveLayout::MemoryFocus,
        LayoutMode::NetworkFocus => EffectiveLayout::NetworkFocus,
        LayoutMode::ProcessFocus => EffectiveLayout::ProcessFocus,
    }
}

/// Reveals the characters of every built-in label.
proof fn reveal_labels()
    ensures
        spec_label(LayoutMode::Dashboard) =~= seq!['D', 'a', 's', 'h', 'b', 'o', 'a', 'r', 'd'],
        spec_label(LayoutMode::Vertical) =~= seq!['V', 'e', 'r', 't', 'i', 'c', 'a', 'l'],
        spec_label(LayoutMode::Horizontal) =~= seq!['H', 'o', 'r', 'i', 'z', 'o', 'n', 't', 'a', 'l'],
        spec_label(LayoutMode::CpuFocus) =~= seq!['C', 'P', 'U', ' ', 'F', 'o', 'c', 'u', 's'],
        spec_label(LayoutMode::MemoryFocus) =~= seq!['M', 'e', 'm', 'o', 'r', 'y', ' ', 'F', 'o', 'c', 'u', 's'],
        spec_label(LayoutMode::NetworkFocus) =~= seq!['N', 'e', 't', 'w', 'o', 'r', 'k', ' ', 'F', 'o', 'c', 'u', 's'],
        spec_label(LayoutMode::ProcessFocus) =~= seq!['P', 'r', 'o', 'c', 'e', 's', 's', ' ', 'F', 'o', 'c', 'u', 's'],
{
    reveal_strlit("Dashboard");
    reveal_strlit("Vertical");
    reveal_strlit("Horizontal");
    reveal_strlit("CPU Focus");
    reveal_strlit("Memory Focus");
    reveal_strlit("Network Focus");
    reveal_strlit("Process Focus");
}

/// Distinct built-in modes have distinct labels.
pub proof fn lemma_labels_distinct(a: LayoutMode, b: LayoutMode)
    ensures
        spec_label(a) == spec_label(b) <==> a == b,
{
    reveal_labels();
    if a != b {
        let la = spec_label(a);
        let lb = spec_label(b);
        if la.len() == lb.len() {
            assert(la[0] != lb[0] || la[1] != lb[1]);
        }
    }
}

/// Resolving the label of a built-in mode gives that mode back.
pub proof fn lemma_label_round_trip(mode: LayoutMode)
    ensures
        spec_from_label(spec_label(mode)) == Some(mode),
{
    lemma_labels_distinct(mode, LayoutMode::Dashboard);
    lemma_labels_distinct(mode, LayoutMode::Vertical);
    lemma_labels_distinct(mode, LayoutMode::Horizontal);
    lemma_labels_distinct(mode, LayoutMode::CpuFocus);
    lemma_labels_distinct(mode, LayoutMode::MemoryFocus);
    lemma_labels_distinct(mode, LayoutMode::NetworkFocus);
    lemma_labels_distinct(mode, LayoutMode::ProcessFocus);
}

/// A name resolves to a mode exactly when it is that mode's label.
pub proof fn lemma_from_label_exact(label: Seq<char>, mode: LayoutMode)
    ensures
        spec_from_label(label) == Some(mode) <==> label == spec_label(mode),
{
    lemma_label_round_trip(mode);
    if spec_from_label(label) == Some(mode) {
        let m = spec_from_label(label)->0;
        assert(label == spec_label(m));
    }
}

/// The names table lists the label of the mode bound to each slot.
pub proof fn lemma_mode_names_table(index: int)
    requires
        0 <= index < mode_count(),
    ensures
        LAYOUT_MODE_NAMES[index]@ == spec_label(spec_mode_from_index(index)),
{
}

/// A mode's palette slot maps back to the mode, and each of the first
/// seven slots is the slot of the mode it maps to.
pub proof fn lemma_slot_round_trip(mode: LayoutMode, index: int)
    ensures
        spec_mode_slot(mode) < mode_count(),
        spec_mode_from_index(spec_mode_slot(mode) as int) == mode,
        0 <= index < mode_count() ==> spec_mode_slot(spec_mode_from_index(index)) == index,
{
}

/// Cycling moves to the next palette slot and wraps around after the last
/// mode, so seven steps return to the starting mode.
pub proof fn lemma_next_cycles(mode: LayoutMode)
    ensures
        spec_mode_slot(spec_next(mode)) == (spec_mode_slot(mode) + 1) % mode_count(),
        spec_next(spec_next(spec_next(spec_next(spec_next(spec_next(spec_next(mode))))))) == mode,
{
}

/// Below 60x14 every mode degrades to the minimal renderer, and only there.
pub proof fn lemma_minimal_exactly_when_too_small(width: u16, height: u16, mode: LayoutMode)
    ensures
        spec_effective_layout(width, height, mode) == EffectiveLayout::Minimal <==> (width < 60
            || height < 14),
{
}

/// Every mode other than the dashboard is honoured as soon as the terminal
/// is at least 60x14.
pub proof fn lemma_focus_modes_respected(width: u16, height: u16, mode: LayoutMode)
    requires
        width >= 60,
        height >= 14,
        mode != LayoutMode::Dashboard,
    ensures
        spec_effective_layout(width, height, mode) == spec_effective_layout(
            u16::MAX,
            u16::MAX,
            mode,
        ),
        spec_effective_layout(width, height, mode) != EffectiveLayout::Compact,
        spec_effective_layout(width, height, mode) != EffectiveLayout::Dashboard,
{
}

/// How much of the dashboard a degraded layout keeps: minimal, then the
/// vertical stack, then compact, then the full dashboard.
pub open spec fn dashboard_rank(layout: EffectiveLayout) -> int {
    match layout {
        EffectiveLayout::Minimal => 0,
        EffectiveLayout::Vertical => 1,
        EffectiveLayout::Compact => 2,
        _ => 3,
    }
}

/// The dashboard only ever degrades to the minimal, vertical or compact
/// layouts, is shown in full exactly from 100x28 on, and a larger terminal
/// never gets a more degraded layout than a smaller one.
pub proof fn lemma_dashboard_degrades_monotonically(w1: u16, h1: u16, w2: u16, h2: u16)
    ensures
        ({
            let r = spec_effective_layout(w1, h1, LayoutMode::Dashboard);
            r == EffectiveLayout::Minimal || r == EffectiveLayout::Vertical || r
                == EffectiveLayout::Compact || r == EffectiveLayout::Dashboard
        }),
        spec_effective_layout(w1, h1, LayoutMode::Dashboard) == EffectiveLayout::Dashboard <==> (
        w1 >= 100 && h1 >= 28),
        w1 <= w2 && h1 <= h2 ==> dashboard_rank(
            spec_effective_layout(w1, h1, LayoutMode::Dashboard),
        ) <= dashboard_rank(spec_effective_layout(w2, h2, LayoutMode::Dashboard)),
{
}

/// Position of the layout named after `mode` in `defs`, or 0 when none is.
pub open spec fn spec_layout_index(mode: LayoutMode, defs: Seq<LayoutDef>) -> int {
    let j = index_named(defs, spec_label(mode));
    if j < defs.len() {
        j
    } else {
        0
    }
}

/// Find the index of a built-in mode inside a layout list by matching
/// names. Returns 0 when the mode has no counterpart in `defs` (e.g. all
/// defaults replaced by user layouts).
pub fn layout_index_from_mode(mode: LayoutMode, defs: &[LayoutDef]) -> (r: usize)
    ensures
        r == spec_layout_index(mode, defs@),
{
    let label = String::from_str(mode.label());
    let j = find_named(defs, &label);
    if j < defs.len() {
        j
    } else {
        0
    }
}

/// Whether the first seven layouts of `defs` are the mode-bound defaults:
/// the slot of every mode holds a layout named after that mode.
pub open spec fn has_mode_defaults(defs: Seq<LayoutDef>) -> bool {
    &&& defs.len() >= mode_count()
    &&& forall|m: LayoutMode| #[trigger] defs[spec_mode_slot(m) as int].name@ == spec_label(m)
}

/// With the mode-bound defaults in front, every mode is found at its own
/// slot, and that slot maps back to the mode.
pub proof fn lemma_mode_slots_found(mode: LayoutMode, defs: Seq<LayoutDef>)
    requires
        has_mode_defaults(defs),
    ensures
        spec_layout_index(mode, defs) == spec_mode_slot(mode),
        spec_mode_from_index(spec_layout_index(mode, defs)) == mode,
{
    let label = spec_label(mode);
    let slot = spec_mode_slot(mode) as int;
    lemma_index_named(defs, label, 0);
    assert(defs[slot].name@ == label);
    let j = index_named(defs, label);
    if j < slot {
        let other = spec_mode_from_index(j);
        lemma_slot_round_trip(other, j);
        assert(defs[spec_mode_slot(other) as int].name@ == spec_label(other));
        lemma_labels_distinct(other, mode);
    }
}

/// Mode indices never move: merging user layouts into the mode-bound
/// defaults leaves every mode at its own slot, whatever the user layouts.
pub proof fn lemma_merge_keeps_mode_slots(mode: LayoutMode, defaults: Seq<LayoutDef>, custom: Seq<LayoutDef>)
    requires
        has_mode_defaults(defaults),
    ensures
        spec_layout_index(mode, merge_spec(defaults, custom)) == spec_mode_slot(mode),
        spec_mode_from_index(spec_layout_index(mode, merge_spec(defaults, custom))) == mode,
{
    let merged = merge_spec(defaults, custom);
    lemma_merge_keeps_slots(defaults, custom);
    assert forall|m: LayoutMode| #[trigger] merged[spec_mode_slot(m) as int].name@ == spec_label(m) by {
        assert(defaults[spec_mode_slot(m) as int].name@ == spec_label(m));
    }
    lemma_mode_slots_found(mode, merged);
}

/// Every mode other than the dashboard is shown as the effective layout of
/// the same name on any terminal of at least 60x14.
pub proof fn lemma_non_dashboard_modes_kept(width: u16, height: u16, mode: LayoutMode)
    requires
        width >= 60,
        height >= 14,
    ensures
        mode == LayoutMode::Vertical ==> spec_effective_layout(width, height, mode)
            == EffectiveLayout::Vertical,
        mode == LayoutMode::Horizontal ==> spec_effective_layout(width, height, mode)
            == EffectiveLayout::Horizontal,
        mode == LayoutMode::CpuFocus ==> spec_effective_layout(width, height, mode)
            == EffectiveLayout::CpuFocus,
        mode == LayoutMode::MemoryFocus ==> spec_effective_layout(width, height, mode)
            == EffectiveLayout::MemoryFocus,
        mode == LayoutMode::NetworkFocus ==> spec_effective_layout(width, height, mode)
            == EffectiveLayout::NetworkFocus,
        mode == LayoutMode::ProcessFocus ==> spec_effective_layout(width, height, mode)
            == EffectiveLayout::ProcessFocus,
{
}

/// The dashboard on a terminal of at least 60x14 falls back to the vertical
/// stack exactly below 80 columns; from 80 columns on it is compact below
/// 100x28 and the full dashboard otherwise.
pub proof fn lemma_dashboard_thresholds(width: u16, height: u16)
    requires
        width >= 60,
        height >= 14,
    ensures
        spec_effective_layout(width, height, LayoutMode::Dashboard) == EffectiveLayout::Vertical
            <==> width < 80,
        width >= 80 ==> (spec_effective_layout(width, height, LayoutMode::Dashboard)
            == EffectiveLayout::Compact <==> (width < 100 || height < 28)),
        width >= 80 ==> (spec_effective_layout(width, height, LayoutMode::Dashboard)
            == EffectiveLayout::Dashboard <==> (width >= 100 && height >= 28)),
        width >= 80 ==> (spec_effective_layout(width, height, LayoutMode::Dashboard)
            == EffectiveLayout::Compact || spec_effective_layout(
            width,
            height,
            LayoutMode::Dashboard,
        ) == EffectiveLayout::Dashboard),
{
}

/// Palette slots past the seven mode-bound defaults have no mode of their
/// own: every index from 7 on maps to the dashboard.
pub proof fn lemma_extra_slots_map_to_dashboard(index: int)
    requires
        index >= mode_count(),
    ensures
        spec_mode_from_index(index) == LayoutMode::Dashboard,
{
}

/// The seven mode-bound slots, in palette order: dashboard, vertical,
/// horizontal, CPU focus, memory focus, network focus, process focus.
pub proof fn lemma_slot_modes_in_order()
    ensures
        spec_mode_from_index(0) == LayoutMode::Dashboard,
        spec_mode_from_index(1) == LayoutMode::Vertical,
        spec_mode_from_index(2) == LayoutMode::Horizontal,
        spec_mode_from_index(3) == LayoutMode::CpuFocus,
        spec_mode_from_index(4) == LayoutMode::MemoryFocus,
        spec_mode_from_index(5) == LayoutMode::NetworkFocus,
        spec_mode_from_index(6) == LayoutMode::ProcessFocus,
{
}

/// The index of a mode in a layout list is the first position holding a
/// layout named after the mode, or 0 when no layout is.
pub proof fn lemma_layout_index_first_named(mode: LayoutMode, defs: Seq<LayoutDef>)
    ensures
        (forall|k: int| 0 <= k < defs.len() ==> #[trigger] defs[k].name@ != spec_label(mode))
            ==> spec_layout_index(mode, defs) == 0,
        (exists|k: int| 0 <= k < defs.len() && #[trigger] defs[k].name@ == spec_label(mode)) ==> {
            let r = spec_layout_index(mode, defs);
            &&& 0 <= r < defs.len()
            &&& defs[r].name@ == spec_label(mode)
            &&& forall|k: int| 0 <= k < r ==> #[trigger] defs[k].name@ != spec_label(mode)
        },
{
    lemma_index_named(defs, spec_label(mode), 0);
    let j = index_named(defs, spec_label(mode));
    if j == defs.len() {
        assert forall|k: int| 0 <= k < defs.len() implies #[trigger] defs[k].name@ != spec_label(mode) by {}
    }
}

} // verus!
