//! Layout model: a tree of areas that describes where widgets are rendered
//! inside the terminal, the raw shape in which layout files spell it, and the
//! conversions between the two.
//!
//! The model is UI-framework agnostic: the kernel translates it to concrete
//! constraints at render time.

use vstd::prelude::*;
use vstd::string::*;

use crate::text::{ascii_lower_char, chars_of, is_ascii_char, is_digit, lemma_decimal_digits, lemma_parse_decimal, lemma_parse_plus_decimal, push_char, decimal, lowercase_of, parse_u16, parse_u16_slice, push_decimal, to_lowercase};

verus! {

/// Opaque JSON value carried through as a widget's display options.
#[verifier::external_type_specification]
#[verifier::external_body]
pub struct ExJsonValue(serde_json::Value);

/// Split direction of a container.
#[derive(Clone, Copy, Debug, PartialEq, Eq, Structural)]
pub enum Direction {
    Horizontal,
    Vertical,
}

/// Size constraint of an area inside a split.
#[derive(Clone, Copy, Debug, PartialEq, Eq, Structural)]
pub enum LayoutConstraint {
    /// Fixed number of terminal rows/columns.
    Length(u16),
    /// Percentage of the parent container.
    Percentage(u16),
    /// Fill the remaining space.
    Fill,
}

/// One child of a split: a constraint plus the node it contains.
#[derive(Debug, PartialEq)]
pub struct LayoutArea {
    pub constraint: LayoutConstraint,
    pub node: LayoutNode,
}

/// A node of the layout tree: either a nested split or a widget leaf.
#[derive(Debug, PartialEq)]
pub enum LayoutNode {
    Split { direction: Direction, areas: Vec<LayoutArea> },
    Widget {
        name: String,
        /// Optional per-widget display options: an opaque JSON value passed
        /// through verbatim to the widget renderer; `None` when the layout
        /// has no `options` on this node.
        options: Option<serde_json::Value>,
    },
}

/// A named, user-visible layout definition (a full tree).
#[derive(Debug, PartialEq)]
pub struct LayoutDef {
    pub name: String,
    pub root: LayoutNode,
}

/// The `size` of an area as written in a layout file: a number or a string.
#[derive(Debug, PartialEq)]
pub enum SizeRaw {
    Num(u16),
    Str(String),
}

/// An area as written in a layout file, before validation.
#[derive(Debug, PartialEq)]
pub struct LayoutAreaRaw {
    pub size: Option<SizeRaw>,
    pub widget: Option<String>,
    pub direction: Option<String>,
    pub areas: Option<Vec<LayoutAreaRaw>>,
    pub options: Option<serde_json::Value>,
}

/// A layout definition as written in a layout file, before validation.
#[derive(Debug, PartialEq)]
pub struct LayoutDefRaw {
    pub name: String,
    pub root: LayoutAreaRaw,
}

// ---------------------------------------------------------------------------
// Mathematical models
// ---------------------------------------------------------------------------

/// Model of a layout node.
pub enum NodeModel {
    Split { direction: Direction, areas: Seq<AreaModel> },
    Widget { name: Seq<char>, options: Option<serde_json::Value> },
}

/// Model of a layout area.
pub struct AreaModel {
    pub constraint: LayoutConstraint,
    pub node: NodeModel,
}

/// Model of a layout definition.
pub struct DefModel {
    pub name: Seq<char>,
    pub root: NodeModel,
}

/// Model of a raw size.
pub enum SizeModel {
    Num(u16),
    Str(Seq<char>),
}

/// Model of a raw area.
pub struct RawAreaModel {
    pub size: Option<SizeModel>,
    pub widget: Option<Seq<char>>,
    pub direction: Option<Seq<char>>,
    pub areas: Option<Seq<RawAreaModel>>,
    pub options: Option<serde_json::Value>,
}

/// Model of a raw layout definition.
pub struct RawDefModel {
    pub name: Seq<char>,
    pub root: RawAreaModel,
}

/// The model of a node: names as character sequences, areas as models.
pub open spec fn node_model(n: LayoutNode) -> NodeModel
    decreases n,
{
    match n {
        LayoutNode::Split { direction, areas } => NodeModel::Split {
            direction,
            areas: areas_model(areas@),
        },
        LayoutNode::Widget { name, options } => NodeModel::Widget { name: name@, options },
    }
}

/// The model of an area: its constraint and its node's model.
pub open spec fn area_model(a: LayoutArea) -> AreaModel
    decreases a,
{
    AreaModel { constraint: a.constraint, node: node_model(a.node) }
}

/// The models of a sequence of areas, in order.
pub open spec fn areas_model(s: Seq<LayoutArea>) -> Seq<AreaModel>
    decreases s,
{
    if s.len() == 0 {
        Seq::empty()
    } else {
        areas_model(s.drop_last()).push(area_model(s.last()))
    }
}

/// A copy of a JSON value.
///
/// Trusted: calls `<serde_json::Value as Clone>::clone`. serde_json derives
/// `Clone` for `Value` and clones an object's map by cloning its underlying
/// map, so the copy has the same structure and contents as the original;
/// the contract states that the copy equals the original.
#[verifier::external_body]
fn clone_json(v: &serde_json::Value) -> (r: serde_json::Value)
    ensures
        r == *v,
{
    v.clone()
}

/// A copy of optional widget options.
fn clone_options(o: &Option<serde_json::Value>) -> (r: Option<serde_json::Value>)
    ensures
        r == *o,
{
    match o {
        Some(v) => Some(clone_json(v)),
        None => None,
    }
}

impl Clone for LayoutNode {
    fn clone(&self) -> (r: Self)
        ensures
            node_model(r) == node_model(*self),
        decreases self,
    {
        match self {
            LayoutNode::Split { direction, areas } => {
                let mut copy: Vec<LayoutArea> = Vec::new();
                let mut i: usize = 0;
                while i < areas.len()
                    invariant
                        i <= areas@.len(),
                        *self == (LayoutNode::Split { direction: *direction, areas: *areas }),
                        areas_model(copy@) == areas_model(areas@.take(i as int)),
                    decreases areas@.len() - i,
                {
                    proof {
                        assert(decreases_to!(*self => self->areas));
                        assert(decreases_to!(*areas => areas@));
                        assert(decreases_to!(areas@ => areas@[i as int]));
                    }
                    let a = areas[i].clone();
                    let ghost before = copy@;
                    copy.push(a);
                    i = i + 1;
                    assert(copy@.drop_last() == before);
                    assert(areas@.take(i as int).drop_last() == areas@.take(i - 1));
                }
                assert(areas@.take(areas@.len() as int) == areas@);
                LayoutNode::Split { direction: *direction, areas: copy }
            },
            LayoutNode::Widget { name, options } => LayoutNode::Widget {
                name: name.clone(),
                options: clone_options(options),
            },
        }
    }
}

impl Clone for LayoutArea {
    fn clone(&self) -> (r: Self)
        ensures
            area_model(r) == area_model(*self),
        decreases self,
    {
        let node = self.node.clone();
        LayoutArea { constraint: self.constraint, node }
    }
}

impl Clone for LayoutDef {
    fn clone(&self) -> (r: Self)
        ensures
            def_model(r) == def_model(*self),
    {
        LayoutDef { name: self.name.clone(), root: self.root.clone() }
    }
}

/// The model of a layout definition.
pub open spec fn def_model(d: LayoutDef) -> DefModel {
    DefModel { name: d.name@, root: node_model(d.root) }
}

impl View for LayoutNode {
    type V = NodeModel;

    open spec fn view(&self) -> NodeModel {
        node_model(*self)
    }
}

impl View for LayoutArea {
    type V = AreaModel;

    open spec fn view(&self) -> AreaModel {
        area_model(*self)
    }
}

impl View for LayoutDef {
    type V = DefModel;

    open spec fn view(&self) -> DefModel {
        def_model(*self)
    }
}

/// The model of a sequence of areas has one model per area, in order.
pub proof fn lemma_areas_model_index(s: Seq<LayoutArea>)
    ensures
        areas_model(s).len() == s.len(),
        forall|i: int| 0 <= i < s.len() ==> #[trigger] areas_model(s)[i] == area_model(s[i]),
    decreases s.len(),
{
    if s.len() > 0 {
        lemma_areas_model_index(s.drop_last());
    }
}

// ---------------------------------------------------------------------------
// Raw models
// ---------------------------------------------------------------------------

/// The model of a raw size.
pub open spec fn size_model(s: SizeRaw) -> SizeModel {
    match s {
        SizeRaw::Num(n) => SizeModel::Num(n),
        SizeRaw::Str(t) => SizeModel::Str(t@),
    }
}

/// The model of an optional raw size.
pub open spec fn opt_size_model(s: Option<SizeRaw>) -> Option<SizeModel> {
    match s {
        Some(t) => Some(size_model(t)),
        None => None,
    }
}

/// The characters of an optional string.
pub open spec fn opt_string_model(s: Option<String>) -> Option<Seq<char>> {
    match s {
        Some(t) => Some(t@),
        None => None,
    }
}

/// The model of a raw area.
pub open spec fn raw_area_model(r: LayoutAreaRaw) -> RawAreaModel
    decreases r,
{
    RawAreaModel {
        size: opt_size_model(r.size),
        widget: opt_string_model(r.widget),
        direction: opt_string_model(r.direction),
        areas: match r.areas {
            Some(v) => Some(raw_areas_model(v@)),
            None => None,
        },
        options: r.options,
    }
}

/// The models of a sequence of raw areas, in order.
pub open spec fn raw_areas_model(s: Seq<LayoutAreaRaw>) -> Seq<RawAreaModel>
    decreases s,
{
    if s.len() == 0 {
        Seq::empty()
    } else {
        raw_areas_model(s.drop_last()).push(raw_area_model(s.last()))
    }
}

/// The model of a raw layout definition.
pub open spec fn raw_def_model(d: LayoutDefRaw) -> RawDefModel {
    RawDefModel { name: d.name@, root: raw_area_model(d.root) }
}

impl View for LayoutAreaRaw {
    type V = RawAreaModel;

    open spec fn view(&self) -> RawAreaModel {
        raw_area_model(*self)
    }
}

impl View for LayoutDefRaw {
    type V = RawDefModel;

    open spec fn view(&self) -> RawDefModel {
        raw_def_model(*self)
    }
}

/// The model of a sequence of raw areas has one model per area, in order.
pub proof fn lemma_raw_areas_model_index(s: Seq<LayoutAreaRaw>)
    ensures
        raw_areas_model(s).len() == s.len(),
        forall|i: int| 0 <= i < s.len() ==> #[trigger] raw_areas_model(s)[i] == raw_area_model(s[i]),
    decreases s.len(),
{
    if s.len() > 0 {
        lemma_raw_areas_model_index(s.drop_last());
    }
}

// ---------------------------------------------------------------------------
// From raw areas to the layout tree
// ---------------------------------------------------------------------------

/// `s` without its trailing `%` characters.
pub open spec fn trim_trailing_percent(s: Seq<char>) -> Seq<char>
    decreases s.len(),
{
    if s.len() > 0 && s.last() == '%' {
        trim_trailing_percent(s.drop_last())
    } else {
        s
    }
}

/// The constraint that a raw `size` stands for: absent or `"*"` fills the
/// remaining space, a number is a fixed length, a string ending in `%` is a
/// percentage of the number before the trailing `%` signs; anything else is
/// rejected with a message naming the size.
pub open spec fn constraint_of_size(size: Option<SizeModel>) -> Result<LayoutConstraint, Seq<char>> {
    match size {
        None => Ok(LayoutConstraint::Fill),
        Some(SizeModel::Num(n)) => Ok(LayoutConstraint::Length(n)),
        Some(SizeModel::Str(s)) => if s == "*"@ {
            Ok(LayoutConstraint::Fill)
        } else if s.len() > 0 && s.last() == '%' {
            match parse_u16(trim_trailing_percent(s)) {
                Some(p) => Ok(LayoutConstraint::Percentage(p)),
                None => Err("invalid percentage: "@ + s),
            }
        } else {
            Err("invalid size constraint: "@ + s)
        },
    }
}

/// Whether every character of `s` is ASCII.
pub open spec fn all_ascii(s: Seq<char>) -> bool {
    forall|i: int| 0 <= i < s.len() ==> is_ascii_char(#[trigger] s[i])
}

/// The lowercase form of `s` as `str::to_lowercase` computes it: letter by
/// letter for ASCII text, by the Unicode mapping otherwise.
pub open spec fn lowercased(s: Seq<char>) -> Seq<char> {
    if all_ascii(s) {
        s.map_values(|c: char| ascii_lower_char(c))
    } else {
        lowercase_of(s)
    }
}

/// The split direction that a raw `direction` names, compared after
/// lowercasing.
pub open spec fn direction_named(name: Seq<char>) -> Option<Direction> {
    if lowercased(name) == "horizontal"@ {
        Some(Direction::Horizontal)
    } else if lowercased(name) == "vertical"@ {
        Some(Direction::Vertical)
    } else {
        None
    }
}

/// The area that a raw area describes: its size is checked first; then a
/// `widget` makes a widget leaf (any `direction` is ignored), otherwise a
/// `direction` makes a split of the converted `areas` (none when absent);
/// the first error met, in document order, is the result.
pub open spec fn area_from_raw(r: RawAreaModel) -> Result<AreaModel, Seq<char>>
    decreases r, 1nat,
{
    match constraint_of_size(r.size) {
        Err(e) => Err(e),
        Ok(constraint) => match node_from_raw(r) {
            Err(e) => Err(e),
            Ok(node) => Ok(AreaModel { constraint, node }),
        },
    }
}

/// The node that a raw area describes, ignoring its size.
pub open spec fn node_from_raw(r: RawAreaModel) -> Result<NodeModel, Seq<char>>
    decreases r, 0nat,
{
    match r.widget {
        Some(name) => Ok(NodeModel::Widget { name, options: r.options }),
        None => match r.direction {
            Some(d) => match direction_named(d) {
                None => Err("invalid direction: "@ + d),
                Some(direction) => match r.areas {
                    Some(s) => match areas_from_raw(s) {
                        Err(e) => Err(e),
                        Ok(areas) => Ok(NodeModel::Split { direction, areas }),
                    },
                    None => Ok(NodeModel::Split { direction, areas: Seq::empty() }),
                },
            },
            None => Err("layout area must have 'widget' or 'direction'"@),
        },
    }
}

/// The areas that a sequence of raw areas describes, or the first error.
pub open spec fn areas_from_raw(s: Seq<RawAreaModel>) -> Result<Seq<AreaModel>, Seq<char>>
    decreases s, 2nat,
{
    if s.len() == 0 {
        Ok(Seq::empty())
    } else {
        match areas_from_raw(s.drop_last()) {
            Err(e) => Err(e),
            Ok(prefix) => match area_from_raw(s.last()) {
                Err(e) => Err(e),
                Ok(a) => Ok(prefix.push(a)),
            },
        }
    }
}

/// The layout definition that a raw definition describes: its root area is
/// converted (its size checked and then dropped) and the name kept.
pub open spec fn def_from_raw(d: RawDefModel) -> Result<DefModel, Seq<char>> {
    match area_from_raw(d.root) {
        Err(e) => Err(e),
        Ok(a) => Ok(DefModel { name: d.name, root: a.node }),
    }
}

/// Once a prefix of the raw areas fails, the whole sequence fails with the
/// same error.
pub proof fn lemma_areas_error_prefix(s: Seq<RawAreaModel>, k: int, e: Seq<char>)
    requires
        0 <= k <= s.len(),
        areas_from_raw(s.take(k)) == Err::<Seq<AreaModel>, Seq<char>>(e),
    ensures
        areas_from_raw(s) == Err::<Seq<AreaModel>, Seq<char>>(e),
    decreases s.len() - k,
{
    if k < s.len() {
        assert(s.take(k + 1).drop_last() == s.take(k));
        lemma_areas_error_prefix(s, k + 1, e);
    } else {
        assert(s.take(k) == s);
    }
}

/// The constraint that a raw size stands for, as `constraint_of_size` says.
fn constraint_from_size(size: Option<SizeRaw>) -> (r: Result<LayoutConstraint, String>)
    ensures
        match r {
            Ok(c) => constraint_of_size(opt_size_model(size)) == Ok::<LayoutConstraint, Seq<char>>(c),
            Err(e) => constraint_of_size(opt_size_model(size)) == Err::<LayoutConstraint, Seq<char>>(e@),
        },
{
    match size {
        None => Ok(LayoutConstraint::Fill),
        Some(SizeRaw::Num(n)) => Ok(LayoutConstraint::Length(n)),
        Some(SizeRaw::Str(s)) => {
            if s == String::from_str("*") {
                return Ok(LayoutConstraint::Fill);
            }
            let cs = chars_of(s.as_str());
            let n = cs.len();
            if n > 0 && cs[n - 1] == '%' {
                let mut k = n;
                assert(cs@.take(k as int) == cs@);
                while k > 0 && cs[k - 1] == '%'
                    invariant
                        k <= n == cs@.len(),
                        trim_trailing_percent(cs@) == trim_trailing_percent(cs@.take(k as int)),
                    decreases k,
                {
                    assert(cs@.take(k as int).drop_last() == cs@.take(k - 1));
                    k = k - 1;
                }
                assert(cs@.take(k as int) == cs@.subrange(0, k as int));
                match parse_u16_slice(&cs, 0, k) {
                    Some(p) => Ok(LayoutConstraint::Percentage(p)),
                    None => Err(String::from_str("invalid percentage: ").concat(s.as_str())),
                }
            } else {
                Err(String::from_str("invalid size constraint: ").concat(s.as_str()))
            }
        },
    }
}

/// The split direction a raw `direction` names, as `direction_named` says.
fn direction_from_name(name: &String) -> (r: Option<Direction>)
    ensures
        r == direction_named(name@),
{
    let low = to_lowercase(name.as_str());
    if low == String::from_str("horizontal") {
        Some(Direction::Horizontal)
    } else if low == String::from_str("vertical") {
        Some(Direction::Vertical)
    } else {
        None
    }
}

impl LayoutArea {
    /// Validates a raw area into a layout area, with a human-readable error
    /// for the first invalid part met in document order.
    pub fn try_from(raw: LayoutAreaRaw) -> (res: Result<LayoutArea, String>)
        ensures
            match res {
                Ok(a) => area_from_raw(raw@) == Ok::<AreaModel, Seq<char>>(a@),
                Err(e) => area_from_raw(raw@) == Err::<AreaModel, Seq<char>>(e@),
            },
        decreases raw,
    {
        let ghost r = raw@;
        let ghost whole = raw;
        let LayoutAreaRaw { size, widget, direction, areas, options } = raw;
        let constraint = match constraint_from_size(size) {
            Ok(c) => c,
            Err(e) => return Err(e),
        };
        let node = if let Some(name) = widget {
            LayoutNode::Widget { name, options }
        } else if let Some(dir) = direction {
            let d = match direction_from_name(&dir) {
                Some(d) => d,
                None => return Err(String::from_str("invalid direction: ").concat(dir.as_str())),
            };
            let ghost has_areas = areas is Some;
            let areas_raw: Vec<LayoutAreaRaw> = match areas {
                Some(v) => v,
                None => Vec::new(),
            };
            let ghost items = areas_raw@;
            proof {
                lemma_raw_areas_model_index(items);
                if has_areas {
                    assert(decreases_to!(whole => whole.areas));
                    assert(r.areas == Some(raw_areas_model(items)));
                } else {
                    assert(raw_areas_model(items) =~= Seq::<RawAreaModel>::empty());
                }
            }
            let mut out: Vec<LayoutArea> = Vec::new();
            let mut i: usize = 0;
            for a in it: areas_raw
                invariant
                    it.seq() == items,
                    items == areas_raw@,
                    has_areas ==> whole.areas == Some(areas_raw),
                    !has_areas ==> items.len() == 0,
                    whole == raw,
                    r == raw_area_model(whole),
                    constraint_of_size(r.size) == Ok::<LayoutConstraint, Seq<char>>(constraint),
                    r.widget is None,
                    r.direction == Some(dir@),
                    direction_named(dir@) == Some(d),
                    has_areas ==> r.areas == Some(raw_areas_model(items)),
                    !has_areas ==> r.areas is None,
                    raw_areas_model(items).len() == items.len(),
                    forall|j: int| 0 <= j < items.len() ==> #[trigger] raw_areas_model(items)[j] == raw_area_model(items[j]),
                    areas_from_raw(raw_areas_model(items).take(it.index() as int)) == Ok::<Seq<AreaModel>, Seq<char>>(areas_model(out@)),
            {
                let ghost idx = it.index();
                proof {
                    assert(a == items[idx]);
                    assert(has_areas);
                    assert(decreases_to!(whole => whole.areas));
                    assert(decreases_to!(whole.areas => whole.areas->0));
                    assert(decreases_to!(areas_raw => areas_raw@));
                    assert(decreases_to!(areas_raw@ => areas_raw@[idx]));
                    assert(decreases_to!(raw => a));
                }
                let converted = LayoutArea::try_from(a);
                let ghost pre = raw_areas_model(items).take(idx as int);
                let ghost post = raw_areas_model(items).take(idx + 1);
                proof {
                    assert(post.drop_last() == pre);
                    assert(post.last() == raw_area_model(items[idx]));
                }
                match converted {
                    Ok(x) => {
                        let ghost before = out@;
                        out.push(x);
                        assert(out@.drop_last() == before);
                    },
                    Err(e) => {
                        proof {
                            lemma_areas_error_prefix(raw_areas_model(items), idx + 1, e@);
                        }
                        return Err(e);
                    },
                }
            }
            assert(raw_areas_model(items).take(items.len() as int) == raw_areas_model(items));
            LayoutNode::Split { direction: d, areas: out }
        } else {
            return Err(String::from_str("layout area must have 'widget' or 'direction'"));
        };
        Ok(LayoutArea { constraint, node })
    }
}

impl LayoutDef {
    /// Validates a raw layout definition: the root area is converted (its
    /// size checked, then dropped) and the name kept.
    pub fn try_from(raw: LayoutDefRaw) -> (res: Result<LayoutDef, String>)
        ensures
            match res {
                Ok(d) => def_from_raw(raw@) == Ok::<DefModel, Seq<char>>(d@),
                Err(e) => def_from_raw(raw@) == Err::<DefModel, Seq<char>>(e@),
            },
    {
        let LayoutDefRaw { name, root } = raw;
        match LayoutArea::try_from(root) {
            Ok(area) => Ok(LayoutDef { name, root: area.node }),
            Err(e) => Err(e),
        }
    }
}

// ---------------------------------------------------------------------------
// From the layout tree back to the raw shape
// ---------------------------------------------------------------------------

/// How a direction is spelled in a layout file.
pub open spec fn direction_label(d: Direction) -> Seq<char> {
    match d {
        Direction::Horizontal => "horizontal"@,
        Direction::Vertical => "vertical"@,
    }
}

/// How a constraint is spelled as a `size`: a length as its number, a
/// percentage as its decimal digits followed by `%`, fill as `"*"`.
pub open spec fn size_of_constraint(c: LayoutConstraint) -> SizeModel {
    match c {
        LayoutConstraint::Length(n) => SizeModel::Num(n),
        LayoutConstraint::Percentage(p) => SizeModel::Str(decimal(p as nat).push('%')),
        LayoutConstraint::Fill => SizeModel::Str("*"@),
    }
}

/// The raw shape of a node, without a size: a widget leaf keeps its name
/// and its options; a split spells its direction and lists its areas.
pub open spec fn node_to_raw(n: NodeModel) -> RawAreaModel
    decreases n, 0nat,
{
    match n {
        NodeModel::Widget { name, options } => RawAreaModel {
            size: None,
            widget: Some(name),
            direction: None,
            areas: None,
            options,
        },
        NodeModel::Split { direction, areas } => RawAreaModel {
            size: None,
            widget: None,
            direction: Some(direction_label(direction)),
            areas: Some(areas_to_raw(areas)),
            options: None,
        },
    }
}

/// The raw shape of an area: its node's raw shape with the size spelled out.
pub open spec fn area_to_raw(a: AreaModel) -> RawAreaModel
    decreases a, 1nat,
{
    let r = node_to_raw(a.node);
    RawAreaModel {
        size: Some(size_of_constraint(a.constraint)),
        widget: r.widget,
        direction: r.direction,
        areas: r.areas,
        options: r.options,
    }
}

/// The raw shapes of a sequence of areas, in order.
pub open spec fn areas_to_raw(s: Seq<AreaModel>) -> Seq<RawAreaModel>
    decreases s, 2nat,
{
    if s.len() == 0 {
        Seq::empty()
    } else {
        areas_to_raw(s.drop_last()).push(area_to_raw(s.last()))
    }
}

/// The raw shape of a layout definition: its name and its root node.
pub open spec fn def_to_raw(d: DefModel) -> RawDefModel {
    RawDefModel { name: d.name, root: node_to_raw(d.root) }
}

/// How a direction is spelled in a layout file.
fn direction_text(d: Direction) -> (r: String)
    ensures
        r@ == direction_label(d),
{
    match d {
        Direction::Horizontal => String::from_str("horizontal"),
        Direction::Vertical => String::from_str("vertical"),
    }
}

/// How a constraint is spelled as a raw size.
fn size_text(c: LayoutConstraint) -> (r: SizeRaw)
    ensures
        size_model(r) == size_of_constraint(c),
{
    match c {
        LayoutConstraint::Length(n) => SizeRaw::Num(n),
        LayoutConstraint::Percentage(p) => {
            let mut s = String::new();
            push_decimal(&mut s, p);
            push_char(&mut s, '%');
            assert(s@ =~= decimal(p as nat).push('%'));
            SizeRaw::Str(s)
        },
        LayoutConstraint::Fill => SizeRaw::Str(String::from_str("*")),
    }
}

/// The model of a sequence of raw shapes has one entry per area, in order.
pub proof fn lemma_areas_to_raw_index(s: Seq<AreaModel>)
    ensures
        areas_to_raw(s).len() == s.len(),
        forall|i: int| 0 <= i < s.len() ==> #[trigger] areas_to_raw(s)[i] == area_to_raw(s[i]),
    decreases s.len(),
{
    if s.len() > 0 {
        lemma_areas_to_raw_index(s.drop_last());
    }
}

impl LayoutNode {
    /// The raw shape of this node (without a size), as written to a layout
    /// file.
    pub fn into_raw(self) -> (r: LayoutAreaRaw)
        ensures
            r@ == node_to_raw(self@),
        decreases self,
    {
        let ghost whole = self;
        match self {
            LayoutNode::Widget { name, options } => LayoutAreaRaw {
                size: None,
                widget: Some(name),
                direction: None,
                areas: None,
                options,
            },
            LayoutNode::Split { direction, areas } => {
                let ghost items = areas@;
                proof {
                    lemma_areas_model_index(items);
                }
                let mut out: Vec<LayoutAreaRaw> = Vec::new();
                for a in it: areas
                    invariant
                        it.seq() == items,
                        whole == (LayoutNode::Split { direction, areas }),
                        whole == self,
                        items == areas@,
                        areas_model(items).len() == items.len(),
                        forall|j: int| 0 <= j < items.len() ==> #[trigger] areas_model(items)[j] == area_model(items[j]),
                        raw_areas_model(out@) == areas_to_raw(areas_model(items).take(it.index() as int)),
                {
                    let ghost idx = it.index();
                    proof {
                        assert(a == items[idx]);
                        assert(decreases_to!(whole => whole->areas));
                        assert(decreases_to!(areas => areas@));
                        assert(decreases_to!(areas@ => areas@[idx]));
                        assert(decreases_to!(self => a));
                    }
                    let x = a.into_raw();
                    let ghost before = out@;
                    out.push(x);
                    proof {
                        assert(out@.drop_last() == before);
                        let post = areas_model(items).take(idx + 1);
                        assert(post.drop_last() == areas_model(items).take(idx as int));
                    }
                }
                assert(areas_model(items).take(items.len() as int) == areas_model(items));
                LayoutAreaRaw {
                    size: None,
                    widget: None,
                    direction: Some(direction_text(direction)),
                    areas: Some(out),
                    options: None,
                }
            },
        }
    }
}

impl LayoutArea {
    /// The raw shape of this area, as written to a layout file.
    pub fn into_raw(self) -> (r: LayoutAreaRaw)
        ensures
            r@ == area_to_raw(self@),
        decreases self,
    {
        let LayoutArea { constraint, node } = self;
        let raw = node.into_raw();
        LayoutAreaRaw {
            size: Some(size_text(constraint)),
            widget: raw.widget,
            direction: raw.direction,
            areas: raw.areas,
            options: raw.options,
        }
    }
}

impl LayoutDef {
    /// The raw shape of this layout definition, as written to a layout file.
    pub fn into_raw(self) -> (r: LayoutDefRaw)
        ensures
            r@ == def_to_raw(self@),
    {
        LayoutDefRaw { name: self.name, root: self.root.into_raw() }
    }
}

// ---------------------------------------------------------------------------
// Laws
// ---------------------------------------------------------------------------

/// A constraint spelled as a size reads back as the same constraint.
pub proof fn lemma_size_round_trip(c: LayoutConstraint)
    ensures
        constraint_of_size(Some(size_of_constraint(c))) == Ok::<LayoutConstraint, Seq<char>>(c),
{
    reveal_strlit("*");
    if let LayoutConstraint::Percentage(p) = c {
        let d = decimal(p as nat);
        lemma_decimal_digits(p as nat);
        lemma_parse_decimal(p);
        let s = d.push('%');
        assert(s.drop_last() == d);
        assert(is_digit(d.last()));
        assert(trim_trailing_percent(s) == trim_trailing_percent(d));
        assert(trim_trailing_percent(d) == d);
        assert(s.len() >= 2);
        assert(s != "*"@);
    }
}

/// A direction spelled as in a layout file reads back as the same direction.
pub proof fn lemma_direction_round_trip(d: Direction)
    ensures
        direction_named(direction_label(d)) == Some(d),
{
    reveal_strlit("horizontal");
    reveal_strlit("vertical");
    let h = "horizontal"@;
    let v = "vertical"@;
    assert(all_ascii(h));
    assert(all_ascii(v));
    assert(h.map_values(|c: char| ascii_lower_char(c)) =~= h);
    assert(v.map_values(|c: char| ascii_lower_char(c)) =~= v);
    assert(h != v);
}

/// A node written in its raw shape reads back as the same node.
pub proof fn lemma_node_round_trip(n: NodeModel)
    ensures
        node_from_raw(node_to_raw(n)) == Ok::<NodeModel, Seq<char>>(n),
    decreases n, 0nat,
{
    match n {
        NodeModel::Widget { .. } => {},
        NodeModel::Split { direction, areas } => {
            lemma_direction_round_trip(direction);
            lemma_areas_round_trip(areas);
        },
    }
}

/// An area written in its raw shape reads back as the same area.
pub proof fn lemma_area_round_trip(a: AreaModel)
    ensures
        area_from_raw(area_to_raw(a)) == Ok::<AreaModel, Seq<char>>(a),
    decreases a, 1nat,
{
    lemma_size_round_trip(a.constraint);
    lemma_node_round_trip(a.node);
}

/// Areas written in their raw shape read back as the same areas.
pub proof fn lemma_areas_round_trip(s: Seq<AreaModel>)
    ensures
        areas_from_raw(areas_to_raw(s)) == Ok::<Seq<AreaModel>, Seq<char>>(s),
    decreases s, 2nat,
{
    if s.len() > 0 {
        lemma_areas_round_trip(s.drop_last());
        lemma_area_round_trip(s.last());
        let r = areas_to_raw(s);
        assert(r.drop_last() == areas_to_raw(s.drop_last()));
        assert(s.drop_last().push(s.last()) == s);
    } else {
        assert(areas_to_raw(s) =~= Seq::<RawAreaModel>::empty());
        assert(s =~= Seq::<AreaModel>::empty());
    }
}

/// Mirror writing: every layout definition, written in the raw shape that
/// layout files use, reads back as the same definition.
pub proof fn lemma_def_round_trip(d: DefModel)
    ensures
        def_from_raw(def_to_raw(d)) == Ok::<DefModel, Seq<char>>(d),
{
    lemma_node_round_trip(d.root);
}

// ---------------------------------------------------------------------------
// Finding layouts by name
// ---------------------------------------------------------------------------

/// Position of the first layout named `name` in `s` at or after `from`, or
/// `s.len()` when there is none.
pub open spec fn index_named_from(s: Seq<LayoutDef>, name: Seq<char>, from: int) -> int
    decreases s.len() - from,
{
    if from < 0 || from >= s.len() {
        s.len() as int
    } else if s[from].name@ == name {
        from
    } else {
        index_named_from(s, name, from + 1)
    }
}

/// Position of the first layout named `name` in `s`, or `s.len()` when no
/// layout has that name.
pub open spec fn index_named(s: Seq<LayoutDef>, name: Seq<char>) -> int {
    index_named_from(s, name, 0)
}

/// The position found by name is the first one holding that name.
pub proof fn lemma_index_named(s: Seq<LayoutDef>, name: Seq<char>, from: int)
    requires
        0 <= from <= s.len(),
    ensures
        from <= index_named_from(s, name, from) <= s.len(),
        index_named_from(s, name, from) < s.len() ==> s[index_named_from(s, name, from)].name@
            == name,
        forall|k: int| from <= k < index_named_from(s, name, from) ==> #[trigger] s[k].name@ != name,
    decreases s.len() - from,
{
    if from < s.len() && s[from].name@ != name {
        lemma_index_named(s, name, from + 1);
    }
}

/// Two sequences that agree on the names of a prefix containing a match
/// find the same first position by that name.
pub proof fn lemma_index_named_prefix(a: Seq<LayoutDef>, b: Seq<LayoutDef>, name: Seq<char>, n: int)
    requires
        0 <= n <= a.len(),
        n <= b.len(),
        forall|k: int| 0 <= k < n ==> #[trigger] a[k].name@ == b[k].name@,
        index_named(a, name) < n,
    ensures
        index_named(b, name) == index_named(a, name),
{
    lemma_index_named(a, name, 0);
    lemma_index_named(b, name, 0);
    let i = index_named(a, name);
    let j = index_named(b, name);
    if j < i {
        assert(b[j].name@ == name);
        assert(a[j].name@ != name);
    }
    if i < j {
        assert(a[i].name@ == b[i].name@);
    }
}

/// Finds the first layout named `name`, as `index_named` describes.
pub fn find_named(defs: &[LayoutDef], name: &String) -> (r: usize)
    ensures
        r == index_named(defs@, name@),
{
    let mut j: usize = 0;
    let n = defs.len();
    while j < n && !(defs[j].name == *name)
        invariant
            j <= n == defs@.len(),
            index_named_from(defs@, name@, j as int) == index_named(defs@, name@),
        decreases n - j,
    {
        j += 1;
    }
    j
}

// ---------------------------------------------------------------------------
// Sizes, leaves and splits, stated directly
// ---------------------------------------------------------------------------

/// Whatever its node, an accepted area takes its constraint from its size
/// alone: an absent size or `"*"` fills the remaining space, a number is a
/// fixed length of that many rows or columns, and a percentage string is a
/// percentage of the number before the `%`.
pub proof fn lemma_area_constraint_from_size(r: RawAreaModel)
    ensures
        area_from_raw(r) matches Ok(a) ==> {
            &&& r.size is None ==> a.constraint == LayoutConstraint::Fill
            &&& r.size == Some(SizeModel::Str("*"@)) ==> a.constraint == LayoutConstraint::Fill
            &&& forall|n: u16| r.size == Some(SizeModel::Num(n)) ==> a.constraint
                == LayoutConstraint::Length(n)
            &&& forall|p: u16| r.size == Some(SizeModel::Str(decimal(p as nat).push('%')))
                ==> a.constraint == LayoutConstraint::Percentage(p)
        },
{
    if let Ok(a) = area_from_raw(r) {
        assert forall|p: u16| r.size == Some(SizeModel::Str(decimal(p as nat).push('%')))
            implies a.constraint == LayoutConstraint::Percentage(p) by {
            lemma_size_round_trip(LayoutConstraint::Percentage(p));
        }
    }
}

/// A widget leaf is accepted whenever its size is, under any name, and
/// keeps its name and options; a `direction` next to it is ignored.
pub proof fn lemma_widget_leaf_accepted(r: RawAreaModel, name: Seq<char>)
    requires
        r.widget == Some(name),
    ensures
        constraint_of_size(r.size) is Ok ==> area_from_raw(r) is Ok,
        area_from_raw(r) matches Ok(a) ==> a.node == (NodeModel::Widget { name, options: r.options }),
        r.size is None ==> area_from_raw(r) == Ok::<AreaModel, Seq<char>>(
            AreaModel {
                constraint: LayoutConstraint::Fill,
                node: NodeModel::Widget { name, options: r.options },
            },
        ),
{
}

/// An area with neither a widget nor a direction is rejected, with the same
/// message whatever else it holds, once its size is accepted.
pub proof fn lemma_area_needs_widget_or_direction(r: RawAreaModel)
    requires
        r.widget is None,
        r.direction is None,
        constraint_of_size(r.size) is Ok,
    ensures
        area_from_raw(r) == Err::<AreaModel, Seq<char>>(
            "layout area must have 'widget' or 'direction'"@,
        ),
{
}

/// The two direction words, in lowercase, name the two split directions.
pub proof fn lemma_direction_words()
    ensures
        direction_named("horizontal"@) == Some(Direction::Horizontal),
        direction_named("vertical"@) == Some(Direction::Vertical),
{
    lemma_direction_round_trip(Direction::Horizontal);
    lemma_direction_round_trip(Direction::Vertical);
}

/// A split without a widget keeps its areas in order: each converted area
/// stands at the position of its raw area, and an area without a size fills.
pub proof fn lemma_split_children(r: RawAreaModel, s: Seq<RawAreaModel>)
    requires
        r.widget is None,
        r.direction is Some,
        r.areas == Some(s),
    ensures
        area_from_raw(r) matches Ok(a) ==> a.node matches NodeModel::Split { areas, .. } && areas.len()
            == s.len() && forall|i: int| 0 <= i < s.len() ==> area_from_raw(#[trigger] s[i])
            == Ok::<AreaModel, Seq<char>>(areas[i]) && (s[i].size is None ==> areas[i].constraint
            == LayoutConstraint::Fill),
{
    if let Ok(a) = area_from_raw(r) {
        lemma_areas_from_raw_index(s);
        if let NodeModel::Split { areas, .. } = a.node {
            assert forall|i: int| 0 <= i < s.len() implies area_from_raw(#[trigger] s[i])
                == Ok::<AreaModel, Seq<char>>(areas[i]) && (s[i].size is None ==> areas[i].constraint
                == LayoutConstraint::Fill) by {
                lemma_area_constraint_from_size(s[i]);
            }
        }
    }
}

/// Accepted raw areas convert one by one, in order.
pub proof fn lemma_areas_from_raw_index(s: Seq<RawAreaModel>)
    ensures
        areas_from_raw(s) matches Ok(out) ==> out.len() == s.len() && forall|i: int|
            0 <= i < s.len() ==> area_from_raw(#[trigger] s[i]) == Ok::<AreaModel, Seq<char>>(out[i]),
    decreases s.len(),
{
    if s.len() > 0 {
        lemma_areas_from_raw_index(s.drop_last());
        if let Ok(out) = areas_from_raw(s) {
            let prefix = areas_from_raw(s.drop_last())->Ok_0;
            assert forall|i: int| 0 <= i < s.len() implies area_from_raw(#[trigger] s[i])
                == Ok::<AreaModel, Seq<char>>(out[i]) by {
                if i < s.len() - 1 {
                    assert(s[i] == s.drop_last()[i]);
                    assert(out[i] == prefix[i]);
                }
            }
        }
    }
}

/// A definition is accepted exactly when its root area is, and then keeps
/// its name and takes the root area's node (the root's size is dropped).
pub proof fn lemma_def_from_root(d: RawDefModel)
    ensures
        def_from_raw(d) is Ok <==> area_from_raw(d.root) is Ok,
        def_from_raw(d) matches Ok(m) ==> m.name == d.name && m.root == area_from_raw(d.root)->Ok_0.node,
        area_from_raw(d.root) matches Err(e) ==> def_from_raw(d) == Err::<DefModel, Seq<char>>(e),
{
}

/// `s` followed by `count` percent signs.
pub open spec fn with_percents(s: Seq<char>, count: nat) -> Seq<char>
    decreases count,
{
    if count == 0 {
        s
    } else {
        with_percents(s, (count - 1) as nat).push('%')
    }
}

proof fn lemma_trim_percents(d: Seq<char>, count: nat)
    requires
        d.len() == 0 || d.last() != '%',
    ensures
        trim_trailing_percent(with_percents(d, count)) == d,
    decreases count,
{
    if count > 0 {
        lemma_trim_percents(d, (count - 1) as nat);
        let w = with_percents(d, count);
        assert(w.drop_last() == with_percents(d, (count - 1) as nat));
    }
}

proof fn lemma_with_percents_shape(s: Seq<char>, count: nat)
    ensures
        with_percents(s, count).len() == s.len() + count,
        count > 0 ==> with_percents(s, count).last() == '%',
    decreases count,
{
    if count > 0 {
        lemma_with_percents_shape(s, (count - 1) as nat);
    }
}

/// A percentage is read from the number before however many trailing `%`
/// signs, with an optional `+`; a string that is neither `"*"` nor ends in
/// `%` is rejected as a size constraint, naming it.
pub proof fn lemma_percentage_sizes(p: u16, count: nat, s: Seq<char>)
    requires
        count >= 1,
    ensures
        constraint_of_size(Some(SizeModel::Str(with_percents(decimal(p as nat), count))))
            == Ok::<LayoutConstraint, Seq<char>>(LayoutConstraint::Percentage(p)),
        constraint_of_size(Some(SizeModel::Str(with_percents(seq!['+'] + decimal(p as nat), count))))
            == Ok::<LayoutConstraint, Seq<char>>(LayoutConstraint::Percentage(p)),
        s != "*"@ && (s.len() == 0 || s.last() != '%') ==> constraint_of_size(
            Some(SizeModel::Str(s)),
        ) == Err::<LayoutConstraint, Seq<char>>("invalid size constraint: "@ + s),
{
    reveal_strlit("*");
    let d = decimal(p as nat);
    lemma_decimal_digits(p as nat);
    lemma_parse_decimal(p);
    lemma_parse_plus_decimal(p);
    assert(is_digit(d.last()));
    lemma_trim_percents(d, count);
    let plus = seq!['+'] + d;
    assert(plus.last() == d.last());
    lemma_trim_percents(plus, count);
    let a = with_percents(d, count);
    let b = with_percents(plus, count);
    lemma_with_percents_shape(d, count);
    lemma_with_percents_shape(plus, count);
    assert(a.len() >= 2 && a.last() == '%');
    assert(b.len() >= 2 && b.last() == '%');
    assert(a != "*"@);
    assert(b != "*"@);
}

/// Direction words are matched without regard to ASCII case: an ASCII name
/// names a direction exactly when its letter-by-letter lowercase is that
/// direction's word.
pub proof fn lemma_direction_ascii_case(name: Seq<char>)
    requires
        all_ascii(name),
    ensures
        direction_named(name) == Some(Direction::Horizontal) <==> name.map_values(
            |c: char| ascii_lower_char(c),
        ) == "horizontal"@,
        direction_named(name) == Some(Direction::Vertical) <==> name.map_values(
            |c: char| ascii_lower_char(c),
        ) == "vertical"@,
        direction_named(name) is None <==> (name.map_values(|c: char| ascii_lower_char(c))
            != "horizontal"@ && name.map_values(|c: char| ascii_lower_char(c)) != "vertical"@),
{
    reveal_strlit("horizontal");
    reveal_strlit("vertical");
    assert("horizontal"@.len() != "vertical"@.len());
}

} // verus!
