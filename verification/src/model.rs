//! The point-first plan model.
//!
//! A plan is a set of points; edges join pairs of points; rooms, walls and
//! openings are closed contours over point ids. Geometry (positions, heights,
//! measured distances and angles, sizes) is carried as values of the type
//! parameters `S` (a scalar) and `V` (a 2D vector): the operations here only
//! reorganise the topology and never inspect those values.
use vstd::prelude::*;
use crate::ids::{fresh_id, v4_layout};
use crate::price::TargetObjectType;
use crate::dates::{decimal, push_decimal};
use crate::contour::{succ, contour_has_edge, contour_joins, contour_contains, inserted, insert_in_closed_contour, without, neighbor_pairs, collect_neighbor_pairs, remove_from_contour};
use crate::seqs::{retain_where, map_each, lemma_filter_map_commute, Identified, index_of_id, first_with_id, has_id, lemma_first_with_id_unique};

verus! {

// ---------------------------------------------------------------------------
// Edge style vocabulary
// ---------------------------------------------------------------------------

/// How an edge line is drawn.
#[derive(Debug, Clone, Copy, PartialEq, Eq, Structural, Default)]
pub enum LinePattern {
    #[default]
    Solid,
    Dashed,
    Dotted,
}

impl LinePattern {
    /// The user-facing name of the pattern.
    pub open spec fn spec_label(self) -> Seq<char> {
        match self {
            LinePattern::Solid => "Сплошная"@,
            LinePattern::Dashed => "Штриховая"@,
            LinePattern::Dotted => "Пунктирная"@,
        }
    }

    /// The user-facing name of the pattern.
    pub fn label(&self) -> (r: &'static str)
        ensures
            r@ == self.spec_label(),
    {
        match self {
            LinePattern::Solid => "Сплошная",
            LinePattern::Dashed => "Штриховая",
            LinePattern::Dotted => "Пунктирная",
        }
    }

    /// Every pattern, in menu order.
    pub fn all() -> (r: Vec<LinePattern>)
        ensures
            r@ == seq![LinePattern::Solid, LinePattern::Dashed, LinePattern::Dotted],
    {
        vec![LinePattern::Solid, LinePattern::Dashed, LinePattern::Dotted]
    }
}

/// Which ends of an edge carry an arrow head.
#[derive(Debug, Clone, Copy, PartialEq, Eq, Structural, Default)]
pub enum ArrowMode {
    #[default]
    Neither,
    Forward,
    Backward,
    Both,
}

impl ArrowMode {
    /// The user-facing name of the mode.
    pub open spec fn spec_label(self) -> Seq<char> {
        match self {
            ArrowMode::Neither => "Нет"@,
            ArrowMode::Forward => "A-->>B"@,
            ArrowMode::Backward => "A<<--B"@,
            ArrowMode::Both => "↔ Обе"@,
        }
    }

    /// The user-facing name of the mode.
    pub fn label(&self) -> (r: &'static str)
        ensures
            r@ == self.spec_label(),
    {
        match self {
            ArrowMode::Neither => "Нет",
            ArrowMode::Forward => "A-->>B",
            ArrowMode::Backward => "A<<--B",
            ArrowMode::Both => "↔ Обе",
        }
    }

    /// An arrow head is drawn at the B end.
    pub open spec fn spec_forward(self) -> bool {
        self == ArrowMode::Forward || self == ArrowMode::Both
    }

    /// An arrow head is drawn at the A end.
    pub open spec fn spec_backward(self) -> bool {
        self == ArrowMode::Backward || self == ArrowMode::Both
    }

    /// An arrow head is drawn at the B end.
    pub fn forward(&self) -> (r: bool)
        ensures
            r == self.spec_forward(),
    {
        match self {
            ArrowMode::Forward | ArrowMode::Both => true,
            _ => false,
        }
    }

    /// An arrow head is drawn at the A end.
    pub fn backward(&self) -> (r: bool)
        ensures
            r == self.spec_backward(),
    {
        match self {
            ArrowMode::Backward | ArrowMode::Both => true,
            _ => false,
        }
    }

    /// Every mode, in menu order.
    pub fn all() -> (r: Vec<ArrowMode>)
        ensures
            r@ == seq![ArrowMode::Neither, ArrowMode::Forward, ArrowMode::Backward, ArrowMode::Both],
    {
        vec![ArrowMode::Neither, ArrowMode::Forward, ArrowMode::Backward, ArrowMode::Both]
    }
}

/// Both arrow heads are drawn exactly when the mode is `Both`, and none
/// exactly when it is `Neither`; `Forward` and `Backward` draw one each, at
/// opposite ends.
pub proof fn arrow_mode_ends(m: ArrowMode)
    ensures
        (m == ArrowMode::Both) <==> (m.spec_forward() && m.spec_backward()),
        (m == ArrowMode::Neither) <==> (!m.spec_forward() && !m.spec_backward()),
        (m == ArrowMode::Forward) <==> (m.spec_forward() && !m.spec_backward()),
        (m == ArrowMode::Backward) <==> (!m.spec_forward() && m.spec_backward()),
{
}

// ---------------------------------------------------------------------------
// Entities
// ---------------------------------------------------------------------------

/// A plan point: a position (mm) and the ceiling height there (mm).
#[derive(Debug, Clone, Copy)]
pub struct Point<S, V> {
    pub id: u128,
    pub position: V,
    pub height: S,
}

impl<S, V> Point<S, V> {
    /// A new point with a fresh id.
    pub fn new(position: V, height: S) -> (r: Self)
        ensures
            v4_layout(r.id),
            r.position == position,
            r.height == height,
    {
        Point { id: fresh_id(), position, height }
    }
}

/// A measured segment between two points.
#[derive(Debug, Clone, Copy)]
pub struct Edge<S> {
    pub id: u128,
    pub point_a: u128,
    pub point_b: u128,
    /// Distance in mm; `None` means computed from the point coordinates.
    pub distance_override: Option<S>,
    /// Angle in degrees; `None` means computed from the point coordinates.
    pub angle_override: Option<S>,
    /// The measurement label is shown on the other side of the edge.
    pub label_flip_side: bool,
    /// The measurement label text is turned by 180°.
    pub label_flip_text: bool,
    /// The measurement label is hidden.
    pub label_hidden: bool,
    pub line_pattern: LinePattern,
    pub arrow_mode: ArrowMode,
}

/// An edge between `a` and `b` with no overrides and default styling.
pub open spec fn plain_edge<S>(id: u128, a: u128, b: u128) -> Edge<S> {
    Edge {
        id,
        point_a: a,
        point_b: b,
        distance_override: None,
        angle_override: None,
        label_flip_side: false,
        label_flip_text: false,
        label_hidden: false,
        line_pattern: LinePattern::Solid,
        arrow_mode: ArrowMode::Neither,
    }
}

/// The edge joins `a` and `b`, in either direction.
pub open spec fn edge_joins<S>(e: Edge<S>, a: u128, b: u128) -> bool {
    (e.point_a == a && e.point_b == b) || (e.point_a == b && e.point_b == a)
}

/// The edge has `id` as one of its end points.
pub open spec fn edge_touches<S>(e: Edge<S>, id: u128) -> bool {
    e.point_a == id || e.point_b == id
}

impl<S> Edge<S> {
    /// A new edge from `point_a` to `point_b`, with a fresh id, no overrides
    /// and default styling.
    pub fn new(point_a: u128, point_b: u128) -> (r: Self)
        ensures
            v4_layout(r.id),
            r == plain_edge::<S>(r.id, point_a, point_b),
    {
        Edge {
            id: fresh_id(),
            point_a,
            point_b,
            distance_override: None,
            angle_override: None,
            label_flip_side: false,
            label_flip_text: false,
            label_hidden: false,
            line_pattern: LinePattern::Solid,
            arrow_mode: ArrowMode::Neither,
        }
    }
}

/// A wall: a filled polygon over point ids.
#[derive(Debug, Clone)]
pub struct Wall {
    pub id: u128,
    pub points: Vec<u128>,
    /// Fill colour (RGBA).
    pub color: [u8; 4],
}

/// The mathematical content of a wall.
pub struct WallView {
    pub id: u128,
    pub points: Seq<u128>,
    pub color: [u8; 4],
}

impl View for Wall {
    type V = WallView;

    open spec fn view(&self) -> WallView {
        WallView { id: self.id, points: self.points@, color: self.color }
    }
}

impl Wall {
    /// A new wall with a fresh id.
    pub fn new(points: Vec<u128>, color: [u8; 4]) -> (r: Self)
        ensures
            v4_layout(r.id),
            r.points@ == points@,
            r.color == color,
    {
        Wall { id: fresh_id(), points, color }
    }
}

/// Whether the swing arc of a new door opens away from the polygon.
pub fn default_swing_outward() -> (r: bool)
    ensures
        r,
{
    true
}

/// Door or window, with its sizes (mm).
#[derive(Debug, Clone, Copy)]
pub enum OpeningKind<S> {
    Door {
        height: S,
        width: S,
        reveal_width: S,
        /// The polygon side (0-based) on which the swing arc is drawn.
        swing_edge: usize,
        /// The arc opens away from the polygon rather than into it.
        swing_outward: bool,
        /// The hinge is at the other end of the swing side.
        swing_mirrored: bool,
    },
    Window { height: S, width: S, sill_height: S, reveal_width: S },
}

impl<S: Copy> OpeningKind<S> {
    /// The opening's width (mm).
    pub fn width(&self) -> (r: S)
        ensures
            r == (match *self {
                OpeningKind::Door { width, .. } => width,
                OpeningKind::Window { width, .. } => width,
            }),
    {
        match self {
            OpeningKind::Door { width, .. } => *width,
            OpeningKind::Window { width, .. } => *width,
        }
    }

    /// The opening's height (mm).
    pub fn height(&self) -> (r: S)
        ensures
            r == (match *self {
                OpeningKind::Door { height, .. } => height,
                OpeningKind::Window { height, .. } => height,
            }),
    {
        match self {
            OpeningKind::Door { height, .. } => *height,
            OpeningKind::Window { height, .. } => *height,
        }
    }
}

impl<S> OpeningKind<S> {
    /// The kind of object whose services apply to this opening.
    pub fn target_type(&self) -> (r: TargetObjectType)
        ensures
            r == (match *self {
                OpeningKind::Door { .. } => TargetObjectType::Door,
                OpeningKind::Window { .. } => TargetObjectType::Window,
            }),
    {
        match self {
            OpeningKind::Door { .. } => TargetObjectType::Door,
            OpeningKind::Window { .. } => TargetObjectType::Window,
        }
    }
}

/// A door or window footprint over point ids.
#[derive(Debug, Clone)]
pub struct Opening<S> {
    pub id: u128,
    pub points: Vec<u128>,
    pub kind: OpeningKind<S>,
    /// Fill colour (RGBA).
    pub color: [u8; 4],
}

/// The mathematical content of an opening.
pub struct OpeningView<S> {
    pub id: u128,
    pub points: Seq<u128>,
    pub kind: OpeningKind<S>,
    pub color: [u8; 4],
}

impl<S> View for Opening<S> {
    type V = OpeningView<S>;

    open spec fn view(&self) -> OpeningView<S> {
        OpeningView { id: self.id, points: self.points@, kind: self.kind, color: self.color }
    }
}

impl<S> Opening<S> {
    /// A new opening with a fresh id.
    pub fn new(points: Vec<u128>, kind: OpeningKind<S>, color: [u8; 4]) -> (r: Self)
        ensures
            v4_layout(r.id),
            r.points@ == points@,
            r.kind == kind,
            r.color == color,
    {
        Opening { id: fresh_id(), points, kind, color }
    }

    /// The fill colour used when a stored opening has none.
    pub fn default_color() -> (r: [u8; 4])
        ensures
            r == [180u8, 160u8, 130u8, 200u8],
    {
        [180, 160, 130, 200]
    }
}

/// A free text annotation.
#[derive(Debug, Clone)]
pub struct Label<S, V> {
    pub id: u128,
    pub text: String,
    pub position: V,
    /// Display font size in points.
    pub font_size: S,
    /// Rotation in radians.
    pub rotation: S,
}

/// The mathematical content of a label.
pub struct LabelView<S, V> {
    pub id: u128,
    pub text: Seq<char>,
    pub position: V,
    pub font_size: S,
    pub rotation: S,
}

impl<S, V> View for Label<S, V> {
    type V = LabelView<S, V>;

    open spec fn view(&self) -> LabelView<S, V> {
        LabelView {
            id: self.id,
            text: self.text@,
            position: self.position,
            font_size: self.font_size,
            rotation: self.rotation,
        }
    }
}

impl<S, V> Label<S, V> {
    /// A new label with a fresh id.
    pub fn new(text: String, position: V, font_size: S, rotation: S) -> (r: Self)
        ensures
            v4_layout(r.id),
            r.text@ == text@,
            r.position == position,
            r.font_size == font_size,
            r.rotation == rotation,
    {
        Label { id: fresh_id(), text, position, font_size, rotation }
    }
}

/// A room: an outer contour and optional cutouts (columns, shafts).
#[derive(Debug, Clone)]
pub struct Room<V> {
    pub id: u128,
    pub name: String,
    /// Outer contour.
    pub points: Vec<u128>,
    /// Cutout contours.
    pub cutouts: Vec<Vec<u128>>,
    /// Fill colour (RGBA).
    pub color: [u8; 4],
    /// Offset of the name label from the centroid; `None` means at the centroid.
    pub name_offset: Option<V>,
}

/// The mathematical content of a room.
pub struct RoomView<V> {
    pub id: u128,
    pub name: Seq<char>,
    pub points: Seq<u128>,
    pub cutouts: Seq<Seq<u128>>,
    pub color: [u8; 4],
    pub name_offset: Option<V>,
}

/// The room with `contour` added as one more cutout.
pub open spec fn cutout_added<V>(r: RoomView<V>, contour: Seq<u128>) -> RoomView<V> {
    RoomView { cutouts: r.cutouts.push(contour), ..r }
}

/// The contents of a list of contours.
pub open spec fn contours_view(cs: Seq<Vec<u128>>) -> Seq<Seq<u128>> {
    cs.map_values(|c: Vec<u128>| c@)
}

impl<V> View for Room<V> {
    type V = RoomView<V>;

    open spec fn view(&self) -> RoomView<V> {
        RoomView {
            id: self.id,
            name: self.name@,
            points: self.points@,
            cutouts: contours_view(self.cutouts@),
            color: self.color,
            name_offset: self.name_offset,
        }
    }
}

impl<V> Room<V> {
    /// A new room with a fresh id, no cutouts and the name at the centroid.
    pub fn new(name: String, points: Vec<u128>, color: [u8; 4]) -> (r: Self)
        ensures
            v4_layout(r.id),
            r.name@ == name@,
            r.points@ == points@,
            r.cutouts@.len() == 0,
            r.color == color,
            r.name_offset is None,
    {
        Room { id: fresh_id(), name, points, cutouts: Vec::new(), color, name_offset: None }
    }

    /// The default room fill colour.
    pub fn default_color() -> (r: [u8; 4])
        ensures
            r == [70u8, 130u8, 180u8, 45u8],
    {
        [70, 130, 180, 45]
    }
}

// ---------------------------------------------------------------------------
// Project defaults
// ---------------------------------------------------------------------------

/// Sizes and colours given to newly drawn objects.
#[derive(Debug, Clone, Copy)]
pub struct ProjectDefaults<S> {
    pub point_height: S,
    pub door_height: S,
    pub door_width: S,
    pub door_reveal_width: S,
    pub window_height: S,
    pub window_width: S,
    pub window_sill_height: S,
    pub window_reveal_width: S,
    pub wall_color: [u8; 4],
    pub door_color: [u8; 4],
    pub window_color: [u8; 4],
}

/// The default wall fill colour.
pub fn default_wall_color() -> (r: [u8; 4])
    ensures
        r == [180u8, 180u8, 180u8, 255u8],
{
    [180, 180, 180, 255]
}

/// The default door fill colour.
pub fn default_door_color() -> (r: [u8; 4])
    ensures
        r == [210u8, 170u8, 120u8, 200u8],
{
    [210, 170, 120, 200]
}

/// The default window fill colour.
pub fn default_window_color() -> (r: [u8; 4])
    ensures
        r == [120u8, 190u8, 230u8, 200u8],
{
    [120, 190, 230, 200]
}

// ---------------------------------------------------------------------------
// Project
// ---------------------------------------------------------------------------

/// A whole plan.
#[derive(Debug, Clone)]
pub struct Project<S, V> {
    pub id: u128,
    pub name: String,
    pub points: Vec<Point<S, V>>,
    pub edges: Vec<Edge<S>>,
    pub rooms: Vec<Room<V>>,
    pub walls: Vec<Wall>,
    pub openings: Vec<Opening<S>>,
    pub labels: Vec<Label<S, V>>,
    pub defaults: ProjectDefaults<S>,
}

/// Each kind of entity taken to its mathematical content.
pub open spec fn room_view<V>() -> spec_fn(Room<V>) -> RoomView<V> {
    |r: Room<V>| r@
}

pub open spec fn wall_view() -> spec_fn(Wall) -> WallView {
    |w: Wall| w@
}

pub open spec fn opening_view<S>() -> spec_fn(Opening<S>) -> OpeningView<S> {
    |o: Opening<S>| o@
}

pub open spec fn label_view<S, V>() -> spec_fn(Label<S, V>) -> LabelView<S, V> {
    |l: Label<S, V>| l@
}

impl<S, V> Identified for Point<S, V> {
    open spec fn spec_id(&self) -> u128 {
        self.id
    }

    fn id(&self) -> (r: u128) {
        self.id
    }
}

impl<S> Identified for Edge<S> {
    open spec fn spec_id(&self) -> u128 {
        self.id
    }

    fn id(&self) -> (r: u128) {
        self.id
    }
}

impl<V> Identified for Room<V> {
    open spec fn spec_id(&self) -> u128 {
        self.id
    }

    fn id(&self) -> (r: u128) {
        self.id
    }
}

impl Identified for Wall {
    open spec fn spec_id(&self) -> u128 {
        self.id
    }

    fn id(&self) -> (r: u128) {
        self.id
    }
}

impl<S> Identified for Opening<S> {
    open spec fn spec_id(&self) -> u128 {
        self.id
    }

    fn id(&self) -> (r: u128) {
        self.id
    }
}

impl<S, V> Identified for Label<S, V> {
    open spec fn spec_id(&self) -> u128 {
        self.id
    }

    fn id(&self) -> (r: u128) {
        self.id
    }
}

/// The mathematical content of a plan.
pub struct ProjectView<S, V> {
    pub id: u128,
    pub name: Seq<char>,
    pub points: Seq<Point<S, V>>,
    pub edges: Seq<Edge<S>>,
    pub rooms: Seq<RoomView<V>>,
    pub walls: Seq<WallView>,
    pub openings: Seq<OpeningView<S>>,
    pub labels: Seq<LabelView<S, V>>,
    pub defaults: ProjectDefaults<S>,
}

impl<S, V> View for Project<S, V> {
    type V = ProjectView<S, V>;

    open spec fn view(&self) -> ProjectView<S, V> {
        ProjectView {
            id: self.id,
            name: self.name@,
            points: self.points@,
            edges: self.edges@,
            rooms: self.rooms@.map_values(room_view::<V>()),
            walls: self.walls@.map_values(wall_view()),
            openings: self.openings@.map_values(opening_view::<S>()),
            labels: self.labels@.map_values(label_view::<S, V>()),
            defaults: self.defaults,
        }
    }
}

impl<S, V> ProjectView<S, V> {
    /// The same plan with other points.
    pub open spec fn with_points(self, points: Seq<Point<S, V>>) -> Self {
        ProjectView { points, ..self }
    }

    /// The same plan with other edges.
    pub open spec fn with_edges(self, edges: Seq<Edge<S>>) -> Self {
        ProjectView { edges, ..self }
    }

    /// The same plan with other rooms.
    pub open spec fn with_rooms(self, rooms: Seq<RoomView<V>>) -> Self {
        ProjectView { rooms, ..self }
    }

    /// The same plan with other walls.
    pub open spec fn with_walls(self, walls: Seq<WallView>) -> Self {
        ProjectView { walls, ..self }
    }

    /// The same plan with other openings.
    pub open spec fn with_openings(self, openings: Seq<OpeningView<S>>) -> Self {
        ProjectView { openings, ..self }
    }

    /// The same plan with other labels.
    pub open spec fn with_labels(self, labels: Seq<LabelView<S, V>>) -> Self {
        ProjectView { labels, ..self }
    }
}

/// `i` is the first index of an edge of `edges` joining `a` and `b`.
pub open spec fn first_joining<S>(edges: Seq<Edge<S>>, a: u128, b: u128, i: int) -> bool {
    &&& 0 <= i < edges.len()
    &&& edge_joins(edges[i], a, b)
    &&& forall|j: int| 0 <= j < i ==> !#[trigger] edge_joins(edges[j], a, b)
}

/// Some edge of `edges` joins `a` and `b`.
pub open spec fn edges_join<S>(edges: Seq<Edge<S>>, a: u128, b: u128) -> bool {
    exists|i: int| 0 <= i < edges.len() && #[trigger] edge_joins(edges[i], a, b)
}

/// Every edge of `after` beyond the first `before.len()` carries a freshly
/// drawn (version-4 layout) id.
pub open spec fn appended_fresh<S>(before: Seq<Edge<S>>, after: Seq<Edge<S>>) -> bool {
    forall|j: int| before.len() <= j < after.len() ==> v4_layout(#[trigger] after[j].id)
}

/// `after` is `edges` after making sure that an edge joins `a` and `b`: unchanged
/// when one already does, otherwise with a plain edge carrying `id` appended.
pub open spec fn ensured_edge<S>(edges: Seq<Edge<S>>, a: u128, b: u128, id: u128) -> Seq<Edge<S>> {
    if edges_join(edges, a, b) {
        edges
    } else {
        edges.push(plain_edge(id, a, b))
    }
}

/// `edges` after making sure, pair by pair, that each pair of `pairs` is
/// joined, where `ids[k]` is the id given to a plain edge created for `pairs[k]`.
pub open spec fn ensured_edges<S>(edges: Seq<Edge<S>>, pairs: Seq<(u128, u128)>, ids: Seq<u128>) -> Seq<Edge<S>>
    decreases pairs.len(),
{
    if pairs.len() == 0 {
        edges
    } else {
        let k = pairs.len() - 1;
        ensured_edge(
            ensured_edges(edges, pairs.drop_last(), ids.take(k)),
            pairs[k].0,
            pairs[k].1,
            ids[k],
        )
    }
}

/// The predicate "has an id other than `id`", for each kind of plan entity.
pub open spec fn point_other<S, V>(id: u128) -> spec_fn(Point<S, V>) -> bool {
    |p: Point<S, V>| p.id != id
}

pub open spec fn edge_other<S>(id: u128) -> spec_fn(Edge<S>) -> bool {
    |e: Edge<S>| e.id != id
}

pub open spec fn edge_clear_of<S>(id: u128) -> spec_fn(Edge<S>) -> bool {
    |e: Edge<S>| !edge_touches(e, id)
}

pub open spec fn room_other<V>(id: u128) -> spec_fn(RoomView<V>) -> bool {
    |r: RoomView<V>| r.id != id
}

pub open spec fn wall_other(id: u128) -> spec_fn(WallView) -> bool {
    |w: WallView| w.id != id
}

pub open spec fn opening_other<S>(id: u128) -> spec_fn(OpeningView<S>) -> bool {
    |o: OpeningView<S>| o.id != id
}

pub open spec fn label_other<S, V>(id: u128) -> spec_fn(LabelView<S, V>) -> bool {
    |l: LabelView<S, V>| l.id != id
}

/// The room neither has `id` on its outer contour nor on any cutout.
pub open spec fn room_clear_of<V>(id: u128) -> spec_fn(RoomView<V>) -> bool {
    |r: RoomView<V>|
        !r.points.contains(id) && forall|k: int|
            0 <= k < r.cutouts.len() ==> !(#[trigger] r.cutouts[k]).contains(id)
}

pub open spec fn wall_clear_of(id: u128) -> spec_fn(WallView) -> bool {
    |w: WallView| !w.points.contains(id)
}

pub open spec fn opening_clear_of<S>(id: u128) -> spec_fn(OpeningView<S>) -> bool {
    |o: OpeningView<S>| !o.points.contains(id)
}

/// The room has no side `{a, b}`, neither on its outer contour nor on a cutout.
pub open spec fn room_off_side<V>(a: u128, b: u128) -> spec_fn(RoomView<V>) -> bool {
    |r: RoomView<V>|
        !contour_joins(r.points, a, b) && forall|k: int|
            0 <= k < r.cutouts.len() ==> !contour_joins(#[trigger] r.cutouts[k], a, b)
}

pub open spec fn wall_off_side(a: u128, b: u128) -> spec_fn(WallView) -> bool {
    |w: WallView| !contour_joins(w.points, a, b)
}

pub open spec fn opening_off_side<S>(a: u128, b: u128) -> spec_fn(OpeningView<S>) -> bool {
    |o: OpeningView<S>| !contour_joins(o.points, a, b)
}

/// The plan after deleting point `id` together with every edge, room, wall
/// and opening that uses it.
pub open spec fn removed_point<S, V>(p: ProjectView<S, V>, id: u128) -> ProjectView<S, V> {
    ProjectView {
        points: p.points.filter(point_other(id)),
        edges: p.edges.filter(edge_clear_of(id)),
        rooms: p.rooms.filter(room_clear_of(id)),
        walls: p.walls.filter(wall_clear_of(id)),
        openings: p.openings.filter(opening_clear_of(id)),
        ..p
    }
}

/// The plan after deleting the edges with id `id`, where `{a, b}` are the end
/// points of the first of them: every room, wall and opening with a side
/// `{a, b}` goes too.
pub open spec fn removed_edge<S, V>(p: ProjectView<S, V>, id: u128, a: u128, b: u128) -> ProjectView<S, V> {
    ProjectView {
        edges: p.edges.filter(edge_other(id)),
        rooms: p.rooms.filter(room_off_side(a, b)),
        walls: p.walls.filter(wall_off_side(a, b)),
        openings: p.openings.filter(opening_off_side(a, b)),
        ..p
    }
}

/// Whether the room uses point `id` on its outer contour or on a cutout.
fn room_uses<V>(r: &Room<V>, id: u128) -> (b: bool)
    ensures
        b == !room_clear_of::<V>(id)(r@),
{
    if contour_contains(&r.points, id) {
        return true;
    }
    let n = r.cutouts.len();
    let mut k: usize = 0;
    while k < n
        invariant
            n == r.cutouts@.len(),
            k <= n,
            !r.points@.contains(id),
            forall|j: int| 0 <= j < k ==> !(#[trigger] r.cutouts@[j])@.contains(id),
        decreases n - k,
    {
        if contour_contains(&r.cutouts[k], id) {
            assert(r@.cutouts[k as int] == r.cutouts@[k as int]@);
            return true;
        }
        k = k + 1;
    }
    assert forall|j: int| 0 <= j < r@.cutouts.len() implies !(#[trigger] r@.cutouts[j]).contains(id) by {
        assert(r@.cutouts[j] == r.cutouts@[j]@);
    }
    false
}

/// Whether the room has a side `{a, b}` on its outer contour or on a cutout.
fn room_has_side<V>(r: &Room<V>, a: u128, b: u128) -> (res: bool)
    ensures
        res == !room_off_side::<V>(a, b)(r@),
{
    if contour_has_edge(&r.points, a, b) {
        return true;
    }
    let n = r.cutouts.len();
    let mut k: usize = 0;
    while k < n
        invariant
            n == r.cutouts@.len(),
            k <= n,
            !contour_joins(r.points@, a, b),
            forall|j: int| 0 <= j < k ==> !contour_joins((#[trigger] r.cutouts@[j])@, a, b),
        decreases n - k,
    {
        if contour_has_edge(&r.cutouts[k], a, b) {
            assert(r@.cutouts[k as int] == r.cutouts@[k as int]@);
            return true;
        }
        k = k + 1;
    }
    assert forall|j: int| 0 <= j < r@.cutouts.len() implies !contour_joins(#[trigger] r@.cutouts[j], a, b) by {
        assert(r@.cutouts[j] == r.cutouts@[j]@);
    }
    false
}

/// The room with `new_id` inserted into every side `{a, b}` of every contour.
pub open spec fn room_inserted<V>(r: RoomView<V>, a: u128, b: u128, new_id: u128) -> RoomView<V> {
    RoomView {
        points: inserted(r.points, a, b, new_id),
        cutouts: r.cutouts.map_values(|c: Seq<u128>| inserted(c, a, b, new_id)),
        ..r
    }
}

pub open spec fn wall_inserted(w: WallView, a: u128, b: u128, new_id: u128) -> WallView {
    WallView { points: inserted(w.points, a, b, new_id), ..w }
}

pub open spec fn opening_inserted<S>(o: OpeningView<S>, a: u128, b: u128, new_id: u128) -> OpeningView<S> {
    OpeningView { points: inserted(o.points, a, b, new_id), ..o }
}

/// The plan after splitting the edges with id `edge_id`, whose first one runs
/// from `a` to `b`, at the new point `np`: the point is added, those edges go,
/// `a`–`np` and `np`–`b` are made sure to exist (new edges take their ids from
/// `ids`), and `np` is inserted into every side `{a, b}` of every contour.
pub open spec fn split_view<S, V>(
    p: ProjectView<S, V>,
    edge_id: u128,
    a: u128,
    b: u128,
    np: Point<S, V>,
    ids: Seq<u128>,
) -> ProjectView<S, V> {
    ProjectView {
        points: p.points.push(np),
        edges: ensured_edges(p.edges.filter(edge_other(edge_id)), seq![(a, np.id), (np.id, b)], ids),
        rooms: p.rooms.map_values(|r: RoomView<V>| room_inserted(r, a, b, np.id)),
        walls: p.walls.map_values(|w: WallView| wall_inserted(w, a, b, np.id)),
        openings: p.openings.map_values(|o: OpeningView<S>| opening_inserted(o, a, b, np.id)),
        ..p
    }
}

/// The contour with `new_id` inserted into every side `{a, b}`.
fn contour_with_split_side(c: Vec<u128>, a: u128, b: u128, new_id: u128) -> (d: Vec<u128>)
    ensures
        d@ == inserted(c@, a, b, new_id),
{
    let mut c = c;
    insert_in_closed_contour(&mut c, a, b, new_id);
    c
}

/// The wall with `new_id` inserted into every side `{a, b}`.
fn wall_with_split_side(w: Wall, a: u128, b: u128, new_id: u128) -> (out: Wall)
    ensures
        out@ == wall_inserted(w@, a, b, new_id),
{
    let mut w = w;
    insert_in_closed_contour(&mut w.points, a, b, new_id);
    w
}

/// The opening with `new_id` inserted into every side `{a, b}`.
fn opening_with_split_side<S>(o: Opening<S>, a: u128, b: u128, new_id: u128) -> (out: Opening<S>)
    ensures
        out@ == opening_inserted(o@, a, b, new_id),
{
    let mut o = o;
    insert_in_closed_contour(&mut o.points, a, b, new_id);
    o
}

/// The room with `new_id` inserted into every side `{a, b}` of every contour.
fn room_with_split_side<V>(r: Room<V>, a: u128, b: u128, new_id: u128) -> (out: Room<V>)
    ensures
        out@ == room_inserted(r@, a, b, new_id),
{
    let mut r = r;
    insert_in_closed_contour(&mut r.points, a, b, new_id);
    let ghost cs0 = r.cutouts@;
    let ghost rel = |c: Vec<u128>, d: Vec<u128>| d@ == inserted(c@, a, b, new_id);
    map_each(&mut r.cutouts, |c: Vec<u128>| -> (d: Vec<u128>) ensures d@ == inserted(c@, a, b, new_id) { contour_with_split_side(c, a, b, new_id) }, Ghost(rel));
    assert(contours_view(r.cutouts@) =~= contours_view(cs0).map_values(
        |c: Seq<u128>| inserted(c, a, b, new_id),
    )) by {
        assert forall|k: int| 0 <= k < cs0.len() implies #[trigger] r.cutouts@[k]@ == inserted(cs0[k]@, a, b, new_id) by {
            assert(rel(cs0[k], r.cutouts@[k]));
        }
    }
    r
}

// ---------------------------------------------------------------------------
// Excising a point from contours
// ---------------------------------------------------------------------------

/// The neighbour pairs of `id` in each contour of `cs`, in order.
pub open spec fn contours_pairs(cs: Seq<Seq<u128>>, id: u128) -> Seq<(u128, u128)>
    decreases cs.len(),
{
    if cs.len() == 0 {
        Seq::empty()
    } else {
        contours_pairs(cs.drop_last(), id) + neighbor_pairs(cs.last(), id)
    }
}

/// The neighbour pairs of `id` in a room: outer contour first, then each cutout.
pub open spec fn room_pairs<V>(r: RoomView<V>, id: u128) -> Seq<(u128, u128)> {
    neighbor_pairs(r.points, id) + contours_pairs(r.cutouts, id)
}

pub open spec fn rooms_pairs<V>(rs: Seq<RoomView<V>>, id: u128) -> Seq<(u128, u128)>
    decreases rs.len(),
{
    if rs.len() == 0 {
        Seq::empty()
    } else {
        rooms_pairs(rs.drop_last(), id) + room_pairs(rs.last(), id)
    }
}

pub open spec fn walls_pairs(ws: Seq<WallView>, id: u128) -> Seq<(u128, u128)>
    decreases ws.len(),
{
    if ws.len() == 0 {
        Seq::empty()
    } else {
        walls_pairs(ws.drop_last(), id) + neighbor_pairs(ws.last().points, id)
    }
}

pub open spec fn openings_pairs<S>(os: Seq<OpeningView<S>>, id: u128) -> Seq<(u128, u128)>
    decreases os.len(),
{
    if os.len() == 0 {
        Seq::empty()
    } else {
        openings_pairs(os.drop_last(), id) + neighbor_pairs(os.last().points, id)
    }
}

/// Every pair of neighbours that point `id` separates, in the order rooms
/// (outer contour, then cutouts), walls, openings.
pub open spec fn excision_pairs<S, V>(p: ProjectView<S, V>, id: u128) -> Seq<(u128, u128)> {
    rooms_pairs(p.rooms, id) + walls_pairs(p.walls, id) + openings_pairs(p.openings, id)
}

/// A contour still encloses an area: it has at least three points.
pub open spec fn long_contour() -> spec_fn(Seq<u128>) -> bool {
    |c: Seq<u128>| c.len() >= 3
}

pub open spec fn without_fn(id: u128) -> spec_fn(Seq<u128>) -> Seq<u128> {
    |c: Seq<u128>| without(c, id)
}

/// The room with `id` taken out of its outer contour and cutouts; cutouts left
/// with fewer than three points are dropped.
pub open spec fn room_excised<V>(r: RoomView<V>, id: u128) -> RoomView<V> {
    RoomView {
        points: without(r.points, id),
        cutouts: r.cutouts.map_values(without_fn(id)).filter(long_contour()),
        ..r
    }
}

pub open spec fn wall_excised(w: WallView, id: u128) -> WallView {
    WallView { points: without(w.points, id), ..w }
}

pub open spec fn opening_excised<S>(o: OpeningView<S>, id: u128) -> OpeningView<S> {
    OpeningView { points: without(o.points, id), ..o }
}

pub open spec fn room_excise_fn<V>(id: u128) -> spec_fn(RoomView<V>) -> RoomView<V> {
    |r: RoomView<V>| room_excised(r, id)
}

pub open spec fn wall_excise_fn(id: u128) -> spec_fn(WallView) -> WallView {
    |w: WallView| wall_excised(w, id)
}

pub open spec fn opening_excise_fn<S>(id: u128) -> spec_fn(OpeningView<S>) -> OpeningView<S> {
    |o: OpeningView<S>| opening_excised(o, id)
}

pub open spec fn room_kept<V>() -> spec_fn(RoomView<V>) -> bool {
    |r: RoomView<V>| r.points.len() >= 3
}

pub open spec fn wall_kept() -> spec_fn(WallView) -> bool {
    |w: WallView| w.points.len() >= 3
}

pub open spec fn opening_kept<S>() -> spec_fn(OpeningView<S>) -> bool {
    |o: OpeningView<S>| o.points.len() >= 3
}

/// The plan after removing point `id` "smartly": `id` is taken out of every
/// contour, objects and cutouts left with fewer than three points are
/// dropped, the edges at `id` go, each pair of neighbours that `id` separated
/// is made sure to be joined (new edges take their ids from `ids`), and the
/// point itself goes.
pub open spec fn smart_removed<S, V>(p: ProjectView<S, V>, id: u128, ids: Seq<u128>) -> ProjectView<S, V> {
    ProjectView {
        points: p.points.filter(point_other(id)),
        edges: ensured_edges(p.edges.filter(edge_clear_of(id)), excision_pairs(p, id), ids),
        rooms: p.rooms.map_values(room_excise_fn(id)).filter(room_kept()),
        walls: p.walls.map_values(wall_excise_fn(id)).filter(wall_kept()),
        openings: p.openings.map_values(opening_excise_fn(id)).filter(opening_kept()),
        ..p
    }
}

/// The contour without `id`, recording the neighbour pairs `id` separated.
fn excise_contour(c: Vec<u128>, id: u128, pairs: &mut Vec<(u128, u128)>) -> (d: Vec<u128>)
    ensures
        d@ == without(c@, id),
        final(pairs)@ == old(pairs)@ + neighbor_pairs(c@, id),
{
    let mut c = c;
    collect_neighbor_pairs(&c, id, pairs);
    remove_from_contour(&mut c, id);
    c
}

/// The room with `id` excised from all its contours (short cutouts dropped),
/// recording the neighbour pairs `id` separated.
fn excise_room<V>(r: Room<V>, id: u128, pairs: &mut Vec<(u128, u128)>) -> (out: Room<V>)
    ensures
        out@ == room_excised(r@, id),
        final(pairs)@ == old(pairs)@ + room_pairs(r@, id),
{
    broadcast use Seq::lemma_filter_push;

    let ghost r0 = r@;
    let mut r = r;
    let ghost base = pairs@;
    let mut points: Vec<u128> = Vec::new();
    std::mem::swap(&mut points, &mut r.points);
    let ghost p0 = points@;
    r.points = excise_contour(points, id, pairs);
    let ghost base2 = pairs@;

    let mut src: Vec<Vec<u128>> = Vec::new();
    std::mem::swap(&mut src, &mut r.cutouts);
    let mut kept: Vec<Vec<u128>> = Vec::new();
    let ghost cs = contours_view(src@);
    for c in it: src.into_iter()
        invariant
            cs == contours_view(it.seq()),
            contours_view(kept@) == cs.take(it.index() as int).map_values(without_fn(id)).filter(long_contour()),
            pairs@ == base2 + contours_pairs(cs.take(it.index() as int), id),
            r.points@ == without(r0.points, id),
            r.id == r0.id,
            r.name@ == r0.name,
            r.color == r0.color,
            r.name_offset == r0.name_offset,
    {
        let ghost k = it.index() as int;
        let ghost before = pairs@;
        let d = excise_contour(c, id, pairs);
        proof {
            assert(cs[k] == c@);
            assert(cs.take(k + 1) =~= cs.take(k).push(c@));
            assert(cs.take(k + 1).drop_last() =~= cs.take(k));
            assert(cs.take(k + 1).map_values(without_fn(id)) =~= cs.take(k).map_values(without_fn(id)).push(without(c@, id)));
            assert(pairs@ =~= base2 + contours_pairs(cs.take(k + 1), id));
            cs.take(k).map_values(without_fn(id)).lemma_filter_push(without(c@, id), long_contour());
        }
        if d.len() >= 3 {
            let ghost cv = kept@;
            kept.push(d);
            proof {
                assert(contours_view(kept@) =~= contours_view(cv).push(without(c@, id)));
            }
        }
    }
    r.cutouts = kept;
    proof {
        assert(cs.take(cs.len() as int) =~= cs);
        assert(p0 == r0.points);
        assert(cs == r0.cutouts);
        assert(pairs@ =~= base + room_pairs(r0, id));
        assert(r@.cutouts == room_excised(r0, id).cutouts);
        assert(r@.points == room_excised(r0, id).points);
        assert(r@ == room_excised(r0, id));
    }
    r
}

/// The sides of a closed contour, as (vertex, next vertex) pairs.
pub open spec fn contour_sides(c: Seq<u128>) -> Seq<(u128, u128)> {
    Seq::new(c.len(), |i: int| (c[i], c[succ(c.len() as int, i)]))
}

/// Position in `points` of the first point with id `id` (meaningful when there is one).
pub open spec fn point_index_of<S, V>(points: Seq<Point<S, V>>, id: u128) -> int {
    choose|i: int| first_with_id(points, id, i)
}

/// The positions of the points named by `ids`, in order, skipping unknown ids.
pub open spec fn resolved<S, V>(points: Seq<Point<S, V>>, ids: Seq<u128>) -> Seq<V>
    decreases ids.len(),
{
    if ids.len() == 0 {
        Seq::empty()
    } else {
        let rest = resolved(points, ids.drop_last());
        if has_id(points, ids.last()) {
            rest.push(points[point_index_of(points, ids.last())].position)
        } else {
            rest
        }
    }
}

/// Positions (in order) of the openings among the first `k` whose contour has a side `{a, b}`.
pub open spec fn openings_on_side_prefix<S>(os: Seq<OpeningView<S>>, a: u128, b: u128, k: nat) -> Seq<usize>
    decreases k,
{
    if k == 0 || k > os.len() {
        Seq::empty()
    } else {
        let rest = openings_on_side_prefix(os, a, b, (k - 1) as nat);
        if contour_joins(os[k - 1].points, a, b) {
            rest.push((k - 1) as usize)
        } else {
            rest
        }
    }
}

impl<S, V> Project<S, V> {
    /// A new empty plan with a fresh id.
    pub fn new(name: String, defaults: ProjectDefaults<S>) -> (r: Self)
        ensures
            v4_layout(r.id),
            r@.name == name@,
            r@.defaults == defaults,
            r@.points.len() == 0,
            r@.edges.len() == 0,
            r@.rooms.len() == 0,
            r@.walls.len() == 0,
            r@.openings.len() == 0,
            r@.labels.len() == 0,
    {
        Project {
            id: fresh_id(),
            name,
            points: Vec::new(),
            edges: Vec::new(),
            rooms: Vec::new(),
            walls: Vec::new(),
            openings: Vec::new(),
            labels: Vec::new(),
            defaults,
        }
    }

    /// Position of the first edge joining `a` and `b` (either direction).
    pub fn find_edge_index(&self, a: u128, b: u128) -> (r: Option<usize>)
        ensures
            match r {
                Some(i) => first_joining(self.edges@, a, b, i as int),
                None => !edges_join(self.edges@, a, b),
            },
    {
        let n = self.edges.len();
        let mut i: usize = 0;
        while i < n
            invariant
                n == self.edges@.len(),
                i <= n,
                forall|j: int| 0 <= j < i ==> !#[trigger] edge_joins(self.edges@[j], a, b),
            decreases n - i,
        {
            let e = &self.edges[i];
            if (e.point_a == a && e.point_b == b) || (e.point_a == b && e.point_b == a) {
                return Some(i);
            }
            i = i + 1;
        }
        None
    }

    /// The first edge joining `a` and `b` (either direction).
    pub fn find_edge(&self, a: u128, b: u128) -> (r: Option<&Edge<S>>)
        ensures
            match r {
                Some(e) => exists|i: int| first_joining(self.edges@, a, b, i) && self.edges@[i] == *e,
                None => !edges_join(self.edges@, a, b),
            },
    {
        match self.find_edge_index(a, b) {
            Some(i) => Some(&self.edges[i]),
            None => None,
        }
    }

    /// Makes sure an edge joins `a` and `b`; returns the id of the first such
    /// edge, or of the plain edge appended for them.
    pub fn ensure_edge(&mut self, a: u128, b: u128) -> (r: u128)
        ensures
            final(self)@ == old(self)@.with_edges(ensured_edge(old(self)@.edges, a, b, r)),
            exists|i: int| first_joining(final(self)@.edges, a, b, i) && final(self)@.edges[i].id == r,
            !edges_join(old(self)@.edges, a, b) ==> v4_layout(r),
            appended_fresh(old(self)@.edges, final(self)@.edges),
    {
        match self.find_edge_index(a, b) {
            Some(i) => self.edges[i].id,
            None => {
                let e: Edge<S> = Edge::new(a, b);
                let id = e.id;
                self.edges.push(e);
                assert(first_joining(self@.edges, a, b, self@.edges.len() - 1));
                id
            }
        }
    }
    /// The first point with id `id`.
    pub fn point(&self, id: u128) -> (r: Option<&Point<S, V>>)
        ensures
            match r {
                Some(x) => exists|i: int| first_with_id(self.points@, id, i) && self.points@[i] == *x,
                None => !has_id(self.points@, id),
            },
    {
        match index_of_id(&self.points, id) {
            Some(i) => Some(&self.points[i]),
            None => None,
        }
    }

    /// The first edge with id `id`.
    pub fn edge(&self, id: u128) -> (r: Option<&Edge<S>>)
        ensures
            match r {
                Some(x) => exists|i: int| first_with_id(self.edges@, id, i) && self.edges@[i] == *x,
                None => !has_id(self.edges@, id),
            },
    {
        match index_of_id(&self.edges, id) {
            Some(i) => Some(&self.edges[i]),
            None => None,
        }
    }

    /// The first room with id `id`.
    pub fn room(&self, id: u128) -> (r: Option<&Room<V>>)
        ensures
            match r {
                Some(x) => exists|i: int| first_with_id(self.rooms@, id, i) && self.rooms@[i] == *x,
                None => !has_id(self.rooms@, id),
            },
    {
        match index_of_id(&self.rooms, id) {
            Some(i) => Some(&self.rooms[i]),
            None => None,
        }
    }

    /// The first wall with id `id`.
    pub fn wall(&self, id: u128) -> (r: Option<&Wall>)
        ensures
            match r {
                Some(x) => exists|i: int| first_with_id(self.walls@, id, i) && self.walls@[i] == *x,
                None => !has_id(self.walls@, id),
            },
    {
        match index_of_id(&self.walls, id) {
            Some(i) => Some(&self.walls[i]),
            None => None,
        }
    }

    /// The first opening with id `id`.
    pub fn opening(&self, id: u128) -> (r: Option<&Opening<S>>)
        ensures
            match r {
                Some(x) => exists|i: int| first_with_id(self.openings@, id, i) && self.openings@[i] == *x,
                None => !has_id(self.openings@, id),
            },
    {
        match index_of_id(&self.openings, id) {
            Some(i) => Some(&self.openings[i]),
            None => None,
        }
    }

    /// The first label with id `id`.
    pub fn label(&self, id: u128) -> (r: Option<&Label<S, V>>)
        ensures
            match r {
                Some(x) => exists|i: int| first_with_id(self.labels@, id, i) && self.labels@[i] == *x,
                None => !has_id(self.labels@, id),
            },
    {
        match index_of_id(&self.labels, id) {
            Some(i) => Some(&self.labels[i]),
            None => None,
        }
    }

    /// Deletes every room with id `id`.
    pub fn remove_room(&mut self, id: u128)
        ensures
            final(self)@ == old(self)@.with_rooms(old(self)@.rooms.filter(room_other(id))),
    {
        let ghost before = self.rooms@;
        let ghost keep = |r: Room<V>| r.id != id;
        retain_where(&mut self.rooms, |r: &Room<V>| -> (b: bool) ensures b == (r.id != id) { r.id != id }, Ghost(keep));
        proof { lemma_filter_map_commute(before, room_view::<V>(), keep, room_other::<V>(id)); }
    }

    /// Deletes every wall with id `id`.
    pub fn remove_wall(&mut self, id: u128)
        ensures
            final(self)@ == old(self)@.with_walls(old(self)@.walls.filter(wall_other(id))),
    {
        let ghost before = self.walls@;
        let ghost keep = |w: Wall| w.id != id;
        retain_where(&mut self.walls, |w: &Wall| -> (b: bool) ensures b == (w.id != id) { w.id != id }, Ghost(keep));
        proof { lemma_filter_map_commute(before, wall_view(), keep, wall_other(id)); }
    }

    /// Deletes every opening with id `id`.
    pub fn remove_opening(&mut self, id: u128)
        ensures
            final(self)@ == old(self)@.with_openings(old(self)@.openings.filter(opening_other(id))),
    {
        let ghost before = self.openings@;
        let ghost keep = |o: Opening<S>| o.id != id;
        retain_where(&mut self.openings, |o: &Opening<S>| -> (b: bool) ensures b == (o.id != id) { o.id != id }, Ghost(keep));
        proof { lemma_filter_map_commute(before, opening_view::<S>(), keep, opening_other::<S>(id)); }
    }

    /// Deletes every label with id `id`.
    pub fn remove_label(&mut self, id: u128)
        ensures
            final(self)@ == old(self)@.with_labels(old(self)@.labels.filter(label_other(id))),
    {
        let ghost before = self.labels@;
        let ghost keep = |l: Label<S, V>| l.id != id;
        retain_where(&mut self.labels, |l: &Label<S, V>| -> (b: bool) ensures b == (l.id != id) { l.id != id }, Ghost(keep));
        proof { lemma_filter_map_commute(before, label_view::<S, V>(), keep, label_other::<S, V>(id)); }
    }

    /// Deletes point `id` together with every edge, room, wall and opening that uses it.
    pub fn remove_point(&mut self, id: u128)
        ensures
            final(self)@ == removed_point(old(self)@, id),
    {
        retain_where(&mut self.edges, |e: &Edge<S>| -> (b: bool) ensures b == !edge_touches(*e, id) { e.point_a != id && e.point_b != id }, Ghost(edge_clear_of::<S>(id)));

        let ghost rooms0 = self.rooms@;
        let ghost keep_room = |r: Room<V>| room_clear_of::<V>(id)(r@);
        retain_where(&mut self.rooms, |r: &Room<V>| -> (b: bool) ensures b == room_clear_of::<V>(id)(r@) { !room_uses(r, id) }, Ghost(keep_room));
        proof { lemma_filter_map_commute(rooms0, room_view::<V>(), keep_room, room_clear_of::<V>(id)); }

        let ghost walls0 = self.walls@;
        let ghost keep_wall = |w: Wall| wall_clear_of(id)(w@);
        retain_where(&mut self.walls, |w: &Wall| -> (b: bool) ensures b == wall_clear_of(id)(w@) { !contour_contains(&w.points, id) }, Ghost(keep_wall));
        proof { lemma_filter_map_commute(walls0, wall_view(), keep_wall, wall_clear_of(id)); }

        let ghost openings0 = self.openings@;
        let ghost keep_opening = |o: Opening<S>| opening_clear_of::<S>(id)(o@);
        retain_where(&mut self.openings, |o: &Opening<S>| -> (b: bool) ensures b == opening_clear_of::<S>(id)(o@) { !contour_contains(&o.points, id) }, Ghost(keep_opening));
        proof { lemma_filter_map_commute(openings0, opening_view::<S>(), keep_opening, opening_clear_of::<S>(id)); }

        retain_where(&mut self.points, |p: &Point<S, V>| -> (b: bool) ensures b == (p.id != id) { p.id != id }, Ghost(point_other::<S, V>(id)));
    }

    /// Deletes the edges with id `id`; when one exists, every room (outer
    /// contour or cutout), wall and opening having its end points as a side goes too.
    pub fn remove_edge(&mut self, id: u128)
        ensures
            has_id(old(self)@.edges, id) ==> exists|i: int|
                first_with_id(old(self)@.edges, id, i) && final(self)@ == removed_edge(
                    old(self)@,
                    id,
                    old(self)@.edges[i].point_a,
                    old(self)@.edges[i].point_b,
                ),
            !has_id(old(self)@.edges, id) ==> final(self)@ == old(self)@,
    {
        let ghost p0 = self@;
        match index_of_id(&self.edges, id) {
            Some(i) => {
                let a = self.edges[i].point_a;
                let b = self.edges[i].point_b;

                let ghost rooms0 = self.rooms@;
                let ghost keep_room = |r: Room<V>| room_off_side::<V>(a, b)(r@);
                retain_where(&mut self.rooms, |r: &Room<V>| -> (res: bool) ensures res == room_off_side::<V>(a, b)(r@) { !room_has_side(r, a, b) }, Ghost(keep_room));
                proof { lemma_filter_map_commute(rooms0, room_view::<V>(), keep_room, room_off_side::<V>(a, b)); }

                let ghost walls0 = self.walls@;
                let ghost keep_wall = |w: Wall| wall_off_side(a, b)(w@);
                retain_where(&mut self.walls, |w: &Wall| -> (res: bool) ensures res == wall_off_side(a, b)(w@) { !contour_has_edge(&w.points, a, b) }, Ghost(keep_wall));
                proof { lemma_filter_map_commute(walls0, wall_view(), keep_wall, wall_off_side(a, b)); }

                let ghost openings0 = self.openings@;
                let ghost keep_opening = |o: Opening<S>| opening_off_side::<S>(a, b)(o@);
                retain_where(&mut self.openings, |o: &Opening<S>| -> (res: bool) ensures res == opening_off_side::<S>(a, b)(o@) { !contour_has_edge(&o.points, a, b) }, Ghost(keep_opening));
                proof { lemma_filter_map_commute(openings0, opening_view::<S>(), keep_opening, opening_off_side::<S>(a, b)); }

                retain_where(&mut self.edges, |e: &Edge<S>| -> (res: bool) ensures res == (e.id != id) { e.id != id }, Ghost(edge_other::<S>(id)));
                assert(first_with_id(p0.edges, id, i as int));
            }
            None => {}
        }
    }
    /// Splits the edge `edge_id` (from A to B) at a new point at `position`
    /// with ceiling `height`: the point is added, the edge is removed, edges
    /// A–new and new–B are made sure to exist, and the new point is inserted
    /// between A and B in every room, cutout, wall and opening contour that
    /// has the side A–B. Returns the new point's id.
    pub fn split_edge(&mut self, edge_id: u128, position: V, height: S) -> (r: u128)
        requires
            has_id(old(self)@.edges, edge_id),
        ensures
            v4_layout(r),
            exists|i: int, ids: Seq<u128>|
                first_with_id(old(self)@.edges, edge_id, i) && ids.len() == 2 && final(self)@
                    == split_view(
                    old(self)@,
                    edge_id,
                    old(self)@.edges[i].point_a,
                    old(self)@.edges[i].point_b,
                    Point { id: r, position, height },
                    ids,
                ),
    {
        let ghost p0 = self@;
        let i = match index_of_id(&self.edges, edge_id) {
            Some(i) => i,
            None => {
                assert(false);
                0
            },
        };
        let pa = self.edges[i].point_a;
        let pb = self.edges[i].point_b;

        let new_point = Point::new(position, height);
        let new_id = new_point.id;
        self.points.push(new_point);

        retain_where(&mut self.edges, |e: &Edge<S>| -> (res: bool) ensures res == (e.id != edge_id) { e.id != edge_id }, Ghost(edge_other::<S>(edge_id)));
        let ghost edges1 = self.edges@;
        let id1 = self.ensure_edge(pa, new_id);
        let id2 = self.ensure_edge(new_id, pb);
        let ghost ids = seq![id1, id2];
        proof {
            let pairs = seq![(pa, new_id), (new_id, pb)];
            assert(pairs.drop_last() =~= seq![(pa, new_id)]);
            assert(pairs.drop_last().drop_last() =~= Seq::<(u128, u128)>::empty());
            assert(ids.take(1) =~= seq![id1]);
            assert(ids.take(1).take(0) =~= Seq::<u128>::empty());
            reveal_with_fuel(ensured_edges, 3);
            assert(self.edges@ == ensured_edges(edges1, pairs, ids));
        }

        let ghost rooms0 = self.rooms@;
        let ghost rrel = |x: Room<V>, y: Room<V>| y@ == room_inserted(x@, pa, pb, new_id);
        map_each(&mut self.rooms, |x: Room<V>| -> (y: Room<V>) ensures y@ == room_inserted(x@, pa, pb, new_id) { room_with_split_side(x, pa, pb, new_id) }, Ghost(rrel));
        assert(self.rooms@.map_values(room_view::<V>()) =~= rooms0.map_values(room_view::<V>()).map_values(
            |r: RoomView<V>| room_inserted(r, pa, pb, new_id),
        )) by {
            assert forall|k: int| 0 <= k < rooms0.len() implies #[trigger] self.rooms@[k]@ == room_inserted(rooms0[k]@, pa, pb, new_id) by {
                assert(rrel(rooms0[k], self.rooms@[k]));
            }
        }

        let ghost walls0 = self.walls@;
        let ghost wrel = |x: Wall, y: Wall| y@ == wall_inserted(x@, pa, pb, new_id);
        map_each(&mut self.walls, |x: Wall| -> (y: Wall) ensures y@ == wall_inserted(x@, pa, pb, new_id) { wall_with_split_side(x, pa, pb, new_id) }, Ghost(wrel));
        assert(self.walls@.map_values(wall_view()) =~= walls0.map_values(wall_view()).map_values(
            |w: WallView| wall_inserted(w, pa, pb, new_id),
        )) by {
            assert forall|k: int| 0 <= k < walls0.len() implies #[trigger] self.walls@[k]@ == wall_inserted(walls0[k]@, pa, pb, new_id) by {
                assert(wrel(walls0[k], self.walls@[k]));
            }
        }

        let ghost openings0 = self.openings@;
        let ghost orel = |x: Opening<S>, y: Opening<S>| y@ == opening_inserted(x@, pa, pb, new_id);
        map_each(&mut self.openings, |x: Opening<S>| -> (y: Opening<S>) ensures y@ == opening_inserted(x@, pa, pb, new_id) { opening_with_split_side(x, pa, pb, new_id) }, Ghost(orel));
        assert(self.openings@.map_values(opening_view::<S>()) =~= openings0.map_values(opening_view::<S>()).map_values(
            |o: OpeningView<S>| opening_inserted(o, pa, pb, new_id),
        )) by {
            assert forall|k: int| 0 <= k < openings0.len() implies #[trigger] self.openings@[k]@ == opening_inserted(openings0[k]@, pa, pb, new_id) by {
                assert(orel(openings0[k], self.openings@[k]));
            }
        }
        assert(first_with_id(p0.edges, edge_id, i as int));
        assert(self@ == split_view(p0, edge_id, pa, pb, Point { id: new_id, position, height }, ids));
        new_id
    }
    /// Removes point `id` without deleting the objects that use it: `id` is
    /// taken out of every contour (rooms, cutouts, walls, openings), objects
    /// and cutouts left with fewer than three points are dropped, the edges
    /// at `id` are deleted, every pair of neighbours that `id` separated is
    /// joined by an edge, and the point itself is deleted.
    pub fn smart_remove_point(&mut self, id: u128)
        ensures
            exists|ids: Seq<u128>|
                ids.len() == excision_pairs(old(self)@, id).len() && final(self)@ == smart_removed(
                    old(self)@,
                    id,
                    ids,
                ),
    {
        broadcast use Seq::lemma_filter_push;

        let ghost p0 = self@;
        let mut pairs: Vec<(u128, u128)> = Vec::new();

        // Rooms: outer contours and cutouts.
        let mut rooms_src: Vec<Room<V>> = Vec::new();
        std::mem::swap(&mut rooms_src, &mut self.rooms);
        let ghost rs = p0.rooms;
        assert(rs == rooms_src@.map_values(room_view::<V>()));
        let mut rooms_kept: Vec<Room<V>> = Vec::new();
        for x in it: rooms_src.into_iter()
            invariant
                rs == it.seq().map_values(room_view::<V>()),
                rooms_kept@.map_values(room_view::<V>()) == rs.take(it.index() as int).map_values(room_excise_fn::<V>(id)).filter(room_kept::<V>()),
                pairs@ == rooms_pairs(rs.take(it.index() as int), id),
        {
            let ghost k = it.index() as int;
            let out = excise_room(x, id, &mut pairs);
            proof {
                assert(rs[k] == x@);
                assert(rs.take(k + 1) =~= rs.take(k).push(x@));
                assert(rs.take(k + 1).drop_last() =~= rs.take(k));
                assert(rs.take(k + 1).map_values(room_excise_fn::<V>(id)) =~= rs.take(k).map_values(room_excise_fn::<V>(id)).push(room_excised(x@, id)));
                rs.take(k).map_values(room_excise_fn::<V>(id)).lemma_filter_push(room_excised(x@, id), room_kept::<V>());
                assert(pairs@ =~= rooms_pairs(rs.take(k + 1), id));
            }
            if out.points.len() >= 3 {
                let ghost before = rooms_kept@;
                rooms_kept.push(out);
                assert(rooms_kept@.map_values(room_view::<V>()) =~= before.map_values(room_view::<V>()).push(room_excised(x@, id)));
            }
        }
        assert(rs.take(rs.len() as int) =~= rs);
        self.rooms = rooms_kept;
        let ghost pr = pairs@;

        // Walls.
        let mut walls_src: Vec<Wall> = Vec::new();
        std::mem::swap(&mut walls_src, &mut self.walls);
        let ghost ws = p0.walls;
        assert(ws == walls_src@.map_values(wall_view()));
        let mut walls_kept: Vec<Wall> = Vec::new();
        for x in it: walls_src.into_iter()
            invariant
                ws == it.seq().map_values(wall_view()),
                walls_kept@.map_values(wall_view()) == ws.take(it.index() as int).map_values(wall_excise_fn(id)).filter(wall_kept()),
                pairs@ == pr + walls_pairs(ws.take(it.index() as int), id),
        {
            let ghost k = it.index() as int;
            let mut w = x;
            let mut pts: Vec<u128> = Vec::new();
            std::mem::swap(&mut pts, &mut w.points);
            w.points = excise_contour(pts, id, &mut pairs);
            proof {
                assert(ws[k] == x@);
                assert(w@ == wall_excised(x@, id));
                assert(ws.take(k + 1) =~= ws.take(k).push(x@));
                assert(ws.take(k + 1).drop_last() =~= ws.take(k));
                assert(ws.take(k + 1).map_values(wall_excise_fn(id)) =~= ws.take(k).map_values(wall_excise_fn(id)).push(wall_excised(x@, id)));
                ws.take(k).map_values(wall_excise_fn(id)).lemma_filter_push(wall_excised(x@, id), wall_kept());
                assert(pairs@ =~= pr + walls_pairs(ws.take(k + 1), id));
            }
            if w.points.len() >= 3 {
                let ghost before = walls_kept@;
                walls_kept.push(w);
                assert(walls_kept@.map_values(wall_view()) =~= before.map_values(wall_view()).push(wall_excised(x@, id)));
            }
        }
        assert(ws.take(ws.len() as int) =~= ws);
        self.walls = walls_kept;
        let ghost prw = pairs@;

        // Openings.
        let mut openings_src: Vec<Opening<S>> = Vec::new();
        std::mem::swap(&mut openings_src, &mut self.openings);
        let ghost os = p0.openings;
        assert(os == openings_src@.map_values(opening_view::<S>()));
        let mut openings_kept: Vec<Opening<S>> = Vec::new();
        for x in it: openings_src.into_iter()
            invariant
                os == it.seq().map_values(opening_view::<S>()),
                openings_kept@.map_values(opening_view::<S>()) == os.take(it.index() as int).map_values(opening_excise_fn::<S>(id)).filter(opening_kept::<S>()),
                pairs@ == prw + openings_pairs(os.take(it.index() as int), id),
        {
            let ghost k = it.index() as int;
            let mut o = x;
            let mut pts: Vec<u128> = Vec::new();
            std::mem::swap(&mut pts, &mut o.points);
            o.points = excise_contour(pts, id, &mut pairs);
            proof {
                assert(os[k] == x@);
                assert(o@ == opening_excised(x@, id));
                assert(os.take(k + 1) =~= os.take(k).push(x@));
                assert(os.take(k + 1).drop_last() =~= os.take(k));
                assert(os.take(k + 1).map_values(opening_excise_fn::<S>(id)) =~= os.take(k).map_values(opening_excise_fn::<S>(id)).push(opening_excised(x@, id)));
                os.take(k).map_values(opening_excise_fn::<S>(id)).lemma_filter_push(opening_excised(x@, id), opening_kept::<S>());
                assert(pairs@ =~= prw + openings_pairs(os.take(k + 1), id));
            }
            if o.points.len() >= 3 {
                let ghost before = openings_kept@;
                openings_kept.push(o);
                assert(openings_kept@.map_values(opening_view::<S>()) =~= before.map_values(opening_view::<S>()).push(opening_excised(x@, id)));
            }
        }
        assert(os.take(os.len() as int) =~= os);
        self.openings = openings_kept;
        assert(pairs@ == excision_pairs(p0, id));

        // Edges: drop those at the point, then join the separated neighbours.
        retain_where(&mut self.edges, |e: &Edge<S>| -> (b: bool) ensures b == !edge_touches(*e, id) { e.point_a != id && e.point_b != id }, Ghost(edge_clear_of::<S>(id)));
        let ghost edges1 = self.edges@;
        let ghost mid = self@;
        let ghost mut ids: Seq<u128> = Seq::empty();
        let n = pairs.len();
        let mut k: usize = 0;
        while k < n
            invariant
                n == pairs@.len(),
                k <= n,
                ids.len() == k,
                self.edges@ == ensured_edges(edges1, pairs@.take(k as int), ids),
                self@ == mid.with_edges(self.edges@),
            decreases n - k,
        {
            let (a, b) = pairs[k];
            let ghost before = self.edges@;
            let r = self.ensure_edge(a, b);
            proof {
                assert(pairs@.take(k as int + 1).drop_last() =~= pairs@.take(k as int));
                assert(ids.push(r).take(k as int) =~= ids);
                ids = ids.push(r);
            }
            k = k + 1;
        }
        assert(pairs@.take(n as int) =~= pairs@);

        // The point itself.
        retain_where(&mut self.points, |p: &Point<S, V>| -> (b: bool) ensures b == (p.id != id) { p.id != id }, Ghost(point_other::<S, V>(id)));
        assert(self@.points == smart_removed(p0, id, ids).points);
        assert(self@.edges == smart_removed(p0, id, ids).edges);
        assert(self@.rooms == smart_removed(p0, id, ids).rooms);
        assert(self@.walls == smart_removed(p0, id, ids).walls);
        assert(self@.openings == smart_removed(p0, id, ids).openings);
        assert(self@.labels == smart_removed(p0, id, ids).labels);
        assert(self@ == smart_removed(p0, id, ids));
    }
    /// The first point with id `id`, for in-place editing.
    pub fn point_mut(&mut self, id: u128) -> (r: Option<&mut Point<S, V>>)
        ensures
            match r {
                Some(x) => exists|i: int|
                    first_with_id(old(self)@.points, id, i) && *x == old(self)@.points[i]
                        && final(self)@ == old(self)@.with_points(old(self)@.points.update(i, *final(x))),
                None => !has_id(old(self)@.points, id) && final(self)@ == old(self)@,
            },
    {
        match index_of_id(&self.points, id) {
            Some(i) => {
                assert(first_with_id(self@.points, id, i as int));
                let x = &mut self.points[i];
                Some(x)
            },
            None => None,
        }
    }
    /// The first edge with id `id`, for in-place editing.
    pub fn edge_mut(&mut self, id: u128) -> (r: Option<&mut Edge<S>>)
        ensures
            match r {
                Some(x) => exists|i: int|
                    first_with_id(old(self).edges@, id, i) && *x == old(self).edges@[i]
                        && final(self).edges@ == old(self).edges@.update(i, *final(x))
                        && final(self)@ == old(self)@.with_edges(final(self)@.edges),
                None => !has_id(old(self).edges@, id) && final(self)@ == old(self)@,
            },
    {
        match index_of_id(&self.edges, id) {
            Some(i) => {
                assert(first_with_id(self.edges@, id, i as int));
                let x = &mut self.edges[i];
                Some(x)
            },
            None => None,
        }
    }

    /// The first room with id `id`, for in-place editing.
    pub fn room_mut(&mut self, id: u128) -> (r: Option<&mut Room<V>>)
        ensures
            match r {
                Some(x) => exists|i: int|
                    first_with_id(old(self).rooms@, id, i) && *x == old(self).rooms@[i]
                        && final(self).rooms@ == old(self).rooms@.update(i, *final(x))
                        && final(self)@ == old(self)@.with_rooms(final(self)@.rooms),
                None => !has_id(old(self).rooms@, id) && final(self)@ == old(self)@,
            },
    {
        match index_of_id(&self.rooms, id) {
            Some(i) => {
                assert(first_with_id(self.rooms@, id, i as int));
                let x = &mut self.rooms[i];
                Some(x)
            },
            None => None,
        }
    }

    /// The first wall with id `id`, for in-place editing.
    pub fn wall_mut(&mut self, id: u128) -> (r: Option<&mut Wall>)
        ensures
            match r {
                Some(x) => exists|i: int|
                    first_with_id(old(self).walls@, id, i) && *x == old(self).walls@[i]
                        && final(self).walls@ == old(self).walls@.update(i, *final(x))
                        && final(self)@ == old(self)@.with_walls(final(self)@.walls),
                None => !has_id(old(self).walls@, id) && final(self)@ == old(self)@,
            },
    {
        match index_of_id(&self.walls, id) {
            Some(i) => {
                assert(first_with_id(self.walls@, id, i as int));
                let x = &mut self.walls[i];
                Some(x)
            },
            None => None,
        }
    }

    /// The first opening with id `id`, for in-place editing.
    pub fn opening_mut(&mut self, id: u128) -> (r: Option<&mut Opening<S>>)
        ensures
            match r {
                Some(x) => exists|i: int|
                    first_with_id(old(self).openings@, id, i) && *x == old(self).openings@[i]
                        && final(self).openings@ == old(self).openings@.update(i, *final(x))
                        && final(self)@ == old(self)@.with_openings(final(self)@.openings),
                None => !has_id(old(self).openings@, id) && final(self)@ == old(self)@,
            },
    {
        match index_of_id(&self.openings, id) {
            Some(i) => {
                assert(first_with_id(self.openings@, id, i as int));
                let x = &mut self.openings[i];
                Some(x)
            },
            None => None,
        }
    }

    /// The first label with id `id`, for in-place editing.
    pub fn label_mut(&mut self, id: u128) -> (r: Option<&mut Label<S, V>>)
        ensures
            match r {
                Some(x) => exists|i: int|
                    first_with_id(old(self).labels@, id, i) && *x == old(self).labels@[i]
                        && final(self).labels@ == old(self).labels@.update(i, *final(x))
                        && final(self)@ == old(self)@.with_labels(final(self)@.labels),
                None => !has_id(old(self).labels@, id) && final(self)@ == old(self)@,
            },
    {
        match index_of_id(&self.labels, id) {
            Some(i) => {
                assert(first_with_id(self.labels@, id, i as int));
                let x = &mut self.labels[i];
                Some(x)
            },
            None => None,
        }
    }

    /// The first edge joining `a` and `b` (either direction), for in-place editing.
    pub fn find_edge_mut(&mut self, a: u128, b: u128) -> (r: Option<&mut Edge<S>>)
        ensures
            match r {
                Some(x) => exists|i: int|
                    first_joining(old(self).edges@, a, b, i) && *x == old(self).edges@[i]
                        && final(self).edges@ == old(self).edges@.update(i, *final(x))
                        && final(self)@ == old(self)@.with_edges(final(self)@.edges),
                None => !edges_join(old(self).edges@, a, b) && final(self)@ == old(self)@,
            },
    {
        match self.find_edge_index(a, b) {
            Some(i) => {
                let x = &mut self.edges[i];
                Some(x)
            },
            None => None,
        }
    }
    /// Makes sure every side of the closed contour `points` is joined by an edge.
    pub fn ensure_contour_edges(&mut self, points: &Vec<u128>)
        ensures
            exists|ids: Seq<u128>|
                ids.len() == points@.len() && final(self)@ == old(self)@.with_edges(
                    ensured_edges(old(self)@.edges, contour_sides(points@), ids),
                ),
            appended_fresh(old(self)@.edges, final(self)@.edges),
    {
        let ghost p0 = self@;
        let ghost sides = contour_sides(points@);
        let ghost mut ids: Seq<u128> = Seq::empty();
        let n = points.len();
        let mut i: usize = 0;
        while i < n
            invariant
                n == points@.len(),
                sides == contour_sides(points@),
                i <= n,
                ids.len() == i,
                self@ == p0.with_edges(ensured_edges(p0.edges, sides.take(i as int), ids)),
                appended_fresh(p0.edges, self@.edges),
                self@.edges.len() >= p0.edges.len(),
            decreases n - i,
        {
            let j: usize = if i + 1 < n { i + 1 } else { 0 };
            let r = self.ensure_edge(points[i], points[j]);
            proof {
                assert(sides[i as int] == (points@[i as int], points@[j as int]));
                assert(sides.take(i as int + 1).drop_last() =~= sides.take(i as int));
                assert(ids.push(r).take(i as int) =~= ids);
                ids = ids.push(r);
            }
            i = i + 1;
        }
        assert(sides.take(n as int) =~= sides);
    }

    /// Adds `contour` as a cutout of the first room with id `room_id`;
    /// returns whether there is such a room (without one nothing changes).
    pub fn add_cutout(&mut self, room_id: u128, contour: Vec<u128>) -> (r: bool)
        ensures
            r == has_id(old(self).rooms@, room_id),
            r ==> exists|i: int|
                first_with_id(old(self).rooms@, room_id, i) && final(self)@ == old(self)@.with_rooms(
                    old(self)@.rooms.update(i, cutout_added(old(self)@.rooms[i], contour@)),
                ),
            !r ==> final(self)@ == old(self)@,
    {
        let ghost rooms0 = self.rooms@;
        match self.room_mut(room_id) {
            Some(room) => {
                let ghost before = *room;
                room.cutouts.push(contour);
                let ghost after = *room;
                proof {
                    assert(contours_view(after.cutouts@) =~= contours_view(before.cutouts@).push(contour@));
                    assert(after@ == cutout_added(before@, contour@));
                    let i = choose|i: int|
                        first_with_id(rooms0, room_id, i) && before == rooms0[i] && self.rooms@ == rooms0.update(i, after);
                    assert(self.rooms@.map_values(room_view::<V>()) =~= rooms0.map_values(room_view::<V>()).update(i, after@));
                }
                true
            },
            None => false,
        }
    }

    /// The positions of the points named by `ids`, in order; unknown ids are skipped.
    pub fn resolve_positions(&self, ids: &Vec<u128>) -> (r: Vec<V>)
        where
            V: Copy,
        ensures
            r@ == resolved(self.points@, ids@),
    {
        let n = ids.len();
        let mut out: Vec<V> = Vec::new();
        let mut i: usize = 0;
        while i < n
            invariant
                n == ids@.len(),
                i <= n,
                out@ == resolved(self.points@, ids@.take(i as int)),
            decreases n - i,
        {
            proof {
                assert(ids@.take(i as int + 1).drop_last() =~= ids@.take(i as int));
            }
            match index_of_id(&self.points, ids[i]) {
                Some(k) => {
                    proof {
                        assert(first_with_id(self.points@, ids@[i as int], k as int));
                        let j = point_index_of(self.points@, ids@[i as int]);
                        assert(first_with_id(self.points@, ids@[i as int], j));
                        lemma_first_with_id_unique(self.points@, ids@[i as int], j, k as int);
                    }
                    out.push(self.points[k].position);
                },
                None => {},
            }
            i = i + 1;
        }
        assert(ids@.take(n as int) =~= ids@);
        out
    }

    /// Positions (in order) of the openings whose contour has a side `{a, b}`.
    pub fn openings_on_side(&self, a: u128, b: u128) -> (r: Vec<usize>)
        ensures
            r@ == openings_on_side_prefix(self@.openings, a, b, self@.openings.len()),
    {
        let n = self.openings.len();
        let mut out: Vec<usize> = Vec::new();
        let mut i: usize = 0;
        while i < n
            invariant
                n == self.openings@.len(),
                i <= n,
                out@ == openings_on_side_prefix(self@.openings, a, b, i as nat),
            decreases n - i,
        {
            if contour_has_edge(&self.openings[i].points, a, b) {
                out.push(i);
            }
            i = i + 1;
        }
        out
    }
}


// ---------------------------------------------------------------------------
// Where a point is used
// ---------------------------------------------------------------------------

/// The text of each string.
pub open spec fn texts(v: Seq<String>) -> Seq<Seq<char>> {
    v.map_values(|t: String| t@)
}

/// The word for an opening of kind `k`: "Дверь" or "Окно".
pub open spec fn kind_name<S>(k: OpeningKind<S>) -> Seq<char> {
    match k {
        OpeningKind::Door { .. } => "Дверь"@,
        OpeningKind::Window { .. } => "Окно"@,
    }
}

/// "Комната: {name}" for each room of `rooms` using point `id`, in order.
pub open spec fn room_use_lines<V>(rooms: Seq<RoomView<V>>, id: u128) -> Seq<Seq<char>>
    decreases rooms.len(),
{
    if rooms.len() == 0 {
        Seq::empty()
    } else {
        room_use_lines(rooms.drop_last(), id) + if room_clear_of::<V>(id)(rooms.last()) {
            Seq::<Seq<char>>::empty()
        } else {
            seq!["Комната: "@ + rooms.last().name]
        }
    }
}

/// "Стена #{n}" for each wall of `walls` using point `id`, `n` counting the
/// walls from 1, in order.
pub open spec fn wall_use_lines(walls: Seq<WallView>, id: u128) -> Seq<Seq<char>>
    decreases walls.len(),
{
    if walls.len() == 0 {
        Seq::empty()
    } else {
        wall_use_lines(walls.drop_last(), id) + if walls.last().points.contains(id) {
            seq!["Стена #"@ + decimal(walls.len())]
        } else {
            Seq::<Seq<char>>::empty()
        }
    }
}

/// "Дверь" or "Окно" for each opening of `openings` using point `id`, in order.
pub open spec fn opening_use_lines<S>(openings: Seq<OpeningView<S>>, id: u128) -> Seq<Seq<char>>
    decreases openings.len(),
{
    if openings.len() == 0 {
        Seq::empty()
    } else {
        opening_use_lines(openings.drop_last(), id) + if openings.last().points.contains(id) {
            seq![kind_name(openings.last().kind)]
        } else {
            Seq::<Seq<char>>::empty()
        }
    }
}

/// The lines saying where point `id` is used: rooms, then walls, then openings.
pub open spec fn point_use_lines<S, V>(p: ProjectView<S, V>, id: u128) -> Seq<Seq<char>> {
    room_use_lines(p.rooms, id) + wall_use_lines(p.walls, id) + opening_use_lines(p.openings, id)
}

impl<S, V> Project<S, V> {
    /// Where point `id` is used, one line each: "Комната: {name}" for every
    /// room having it on its outer contour or a cutout, "Стена #{n}" for every
    /// wall having it (walls numbered from 1), "Дверь" or "Окно" for every
    /// opening having it; rooms first, then walls, then openings.
    pub fn point_uses(&self, id: u128) -> (r: Vec<String>)
        ensures
            texts(r@) == point_use_lines(self@, id),
    {
        let mut out: Vec<String> = Vec::new();
        let n = self.rooms.len();
        let mut i: usize = 0;
        while i < n
            invariant
                n == self.rooms@.len(),
                i <= n,
                texts(out@) == room_use_lines(self@.rooms.take(i as int), id),
            decreases n - i,
        {
            let ghost before = out@;
            proof {
                assert(self@.rooms.take(i as int + 1).drop_last() =~= self@.rooms.take(i as int));
                assert(self@.rooms[i as int] == self.rooms@[i as int]@);
            }
            if room_uses(&self.rooms[i], id) {
                let mut line = String::from_str("Комната: ");
                line.append(self.rooms[i].name.as_str());
                out.push(line);
                assert(texts(out@) =~= texts(before).push(line@));
            }
            i = i + 1;
        }
        assert(self@.rooms.take(n as int) =~= self@.rooms);
        let ghost room_lines = texts(out@);
        let m = self.walls.len();
        let mut j: usize = 0;
        while j < m
            invariant
                m == self.walls@.len(),
                j <= m,
                room_lines == room_use_lines(self@.rooms, id),
                texts(out@) == room_lines + wall_use_lines(self@.walls.take(j as int), id),
            decreases m - j,
        {
            let ghost before = out@;
            proof {
                assert(self@.walls.take(j as int + 1).drop_last() =~= self@.walls.take(j as int));
                assert(self@.walls[j as int] == self.walls@[j as int]@);
            }
            if contour_contains(&self.walls[j].points, id) {
                let mut line = String::from_str("Стена #");
                push_decimal(&mut line, (j + 1) as u64);
                out.push(line);
                assert(texts(out@) =~= texts(before).push(line@));
            }
            j = j + 1;
        }
        assert(self@.walls.take(m as int) =~= self@.walls);
        let ghost wall_lines = texts(out@);
        let q = self.openings.len();
        let mut k: usize = 0;
        while k < q
            invariant
                q == self.openings@.len(),
                k <= q,
                wall_lines == room_use_lines(self@.rooms, id) + wall_use_lines(self@.walls, id),
                texts(out@) == wall_lines + opening_use_lines(self@.openings.take(k as int), id),
            decreases q - k,
        {
            let ghost before = out@;
            proof {
                assert(self@.openings.take(k as int + 1).drop_last() =~= self@.openings.take(k as int));
                assert(self@.openings[k as int] == self.openings@[k as int]@);
            }
            if contour_contains(&self.openings[k].points, id) {
                let word = match self.openings[k].kind {
                    OpeningKind::Door { .. } => String::from_str("Дверь"),
                    OpeningKind::Window { .. } => String::from_str("Окно"),
                };
                out.push(word);
                assert(texts(out@) =~= texts(before).push(word@));
            }
            k = k + 1;
        }
        assert(self@.openings.take(q as int) =~= self@.openings);
        out
    }
}

impl<S> Opening<S> {
    /// Moves a door's swing arc to the next side of its polygon, back to the
    /// first side after the last (a polygon without points counts as having
    /// one side); a window is left as it is.
    pub fn next_swing_edge(&mut self)
        requires
            old(self).kind matches OpeningKind::Door { swing_edge, .. } ==> swing_edge < usize::MAX,
        ensures
            final(self).id == old(self).id,
            final(self).points == old(self).points,
            final(self).color == old(self).color,
            final(self).kind == (match old(self).kind {
                OpeningKind::Door { height, width, reveal_width, swing_edge, swing_outward, swing_mirrored } => {
                    OpeningKind::Door {
                        height,
                        width,
                        reveal_width,
                        swing_edge: ((swing_edge + 1) % (if old(self).points@.len() > 1 {
                            old(self).points@.len() as int
                        } else {
                            1int
                        })) as usize,
                        swing_outward,
                        swing_mirrored,
                    }
                },
                OpeningKind::Window { .. } => old(self).kind,
            }),
    {
        let sides = if self.points.len() > 1 { self.points.len() } else { 1 };
        match &mut self.kind {
            OpeningKind::Door { swing_edge, .. } => {
                *swing_edge = (*swing_edge + 1) % sides;
            },
            OpeningKind::Window { .. } => {},
        }
    }
}

// ---------------------------------------------------------------------------
// Copies
// ---------------------------------------------------------------------------

/// A copy of a list of point ids.
pub fn copy_ids(v: &Vec<u128>) -> (r: Vec<u128>)
    ensures
        r@ == v@,
{
    let mut out: Vec<u128> = Vec::new();
    let n = v.len();
    let mut i: usize = 0;
    while i < n
        invariant
            n == v@.len(),
            i <= n,
            out@ == v@.take(i as int),
        decreases n - i,
    {
        out.push(v[i]);
        assert(v@.take(i as int + 1) =~= v@.take(i as int).push(v@[i as int]));
        i = i + 1;
    }
    assert(v@.take(n as int) =~= v@);
    out
}

/// A copy of a text.
pub fn copy_text(s: &String) -> (r: String)
    ensures
        r@ == s@,
{
    s.clone()
}

impl<V: Copy> Room<V> {
    /// A copy of the room.
    pub fn duplicate(&self) -> (r: Self)
        ensures
            r@ == self@,
    {
        let mut cutouts: Vec<Vec<u128>> = Vec::new();
        let n = self.cutouts.len();
        let mut i: usize = 0;
        while i < n
            invariant
                n == self.cutouts@.len(),
                i <= n,
                contours_view(cutouts@) == contours_view(self.cutouts@).take(i as int),
            decreases n - i,
        {
            let c = copy_ids(&self.cutouts[i]);
            let ghost before = cutouts@;
            cutouts.push(c);
            proof {
                assert(cutouts@ == before.push(c));
                assert(contours_view(cutouts@) =~= contours_view(before).push(c@));
                assert(contours_view(self.cutouts@).take(i as int + 1) =~= contours_view(self.cutouts@).take(i as int).push(self.cutouts@[i as int]@));
            }
            i = i + 1;
        }
        assert(contours_view(self.cutouts@).take(n as int) =~= contours_view(self.cutouts@));
        Room {
            id: self.id,
            name: copy_text(&self.name),
            points: copy_ids(&self.points),
            cutouts,
            color: self.color,
            name_offset: self.name_offset,
        }
    }
}

impl Wall {
    /// A copy of the wall.
    pub fn duplicate(&self) -> (r: Self)
        ensures
            r@ == self@,
    {
        Wall { id: self.id, points: copy_ids(&self.points), color: self.color }
    }
}

impl<S: Copy> Opening<S> {
    /// A copy of the opening.
    pub fn duplicate(&self) -> (r: Self)
        ensures
            r@ == self@,
    {
        Opening { id: self.id, points: copy_ids(&self.points), kind: self.kind, color: self.color }
    }
}

impl<S: Copy, V: Copy> Label<S, V> {
    /// A copy of the label.
    pub fn duplicate(&self) -> (r: Self)
        ensures
            r@ == self@,
    {
        Label {
            id: self.id,
            text: copy_text(&self.text),
            position: self.position,
            font_size: self.font_size,
            rotation: self.rotation,
        }
    }
}

impl<S: Copy, V: Copy> Project<S, V> {
    /// A copy of the whole plan (same ids and contents).
    pub fn duplicate(&self) -> (r: Self)
        ensures
            r@ == self@,
    {
        let mut points: Vec<Point<S, V>> = Vec::new();
        let mut i: usize = 0;
        while i < self.points.len()
            invariant
                i <= self.points@.len(),
                points@ == self.points@.take(i as int),
            decreases self.points@.len() - i,
        {
            points.push(self.points[i]);
            assert(self.points@.take(i as int + 1) =~= self.points@.take(i as int).push(self.points@[i as int]));
            i = i + 1;
        }
        assert(self.points@.take(self.points@.len() as int) =~= self.points@);

        let mut edges: Vec<Edge<S>> = Vec::new();
        let mut i: usize = 0;
        while i < self.edges.len()
            invariant
                i <= self.edges@.len(),
                edges@ == self.edges@.take(i as int),
            decreases self.edges@.len() - i,
        {
            edges.push(self.edges[i]);
            assert(self.edges@.take(i as int + 1) =~= self.edges@.take(i as int).push(self.edges@[i as int]));
            i = i + 1;
        }
        assert(self.edges@.take(self.edges@.len() as int) =~= self.edges@);

        let mut rooms: Vec<Room<V>> = Vec::new();
        let mut i: usize = 0;
        while i < self.rooms.len()
            invariant
                i <= self.rooms@.len(),
                rooms@.map_values(room_view::<V>()) == self.rooms@.map_values(room_view::<V>()).take(i as int),
            decreases self.rooms@.len() - i,
        {
            let ghost before = rooms@;
            let d = self.rooms[i].duplicate();
            rooms.push(d);
            proof {
                assert(rooms@ == before.push(d));
                before.lemma_push_map_commute(room_view::<V>(), d);
                assert(self.rooms@.map_values(room_view::<V>()).take(i as int + 1) =~= self.rooms@.map_values(room_view::<V>()).take(i as int).push((room_view::<V>())(self.rooms@[i as int])));
            }
            i = i + 1;
        }
        assert(self.rooms@.map_values(room_view::<V>()).take(self.rooms@.len() as int) =~= self.rooms@.map_values(room_view::<V>()));

        let mut walls: Vec<Wall> = Vec::new();
        let mut i: usize = 0;
        while i < self.walls.len()
            invariant
                i <= self.walls@.len(),
                walls@.map_values(wall_view()) == self.walls@.map_values(wall_view()).take(i as int),
            decreases self.walls@.len() - i,
        {
            let ghost before = walls@;
            let d = self.walls[i].duplicate();
            walls.push(d);
            proof {
                assert(walls@ == before.push(d));
                before.lemma_push_map_commute(wall_view(), d);
                assert(self.walls@.map_values(wall_view()).take(i as int + 1) =~= self.walls@.map_values(wall_view()).take(i as int).push((wall_view())(self.walls@[i as int])));
            }
            i = i + 1;
        }
        assert(self.walls@.map_values(wall_view()).take(self.walls@.len() as int) =~= self.walls@.map_values(wall_view()));

        let mut openings: Vec<Opening<S>> = Vec::new();
        let mut i: usize = 0;
        while i < self.openings.len()
            invariant
                i <= self.openings@.len(),
                openings@.map_values(opening_view::<S>()) == self.openings@.map_values(opening_view::<S>()).take(i as int),
            decreases self.openings@.len() - i,
        {
            let ghost before = openings@;
            let d = self.openings[i].duplicate();
            openings.push(d);
            proof {
                assert(openings@ == before.push(d));
                before.lemma_push_map_commute(opening_view::<S>(), d);
                assert(self.openings@.map_values(opening_view::<S>()).take(i as int + 1) =~= self.openings@.map_values(opening_view::<S>()).take(i as int).push((opening_view::<S>())(self.openings@[i as int])));
            }
            i = i + 1;
        }
        assert(self.openings@.map_values(opening_view::<S>()).take(self.openings@.len() as int) =~= self.openings@.map_values(opening_view::<S>()));

        let mut labels: Vec<Label<S, V>> = Vec::new();
        let mut i: usize = 0;
        while i < self.labels.len()
            invariant
                i <= self.labels@.len(),
                labels@.map_values(label_view::<S, V>()) == self.labels@.map_values(label_view::<S, V>()).take(i as int),
            decreases self.labels@.len() - i,
        {
            let ghost before = labels@;
            let d = self.labels[i].duplicate();
            labels.push(d);
            proof {
                assert(labels@ == before.push(d));
                before.lemma_push_map_commute(label_view::<S, V>(), d);
                assert(self.labels@.map_values(label_view::<S, V>()).take(i as int + 1) =~= self.labels@.map_values(label_view::<S, V>()).take(i as int).push((label_view::<S, V>())(self.labels@[i as int])));
            }
            i = i + 1;
        }
        assert(self.labels@.map_values(label_view::<S, V>()).take(self.labels@.len() as int) =~= self.labels@.map_values(label_view::<S, V>()));

        Project {
            id: self.id,
            name: copy_text(&self.name),
            points,
            edges,
            rooms,
            walls,
            openings,
            labels,
            defaults: self.defaults,
        }
    }
}

} // verus!
