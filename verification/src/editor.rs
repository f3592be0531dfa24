//! Editor state and the decisions taken on user input.
//!
//! The user interface measures (hit tests, snapping, geometry) and hands the
//! outcome here; these functions decide what changes in the plan, the
//! selection, the tool state and the undo history.
use vstd::prelude::*;
use crate::history::{History, HistoryView, after_snapshot, after_undo, after_redo};
use crate::model::{Project, ProjectView, RoomView, WallView, OpeningView, OpeningKind, Point, Room, ensured_edge,
    Wall, Opening, Label, LabelView, smart_removed, excision_pairs, removed_edge, room_other,
    wall_other, opening_other, label_other, point_other, edge_other, split_view, ensured_edges, contour_sides, cutout_added};
use crate::dates::{decimal, push_decimal};
use crate::price::TargetObjectType;
use crate::ids::v4_layout;
use crate::model::{appended_fresh, edges_join};
use crate::seqs::{has_id, first_with_id, Identified, lemma_first_unique, lemma_first_with_id_unique};

verus! {

/// The active drawing/editing tool.
#[derive(Debug, Clone, Copy, PartialEq, Eq, Structural)]
pub enum Tool {
    Select,
    Point,
    Edge,
    Cutout,
    Room,
    Door,
    Window,
    Wall,
    Label,
}

impl Tool {
    /// The tool bound to number key `n` (1 to 9, in toolbar order).
    pub open spec fn spec_for_key(n: u8) -> Option<Tool> {
        if n == 1 {
            Some(Tool::Select)
        } else if n == 2 {
            Some(Tool::Point)
        } else if n == 3 {
            Some(Tool::Edge)
        } else if n == 4 {
            Some(Tool::Cutout)
        } else if n == 5 {
            Some(Tool::Room)
        } else if n == 6 {
            Some(Tool::Door)
        } else if n == 7 {
            Some(Tool::Window)
        } else if n == 8 {
            Some(Tool::Wall)
        } else if n == 9 {
            Some(Tool::Label)
        } else {
            None
        }
    }

    /// The tool bound to number key `n` (1 to 9, in toolbar order).
    pub fn for_key(n: u8) -> (r: Option<Tool>)
        ensures
            r == Tool::spec_for_key(n),
    {
        match n {
            1 => Some(Tool::Select),
            2 => Some(Tool::Point),
            3 => Some(Tool::Edge),
            4 => Some(Tool::Cutout),
            5 => Some(Tool::Room),
            6 => Some(Tool::Door),
            7 => Some(Tool::Window),
            8 => Some(Tool::Wall),
            9 => Some(Tool::Label),
            _ => None,
        }
    }

    /// The tool collects a closed contour of existing points.
    pub open spec fn spec_is_contour_tool(self) -> bool {
        self == Tool::Room || self == Tool::Cutout || self == Tool::Wall || self == Tool::Door
            || self == Tool::Window
    }

    /// The tool collects a closed contour of existing points.
    pub fn is_contour_tool(&self) -> (r: bool)
        ensures
            r == self.spec_is_contour_tool(),
    {
        match self {
            Tool::Room | Tool::Cutout | Tool::Wall | Tool::Door | Tool::Window => true,
            _ => false,
        }
    }
}

/// What is selected.
#[derive(Debug, Clone, Copy, PartialEq, Eq, Structural)]
pub enum Selection {
    Nothing,
    Point(u128),
    Edge(u128),
    Opening(u128),
    Wall(u128),
    Room(u128),
    Label(u128),
}

impl Selection {
    /// The selected object's id.
    pub open spec fn spec_id(self) -> Option<u128> {
        match self {
            Selection::Nothing => None,
            Selection::Point(id) => Some(id),
            Selection::Edge(id) => Some(id),
            Selection::Opening(id) => Some(id),
            Selection::Wall(id) => Some(id),
            Selection::Room(id) => Some(id),
            Selection::Label(id) => Some(id),
        }
    }

    /// The selected object's id.
    pub fn id(&self) -> (r: Option<u128>)
        ensures
            r == self.spec_id(),
    {
        match self {
            Selection::Nothing => None,
            Selection::Point(id) => Some(*id),
            Selection::Edge(id) => Some(*id),
            Selection::Opening(id) => Some(*id),
            Selection::Wall(id) => Some(*id),
            Selection::Room(id) => Some(*id),
            Selection::Label(id) => Some(*id),
        }
    }
}

/// The object under the cursor, as highlighted: nothing when it is the
/// object already selected.
pub fn hover_highlight(hit: Selection, selection: Selection) -> (r: Selection)
    ensures
        r == (if hit == selection { Selection::Nothing } else { hit }),
{
    if hit == selection { Selection::Nothing } else { hit }
}

/// Which layers are drawn.
#[derive(Debug, Clone, Copy, PartialEq, Eq, Structural)]
pub enum VisibilityMode {
    /// Everything.
    All,
    /// Points and edges only.
    Wireframe,
    /// Points, edges and rooms, without wall and opening fills.
    Rooms,
}

impl VisibilityMode {
    /// Room fills are drawn.
    pub open spec fn spec_show_room_fills(self) -> bool {
        self == VisibilityMode::All || self == VisibilityMode::Rooms
    }

    /// Wall fills are drawn.
    pub open spec fn spec_show_wall_fills(self) -> bool {
        self == VisibilityMode::All
    }

    /// Opening fills are drawn.
    pub open spec fn spec_show_opening_fills(self) -> bool {
        self == VisibilityMode::All
    }

    /// Room fills are drawn.
    pub fn show_room_fills(&self) -> (r: bool)
        ensures
            r == self.spec_show_room_fills(),
    {
        match self {
            VisibilityMode::All | VisibilityMode::Rooms => true,
            _ => false,
        }
    }

    /// Wall fills are drawn.
    pub fn show_wall_fills(&self) -> (r: bool)
        ensures
            r == self.spec_show_wall_fills(),
    {
        match self {
            VisibilityMode::All => true,
            _ => false,
        }
    }

    /// Opening fills are drawn.
    pub fn show_opening_fills(&self) -> (r: bool)
        ensures
            r == self.spec_show_opening_fills(),
    {
        match self {
            VisibilityMode::All => true,
            _ => false,
        }
    }
}

/// The visibility modes are nested layers: walls and openings are filled
/// together, only where rooms are filled too; everything is filled in `All`
/// and nothing in `Wireframe`.
pub proof fn visibility_layers_nested(m: VisibilityMode)
    ensures
        m.spec_show_wall_fills() == m.spec_show_opening_fills(),
        m.spec_show_wall_fills() ==> m.spec_show_room_fills(),
        (m == VisibilityMode::All) <==> m.spec_show_wall_fills(),
        (m == VisibilityMode::Wireframe) <==> !m.spec_show_room_fills(),
{
}

/// How the point tool previews the cursor position.
#[derive(Debug, Clone, Copy, PartialEq, Eq, Structural)]
pub enum PointPreviewKind {
    /// The cursor snaps to an existing point.
    Existing,
    /// The cursor snaps onto an edge (a click splits it).
    OnEdge,
    /// A click creates a free point.
    New,
}

impl PointPreviewKind {
    /// The preview for a snap that found a point (`on_point`) and/or an edge (`on_edge`).
    pub fn for_snap(on_point: bool, on_edge: bool) -> (r: PointPreviewKind)
        ensures
            r == (if on_point {
                PointPreviewKind::Existing
            } else if on_edge {
                PointPreviewKind::OnEdge
            } else {
                PointPreviewKind::New
            }),
    {
        if on_point {
            PointPreviewKind::Existing
        } else if on_edge {
            PointPreviewKind::OnEdge
        } else {
            PointPreviewKind::New
        }
    }
}

// ---------------------------------------------------------------------------
// The plan after a deletion
// ---------------------------------------------------------------------------

/// `after` is the plan `before` after deleting the selected object `sel`:
/// a point is removed "smartly", an edge together with the contours having it
/// as a side, a room, wall, opening or label alone.
pub open spec fn deletes<S, V>(before: ProjectView<S, V>, sel: Selection, after: ProjectView<S, V>) -> bool {
    match sel {
        Selection::Nothing => after == before,
        Selection::Point(id) => exists|ids: Seq<u128>|
            ids.len() == excision_pairs(before, id).len() && after == smart_removed(before, id, ids),
        Selection::Edge(id) => {
            &&& has_id(before.edges, id) ==> exists|i: int|
                first_with_id(before.edges, id, i) && after == removed_edge(
                    before,
                    id,
                    before.edges[i].point_a,
                    before.edges[i].point_b,
                )
            &&& !has_id(before.edges, id) ==> after == before
        },
        Selection::Room(id) => after == before.with_rooms(before.rooms.filter(room_other(id))),
        Selection::Wall(id) => after == before.with_walls(before.walls.filter(wall_other(id))),
        Selection::Opening(id) => after == before.with_openings(before.openings.filter(opening_other(id))),
        Selection::Label(id) => after == before.with_labels(before.labels.filter(label_other(id))),
    }
}

/// The selection refers to an object that exists in the plan (or to nothing).
pub open spec fn selection_exists<S, V>(p: ProjectView<S, V>, sel: Selection) -> bool {
    match sel {
        Selection::Nothing => true,
        Selection::Point(id) => exists|i: int| 0 <= i < p.points.len() && #[trigger] p.points[i].id == id,
        Selection::Edge(id) => exists|i: int| 0 <= i < p.edges.len() && #[trigger] p.edges[i].id == id,
        Selection::Room(id) => exists|i: int| 0 <= i < p.rooms.len() && #[trigger] p.rooms[i].id == id,
        Selection::Wall(id) => exists|i: int| 0 <= i < p.walls.len() && #[trigger] p.walls[i].id == id,
        Selection::Opening(id) => exists|i: int| 0 <= i < p.openings.len() && #[trigger] p.openings[i].id == id,
        Selection::Label(id) => exists|i: int| 0 <= i < p.labels.len() && #[trigger] p.labels[i].id == id,
    }
}

/// The selection kept when it still exists, otherwise nothing.
pub open spec fn validated<S, V>(p: ProjectView<S, V>, sel: Selection) -> Selection {
    if selection_exists(p, sel) { sel } else { Selection::Nothing }
}

// ---------------------------------------------------------------------------
// The editor session
// ---------------------------------------------------------------------------

/// One open plan with its editing state.
pub struct Editor<S, V> {
    pub project: Project<S, V>,
    pub history: History<Project<S, V>>,
    pub selection: Selection,
    pub active_tool: Tool,
    /// Points collected so far by the contour and edge tools.
    pub tool_points: Vec<u128>,
    /// History version at which the current property edit took its snapshot.
    pub edit_snapshot_version: Option<u64>,
}

impl<S: Copy, V: Copy> Editor<S, V> {
    /// A fresh editing session on `project`: select tool, nothing selected,
    /// empty history.
    pub fn new(project: Project<S, V>) -> (r: Self)
        ensures
            r.history.wf(),
            r.project@ == project@,
            r.history@.undo.len() == 0,
            r.history@.redo.len() == 0,
            r.history@.version == 0,
            r.history@.max_entries == 100,
            r.selection == Selection::Nothing,
            r.active_tool == Tool::Select,
            r.tool_points@.len() == 0,
            r.edit_snapshot_version is None,
    {
        Editor {
            project,
            history: History::new(),
            selection: Selection::Nothing,
            active_tool: Tool::Select,
            tool_points: Vec::new(),
            edit_snapshot_version: None,
        }
    }

    /// Stores a copy of the current plan as an undo snapshot.
    fn take_snapshot(&mut self)
        requires
            old(self).history.wf(),
        ensures
            final(self).history.wf(),
            exists|s: Project<S, V>|
                s@ == old(self).project@ && final(self).history@ == after_snapshot(old(self).history@, s),
            final(self).project == old(self).project,
            final(self).selection == old(self).selection,
            final(self).active_tool == old(self).active_tool,
            final(self).tool_points == old(self).tool_points,
            final(self).edit_snapshot_version == old(self).edit_snapshot_version,
    {
        let s = self.project.duplicate();
        self.history.snapshot(s);
    }

    /// Switches tools; switching to another tool drops the collected points.
    pub fn set_tool(&mut self, tool: Tool)
        ensures
            final(self).active_tool == tool,
            old(self).active_tool != tool ==> final(self).tool_points@.len() == 0,
            old(self).active_tool == tool ==> final(self).tool_points == old(self).tool_points,
            final(self).project == old(self).project,
            final(self).history == old(self).history,
            final(self).selection == old(self).selection,
            final(self).edit_snapshot_version == old(self).edit_snapshot_version,
    {
        if self.active_tool != tool {
            self.tool_points.clear();
            self.active_tool = tool;
        }
    }

    /// Whether the selected object still exists in the plan.
    pub fn selection_is_valid(&self) -> (r: bool)
        ensures
            r == selection_exists(self.project@, self.selection),
    {
        match self.selection {
            Selection::Nothing => true,
            Selection::Point(id) => {
                let r = self.project.point(id).is_some();
                proof {
                    if !r {
                        assert forall|i: int| 0 <= i < self.project@.points.len() implies #[trigger] self.project@.points[i].id != id by {
                            assert(self.project.points@[i].spec_id() == self.project.points@[i].id);
                        }
                    }
                }
                r
            },
            Selection::Edge(id) => {
                let r = self.project.edge(id).is_some();
                proof {
                    if !r {
                        assert forall|i: int| 0 <= i < self.project@.edges.len() implies #[trigger] self.project@.edges[i].id != id by {
                            assert(self.project.edges@[i].spec_id() == self.project.edges@[i].id);
                        }
                    }
                }
                r
            },
            Selection::Room(id) => {
                let r = self.project.room(id).is_some();
                proof {
                    if r {
                        let i = choose|i: int| first_with_id(self.project.rooms@, id, i);
                        assert(self.project@.rooms[i].id == id);
                    } else {
                        assert forall|i: int| 0 <= i < self.project@.rooms.len() implies #[trigger] self.project@.rooms[i].id != id by {
                            assert(self.project@.rooms[i] == self.project.rooms@[i]@);
                            assert(self.project.rooms@[i].spec_id() == self.project.rooms@[i].id);
                        }
                    }
                }
                r
            },
            Selection::Wall(id) => {
                let r = self.project.wall(id).is_some();
                proof {
                    if r {
                        let i = choose|i: int| first_with_id(self.project.walls@, id, i);
                        assert(self.project@.walls[i].id == id);
                    } else {
                        assert forall|i: int| 0 <= i < self.project@.walls.len() implies #[trigger] self.project@.walls[i].id != id by {
                            assert(self.project@.walls[i] == self.project.walls@[i]@);
                            assert(self.project.walls@[i].spec_id() == self.project.walls@[i].id);
                        }
                    }
                }
                r
            },
            Selection::Opening(id) => {
                let r = self.project.opening(id).is_some();
                proof {
                    if r {
                        let i = choose|i: int| first_with_id(self.project.openings@, id, i);
                        assert(self.project@.openings[i].id == id);
                    } else {
                        assert forall|i: int| 0 <= i < self.project@.openings.len() implies #[trigger] self.project@.openings[i].id != id by {
                            assert(self.project@.openings[i] == self.project.openings@[i]@);
                            assert(self.project.openings@[i].spec_id() == self.project.openings@[i].id);
                        }
                    }
                }
                r
            },
            Selection::Label(id) => {
                let r = self.project.label(id).is_some();
                proof {
                    if r {
                        let i = choose|i: int| first_with_id(self.project.labels@, id, i);
                        assert(self.project@.labels[i].id == id);
                    } else {
                        assert forall|i: int| 0 <= i < self.project@.labels.len() implies #[trigger] self.project@.labels[i].id != id by {
                            assert(self.project@.labels[i] == self.project.labels@[i]@);
                            assert(self.project.labels@[i].spec_id() == self.project.labels@[i].id);
                        }
                    }
                }
                r
            },
        }
    }

    /// Drops the selection when the selected object no longer exists.
    pub fn validate_selection(&mut self)
        ensures
            final(self).selection == validated(old(self).project@, old(self).selection),
            final(self).project == old(self).project,
            final(self).history == old(self).history,
            final(self).active_tool == old(self).active_tool,
            final(self).tool_points == old(self).tool_points,
            final(self).edit_snapshot_version == old(self).edit_snapshot_version,
    {
        if !self.selection_is_valid() {
            self.selection = Selection::Nothing;
        }
    }

    /// Deletes the selected object (after storing an undo snapshot) and
    /// clears the selection; does nothing when nothing is selected.
    pub fn delete_selected(&mut self)
        requires
            old(self).history.wf(),
        ensures
            final(self).history.wf(),
            old(self).selection == Selection::Nothing ==> final(self).project@ == old(self).project@
                && final(self).history@ == old(self).history@,
            old(self).selection != Selection::Nothing ==> exists|s: Project<S, V>|
                s@ == old(self).project@ && final(self).history@ == after_snapshot(old(self).history@, s),
            deletes(old(self).project@, old(self).selection, final(self).project@),
            final(self).selection == Selection::Nothing,
            final(self).active_tool == old(self).active_tool,
            final(self).tool_points == old(self).tool_points,
            final(self).edit_snapshot_version == old(self).edit_snapshot_version,
    {
        let sel = self.selection;
        if sel.id().is_none() {
            return;
        }
        self.take_snapshot();
        match sel {
            Selection::Point(id) => self.project.smart_remove_point(id),
            Selection::Edge(id) => self.project.remove_edge(id),
            Selection::Room(id) => self.project.remove_room(id),
            Selection::Wall(id) => self.project.remove_wall(id),
            Selection::Opening(id) => self.project.remove_opening(id),
            Selection::Label(id) => self.project.remove_label(id),
            Selection::Nothing => {},
        }
        self.selection = Selection::Nothing;
    }

    /// Ctrl+Z: ends the current property edit, goes back to the newest
    /// snapshot (when there is one) and drops a selection that no longer exists.
    pub fn undo(&mut self) -> (r: bool)
        requires
            old(self).history.wf(),
        ensures
            final(self).history.wf(),
            r == (old(self).history@.undo.len() > 0),
            r ==> (final(self).history@, final(self).project) == after_undo(old(self).history@, old(self).project),
            !r ==> final(self).history@ == old(self).history@ && final(self).project == old(self).project,
            final(self).selection == validated(final(self).project@, old(self).selection),
            final(self).edit_snapshot_version is None,
            final(self).active_tool == old(self).active_tool,
            final(self).tool_points == old(self).tool_points,
    {
        self.edit_snapshot_version = None;
        let r = self.history.undo(&mut self.project);
        self.validate_selection();
        r
    }

    /// Ctrl+Y / Ctrl+Shift+Z: ends the current property edit, goes forward to
    /// the newest undone state (when there is one) and drops a selection that
    /// no longer exists.
    pub fn redo(&mut self) -> (r: bool)
        requires
            old(self).history.wf(),
        ensures
            final(self).history.wf(),
            r == (old(self).history@.redo.len() > 0),
            r ==> (final(self).history@, final(self).project) == after_redo(old(self).history@, old(self).project),
            !r ==> final(self).history@ == old(self).history@ && final(self).project == old(self).project,
            final(self).selection == validated(final(self).project@, old(self).selection),
            final(self).edit_snapshot_version is None,
            final(self).active_tool == old(self).active_tool,
            final(self).tool_points == old(self).tool_points,
    {
        self.edit_snapshot_version = None;
        let r = self.history.redo(&mut self.project);
        self.validate_selection();
        r
    }

    /// Before the first change of a property edit, stores one undo snapshot;
    /// later changes of the same edit store none.
    pub fn ensure_edit_snapshot(&mut self)
        requires
            old(self).history.wf(),
        ensures
            final(self).history.wf(),
            old(self).edit_snapshot_version == Some(old(self).history@.version) ==> final(self).history@
                == old(self).history@ && final(self).edit_snapshot_version == old(self).edit_snapshot_version,
            old(self).edit_snapshot_version != Some(old(self).history@.version) ==> (exists|s: Project<S, V>|
                s@ == old(self).project@ && final(self).history@ == after_snapshot(old(self).history@, s))
                && final(self).edit_snapshot_version == Some(final(self).history@.version),
            final(self).project == old(self).project,
            final(self).selection == old(self).selection,
            final(self).active_tool == old(self).active_tool,
            final(self).tool_points == old(self).tool_points,
    {
        let current = self.history.version();
        let up_to_date = match self.edit_snapshot_version {
            Some(v) => v == current,
            None => false,
        };
        if !up_to_date {
            self.take_snapshot();
            self.edit_snapshot_version = Some(self.history.version());
        }
    }
}


/// Where a click of the point tool landed, as measured on the canvas.
pub enum PointTarget<S, V> {
    /// On an existing point.
    Existing(u128),
    /// On an edge, at `position`, where the ceiling height interpolated
    /// between the edge's end points is `height`.
    OnEdge { edge: u128, position: V, height: S },
    /// On empty space, at `position`.
    Free(V),
}

/// What a click on a point does to the contour being collected.
#[derive(Debug, Clone, Copy, PartialEq, Eq, Structural)]
pub enum ContourStep {
    /// The point is the last one collected: nothing happens.
    Repeated,
    /// The point is appended to the contour.
    Added,
    /// The point is the first one of a contour of at least three points:
    /// the contour is to be finished.
    Closes,
}

/// The step a click on `point` makes, given the points collected so far.
pub open spec fn contour_step(collected: Seq<u128>, point: u128) -> ContourStep {
    if collected.len() > 0 && collected.last() == point {
        ContourStep::Repeated
    } else if collected.len() >= 3 && collected[0] == point {
        ContourStep::Closes
    } else {
        ContourStep::Added
    }
}

/// The name given to the `n`-th room drawn: "Комната n".
pub open spec fn room_name(n: nat) -> Seq<char> {
    "Комната "@ + decimal(n)
}

/// A door of the plan's default sizes, with the swing arc on the first side,
/// opening outward, not mirrored.
pub open spec fn default_door<S>(d: crate::model::ProjectDefaults<S>) -> OpeningKind<S> {
    OpeningKind::Door {
        height: d.door_height,
        width: d.door_width,
        reveal_width: d.door_reveal_width,
        swing_edge: 0,
        swing_outward: true,
        swing_mirrored: false,
    }
}

/// A window of the plan's default sizes.
pub open spec fn default_window<S>(d: crate::model::ProjectDefaults<S>) -> OpeningKind<S> {
    OpeningKind::Window {
        height: d.window_height,
        width: d.window_width,
        sill_height: d.window_sill_height,
        reveal_width: d.window_reveal_width,
    }
}

/// `after` (with selection `sel_after`) is the plan `q` once the closed
/// contour `c`, drawn with `tool`, has become an object: a room named after
/// the room count, a wall, a door or a window (selected), or a cutout of the
/// room `host` (selection unchanged).
pub open spec fn contour_object_added<S, V>(
    q: ProjectView<S, V>,
    tool: Tool,
    c: Seq<u128>,
    host: Option<u128>,
    sel_before: Selection,
    after: ProjectView<S, V>,
    sel_after: Selection,
) -> bool {
    match tool {
        Tool::Room => exists|room: RoomView<V>|
            {
                &&& v4_layout(room.id)
                &&& room.name == room_name((q.rooms.len() + 1) as nat)
                &&& room.points == c
                &&& room.cutouts.len() == 0
                &&& room.color == [70u8, 130u8, 180u8, 45u8]
                &&& room.name_offset is None
                &&& after == q.with_rooms(#[trigger] q.rooms.push(room))
                &&& sel_after == Selection::Room(room.id)
            },
        Tool::Wall => exists|w: WallView|
            {
                &&& v4_layout(w.id)
                &&& w.points == c
                &&& w.color == q.defaults.wall_color
                &&& after == q.with_walls(#[trigger] q.walls.push(w))
                &&& sel_after == Selection::Wall(w.id)
            },
        Tool::Door => exists|o: OpeningView<S>|
            {
                &&& v4_layout(o.id)
                &&& o.points == c
                &&& o.kind == default_door(q.defaults)
                &&& o.color == q.defaults.door_color
                &&& after == q.with_openings(#[trigger] q.openings.push(o))
                &&& sel_after == Selection::Opening(o.id)
            },
        Tool::Window => exists|o: OpeningView<S>|
            {
                &&& v4_layout(o.id)
                &&& o.points == c
                &&& o.kind == default_window(q.defaults)
                &&& o.color == q.defaults.window_color
                &&& after == q.with_openings(#[trigger] q.openings.push(o))
                &&& sel_after == Selection::Opening(o.id)
            },
        Tool::Cutout => {
            &&& sel_after == sel_before
            &&& match host {
                Some(rid) => {
                    &&& has_id_view(q.rooms, rid) ==> exists|i: int|
                        first_room(q.rooms, rid, i) && after == q.with_rooms(
                            q.rooms.update(i, cutout_added(q.rooms[i], c)),
                        )
                    &&& !has_id_view(q.rooms, rid) ==> after == q
                },
                None => after == q,
            }
        },
        _ => after == q && sel_after == sel_before,
    }
}

/// Some room of `rooms` has id `id`.
pub open spec fn has_id_view<V>(rooms: Seq<RoomView<V>>, id: u128) -> bool {
    exists|i: int| 0 <= i < rooms.len() && #[trigger] rooms[i].id == id
}

/// `i` is the first position of a room with id `id`.
pub open spec fn first_room<V>(rooms: Seq<RoomView<V>>, id: u128, i: int) -> bool {
    &&& 0 <= i < rooms.len()
    &&& rooms[i].id == id
    &&& forall|j: int| 0 <= j < i ==> #[trigger] rooms[j].id != id
}

impl<S: Copy, V: Copy> Editor<S, V> {
    /// A click of the point tool: selects an existing point, splits an edge
    /// at the click, or creates a free point with the plan's default height.
    /// A change stores an undo snapshot first and starts a property edit.
    pub fn point_click(&mut self, target: PointTarget<S, V>)
        requires
            old(self).history.wf(),
            target matches PointTarget::OnEdge { edge, .. } ==> has_id(old(self).project@.edges, edge),
        ensures
            final(self).history.wf(),
            final(self).active_tool == old(self).active_tool,
            final(self).tool_points == old(self).tool_points,
            match target {
                PointTarget::Existing(id) => {
                    &&& final(self).selection == Selection::Point(id)
                    &&& final(self).project == old(self).project
                    &&& final(self).history == old(self).history
                    &&& final(self).edit_snapshot_version == old(self).edit_snapshot_version
                },
                PointTarget::OnEdge { edge, position, height } => {
                    &&& exists|s: Project<S, V>|
                        s@ == old(self).project@ && final(self).history@ == after_snapshot(old(self).history@, s)
                    &&& exists|new_id: u128, i: int, ids: Seq<u128>|
                        {
                            &&& v4_layout(new_id)
                            &&& first_with_id(old(self).project@.edges, edge, i)
                            &&& ids.len() == 2
                            &&& final(self).project@ == split_view(
                                old(self).project@,
                                edge,
                                old(self).project@.edges[i].point_a,
                                old(self).project@.edges[i].point_b,
                                Point { id: new_id, position, height },
                                ids,
                            )
                            &&& final(self).selection == Selection::Point(new_id)
                        }
                    &&& final(self).edit_snapshot_version == Some(final(self).history@.version)
                },
                PointTarget::Free(position) => {
                    &&& exists|s: Project<S, V>|
                        s@ == old(self).project@ && final(self).history@ == after_snapshot(old(self).history@, s)
                    &&& exists|p: Point<S, V>|
                        {
                            &&& v4_layout(p.id)
                            &&& p.position == position
                            &&& p.height == old(self).project.defaults.point_height
                            &&& final(self).project@ == old(self).project@.with_points(
                                old(self).project@.points.push(p),
                            )
                            &&& final(self).selection == Selection::Point(p.id)
                        }
                    &&& final(self).edit_snapshot_version == Some(final(self).history@.version)
                },
            },
    {
        match target {
            PointTarget::Existing(id) => {
                self.selection = Selection::Point(id);
            },
            PointTarget::OnEdge { edge, position, height } => {
                self.take_snapshot();
                let new_id = self.project.split_edge(edge, position, height);
                self.selection = Selection::Point(new_id);
                self.edit_snapshot_version = Some(self.history.version());
                assert(self.selection == Selection::Point(new_id));
            },
            PointTarget::Free(position) => {
                let point = Point::new(position, self.project.defaults.point_height);
                let point_id = point.id;
                self.take_snapshot();
                self.project.points.push(point);
                self.selection = Selection::Point(point_id);
                self.edit_snapshot_version = Some(self.history.version());
                assert(self.project@ == old(self).project@.with_points(old(self).project@.points.push(point)));
            },
        }
    }

    /// A click of a contour tool on the existing point `point_id`: a repeat
    /// of the last point is ignored, the first point of a contour of at least
    /// three points closes it (the caller then finishes it), any other point
    /// is appended.
    pub fn contour_click(&mut self, point_id: u128) -> (r: ContourStep)
        ensures
            r == contour_step(old(self).tool_points@, point_id),
            r == ContourStep::Added ==> final(self).tool_points@ == old(self).tool_points@.push(point_id),
            r != ContourStep::Added ==> final(self).tool_points@ == old(self).tool_points@,
            final(self).project == old(self).project,
            final(self).history == old(self).history,
            final(self).selection == old(self).selection,
            final(self).active_tool == old(self).active_tool,
            final(self).edit_snapshot_version == old(self).edit_snapshot_version,
    {
        let n = self.tool_points.len();
        if n > 0 && self.tool_points[n - 1] == point_id {
            return ContourStep::Repeated;
        }
        if n >= 3 && self.tool_points[0] == point_id {
            return ContourStep::Closes;
        }
        self.tool_points.push(point_id);
        ContourStep::Added
    }

    /// Finishes the contour collected so far (Enter, or a click on its first
    /// point): with fewer than three points nothing happens. Otherwise the
    /// points are released, an undo snapshot is stored, every side of the
    /// contour gets an edge, and the contour becomes an object of the active
    /// tool; for a cutout, `cutout_host` is the room (found by the caller
    /// from the geometry) that receives it. A property edit starts.
    pub fn finalize_contour(&mut self, cutout_host: Option<u128>) -> (r: bool)
        requires
            old(self).history.wf(),
            old(self).active_tool == Tool::Room ==> old(self).project.rooms@.len() < usize::MAX,
        ensures
            final(self).history.wf(),
            r == (old(self).tool_points@.len() >= 3),
            final(self).active_tool == old(self).active_tool,
            !r ==> {
                &&& final(self).project == old(self).project
                &&& final(self).history == old(self).history
                &&& final(self).selection == old(self).selection
                &&& final(self).tool_points == old(self).tool_points
                &&& final(self).edit_snapshot_version == old(self).edit_snapshot_version
            },
            r ==> {
                &&& final(self).tool_points@.len() == 0
                &&& exists|s: Project<S, V>|
                    s@ == old(self).project@ && final(self).history@ == after_snapshot(old(self).history@, s)
                &&& exists|ids: Seq<u128>|
                    {
                        &&& ids.len() == old(self).tool_points@.len()
                        &&& contour_object_added(
                            old(self).project@.with_edges(
                                #[trigger] ensured_edges(
                                    old(self).project@.edges,
                                    contour_sides(old(self).tool_points@),
                                    ids,
                                ),
                            ),
                            old(self).active_tool,
                            old(self).tool_points@,
                            cutout_host,
                            old(self).selection,
                            final(self).project@,
                            final(self).selection,
                        )
                    }
                &&& appended_fresh(old(self).project@.edges, final(self).project@.edges)
                &&& final(self).edit_snapshot_version == Some(final(self).history@.version)
            },
    {
        if self.tool_points.len() < 3 {
            return false;
        }
        let mut points: Vec<u128> = Vec::new();
        std::mem::swap(&mut points, &mut self.tool_points);
        self.take_snapshot();
        let ghost p0 = self.project@;
        self.project.ensure_contour_edges(&points);
        let ghost q = self.project@;
        let ghost c = points@;
        let ghost ids = choose|ids: Seq<u128>|
            ids.len() == c.len() && q == p0.with_edges(ensured_edges(p0.edges, contour_sides(c), ids));
        match self.active_tool {
            Tool::Cutout => {
                match cutout_host {
                    Some(rid) => {
                        let ghost rooms_before = self.project.rooms@;
                        let found = self.project.add_cutout(rid, points);
                        proof {
                            if found {
                                let i = choose|i: int| first_with_id(rooms_before, rid, i);
                                assert(has_id_view(q.rooms, rid)) by {
                                    assert(q.rooms[i].id == rid);
                                }
                                assert(first_room(q.rooms, rid, i)) by {
                                    assert forall|j: int| 0 <= j < i implies #[trigger] q.rooms[j].id != rid by {
                                        assert(rooms_before[j].spec_id() == rooms_before[j].id);
                                    }
                                }
                            } else {
                                assert forall|j: int| 0 <= j < q.rooms.len() implies #[trigger] q.rooms[j].id != rid by {
                                    assert(rooms_before[j].spec_id() == rooms_before[j].id);
                                }
                            }
                        }
                    },
                    None => {},
                }
            },
            Tool::Room => {
                assert(self.project.rooms@.len() == q.rooms.len());
                let n = self.project.rooms.len();
                let mut name = String::from_str("Комната ");
                proof {
                    reveal_strlit("Комната ");
                }
                push_decimal(&mut name, (n + 1) as u64);
                let room = Room::new(name, points, Room::<V>::default_color());
                let room_id = room.id;
                self.project.rooms.push(room);
                self.selection = Selection::Room(room_id);
                proof {
                    assert(room@.name == room_name((q.rooms.len() + 1) as nat));
                    assert(self.project.rooms@.map_values(crate::model::room_view::<V>()) =~= q.rooms.push(room@));
                    assert(self.project@ == q.with_rooms(q.rooms.push(room@)));
                }
            },
            Tool::Wall => {
                let wall = Wall::new(points, self.project.defaults.wall_color);
                let wall_id = wall.id;
                self.project.walls.push(wall);
                self.selection = Selection::Wall(wall_id);
                proof {
                    assert(self.project.walls@.map_values(crate::model::wall_view()) =~= q.walls.push(wall@));
                }
            },
            Tool::Door => {
                let d = self.project.defaults;
                let kind = OpeningKind::Door {
                    height: d.door_height,
                    width: d.door_width,
                    reveal_width: d.door_reveal_width,
                    swing_edge: 0,
                    swing_outward: true,
                    swing_mirrored: false,
                };
                let opening = Opening::new(points, kind, d.door_color);
                let opening_id = opening.id;
                self.project.openings.push(opening);
                self.selection = Selection::Opening(opening_id);
                proof {
                    assert(self.project.openings@.map_values(crate::model::opening_view::<S>()) =~= q.openings.push(opening@));
                }
            },
            Tool::Window => {
                let d = self.project.defaults;
                let kind = OpeningKind::Window {
                    height: d.window_height,
                    width: d.window_width,
                    sill_height: d.window_sill_height,
                    reveal_width: d.window_reveal_width,
                };
                let opening = Opening::new(points, kind, d.window_color);
                let opening_id = opening.id;
                self.project.openings.push(opening);
                self.selection = Selection::Opening(opening_id);
                proof {
                    assert(self.project.openings@.map_values(crate::model::opening_view::<S>()) =~= q.openings.push(opening@));
                }
            },
            _ => {},
        }
        self.edit_snapshot_version = Some(self.history.version());
        assert(contour_object_added(q, old(self).active_tool, c, cutout_host, old(self).selection, self.project@, self.selection));
        true
    }
}

impl<S: Copy, V: Copy> Editor<S, V> {
    /// A click of the edge tool on the existing point `point_id`: a repeat of
    /// the last point is ignored; the second point collected makes sure an
    /// edge joins the two (after an undo snapshot), releases them and starts a
    /// property edit. Returns whether that happened.
    pub fn edge_click(&mut self, point_id: u128) -> (r: bool)
        requires
            old(self).history.wf(),
        ensures
            final(self).history.wf(),
            final(self).active_tool == old(self).active_tool,
            final(self).selection == old(self).selection,
            ({
                let tp = old(self).tool_points@;
                let repeated = tp.len() > 0 && tp.last() == point_id;
                &&& r == (!repeated && tp.len() == 1)
                &&& repeated ==> final(self).tool_points@ == tp
                &&& !repeated && tp.len() != 1 ==> final(self).tool_points@ == tp.push(point_id)
                &&& !r ==> {
                    &&& final(self).project == old(self).project
                    &&& final(self).history == old(self).history
                    &&& final(self).edit_snapshot_version == old(self).edit_snapshot_version
                }
                &&& r ==> {
                    &&& final(self).tool_points@.len() == 0
                    &&& exists|s: Project<S, V>|
                        s@ == old(self).project@ && final(self).history@ == after_snapshot(old(self).history@, s)
                    &&& exists|id: u128|
                        final(self).project@ == old(self).project@.with_edges(
                            #[trigger] ensured_edge(old(self).project@.edges, tp[0], point_id, id),
                        ) && (!edges_join(old(self).project@.edges, tp[0], point_id) ==> v4_layout(id))
                    &&& final(self).edit_snapshot_version == Some(final(self).history@.version)
                }
            }),
    {
        let n = self.tool_points.len();
        if n > 0 && self.tool_points[n - 1] == point_id {
            return false;
        }
        self.tool_points.push(point_id);
        if self.tool_points.len() == 2 {
            let a = self.tool_points[0];
            let b = self.tool_points[1];
            self.take_snapshot();
            let id = self.project.ensure_edge(a, b);
            self.tool_points.clear();
            self.edit_snapshot_version = Some(self.history.version());
            assert(self.project@ == old(self).project@.with_edges(ensured_edge(old(self).project@.edges, a, b, id)));
            return true;
        }
        false
    }

    /// A click of the label tool at `position`: after an undo snapshot, adds
    /// the label "Подпись" there (with the given display size and rotation),
    /// selects it and starts a property edit.
    pub fn label_click(&mut self, position: V, font_size: S, rotation: S)
        requires
            old(self).history.wf(),
        ensures
            final(self).history.wf(),
            exists|s: Project<S, V>|
                s@ == old(self).project@ && final(self).history@ == after_snapshot(old(self).history@, s),
            exists|l: LabelView<S, V>|
                {
                    &&& v4_layout(l.id)
                    &&& l.text == "Подпись"@
                    &&& l.position == position
                    &&& l.font_size == font_size
                    &&& l.rotation == rotation
                    &&& final(self).project@ == old(self).project@.with_labels(
                        #[trigger] old(self).project@.labels.push(l),
                    )
                    &&& final(self).selection == Selection::Label(l.id)
                },
            final(self).edit_snapshot_version == Some(final(self).history@.version),
            final(self).active_tool == old(self).active_tool,
            final(self).tool_points == old(self).tool_points,
    {
        let label = Label::new(String::from_str("Подпись"), position, font_size, rotation);
        let label_id = label.id;
        self.take_snapshot();
        self.project.labels.push(label);
        self.selection = Selection::Label(label_id);
        self.edit_snapshot_version = Some(self.history.version());
        proof {
            assert(self.project.labels@.map_values(crate::model::label_view::<S, V>()) =~= old(self).project@.labels.push(label@));
            assert(self.project@ == old(self).project@.with_labels(old(self).project@.labels.push(label@)));
        }
    }

    /// A click of the select tool on `hit` (what the canvas found under the
    /// cursor): ends the current property edit and selects it.
    pub fn select_click(&mut self, hit: Selection)
        ensures
            final(self).selection == hit,
            final(self).edit_snapshot_version is None,
            final(self).project == old(self).project,
            final(self).history == old(self).history,
            final(self).active_tool == old(self).active_tool,
            final(self).tool_points == old(self).tool_points,
    {
        self.edit_snapshot_version = None;
        self.selection = hit;
    }

    /// The start of a drag of the select tool on `hit`: a point or a label is
    /// selected and an undo snapshot stored; anything else changes nothing.
    pub fn drag_start(&mut self, hit: Selection)
        requires
            old(self).history.wf(),
        ensures
            final(self).history.wf(),
            (hit is Point || hit is Label) ==> {
                &&& final(self).selection == hit
                &&& exists|s: Project<S, V>|
                    s@ == old(self).project@ && final(self).history@ == after_snapshot(old(self).history@, s)
            },
            !(hit is Point || hit is Label) ==> final(self).selection == old(self).selection
                && final(self).history == old(self).history,
            final(self).project == old(self).project,
            final(self).active_tool == old(self).active_tool,
            final(self).tool_points == old(self).tool_points,
            final(self).edit_snapshot_version == old(self).edit_snapshot_version,
    {
        match hit {
            Selection::Point(_) | Selection::Label(_) => {
                self.selection = hit;
                self.take_snapshot();
            },
            _ => {},
        }
    }

    /// A drag of the select tool to `position` (already snapped by the
    /// caller where it snaps): moves the selected point or label there.
    pub fn drag_to(&mut self, position: V)
        ensures
            match old(self).selection {
                Selection::Point(id) => {
                    &&& has_id(old(self).project@.points, id) ==> exists|i: int|
                        first_with_id(old(self).project@.points, id, i) && final(self).project@
                            == old(self).project@.with_points(
                            old(self).project@.points.update(i, Point { position, ..old(self).project@.points[i] }),
                        )
                    &&& !has_id(old(self).project@.points, id) ==> final(self).project@ == old(self).project@
                },
                Selection::Label(id) => {
                    &&& has_id(old(self).project.labels@, id) ==> exists|i: int|
                        first_with_id(old(self).project.labels@, id, i) && final(self).project@
                            == old(self).project@.with_labels(
                            old(self).project@.labels.update(i, LabelView { position, ..old(self).project@.labels[i] }),
                        )
                    &&& !has_id(old(self).project.labels@, id) ==> final(self).project@ == old(self).project@
                },
                _ => final(self).project@ == old(self).project@,
            },
            final(self).selection == old(self).selection,
            final(self).history == old(self).history,
            final(self).active_tool == old(self).active_tool,
            final(self).tool_points == old(self).tool_points,
            final(self).edit_snapshot_version == old(self).edit_snapshot_version,
    {
        match self.selection {
            Selection::Point(pid) => {
                match self.project.point_mut(pid) {
                    Some(point) => {
                        point.position = position;
                    },
                    None => {},
                }
            },
            Selection::Label(lid) => {
                let ghost labels0 = self.project.labels@;
                match self.project.label_mut(lid) {
                    Some(label) => {
                        let ghost before = *label;
                        label.position = position;
                        let ghost after = *label;
                        proof {
                            let i = choose|i: int|
                                first_with_id(labels0, lid, i) && before == labels0[i] && self.project.labels@
                                    == labels0.update(i, after);
                            assert(self.project.labels@.map_values(crate::model::label_view::<S, V>())
                                =~= labels0.map_values(crate::model::label_view::<S, V>()).update(i, after@));
                        }
                    },
                    None => {},
                }
            },
            _ => {},
        }
    }

    /// Escape: the select tool drops the selection; the other tools drop the
    /// points collected so far (the point and label tools have none).
    pub fn escape(&mut self)
        ensures
            old(self).active_tool == Tool::Select ==> final(self).selection == Selection::Nothing
                && final(self).tool_points == old(self).tool_points,
            old(self).active_tool != Tool::Select ==> final(self).selection == old(self).selection
                && final(self).tool_points@.len() == 0,
            final(self).project == old(self).project,
            final(self).history == old(self).history,
            final(self).active_tool == old(self).active_tool,
            final(self).edit_snapshot_version == old(self).edit_snapshot_version,
    {
        if self.active_tool == Tool::Select {
            self.selection = Selection::Nothing;
        } else {
            self.tool_points.clear();
        }
    }
}

/// Unsaved changes are due for an automatic save: the plan changed since the
/// last save and at least two seconds have passed since it.
pub fn auto_save_due(version: u64, last_saved_version: u64, secs_since_save: u64) -> (r: bool)
    ensures
        r == (version != last_saved_version && secs_since_save >= 2),
{
    version != last_saved_version && secs_since_save >= 2
}

/// A status message has been shown long enough (five seconds) to be dropped.
pub fn status_expired(secs_shown: u64) -> (r: bool)
    ensures
        r == (secs_shown >= 5),
{
    secs_shown >= 5
}

/// Deleting the selected object leaves no object of its kind with its id.
pub proof fn delete_removes_selected<S, V>(before: ProjectView<S, V>, sel: Selection, after: ProjectView<S, V>)
    requires
        deletes(before, sel, after),
        sel != Selection::Nothing,
    ensures
        !selection_exists(after, sel),
{
    match sel {
        Selection::Point(id) => {
            broadcast use vstd::seq_lib::group_filter_ensures;
            assert forall|i: int| 0 <= i < after.points.len() implies #[trigger] after.points[i].id != id by {
                assert(point_other::<S, V>(id)(after.points[i]));
            }
        },
        Selection::Edge(id) => {
            broadcast use vstd::seq_lib::group_filter_ensures;
            if has_id(before.edges, id) {
                assert forall|i: int| 0 <= i < after.edges.len() implies #[trigger] after.edges[i].id != id by {
                    assert(edge_other::<S>(id)(after.edges[i]));
                }
            } else {
                assert forall|i: int| 0 <= i < after.edges.len() implies #[trigger] after.edges[i].id != id by {
                    assert(after.edges[i].spec_id() == after.edges[i].id);
                }
            }
        },
        Selection::Room(id) => {
            broadcast use vstd::seq_lib::group_filter_ensures;
            assert forall|i: int| 0 <= i < after.rooms.len() implies #[trigger] after.rooms[i].id != id by {
                assert(room_other::<V>(id)(after.rooms[i]));
            }
        },
        Selection::Wall(id) => {
            broadcast use vstd::seq_lib::group_filter_ensures;
            assert forall|i: int| 0 <= i < after.walls.len() implies #[trigger] after.walls[i].id != id by {
                assert(wall_other(id)(after.walls[i]));
            }
        },
        Selection::Opening(id) => {
            broadcast use vstd::seq_lib::group_filter_ensures;
            assert forall|i: int| 0 <= i < after.openings.len() implies #[trigger] after.openings[i].id != id by {
                assert(opening_other::<S>(id)(after.openings[i]));
            }
        },
        Selection::Label(id) => {
            broadcast use vstd::seq_lib::group_filter_ensures;
            assert forall|i: int| 0 <= i < after.labels.len() implies #[trigger] after.labels[i].id != id by {
                assert(label_other::<S, V>(id)(after.labels[i]));
            }
        },
        Selection::Nothing => {},
    }
}

/// The kind of object whose services apply to an opening of kind `k`.
pub open spec fn kind_target<S>(k: OpeningKind<S>) -> TargetObjectType {
    match k {
        OpeningKind::Door { .. } => TargetObjectType::Door,
        OpeningKind::Window { .. } => TargetObjectType::Window,
    }
}

impl<S, V> Editor<S, V> {
    /// The kind of object whose services the selection takes: a wall, a room,
    /// or the selected opening's door or window (none when that opening is
    /// gone); nothing for other selections.
    pub fn selection_target_type(&self) -> (r: Option<TargetObjectType>)
        ensures
            r == (match self.selection {
                Selection::Wall(_) => Some(TargetObjectType::Wall),
                Selection::Room(_) => Some(TargetObjectType::Room),
                Selection::Opening(id) => if has_id(self.project.openings@, id) {
                    Some(kind_target(self.project.openings@[choose|i: int| first_with_id(self.project.openings@, id, i)].kind))
                } else {
                    None
                },
                _ => None,
            }),
    {
        match self.selection {
            Selection::Wall(_) => Some(TargetObjectType::Wall),
            Selection::Room(_) => Some(TargetObjectType::Room),
            Selection::Opening(id) => match self.project.opening(id) {
                Some(o) => {
                    proof {
                        let i = choose|i: int| first_with_id(self.project.openings@, id, i) && self.project.openings@[i] == *o;
                        let j = choose|i: int| first_with_id(self.project.openings@, id, i);
                        lemma_first_with_id_unique(self.project.openings@, id, i, j);
                    }
                    Some(o.kind.target_type())
                },
                None => None,
            },
            _ => None,
        }
    }
}

/// The characters with Unicode's `White_Space` property: those that
/// `str::trim` strips from both ends of a text (and `char::is_whitespace`
/// accepts).
pub open spec fn is_white_space(c: char) -> bool {
    let u = c as u32;
    ||| 0x9 <= u <= 0xD
    ||| u == 0x20
    ||| u == 0x85
    ||| u == 0xA0
    ||| u == 0x1680
    ||| 0x2000 <= u <= 0x200A
    ||| u == 0x2028
    ||| u == 0x2029
    ||| u == 0x202F
    ||| u == 0x205F
    ||| u == 0x3000
}

/// The text is blank: it trims to nothing, every character being white space.
pub open spec fn blank(s: Seq<char>) -> bool {
    forall|i: int| 0 <= i < s.len() ==> is_white_space(#[trigger] s[i])
}

/// Whether `c` is a white-space character.
pub fn white_space(c: char) -> (r: bool)
    ensures
        r == is_white_space(c),
{
    let u = c as u32;
    (0x9 <= u && u <= 0xD) || u == 0x20 || u == 0x85 || u == 0xA0 || u == 0x1680 || (0x2000 <= u && u <= 0x200A)
        || u == 0x2028 || u == 0x2029 || u == 0x202F || u == 0x205F || u == 0x3000
}

/// Whether the text is blank (only white space, or empty).
pub fn is_blank(s: &str) -> (r: bool)
    ensures
        r == blank(s@),
{
    let n = s.unicode_len();
    let mut i: usize = 0;
    while i < n
        invariant
            n == s@.len(),
            i <= n,
            forall|k: int| 0 <= k < i ==> is_white_space(#[trigger] s@[k]),
        decreases n - i,
    {
        if !white_space(s.get_char(i)) {
            return false;
        }
        i = i + 1;
    }
    true
}

/// `i` is the first position of a wall with id `id`.
pub open spec fn first_wall(walls: Seq<WallView>, id: u128, i: int) -> bool {
    &&& 0 <= i < walls.len()
    &&& walls[i].id == id
    &&& forall|j: int| 0 <= j < i ==> #[trigger] walls[j].id != id
}

/// `i` is the first position of an opening with id `id`.
pub open spec fn first_opening<S>(openings: Seq<OpeningView<S>>, id: u128, i: int) -> bool {
    &&& 0 <= i < openings.len()
    &&& openings[i].id == id
    &&& forall|j: int| 0 <= j < i ==> #[trigger] openings[j].id != id
}

/// The colour of the selected room, wall or opening (the first with its id),
/// when there is one.
pub open spec fn selected_color_of<S, V>(p: ProjectView<S, V>, sel: Selection) -> Option<[u8; 4]> {
    match sel {
        Selection::Room(id) => if exists|i: int| first_room(p.rooms, id, i) {
            Some(p.rooms[choose|i: int| first_room(p.rooms, id, i)].color)
        } else {
            None
        },
        Selection::Wall(id) => if exists|i: int| first_wall(p.walls, id, i) {
            Some(p.walls[choose|i: int| first_wall(p.walls, id, i)].color)
        } else {
            None
        },
        Selection::Opening(id) => if exists|i: int| first_opening(p.openings, id, i) {
            Some(p.openings[choose|i: int| first_opening(p.openings, id, i)].color)
        } else {
            None
        },
        _ => None,
    }
}

impl<S, V> Editor<S, V> {
    /// The colour of the selected room, wall or opening ("copy colour");
    /// nothing for other selections or when the object is gone.
    pub fn selected_color(&self) -> (r: Option<[u8; 4]>)
        ensures
            r == selected_color_of(self.project@, self.selection),
    {
        match self.selection {
            Selection::Room(id) => match self.project.room(id) {
                Some(room) => {
                    proof {
                        let rs = self.project.rooms@;
                        let i = choose|i: int| first_with_id(rs, id, i) && rs[i] == *room;
                        assert(first_room(self.project@.rooms, id, i)) by {
                            assert forall|j: int| 0 <= j < i implies #[trigger] self.project@.rooms[j].id != id by {
                                assert(rs[j].spec_id() == rs[j].id);
                            }
                        }
                        let k = choose|k: int| first_room(self.project@.rooms, id, k);
                        lemma_first_unique(self.project@.rooms, |r: RoomView<V>| r.id, id, i, k);
                    }
                    Some(room.color)
                },
                None => {
                    proof {
                        assert forall|j: int| 0 <= j < self.project@.rooms.len() implies #[trigger] self.project@.rooms[j].id != id by {
                            assert(self.project.rooms@[j].spec_id() == self.project.rooms@[j].id);
                        }
                    }
                    None
                },
            },
            Selection::Wall(id) => match self.project.wall(id) {
                Some(wall) => {
                    proof {
                        let ws = self.project.walls@;
                        let pw = self.project@.walls;
                        let i = choose|i: int| first_with_id(ws, id, i) && ws[i] == *wall;
                        assert(pw[i].id == id);
                        assert forall|j: int| 0 <= j < i implies #[trigger] pw[j].id != id by {
                            assert(ws[j].spec_id() == ws[j].id);
                        }
                        assert(first_wall(pw, id, i));
                        let k = choose|k: int| first_wall(pw, id, k);
                        lemma_first_unique(pw, |w: WallView| w.id, id, i, k);
                    }
                    Some(wall.color)
                },
                None => {
                    proof {
                        assert forall|j: int| 0 <= j < self.project@.walls.len() implies #[trigger] self.project@.walls[j].id != id by {
                            assert(self.project.walls@[j].spec_id() == self.project.walls@[j].id);
                        }
                    }
                    None
                },
            },
            Selection::Opening(id) => match self.project.opening(id) {
                Some(o) => {
                    proof {
                        let os = self.project.openings@;
                        let po = self.project@.openings;
                        let i = choose|i: int| first_with_id(os, id, i) && os[i] == *o;
                        assert(po[i].id == id);
                        assert forall|j: int| 0 <= j < i implies #[trigger] po[j].id != id by {
                            assert(os[j].spec_id() == os[j].id);
                        }
                        assert(first_opening(po, id, i));
                        let k = choose|k: int| first_opening(po, id, k);
                        lemma_first_unique(po, |o: OpeningView<S>| o.id, id, i, k);
                    }
                    Some(o.color)
                },
                None => {
                    proof {
                        assert forall|j: int| 0 <= j < self.project@.openings.len() implies #[trigger] self.project@.openings[j].id != id by {
                            assert(self.project.openings@[j].spec_id() == self.project.openings@[j].id);
                        }
                    }
                    None
                },
            },
            _ => None,
        }
    }
}

/// The text of the label selected by `sel` (the first with its id) is blank.
pub open spec fn selects_blank_label<S, V>(labels: Seq<Label<S, V>>, sel: Selection) -> bool {
    match sel {
        Selection::Label(id) => has_id(labels, id) && blank(
            labels[choose|i: int| first_with_id(labels, id, i)].text@,
        ),
        _ => false,
    }
}

impl<S, V> Editor<S, V> {
    /// Gives the selected room, wall or opening (the first with its id) the
    /// colour `color` (the colour picker, "paste colour"); returns whether
    /// there was such an object. Nothing else changes.
    pub fn set_selected_color(&mut self, color: [u8; 4]) -> (r: bool)
        ensures
            r == (selected_color_of(old(self).project@, old(self).selection) is Some),
            !r ==> final(self).project@ == old(self).project@,
            r ==> match old(self).selection {
                Selection::Room(id) => exists|i: int|
                    first_room(old(self).project@.rooms, id, i) && final(self).project@ == old(self).project@.with_rooms(
                        old(self).project@.rooms.update(i, RoomView { color, ..old(self).project@.rooms[i] }),
                    ),
                Selection::Wall(id) => exists|i: int|
                    first_wall(old(self).project@.walls, id, i) && final(self).project@ == old(self).project@.with_walls(
                        old(self).project@.walls.update(i, WallView { color, ..old(self).project@.walls[i] }),
                    ),
                Selection::Opening(id) => exists|i: int|
                    first_opening(old(self).project@.openings, id, i) && final(self).project@
                        == old(self).project@.with_openings(
                        old(self).project@.openings.update(i, OpeningView { color, ..old(self).project@.openings[i] }),
                    ),
                _ => false,
            },
            final(self).selection == old(self).selection,
            final(self).history == old(self).history,
            final(self).active_tool == old(self).active_tool,
            final(self).tool_points == old(self).tool_points,
            final(self).edit_snapshot_version == old(self).edit_snapshot_version,
    {
        let had = self.selected_color().is_some();
        let ghost p0 = self.project@;
        match self.selection {
            Selection::Room(id) => {
                let ghost rooms0 = self.project.rooms@;
                match self.project.room_mut(id) {
                    Some(room) => {
                        let ghost before = *room;
                        room.color = color;
                        let ghost after = *room;
                        proof {
                            let i = choose|i: int|
                                first_with_id(rooms0, id, i) && before == rooms0[i] && self.project.rooms@
                                    == rooms0.update(i, after);
                            assert(self.project.rooms@.map_values(crate::model::room_view::<V>())
                                =~= rooms0.map_values(crate::model::room_view::<V>()).update(i, after@));
                            assert forall|j: int| 0 <= j < i implies #[trigger] p0.rooms[j].id != id by {
                                assert(rooms0[j].spec_id() == rooms0[j].id);
                            }
                            assert(first_room(p0.rooms, id, i));
                        }
                    },
                    None => {},
                }
            },
            Selection::Wall(id) => {
                let ghost walls0 = self.project.walls@;
                match self.project.wall_mut(id) {
                    Some(wall) => {
                        let ghost before = *wall;
                        wall.color = color;
                        let ghost after = *wall;
                        proof {
                            let i = choose|i: int|
                                first_with_id(walls0, id, i) && before == walls0[i] && self.project.walls@
                                    == walls0.update(i, after);
                            assert(self.project.walls@.map_values(crate::model::wall_view())
                                =~= walls0.map_values(crate::model::wall_view()).update(i, after@));
                            assert forall|j: int| 0 <= j < i implies #[trigger] p0.walls[j].id != id by {
                                assert(walls0[j].spec_id() == walls0[j].id);
                            }
                            assert(first_wall(p0.walls, id, i));
                        }
                    },
                    None => {},
                }
            },
            Selection::Opening(id) => {
                let ghost openings0 = self.project.openings@;
                match self.project.opening_mut(id) {
                    Some(o) => {
                        let ghost before = *o;
                        o.color = color;
                        let ghost after = *o;
                        proof {
                            let i = choose|i: int|
                                first_with_id(openings0, id, i) && before == openings0[i] && self.project.openings@
                                    == openings0.update(i, after);
                            assert(self.project.openings@.map_values(crate::model::opening_view::<S>())
                                =~= openings0.map_values(crate::model::opening_view::<S>()).update(i, after@));
                            assert forall|j: int| 0 <= j < i implies #[trigger] p0.openings[j].id != id by {
                                assert(openings0[j].spec_id() == openings0[j].id);
                            }
                            assert(first_opening(p0.openings, id, i));
                        }
                    },
                    None => {},
                }
            },
            _ => {},
        }
        had
    }

    /// A selected label whose text is blank (whitespace only) is deleted,
    /// without an undo snapshot, and the selection cleared; returns whether
    /// that happened.
    pub fn drop_blank_label(&mut self) -> (r: bool)
        ensures
            r == selects_blank_label(old(self).project.labels@, old(self).selection),
            r ==> (match old(self).selection {
                Selection::Label(id) => final(self).project@ == old(self).project@.with_labels(
                    old(self).project@.labels.filter(label_other(id)),
                ),
                _ => false,
            }) && final(self).selection == Selection::Nothing,
            !r ==> final(self).project == old(self).project && final(self).selection == old(self).selection,
            final(self).history == old(self).history,
            final(self).active_tool == old(self).active_tool,
            final(self).tool_points == old(self).tool_points,
            final(self).edit_snapshot_version == old(self).edit_snapshot_version,
    {
        match self.selection {
            Selection::Label(id) => {
                let blank = match self.project.label(id) {
                    Some(label) => {
                        proof {
                            let ls = self.project.labels@;
                            let i = choose|i: int| first_with_id(ls, id, i) && ls[i] == *label;
                            let k = choose|k: int| first_with_id(ls, id, k);
                            lemma_first_with_id_unique(ls, id, i, k);
                        }
                        is_blank(label.text.as_str())
                    },
                    None => false,
                };
                if blank {
                    self.project.remove_label(id);
                    self.selection = Selection::Nothing;
                }
                blank
            },
            _ => false,
        }
    }
}

} // verus!
