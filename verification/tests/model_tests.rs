use glam::DVec2;
use smetana::model::{
    ArrowMode, Edge, LinePattern, Opening, OpeningKind, Point, Project, ProjectDefaults, Room, Wall,
    default_door_color, default_swing_outward, default_wall_color, default_window_color,
};
use smetana::price::TargetObjectType;

type Plan = Project<f64, DVec2>;

fn defaults() -> ProjectDefaults<f64> {
    ProjectDefaults {
        point_height: 2700.0,
        door_height: 2100.0,
        door_width: 900.0,
        door_reveal_width: 0.0,
        window_height: 1400.0,
        window_width: 1200.0,
        window_sill_height: 900.0,
        window_reveal_width: 250.0,
        wall_color: default_wall_color(),
        door_color: default_door_color(),
        window_color: default_window_color(),
    }
}

fn new_id() -> u128 {
    uuid::Uuid::new_v4().as_u128()
}

fn make_point(id: u128, x: f64, y: f64) -> Point<f64, DVec2> {
    Point { id, position: DVec2::new(x, y), height: 2700.0 }
}

fn door() -> OpeningKind<f64> {
    OpeningKind::Door {
        height: 2100.0,
        width: 900.0,
        reveal_width: 0.0,
        swing_edge: 0,
        swing_outward: true,
        swing_mirrored: false,
    }
}

fn make_rect_project() -> (Plan, u128) {
    let mut project = Plan::new("test".to_string(), defaults());
    let ids: Vec<u128> = (0..4).map(|_| new_id()).collect();
    let positions = [
        DVec2::new(0.0, 0.0),
        DVec2::new(2000.0, 0.0),
        DVec2::new(2000.0, 3000.0),
        DVec2::new(0.0, 3000.0),
    ];
    for (i, &id) in ids.iter().enumerate() {
        project.points.push(Point { id, position: positions[i], height: 2700.0 });
    }
    project.ensure_contour_edges(&ids);
    let room = Room::new("Test Room".to_string(), ids, Room::<DVec2>::default_color());
    let room_id = room.id;
    project.rooms.push(room);
    (project, room_id)
}

fn ensure_edge_dedup_scenario() {
    let mut project = Plan::new("test".to_string(), defaults());
    let a = new_id();
    let b = new_id();
    project.points.push(Point::new(DVec2::new(0.0, 0.0), 2700.0));
    project.points.push(Point::new(DVec2::new(1000.0, 0.0), 2700.0));
    project.points[0].id = a;
    project.points[1].id = b;

    let id1 = project.ensure_edge(a, b);
    let id2 = project.ensure_edge(a, b);
    let id3 = project.ensure_edge(b, a);
    assert_eq!(id1, id2);
    assert_eq!(id1, id3);
    assert_eq!(project.edges.len(), 1);
}

#[test]
fn model_test_ensure_edge_dedup() {
    ensure_edge_dedup_scenario();
}

#[test]
fn project_test_ensure_edge_dedup() {
    ensure_edge_dedup_scenario();
}

fn remove_point_cascades_scenario() {
    let mut project = Plan::new("test".to_string(), defaults());
    let ids: Vec<u128> = (0..4).map(|_| new_id()).collect();
    let positions = [
        DVec2::new(0.0, 0.0),
        DVec2::new(1000.0, 0.0),
        DVec2::new(1000.0, 1000.0),
        DVec2::new(0.0, 1000.0),
    ];
    for (i, &id) in ids.iter().enumerate() {
        project.points.push(Point { id, position: positions[i], height: 2700.0 });
    }

    project.ensure_contour_edges(&ids);
    assert_eq!(project.edges.len(), 4);

    project.rooms.push(Room::new("Room".to_string(), ids.clone(), Room::<DVec2>::default_color()));
    project.walls.push(Wall::new(ids.clone(), [180, 180, 180, 255]));
    project.openings.push(Opening::new(ids.clone(), door(), [210, 170, 120, 200]));

    assert_eq!(project.rooms.len(), 1);
    assert_eq!(project.walls.len(), 1);
    assert_eq!(project.openings.len(), 1);

    project.remove_point(ids[0]);

    assert_eq!(project.points.len(), 3);
    assert_eq!(project.edges.len(), 2);
    assert_eq!(project.rooms.len(), 0);
    assert_eq!(project.walls.len(), 0);
    assert_eq!(project.openings.len(), 0);
}

#[test]
fn model_test_remove_point_cascades() {
    remove_point_cascades_scenario();
}

#[test]
fn project_test_remove_point_cascades() {
    remove_point_cascades_scenario();
}

fn remove_room_only_scenario() {
    let mut project = Plan::new("test".to_string(), defaults());
    let ids: Vec<u128> = (0..3).map(|_| new_id()).collect();
    for &id in &ids {
        project.points.push(Point::new(DVec2::ZERO, 2700.0));
        project.points.last_mut().unwrap().id = id;
    }
    let room = Room::new("R".to_string(), ids.clone(), Room::<DVec2>::default_color());
    let room_id = room.id;
    project.rooms.push(room);

    project.remove_room(room_id);
    assert_eq!(project.rooms.len(), 0);
    assert_eq!(project.points.len(), 3);
}

#[test]
fn model_test_remove_room_only() {
    remove_room_only_scenario();
}

#[test]
fn project_test_remove_room_only() {
    remove_room_only_scenario();
}

#[test]
fn test_split_edge_basic() {
    let mut project = Plan::new("test".to_string(), defaults());
    let a = new_id();
    let b = new_id();
    project.points.push(make_point(a, 0.0, 0.0));
    project.points.push(make_point(b, 1000.0, 0.0));
    let edge_id = project.ensure_edge(a, b);

    let new_id = project.split_edge(edge_id, DVec2::new(500.0, 0.0), 2700.0);

    assert!(project.find_edge(a, b).is_none());
    assert!(project.find_edge(a, new_id).is_some());
    assert!(project.find_edge(new_id, b).is_some());
    assert_eq!(project.edges.len(), 2);

    let np = project.point(new_id).unwrap();
    assert!((np.position.x - 500.0).abs() < 0.01);
    assert!((np.position.y).abs() < 0.01);
}

#[test]
fn test_split_edge_updates_room_contour() {
    let (mut project, room_id) = make_rect_project();
    let room = project.room(room_id).unwrap();
    let pa = room.points[0];
    let pb = room.points[1];

    let edge_id = project.find_edge(pa, pb).unwrap().id;
    let new_id = project.split_edge(edge_id, DVec2::new(1000.0, 0.0), 2700.0);

    let room = project.room(room_id).unwrap();
    assert_eq!(room.points.len(), 5, "room should have 5 points after split");
    let idx_pa = room.points.iter().position(|&id| id == pa).unwrap();
    let idx_new = (idx_pa + 1) % room.points.len();
    assert_eq!(room.points[idx_new], new_id);
}

#[test]
fn test_split_edge_wrap_around() {
    let mut project = Plan::new("test".to_string(), defaults());
    let ids: Vec<u128> = (0..3).map(|_| new_id()).collect();
    let positions = [DVec2::new(0.0, 0.0), DVec2::new(1000.0, 0.0), DVec2::new(500.0, 1000.0)];
    for (i, &id) in ids.iter().enumerate() {
        project.points.push(Point { id, position: positions[i], height: 2700.0 });
    }
    project.ensure_contour_edges(&ids);
    project.rooms.push(Room::new("R".to_string(), ids.clone(), Room::<DVec2>::default_color()));

    let edge_id = project.find_edge(ids[2], ids[0]).unwrap().id;
    let mid = (positions[2] + positions[0]) / 2.0;
    let new_id = project.split_edge(edge_id, mid, 2700.0);

    let room = &project.rooms[0];
    assert_eq!(room.points.len(), 4);
    assert_eq!(room.points[3], new_id);
}

/// Only the storing of the height is tested here: the library takes the
/// height as an argument, and the interpolation along the edge is floating
/// point outside the library, so this test computes it itself.
#[test]
fn test_split_edge_height_interpolation() {
    let mut project = Plan::new("test".to_string(), defaults());
    let a = new_id();
    let b = new_id();
    project.points.push(Point { id: a, position: DVec2::new(0.0, 0.0), height: 2000.0 });
    project.points.push(Point { id: b, position: DVec2::new(1000.0, 0.0), height: 3000.0 });
    let edge_id = project.ensure_edge(a, b);

    let position = DVec2::new(500.0, 0.0);
    let (pa, pb) = (project.point(a).unwrap(), project.point(b).unwrap());
    let ab = pb.position - pa.position;
    let t = ((position - pa.position).dot(ab) / ab.length_squared()).clamp(0.0, 1.0);
    let height = pa.height * (1.0 - t) + pb.height * t;

    let new_id = project.split_edge(edge_id, position, height);
    let np = project.point(new_id).unwrap();
    assert!((np.height - 2500.0).abs() < 0.01, "expected 2500, got {}", np.height);
}

#[test]
fn test_smart_remove_point_from_quad() {
    let (mut project, room_id) = make_rect_project();
    let room = project.room(room_id).unwrap();
    let to_delete = room.points[1];
    let prev = room.points[0];
    let next = room.points[2];

    project.smart_remove_point(to_delete);

    assert_eq!(project.rooms.len(), 1);
    let room = &project.rooms[0];
    assert_eq!(room.points.len(), 3);
    assert!(!room.points.contains(&to_delete));
    assert!(project.find_edge(prev, next).is_some());
    assert!(project.point(to_delete).is_none());
}

#[test]
fn test_smart_remove_point_triangle_degenerate() {
    let mut project = Plan::new("test".to_string(), defaults());
    let ids: Vec<u128> = (0..3).map(|_| new_id()).collect();
    for &id in &ids {
        project.points.push(Point::new(DVec2::new(0.0, 0.0), 2700.0));
        project.points.last_mut().unwrap().id = id;
    }
    project.ensure_contour_edges(&ids);
    project.rooms.push(Room::new("R".to_string(), ids.clone(), Room::<DVec2>::default_color()));

    project.smart_remove_point(ids[1]);

    assert_eq!(project.rooms.len(), 0);
    assert_eq!(project.points.len(), 2);
}

#[test]
fn test_smart_remove_point_cutout_degenerate() {
    let (mut project, room_id) = make_rect_project();
    let cutout_ids: Vec<u128> = (0..3).map(|_| new_id()).collect();
    for &id in &cutout_ids {
        project.points.push(Point::new(DVec2::new(500.0, 500.0), 2700.0));
        project.points.last_mut().unwrap().id = id;
    }
    project.ensure_contour_edges(&cutout_ids);
    project.rooms.iter_mut().find(|r| r.id == room_id).unwrap().cutouts.push(cutout_ids.clone());

    project.smart_remove_point(cutout_ids[0]);

    assert_eq!(project.rooms.len(), 1);
    let room = &project.rooms[0];
    assert_eq!(room.cutouts.len(), 0);
    assert_eq!(room.points.len(), 4);
}

#[test]
fn test_smart_remove_point_edges_only() {
    let mut project = Plan::new("test".to_string(), defaults());
    let a = new_id();
    let b = new_id();
    let c = new_id();
    project.points.push(make_point(a, 0.0, 0.0));
    project.points.push(make_point(b, 1000.0, 0.0));
    project.points.push(make_point(c, 2000.0, 0.0));
    project.ensure_edge(a, b);
    project.ensure_edge(b, c);

    project.smart_remove_point(b);

    assert_eq!(project.points.len(), 2);
    assert_eq!(project.edges.len(), 0);
    assert!(project.point(b).is_none());
}

// ---------------------------------------------------------------------------
// Further cases
// ---------------------------------------------------------------------------

#[test]
fn edge_new_is_plain() {
    let e: Edge<f64> = Edge::new(1, 2);
    assert_eq!((e.point_a, e.point_b), (1, 2));
    assert!(e.distance_override.is_none() && e.angle_override.is_none());
    assert!(!e.label_flip_side && !e.label_flip_text && !e.label_hidden);
    assert_eq!(e.line_pattern, LinePattern::Solid);
    assert_eq!(e.arrow_mode, ArrowMode::Neither);
}

#[test]
fn fresh_ids_are_version_four_uuids() {
    let e: Edge<f64> = Edge::new(1, 2);
    let u = uuid::Uuid::from_u128(e.id);
    assert_eq!(u.get_version_num(), 4);
    assert_eq!(u.get_variant(), uuid::Variant::RFC4122);
    let f: Edge<f64> = Edge::new(1, 2);
    assert_ne!(e.id, f.id);
}

#[test]
fn labels_of_edge_styles() {
    assert_eq!(LinePattern::Solid.label(), "Сплошная");
    assert_eq!(ArrowMode::Neither.label(), "Нет");
    assert!(ArrowMode::Both.forward() && ArrowMode::Both.backward());
    assert!(ArrowMode::Forward.forward() && !ArrowMode::Forward.backward());
    assert!(!ArrowMode::Backward.forward() && ArrowMode::Backward.backward());
    assert!(!ArrowMode::Neither.forward() && !ArrowMode::Neither.backward());
    assert_eq!(LinePattern::all().len(), 3);
    assert_eq!(ArrowMode::all().len(), 4);
}

#[test]
fn default_colours_and_swing() {
    assert_eq!(default_wall_color(), [180, 180, 180, 255]);
    assert_eq!(default_door_color(), [210, 170, 120, 200]);
    assert_eq!(default_window_color(), [120, 190, 230, 200]);
    assert_eq!(Room::<DVec2>::default_color(), [70, 130, 180, 45]);
    assert_eq!(Opening::<f64>::default_color(), [180, 160, 130, 200]);
    assert!(default_swing_outward());
}

#[test]
fn opening_kind_sizes_and_target() {
    let d = door();
    assert_eq!(d.width(), 900.0);
    assert_eq!(d.height(), 2100.0);
    assert_eq!(d.target_type(), TargetObjectType::Door);
    let w: OpeningKind<f64> =
        OpeningKind::Window { height: 1400.0, width: 1200.0, sill_height: 900.0, reveal_width: 250.0 };
    assert_eq!(w.width(), 1200.0);
    assert_eq!(w.height(), 1400.0);
    assert_eq!(w.target_type(), TargetObjectType::Window);
}

#[test]
fn remove_edge_takes_contours_on_that_side() {
    let (mut project, _room_id) = make_rect_project();
    let a = project.rooms[0].points[0];
    let b = project.rooms[0].points[1];
    let other = project.rooms[0].points[2];
    project.walls.push(Wall::new(vec![b, other, a], [1, 2, 3, 4]));
    let edge_id = project.find_edge(a, b).unwrap().id;
    project.remove_edge(edge_id);
    assert!(project.find_edge(a, b).is_none());
    assert_eq!(project.edges.len(), 3);
    assert_eq!(project.rooms.len(), 0);
    assert_eq!(project.walls.len(), 0);
    assert_eq!(project.points.len(), 4);
}

#[test]
fn remove_missing_edge_changes_nothing() {
    let (mut project, _room_id) = make_rect_project();
    project.remove_edge(12345);
    assert_eq!(project.edges.len(), 4);
    assert_eq!(project.rooms.len(), 1);
}

#[test]
fn split_edge_updates_walls_and_openings() {
    let (mut project, _room_id) = make_rect_project();
    let ids = project.rooms[0].points.clone();
    project.walls.push(Wall::new(ids.clone(), [1, 2, 3, 4]));
    project.openings.push(Opening::new(vec![ids[1], ids[0], ids[3]], door(), [1, 1, 1, 1]));
    let edge_id = project.find_edge(ids[0], ids[1]).unwrap().id;
    let n = project.split_edge(edge_id, DVec2::new(1000.0, 0.0), 2700.0);
    assert_eq!(project.walls[0].points, vec![ids[0], n, ids[1], ids[2], ids[3]]);
    assert_eq!(project.openings[0].points, vec![ids[1], n, ids[0], ids[3]]);
    assert_eq!(project.points.len(), 5);
}

#[test]
fn smart_remove_keeps_neighbours_joined_in_walls() {
    let (mut project, _room_id) = make_rect_project();
    let ids = project.rooms[0].points.clone();
    project.walls.push(Wall::new(ids.clone(), [1, 2, 3, 4]));
    project.smart_remove_point(ids[3]);
    assert_eq!(project.walls[0].points, vec![ids[0], ids[1], ids[2]]);
    assert_eq!(project.rooms[0].points, vec![ids[0], ids[1], ids[2]]);
    assert!(project.find_edge(ids[2], ids[0]).is_some());
    assert!(project.find_edge(ids[2], ids[3]).is_none());
}

#[test]
fn lookups_and_in_place_edits() {
    let (mut project, room_id) = make_rect_project();
    let ids = project.rooms[0].points.clone();
    assert!(project.room(room_id).is_some());
    assert!(project.room(room_id + 1).is_none() || room_id == u128::MAX);
    project.point_mut(ids[0]).unwrap().height = 3000.0;
    assert_eq!(project.point(ids[0]).unwrap().height, 3000.0);
    project.find_edge_mut(ids[1], ids[0]).unwrap().distance_override = Some(2100.0);
    assert_eq!(project.find_edge(ids[0], ids[1]).unwrap().distance_override, Some(2100.0));
    assert!(project.find_edge(ids[0], ids[2]).is_none());
    assert!(project.add_cutout(room_id, vec![ids[0], ids[1], ids[2]]));
    assert_eq!(project.room(room_id).unwrap().cutouts.len(), 1);
    assert!(!project.add_cutout(7, vec![ids[0]]));
}

#[test]
fn resolve_positions_skips_unknown_ids() {
    let (project, _room_id) = make_rect_project();
    let ids = project.rooms[0].points.clone();
    let got = project.resolve_positions(&vec![ids[2], 99, ids[0]]);
    assert_eq!(got, vec![DVec2::new(2000.0, 3000.0), DVec2::new(0.0, 0.0)]);
}

#[test]
fn openings_on_side_lists_positions() {
    let (mut project, _room_id) = make_rect_project();
    let ids = project.rooms[0].points.clone();
    project.openings.push(Opening::new(vec![ids[2], ids[3], ids[0]], door(), [0, 0, 0, 0]));
    project.openings.push(Opening::new(vec![ids[1], ids[0], ids[3]], door(), [0, 0, 0, 0]));
    project.openings.push(Opening::new(vec![ids[0], ids[1], ids[2]], door(), [0, 0, 0, 0]));
    assert_eq!(project.openings_on_side(ids[0], ids[1]), vec![1, 2]);
    assert_eq!(project.openings_on_side(ids[3], ids[0]), vec![0, 1]);
}

#[test]
fn duplicate_keeps_everything() {
    let (project, _room_id) = make_rect_project();
    let copy = project.duplicate();
    assert_eq!(copy.id, project.id);
    assert_eq!(copy.points.len(), project.points.len());
    assert_eq!(copy.edges.len(), project.edges.len());
    assert_eq!(copy.rooms[0].points, project.rooms[0].points);
    assert_eq!(copy.rooms[0].name, project.rooms[0].name);
}

#[test]
fn contour_edges_once_per_side_and_idempotent() {
    let mut project = Plan::new("test".to_string(), defaults());
    let ids: Vec<u128> = vec![1, 2, 3, 4, 5];
    project.ensure_contour_edges(&ids);
    assert_eq!(project.edges.len(), 5);
    assert!(project.find_edge(5, 1).is_some());
    let before: Vec<u128> = project.edges.iter().map(|e| e.id).collect();
    project.ensure_contour_edges(&ids);
    let after: Vec<u128> = project.edges.iter().map(|e| e.id).collect();
    assert_eq!(before, after);
}

#[test]
fn smart_remove_leaves_untouched_objects() {
    let (mut project, _room_id) = make_rect_project();
    let ids = project.rooms[0].points.clone();
    let far: Vec<u128> = vec![new_id(), new_id(), new_id()];
    for &id in &far {
        project.points.push(make_point(id, 9000.0, 9000.0));
    }
    project.walls.push(Wall::new(far.clone(), [9, 9, 9, 9]));
    project.walls.push(Wall::new(vec![far[0], far[1]], [8, 8, 8, 8]));
    project.labels.push(smetana::model::Label::new("L".to_string(), DVec2::ZERO, 14.0, 0.0));
    project.smart_remove_point(ids[0]);
    assert_eq!(project.walls.len(), 1);
    assert_eq!(project.walls[0].points, far);
    assert_eq!(project.walls[0].color, [9, 9, 9, 9]);
    assert_eq!(project.labels.len(), 1);
    assert_eq!(project.points.len(), 6);
}
