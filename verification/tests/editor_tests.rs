use glam::DVec2;
use smetana::editor::{
    is_blank, white_space,
    ContourStep, Editor, PointPreviewKind, PointTarget, Selection, Tool, VisibilityMode, auto_save_due,
    hover_highlight, status_expired,
};
use smetana::model::{
    OpeningKind, Point, Project, ProjectDefaults, Room, default_door_color, default_wall_color,
    default_window_color,
};
use smetana::price::TargetObjectType;

type Plan = Project<f64, DVec2>;

fn defaults() -> ProjectDefaults<f64> {
    ProjectDefaults {
        point_height: 2700.0,
        door_height: 2100.0,
        door_width: 900.0,
        door_reveal_width: 0.0,
        window_height: 1400.0,
        window_width: 1200.0,
        window_sill_height: 900.0,
        window_reveal_width: 250.0,
        wall_color: default_wall_color(),
        door_color: default_door_color(),
        window_color: default_window_color(),
    }
}

/// A plan with four points at the corners of a 2000 x 3000 rectangle and no edges.
fn four_points() -> (Editor<f64, DVec2>, Vec<u128>) {
    let mut project = Plan::new("test".to_string(), defaults());
    let ids: Vec<u128> = vec![11, 12, 13, 14];
    let positions = [
        DVec2::new(0.0, 0.0),
        DVec2::new(2000.0, 0.0),
        DVec2::new(2000.0, 3000.0),
        DVec2::new(0.0, 3000.0),
    ];
    for (i, &id) in ids.iter().enumerate() {
        project.points.push(Point { id, position: positions[i], height: 2700.0 });
    }
    (Editor::new(project), ids)
}

fn draw_contour(editor: &mut Editor<f64, DVec2>, ids: &[u128]) {
    for &id in ids {
        assert_eq!(editor.contour_click(id), ContourStep::Added);
    }
}

#[test]
fn tool_keys_follow_the_toolbar() {
    assert_eq!(Tool::for_key(1), Some(Tool::Select));
    assert_eq!(Tool::for_key(4), Some(Tool::Cutout));
    assert_eq!(Tool::for_key(9), Some(Tool::Label));
    assert_eq!(Tool::for_key(0), None);
    assert_eq!(Tool::for_key(10), None);
    assert!(Tool::Room.is_contour_tool());
    assert!(!Tool::Edge.is_contour_tool());
}

#[test]
fn visibility_layers() {
    assert!(VisibilityMode::All.show_room_fills());
    assert!(VisibilityMode::All.show_wall_fills());
    assert!(VisibilityMode::All.show_opening_fills());
    assert!(!VisibilityMode::Wireframe.show_room_fills());
    assert!(!VisibilityMode::Wireframe.show_wall_fills());
    assert!(VisibilityMode::Rooms.show_room_fills());
    assert!(!VisibilityMode::Rooms.show_opening_fills());
}

#[test]
fn preview_kinds_and_hover() {
    assert_eq!(PointPreviewKind::for_snap(true, true), PointPreviewKind::Existing);
    assert_eq!(PointPreviewKind::for_snap(false, true), PointPreviewKind::OnEdge);
    assert_eq!(PointPreviewKind::for_snap(false, false), PointPreviewKind::New);
    assert_eq!(hover_highlight(Selection::Room(3), Selection::Room(3)), Selection::Nothing);
    assert_eq!(hover_highlight(Selection::Room(3), Selection::Wall(3)), Selection::Room(3));
    assert_eq!(Selection::Edge(5).id(), Some(5));
    assert_eq!(Selection::Nothing.id(), None);
}

#[test]
fn room_tool_draws_a_named_room_and_undo_removes_it() {
    let (mut editor, ids) = four_points();
    editor.set_tool(Tool::Room);
    draw_contour(&mut editor, &ids);
    assert_eq!(editor.contour_click(ids[3]), ContourStep::Repeated);
    assert_eq!(editor.contour_click(ids[0]), ContourStep::Closes);
    assert!(editor.finalize_contour(None));
    assert_eq!(editor.project.rooms.len(), 1);
    assert_eq!(editor.project.rooms[0].name, "Комната 1");
    assert_eq!(editor.project.rooms[0].points, ids);
    assert_eq!(editor.project.rooms[0].color, [70, 130, 180, 45]);
    assert_eq!(editor.project.edges.len(), 4);
    assert_eq!(editor.selection, Selection::Room(editor.project.rooms[0].id));
    assert!(editor.tool_points.is_empty());
    assert_eq!(editor.edit_snapshot_version, Some(1));
    assert!(editor.history.can_undo());

    assert!(editor.undo());
    assert_eq!(editor.project.rooms.len(), 0);
    assert_eq!(editor.project.edges.len(), 0);
    assert_eq!(editor.selection, Selection::Nothing);
    assert!(editor.redo());
    assert_eq!(editor.project.rooms.len(), 1);
    assert_eq!(editor.project.rooms[0].name, "Комната 1");
}

#[test]
fn second_room_is_numbered_two() {
    let (mut editor, ids) = four_points();
    editor.set_tool(Tool::Room);
    draw_contour(&mut editor, &ids[0..3]);
    assert!(editor.finalize_contour(None));
    draw_contour(&mut editor, &[ids[0], ids[2], ids[3]]);
    assert!(editor.finalize_contour(None));
    assert_eq!(editor.project.rooms[1].name, "Комната 2");
    assert_eq!(editor.project.edges.len(), 5);
}

#[test]
fn short_contour_is_not_finished() {
    let (mut editor, ids) = four_points();
    editor.set_tool(Tool::Wall);
    draw_contour(&mut editor, &ids[0..2]);
    assert_eq!(editor.contour_click(ids[0]), ContourStep::Added);
    editor.tool_points.pop();
    assert!(!editor.finalize_contour(None));
    assert_eq!(editor.tool_points.len(), 2);
    assert!(!editor.history.can_undo());
}

#[test]
fn wall_door_and_window_tools_use_the_defaults() {
    let (mut editor, ids) = four_points();
    editor.set_tool(Tool::Wall);
    draw_contour(&mut editor, &ids);
    assert!(editor.finalize_contour(None));
    assert_eq!(editor.project.walls[0].color, default_wall_color());
    assert_eq!(editor.selection, Selection::Wall(editor.project.walls[0].id));

    editor.set_tool(Tool::Door);
    draw_contour(&mut editor, &ids[0..3]);
    assert!(editor.finalize_contour(None));
    let door = &editor.project.openings[0];
    assert_eq!(door.color, default_door_color());
    match door.kind {
        OpeningKind::Door { height, width, reveal_width, swing_edge, swing_outward, swing_mirrored } => {
            assert_eq!((height, width, reveal_width), (2100.0, 900.0, 0.0));
            assert_eq!(swing_edge, 0);
            assert!(swing_outward && !swing_mirrored);
        },
        _ => panic!("expected a door"),
    }
    assert_eq!(editor.selection_target_type(), Some(TargetObjectType::Door));

    editor.set_tool(Tool::Window);
    draw_contour(&mut editor, &ids[1..4]);
    assert!(editor.finalize_contour(None));
    let window = &editor.project.openings[1];
    assert_eq!(window.color, default_window_color());
    match window.kind {
        OpeningKind::Window { height, width, sill_height, reveal_width } => {
            assert_eq!((height, width, sill_height, reveal_width), (1400.0, 1200.0, 900.0, 250.0));
        },
        _ => panic!("expected a window"),
    }
    assert_eq!(editor.selection_target_type(), Some(TargetObjectType::Window));
}

#[test]
fn cutout_goes_to_the_host_room() {
    let (mut editor, ids) = four_points();
    editor.set_tool(Tool::Room);
    draw_contour(&mut editor, &ids);
    assert!(editor.finalize_contour(None));
    let room_id = editor.project.rooms[0].id;
    let selected = editor.selection;

    editor.set_tool(Tool::Cutout);
    draw_contour(&mut editor, &ids[0..3]);
    assert!(editor.finalize_contour(Some(room_id)));
    assert_eq!(editor.project.rooms[0].cutouts, vec![ids[0..3].to_vec()]);
    assert_eq!(editor.selection, selected);

    draw_contour(&mut editor, &ids[1..4]);
    assert!(editor.finalize_contour(None));
    assert_eq!(editor.project.rooms[0].cutouts.len(), 1);
    assert!(editor.project.find_edge(ids[1], ids[3]).is_some());
}

#[test]
fn point_tool_clicks() {
    let (mut editor, ids) = four_points();
    editor.set_tool(Tool::Point);
    editor.point_click(PointTarget::Existing(ids[2]));
    assert_eq!(editor.selection, Selection::Point(ids[2]));
    assert!(!editor.history.can_undo());

    editor.point_click(PointTarget::Free(DVec2::new(500.0, 500.0)));
    assert_eq!(editor.project.points.len(), 5);
    let p = editor.project.points[4];
    assert_eq!(p.position, DVec2::new(500.0, 500.0));
    assert_eq!(p.height, 2700.0);
    assert_eq!(editor.selection, Selection::Point(p.id));
    assert_eq!(editor.edit_snapshot_version, Some(editor.history.version));

    let e = editor.project.ensure_edge(ids[0], ids[1]);
    editor.point_click(PointTarget::OnEdge { edge: e, position: DVec2::new(1000.0, 0.0), height: 2650.0 });
    assert_eq!(editor.project.points.len(), 6);
    let n = editor.project.points[5];
    assert_eq!(n.height, 2650.0);
    assert_eq!(editor.selection, Selection::Point(n.id));
    assert!(editor.project.find_edge(ids[0], ids[1]).is_none());
    assert!(editor.project.find_edge(ids[0], n.id).is_some());
    assert!(editor.project.find_edge(n.id, ids[1]).is_some());
}

#[test]
fn edge_tool_joins_two_points() {
    let (mut editor, ids) = four_points();
    editor.set_tool(Tool::Edge);
    assert!(!editor.edge_click(ids[0]));
    assert!(!editor.edge_click(ids[0]));
    assert_eq!(editor.tool_points, vec![ids[0]]);
    assert!(editor.edge_click(ids[1]));
    assert!(editor.tool_points.is_empty());
    assert!(editor.project.find_edge(ids[1], ids[0]).is_some());
    assert_eq!(editor.edit_snapshot_version, Some(editor.history.version));
    assert!(!editor.edge_click(ids[1]));
    assert!(editor.edge_click(ids[0]));
    assert_eq!(editor.project.edges.len(), 1);
}

#[test]
fn label_tool_and_dragging() {
    let (mut editor, ids) = four_points();
    editor.set_tool(Tool::Label);
    editor.label_click(DVec2::new(100.0, 200.0), 14.0, 0.0);
    assert_eq!(editor.project.labels.len(), 1);
    let label = &editor.project.labels[0];
    assert_eq!(label.text, "Подпись");
    assert_eq!((label.font_size, label.rotation), (14.0, 0.0));
    let label_id = label.id;
    assert_eq!(editor.selection, Selection::Label(label_id));

    editor.set_tool(Tool::Select);
    editor.drag_start(Selection::Point(ids[1]));
    assert_eq!(editor.selection, Selection::Point(ids[1]));
    editor.drag_to(DVec2::new(2500.0, 0.0));
    assert_eq!(editor.project.point(ids[1]).unwrap().position, DVec2::new(2500.0, 0.0));
    assert!(editor.undo());
    assert_eq!(editor.project.point(ids[1]).unwrap().position, DVec2::new(2000.0, 0.0));

    let before = editor.history.version;
    editor.drag_start(Selection::Room(1));
    assert_eq!(editor.history.version, before);
    editor.select_click(Selection::Label(label_id));
    editor.drag_to(DVec2::new(7.0, 8.0));
    assert_eq!(editor.project.label(label_id).unwrap().position, DVec2::new(7.0, 8.0));
    assert_eq!(editor.edit_snapshot_version, None);
}

#[test]
fn delete_point_selection_then_undo() {
    let (mut editor, ids) = four_points();
    editor.set_tool(Tool::Room);
    draw_contour(&mut editor, &ids);
    assert!(editor.finalize_contour(None));
    editor.set_tool(Tool::Select);
    editor.select_click(Selection::Point(ids[1]));
    editor.delete_selected();
    assert_eq!(editor.selection, Selection::Nothing);
    assert_eq!(editor.project.points.len(), 3);
    assert_eq!(editor.project.rooms[0].points, vec![ids[0], ids[2], ids[3]]);
    assert!(editor.project.find_edge(ids[0], ids[2]).is_some());

    assert!(editor.undo());
    assert_eq!(editor.project.points.len(), 4);
    assert_eq!(editor.project.rooms[0].points, ids);
    assert_eq!(editor.selection, Selection::Nothing);
}

#[test]
fn delete_room_wall_label_and_nothing() {
    let (mut editor, ids) = four_points();
    editor.set_tool(Tool::Room);
    draw_contour(&mut editor, &ids);
    assert!(editor.finalize_contour(None));
    let version = editor.history.version;
    editor.selection = Selection::Nothing;
    editor.delete_selected();
    assert_eq!(editor.history.version, version);
    assert_eq!(editor.project.rooms.len(), 1);

    editor.selection = Selection::Room(editor.project.rooms[0].id);
    editor.delete_selected();
    assert_eq!(editor.project.rooms.len(), 0);
    assert_eq!(editor.project.points.len(), 4);
    assert_eq!(editor.project.edges.len(), 4);
}

#[test]
fn undo_drops_a_selection_that_no_longer_exists() {
    let (mut editor, ids) = four_points();
    editor.set_tool(Tool::Wall);
    draw_contour(&mut editor, &ids);
    assert!(editor.finalize_contour(None));
    assert!(editor.selection_is_valid());
    assert!(editor.undo());
    assert_eq!(editor.selection, Selection::Nothing);
    assert!(!editor.undo());
}

#[test]
fn property_edit_takes_one_snapshot() {
    let (mut editor, ids) = four_points();
    editor.ensure_edit_snapshot();
    let v = editor.history.version;
    assert_eq!(editor.edit_snapshot_version, Some(v));
    editor.project.point_mut(ids[0]).unwrap().height = 2500.0;
    editor.ensure_edit_snapshot();
    assert_eq!(editor.history.version, v);
    editor.project.point_mut(ids[0]).unwrap().height = 2400.0;
    assert!(editor.undo());
    assert_eq!(editor.project.point(ids[0]).unwrap().height, 2700.0);
    assert_eq!(editor.edit_snapshot_version, None);
}

#[test]
fn escape_and_tool_switch() {
    let (mut editor, ids) = four_points();
    editor.set_tool(Tool::Room);
    draw_contour(&mut editor, &ids[0..2]);
    editor.set_tool(Tool::Room);
    assert_eq!(editor.tool_points.len(), 2);
    editor.escape();
    assert!(editor.tool_points.is_empty());
    draw_contour(&mut editor, &ids[0..2]);
    editor.set_tool(Tool::Wall);
    assert!(editor.tool_points.is_empty());
    editor.set_tool(Tool::Select);
    editor.select_click(Selection::Point(ids[0]));
    editor.escape();
    assert_eq!(editor.selection, Selection::Nothing);
}

#[test]
fn autosave_and_status_timing() {
    assert!(auto_save_due(3, 2, 2));
    assert!(!auto_save_due(3, 2, 1));
    assert!(!auto_save_due(3, 3, 10));
    assert!(status_expired(5));
    assert!(!status_expired(4));
}

#[test]
fn room_default_colour_is_used_for_new_rooms() {
    assert_eq!(Room::<DVec2>::default_color(), [70, 130, 180, 45]);
}

#[test]
fn point_uses_lists_rooms_walls_and_openings() {
    let (mut editor, ids) = four_points();
    editor.set_tool(Tool::Room);
    draw_contour(&mut editor, &ids);
    assert!(editor.finalize_contour(None));
    editor.set_tool(Tool::Wall);
    draw_contour(&mut editor, &ids[1..4]);
    assert!(editor.finalize_contour(None));
    draw_contour(&mut editor, &ids[0..3]);
    assert!(editor.finalize_contour(None));
    editor.set_tool(Tool::Window);
    draw_contour(&mut editor, &[ids[3], ids[1], ids[2]]);
    assert!(editor.finalize_contour(None));
    assert_eq!(
        editor.project.point_uses(ids[0]),
        vec!["Комната: Комната 1".to_string(), "Стена #2".to_string()]
    );
    assert_eq!(
        editor.project.point_uses(ids[3]),
        vec!["Комната: Комната 1".to_string(), "Стена #1".to_string(), "Окно".to_string()]
    );
    assert!(editor.project.point_uses(99).is_empty());
}

#[test]
fn door_swing_side_cycles() {
    let (mut editor, ids) = four_points();
    editor.set_tool(Tool::Door);
    draw_contour(&mut editor, &ids[0..3]);
    assert!(editor.finalize_contour(None));
    let door = &mut editor.project.openings[0];
    let swing = |k: &OpeningKind<f64>| match k {
        OpeningKind::Door { swing_edge, .. } => *swing_edge,
        _ => usize::MAX,
    };
    assert_eq!(swing(&door.kind), 0);
    door.next_swing_edge();
    assert_eq!(swing(&door.kind), 1);
    door.next_swing_edge();
    door.next_swing_edge();
    assert_eq!(swing(&door.kind), 0);
    door.points.clear();
    door.next_swing_edge();
    assert_eq!(swing(&door.kind), 0);
}

#[test]
fn copy_and_paste_colour() {
    let (mut editor, ids) = four_points();
    editor.set_tool(Tool::Wall);
    draw_contour(&mut editor, &ids);
    assert!(editor.finalize_contour(None));
    assert_eq!(editor.selected_color(), Some(default_wall_color()));
    editor.set_tool(Tool::Room);
    draw_contour(&mut editor, &ids);
    assert!(editor.finalize_contour(None));
    let copied = editor.selected_color();
    assert_eq!(copied, Some([70, 130, 180, 45]));
    editor.select_click(Selection::Wall(editor.project.walls[0].id));
    assert!(editor.set_selected_color(copied.unwrap()));
    assert_eq!(editor.project.walls[0].color, [70, 130, 180, 45]);
    editor.select_click(Selection::Point(ids[0]));
    assert_eq!(editor.selected_color(), None);
    assert!(!editor.set_selected_color([1, 2, 3, 4]));
    editor.select_click(Selection::Room(12345));
    assert!(!editor.set_selected_color([1, 2, 3, 4]));
}

#[test]
fn blank_labels_are_dropped() {
    let (mut editor, _ids) = four_points();
    editor.set_tool(Tool::Label);
    editor.label_click(DVec2::new(0.0, 0.0), 14.0, 0.0);
    assert!(!editor.drop_blank_label());
    assert_eq!(editor.project.labels.len(), 1);
    editor.project.labels[0].text = " \t ".to_string();
    let version = editor.history.version;
    assert!(editor.drop_blank_label());
    assert!(editor.project.labels.is_empty());
    assert_eq!(editor.selection, Selection::Nothing);
    assert_eq!(editor.history.version, version);
    assert!(!editor.drop_blank_label());
}

#[test]
fn white_space_is_unicode_white_space() {
    assert!(is_blank(""));
    assert!(is_blank(" \t\n\u{a0}\u{3000}\u{2028}"));
    assert!(!is_blank(" x "));
    assert!(!is_blank("\u{200b}"));
    for c in ['\t', '\n', '\u{b}', '\u{c}', '\r', ' ', '\u{85}', '\u{a0}', '\u{1680}', '\u{2000}', '\u{200a}', '\u{2028}', '\u{2029}', '\u{202f}', '\u{205f}', '\u{3000}', 'a', '\u{200b}', '\u{180e}', '\u{feff}'] {
        assert_eq!(white_space(c), c.is_whitespace(), "{:?}", c);
        assert_eq!(is_blank(&c.to_string()), c.to_string().trim().is_empty());
    }
}

#[test]
fn new_objects_get_version_four_ids() {
    let (mut editor, ids) = four_points();
    editor.set_tool(Tool::Room);
    draw_contour(&mut editor, &ids);
    assert!(editor.finalize_contour(None));
    let v4 = |id: u128| uuid::Uuid::from_u128(id).get_version_num() == 4;
    assert!(v4(editor.project.rooms[0].id));
    assert!(editor.project.edges.iter().all(|e| v4(e.id)));
    editor.label_click(DVec2::new(1.0, 1.0), 14.0, 0.0);
    assert!(v4(editor.project.labels[0].id));
}
