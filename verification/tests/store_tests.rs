use smetana::persistence::{ProjectEntry, price_path, project_path, sort_newest_first};
use smetana::price::{PriceList, ServiceTemplate, TargetObjectType, UnitType};
use smetana::wall_tool::{WallTool, WallToolState};

fn entry(name: &str, modified: i128) -> ProjectEntry {
    ProjectEntry { name: name.to_string(), path: project_path(name), modified }
}

#[test]
fn file_paths() {
    assert_eq!(project_path("Кухня"), "saves/projects/Кухня.json");
    assert_eq!(price_path("_test_prices"), "saves/prices/_test_prices.json");
}

#[test]
fn project_list_is_newest_first_and_stable() {
    let mut entries = vec![entry("a", 5), entry("b", 9), entry("c", 5), entry("d", -3), entry("e", 9)];
    sort_newest_first(&mut entries);
    let names: Vec<&str> = entries.iter().map(|e| e.name.as_str()).collect();
    assert_eq!(names, vec!["b", "e", "a", "c", "d"]);
    let mut empty: Vec<ProjectEntry> = Vec::new();
    sort_newest_first(&mut empty);
    assert!(empty.is_empty());
}

#[test]
fn price_vocabulary() {
    assert_eq!(UnitType::Piece.label(), "шт.");
    assert_eq!(UnitType::SquareMeter.label(), "м²");
    assert_eq!(UnitType::LinearMeter.label(), "п.м.");
    assert_eq!(TargetObjectType::Wall.label(), "Стена");
    assert_eq!(TargetObjectType::Window.label(), "Окно");
    assert_eq!(TargetObjectType::Door.label(), "Дверь");
    assert_eq!(TargetObjectType::Room.label(), "Помещение");
    assert_eq!(UnitType::all().len(), 3);
    assert_eq!(TargetObjectType::all()[3], TargetObjectType::Room);
}

#[test]
fn price_list_holds_services() {
    let mut pl: PriceList<f64> = PriceList::new("_test_prices".to_string());
    assert!(pl.services.is_empty());
    pl.services.push(ServiceTemplate::new(
        "Штукатурка стен".to_string(),
        UnitType::SquareMeter,
        450.0,
        TargetObjectType::Wall,
    ));
    pl.services.push(ServiceTemplate::new("Установка двери".to_string(), UnitType::Piece, 3500.0, TargetObjectType::Door));
    assert_eq!(pl.services.len(), 2);
    assert_eq!(pl.services[0].name, "Штукатурка стен");
    assert_eq!(pl.services[1].price_per_unit, 3500.0);
    assert_ne!(pl.services[0].id, pl.services[1].id);
}

#[test]
fn wall_tool_chain() {
    let mut t: WallTool<(f64, f64), u8> = WallTool::new();
    assert!(matches!(t.state, WallToolState::Idle));
    t.chain_start = Some((0.0, 0.0));
    t.chain_from((1.0, 2.0));
    assert!(matches!(t.state, WallToolState::Drawing { start } if start == (1.0, 2.0)));
    assert_eq!(t.chain_start, Some((0.0, 0.0)));
    t.last_snap = Some(3);
    t.reset();
    assert!(matches!(t.state, WallToolState::Idle));
    assert!(t.chain_start.is_none() && t.last_snap.is_none());
    let d: WallTool<(f64, f64), u8> = WallTool::default();
    assert!(d.preview_end.is_none());
}

#[test]
fn services_for_a_kind_of_object() {
    let mut pl: PriceList<f64> = PriceList::new("p".to_string());
    pl.services.push(ServiceTemplate::new("a".to_string(), UnitType::SquareMeter, 1.0, TargetObjectType::Wall));
    pl.services.push(ServiceTemplate::new("b".to_string(), UnitType::Piece, 2.0, TargetObjectType::Door));
    pl.services.push(ServiceTemplate::new("c".to_string(), UnitType::LinearMeter, 3.0, TargetObjectType::Wall));
    assert_eq!(pl.services_for(Some(TargetObjectType::Wall)), vec![0, 2]);
    assert_eq!(pl.services_for(Some(TargetObjectType::Door)), vec![1]);
    assert!(pl.services_for(Some(TargetObjectType::Room)).is_empty());
    assert!(pl.services_for(None).is_empty());
}

#[test]
fn save_paths_follow_path_join() {
    let expected = std::path::Path::new("saves/projects").join("План 2.json");
    assert_eq!(project_path("План 2"), expected.to_string_lossy());
    let expected = std::path::Path::new("saves/prices").join("этаж/план.json");
    assert_eq!(price_path("этаж/план"), expected.to_string_lossy());
    let expected = std::path::Path::new("saves/projects").join("/tmp/elsewhere.json");
    assert_eq!(project_path("/tmp/elsewhere"), expected.to_string_lossy());
}
