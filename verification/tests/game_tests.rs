use latin_tui::app::App;
use latin_tui::world::{
    remove_ent_from_vec, ActionResult, Ammo, CardinalDirection, EntityType, Equipment, GameAction, GameMap, Health,
    InputState, ItemType, ItemVecType, SuccessType,
};

fn world() -> App {
    let mut app = App::new(GameMap::new(10, 10));
    app.local_player_id = 0;
    app.components.positions.insert(0, (2, 2));
    app.components.ent_types.insert(0, EntityType::Human(0));
    app.components.healths.insert(0, Health { current_health: 10 });
    app.entity_counter = 100;
    app
}

fn place(app: &mut App, id: i64, pos: (i32, i32), t: EntityType) {
    app.components.positions.insert(id, pos);
    app.components.ent_types.insert(id, t);
    app.game_map.voxels[pos.0 as usize][pos.1 as usize].entity_set.push(id);
}

#[test]
fn remove_keeps_order() {
    let mut v = vec![1, 2, 3, 2, 4, 2];
    remove_ent_from_vec(&mut v, &2);
    assert_eq!(v, vec![1, 3, 4]);
    remove_ent_from_vec(&mut v, &2);
    assert_eq!(v, vec![1, 3, 4]);
    let mut e: Vec<i64> = vec![];
    remove_ent_from_vec(&mut e, &7);
    assert!(e.is_empty());
}

#[test]
fn exit_sets_flag() {
    let mut app = world();
    assert!(!app.exit);
    app.exit();
    assert!(app.exit);
}

#[test]
fn new_app_is_empty() {
    let app = App::new(GameMap::new(3, 4));
    assert_eq!(app.entity_counter, 0);
    assert!(app.action_results.is_empty());
    assert!(app.action_result_strings.is_empty());
    assert_eq!(app.input_state, InputState::Basic);
    assert_eq!(app.selected_menu, ItemVecType::Inventory);
    assert_eq!(app.item_list_state, None);
    assert_eq!(app.game_map.voxels.len(), 3);
    assert_eq!(app.game_map.voxels[0].len(), 4);
}

#[test]
fn item_vectors() {
    let mut app = world();
    app.components.equipments.insert(
        0,
        Equipment { equipped: vec![5, 6], inventory: vec![7], arrows: 0, darts: 0, javelins: 0, bullets: 0 },
    );
    assert_eq!(app.inventory_item_vec_of_ent(&0), vec![7]);
    assert_eq!(app.equipped_item_vec_of_ent(&0), vec![5, 6]);
    assert_eq!(app.inventory_item_vec_of_ent(&1), Vec::<i64>::new());
    assert_eq!(app.equipped_item_vec_of_ent(&1), Vec::<i64>::new());
}

#[test]
fn ground_items_only() {
    let mut app = world();
    place(&mut app, 1, (2, 2), EntityType::Item(ItemType::Weapon(1)));
    place(&mut app, 2, (2, 2), EntityType::Animal(3));
    place(&mut app, 3, (2, 2), EntityType::Item(ItemType::Consumable(2)));
    place(&mut app, 4, (3, 2), EntityType::Item(ItemType::Consumable(2)));
    assert_eq!(app.ground_item_vec_at_ent(&0), vec![1, 3]);
    // an entity without a position has nothing under it
    assert_eq!(app.ground_item_vec_at_ent(&99), Vec::<i64>::new());
}

#[test]
fn visible_entities_leave_out_the_viewer() {
    let mut app = world();
    app.game_map.voxels[2][2].entity_set.push(0);
    place(&mut app, 1, (3, 3), EntityType::Animal(1));
    place(&mut app, 2, (4, 4), EntityType::Human(1));
    place(&mut app, 3, (8, 8), EntityType::Human(1));
    let fov = vec![(2, 2), (3, 3), (4, 4), (20, 20)];
    assert_eq!(app.generate_visible_ents_from_ent(&0, &fov), vec![1, 2]);
    assert_eq!(app.game_map.generate_visible_ents_from_point(&fov), vec![0, 1, 2]);
}

#[test]
fn ranged_targets_are_visible_creatures() {
    let mut app = world();
    place(&mut app, 1, (3, 3), EntityType::Animal(1));
    place(&mut app, 2, (3, 3), EntityType::Item(ItemType::Weapon(0)));
    place(&mut app, 3, (4, 4), EntityType::Human(1));
    let fov = vec![(3, 3), (4, 4)];
    assert_eq!(app.ranged_attackable_ents(&0, &fov), vec![1, 3]);
    assert_eq!(app.ranged_attackable_ents(&42, &fov), Vec::<i64>::new());
}

#[test]
fn line_is_blocked_by_creatures_between() {
    let mut app = world();
    place(&mut app, 1, (3, 2), EntityType::Animal(1));
    place(&mut app, 2, (4, 4), EntityType::Item(ItemType::Weapon(0)));
    let types = app.components.ent_types.clone();
    assert!(!app.game_map.line_from_point_to_point_is_unblocked(&(2, 2), &(5, 2), &types));
    assert!(app.game_map.line_from_point_to_point_is_unblocked(&(2, 2), &(3, 2), &types));
    assert!(app.game_map.line_from_point_to_point_is_unblocked(&(2, 3), &(5, 3), &types));
    assert!(app.game_map.line_from_point_to_point_is_unblocked(&(3, 3), &(5, 5), &types));
}

#[test]
fn selection_in_inventory_and_aiming() {
    let mut app = world();
    app.components.equipments.insert(
        0,
        Equipment { equipped: vec![5], inventory: vec![7, 8], arrows: 0, darts: 0, javelins: 0, bullets: 0 },
    );
    place(&mut app, 9, (2, 2), EntityType::Item(ItemType::Weapon(1)));
    place(&mut app, 1, (3, 3), EntityType::Animal(1));
    let fov = vec![(3, 3)];
    assert_eq!(app.manage_item_vec_input(&fov), (false, 0));
    app.item_list_state = Some(1);
    assert_eq!(app.manage_item_vec_input(&fov), (false, 0));
    app.input_state = InputState::Inventory;
    assert_eq!(app.manage_item_vec_input(&fov), (true, 8));
    app.selected_menu = ItemVecType::Equipped;
    assert_eq!(app.manage_item_vec_input(&fov), (false, 0));
    app.selected_menu = ItemVecType::Ground;
    app.item_list_state = Some(0);
    assert_eq!(app.manage_item_vec_input(&fov), (true, 9));
    app.input_state = InputState::RangedAttack;
    assert_eq!(app.manage_item_vec_input(&fov), (true, 1));
    app.item_list_state = Some(3);
    assert_eq!(app.manage_item_vec_input(&fov), (false, 0));
}

#[test]
fn reload_ui_clamps_selection() {
    let mut app = world();
    app.components.equipments.insert(
        0,
        Equipment { equipped: vec![], inventory: vec![7, 8], arrows: 0, darts: 0, javelins: 0, bullets: 0 },
    );
    app.input_state = InputState::Inventory;
    app.selected_menu = ItemVecType::Inventory;
    app.item_list_state = Some(5);
    app.reload_ui(&vec![]);
    assert_eq!(app.item_list_state, Some(1));
    assert_eq!(app.game_map.ent_types_copy, app.components.ent_types);
    // an empty list leaves the selection alone
    app.selected_menu = ItemVecType::Equipped;
    app.item_list_state = Some(5);
    app.reload_ui(&vec![]);
    assert_eq!(app.item_list_state, Some(5));
    // the basic keys never move it
    app.input_state = InputState::Basic;
    app.selected_menu = ItemVecType::Inventory;
    app.reload_ui(&vec![]);
    assert_eq!(app.item_list_state, Some(5));
}

#[test]
fn deaths_drop_equipment_and_ammo() {
    let mut app = world();
    place(&mut app, 1, (4, 4), EntityType::Human(2));
    app.components.healths.insert(1, Health { current_health: 0 });
    app.components.equipments.insert(
        1,
        Equipment { equipped: vec![50], inventory: vec![51], arrows: 3, darts: 0, javelins: 0, bullets: 2 },
    );
    app.handle_deaths();
    assert_eq!(
        app.action_results,
        vec![ActionResult::Success(GameAction::Death(1), SuccessType::Normal)]
    );
    assert!(!app.components.healths.contains_key(&1));
    assert!(app.components.healths.contains_key(&0));
    assert!(!app.components.positions.contains_key(&1));
    assert!(!app.components.equipments.contains_key(&1));
    // wore, carried, then the arrows and the bullets as new items
    assert_eq!(app.game_map.voxels[4][4].entity_set, vec![50, 51, 100, 101]);
    assert_eq!(app.entity_counter, 102);
    assert_eq!(app.components.ent_types.get(&100), Some(&EntityType::Item(ItemType::Ammo(Ammo::Strela(3)))));
    assert_eq!(app.components.ent_types.get(&101), Some(&EntityType::Item(ItemType::Ammo(Ammo::Kulja(2)))));
    assert_eq!(app.components.positions.get(&101), Some(&(4, 4)));
}

#[test]
fn deaths_without_position_only_lose_health() {
    let mut app = world();
    app.components.healths.insert(7, Health { current_health: -3 });
    app.components.healths.insert(8, Health { current_health: 1 });
    app.handle_deaths();
    assert_eq!(app.action_results, vec![ActionResult::Success(GameAction::Death(7), SuccessType::Normal)]);
    assert!(!app.components.healths.contains_key(&7));
    assert_eq!(app.components.healths.get(&8), Some(&Health { current_health: 1 }));
    assert_eq!(app.entity_counter, 100);
}

#[test]
fn spawned_item_gets_next_id() {
    let mut app = world();
    app.spawn_item_at(&(1, 1), ItemType::Ammo(Ammo::Drotik(50)));
    assert_eq!(app.entity_counter, 101);
    assert_eq!(app.game_map.voxels[1][1].entity_set, vec![100]);
    assert_eq!(app.components.positions.get(&100), Some(&(1, 1)));
    // off the map the item has a position but no tile
    app.spawn_item_at(&(50, 1), ItemType::Consumable(1));
    assert_eq!(app.components.positions.get(&101), Some(&(50, 1)));
}

fn actor(a: &GameAction) -> i64 {
    match a {
        GameAction::Go(e, _) => *e,
        _ => panic!("only moves are queued"),
    }
}

#[test]
fn ai_moves_follow_the_rules() {
    let mut app = world();
    place(&mut app, 1, (5, 5), EntityType::Human(1));
    place(&mut app, 2, (0, 0), EntityType::Human(1));
    place(&mut app, 3, (6, 6), EntityType::Animal(1));
    place(&mut app, 4, (9, 9), EntityType::Human(1));
    let fov = vec![(5, 5), (0, 0), (6, 6)];
    for _ in 0..20 {
        app.action_vec.clear();
        app.handle_ai(&fov);
        let of = |e: i64| app.action_vec.iter().filter(|a| actor(a) == e).cloned().collect::<Vec<_>>();
        let h1 = of(1);
        assert_eq!(h1.len(), 2);
        assert!(matches!(h1[0], GameAction::Go(1, CardinalDirection::West | CardinalDirection::SouthWest | CardinalDirection::NorthWest)));
        assert!(matches!(h1[1], GameAction::Go(1, CardinalDirection::South | CardinalDirection::SouthWest | CardinalDirection::SouthEast)));
        let h2 = of(2);
        assert_eq!(h2.len(), 2);
        assert!(matches!(h2[0], GameAction::Go(2, CardinalDirection::East | CardinalDirection::SouthEast | CardinalDirection::NorthEast)));
        assert!(matches!(h2[1], GameAction::Go(2, CardinalDirection::North | CardinalDirection::NorthEast | CardinalDirection::NorthWest)));
        let a3 = of(3);
        assert!(a3.len() <= 1);
        for a in &a3 {
            assert!(matches!(a, GameAction::Go(3, CardinalDirection::West | CardinalDirection::East | CardinalDirection::South | CardinalDirection::North)));
        }
        assert!(of(4).is_empty());
        assert!(of(0).is_empty());
    }
}

#[test]
fn action_strings_newest_first_and_capped() {
    let mut app = world();
    app.action_results = vec![
        ActionResult::Success(GameAction::Wait(0), SuccessType::Normal),
        ActionResult::Success(GameAction::Wait(0), SuccessType::Normal),
        ActionResult::Success(GameAction::Wait(0), SuccessType::Normal),
    ];
    app.gen_action_result_strings(vec!["a".to_string(), "".to_string(), "c".to_string()]);
    assert!(app.action_results.is_empty());
    assert_eq!(app.action_result_strings, vec!["c".to_string(), "a".to_string()]);
    for i in 0..150 {
        app.action_results = vec![ActionResult::Success(GameAction::Wait(0), SuccessType::Normal)];
        app.gen_action_result_strings(vec![format!("line {i}")]);
    }
    assert_eq!(app.action_result_strings.len(), 100);
    assert_eq!(app.action_result_strings[0], "line 149");
    let shown = app.render_event_paragraph();
    assert_eq!(shown.len(), 20);
    assert_eq!(shown[0], "line 149");
    assert_eq!(shown[19], "line 130");
}

#[test]
fn event_paragraph_short_log() {
    let mut app = world();
    app.action_results = vec![ActionResult::Success(GameAction::Wait(0), SuccessType::Normal)];
    app.gen_action_result_strings(vec!["only".to_string()]);
    assert_eq!(app.render_event_paragraph(), vec!["only".to_string()]);
}

#[test]
fn line_and_distance() {
    let mut app = world();
    place(&mut app, 1, (5, 3), EntityType::Animal(1));
    let line = app.line_from_ent_to_ent(&0, &1).unwrap();
    assert_eq!(line.len(), 4);
    assert_eq!(line[0], (2, 2));
    assert_eq!(line[3], (5, 3));
    assert_eq!(app.distance_from_ent_to_ent(&0, &1), Some(4));
    assert_eq!(app.distance_from_ent_to_ent(&1, &0), Some(4));
    assert_eq!(app.distance_from_ent_to_ent(&0, &0), Some(1));
    assert_eq!(app.distance_from_ent_to_ent(&0, &9), None);
    assert!(app.line_from_ent_to_ent(&9, &0).is_none());
}

#[test]
fn seen_tiles_grow_without_repeats() {
    let mut app = world();
    app.update_seen_tiles(&vec![(1, 1), (2, 2), (1, 1)]);
    assert_eq!(app.seen_tiles, vec![(1, 1), (2, 2)]);
    app.update_seen_tiles(&vec![(2, 2), (3, 3)]);
    assert_eq!(app.seen_tiles, vec![(1, 1), (2, 2), (3, 3)]);
    app.components.positions.remove(&0);
    app.update_seen_tiles(&vec![(4, 4)]);
    assert_eq!(app.seen_tiles, vec![(1, 1), (2, 2), (3, 3)]);
}
