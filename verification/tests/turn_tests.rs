use latin_tui::ai::{animal_step, human_x_step, human_y_step};
use latin_tui::app::App;
use latin_tui::scatter::ammo_kind;
use latin_tui::world::{
    ActionResult, Ammo, CardinalDirection, EntityType, GameAction, GameMap, Health, InputState, ItemType, ItemVecType,
    SuccessType,
};

fn small_world() -> App {
    let mut app = App::new(GameMap::new(10, 10));
    app.local_player_id = 0;
    app.components.positions.insert(0, (2, 2));
    app.components.ent_types.insert(0, EntityType::Human(0));
    app.components.healths.insert(0, Health { current_health: 10 });
    app.game_map.voxels[2][2].entity_set.push(0);
    app.entity_counter = 100;
    app
}

#[test]
fn human_x_step_by_side_and_draws() {
    assert_eq!(human_x_step(true, true, false), CardinalDirection::West);
    assert_eq!(human_x_step(true, true, true), CardinalDirection::West);
    assert_eq!(human_x_step(true, false, true), CardinalDirection::SouthWest);
    assert_eq!(human_x_step(true, false, false), CardinalDirection::NorthWest);
    assert_eq!(human_x_step(false, true, false), CardinalDirection::East);
    assert_eq!(human_x_step(false, false, true), CardinalDirection::SouthEast);
    assert_eq!(human_x_step(false, false, false), CardinalDirection::NorthEast);
}

#[test]
fn human_y_step_by_side_and_draws() {
    assert_eq!(human_y_step(true, true, false), CardinalDirection::South);
    assert_eq!(human_y_step(true, false, true), CardinalDirection::SouthWest);
    assert_eq!(human_y_step(true, false, false), CardinalDirection::SouthEast);
    assert_eq!(human_y_step(false, true, true), CardinalDirection::North);
    assert_eq!(human_y_step(false, false, true), CardinalDirection::NorthEast);
    assert_eq!(human_y_step(false, false, false), CardinalDirection::NorthWest);
}

#[test]
fn animal_step_takes_the_first_true_draw() {
    assert_eq!(animal_step(true, true, true, true), Some(CardinalDirection::West));
    assert_eq!(animal_step(false, true, true, false), Some(CardinalDirection::East));
    assert_eq!(animal_step(false, false, true, true), Some(CardinalDirection::South));
    assert_eq!(animal_step(false, false, false, true), Some(CardinalDirection::North));
    assert_eq!(animal_step(false, false, false, false), None);
}

#[test]
fn humans_move_before_animals() {
    let mut app = small_world();
    for (id, pos, t) in [(1, (5, 5), EntityType::Animal(1)), (2, (6, 6), EntityType::Human(1)), (3, (7, 7), EntityType::Animal(2))] {
        app.components.positions.insert(id, pos);
        app.components.ent_types.insert(id, t);
        app.game_map.voxels[pos.0 as usize][pos.1 as usize].entity_set.push(id);
    }
    let fov = vec![(5, 5), (6, 6), (7, 7)];
    for _ in 0..20 {
        app.action_vec.clear();
        app.handle_ai(&fov);
        let actors: Vec<i64> = app
            .action_vec
            .iter()
            .map(|a| match a {
                GameAction::Go(e, _) => *e,
                _ => panic!("only moves are queued"),
            })
            .collect();
        assert_eq!(&actors[..2], &[2, 2]);
        assert!(actors[2..].iter().all(|e| *e == 1 || *e == 3));
    }
}

#[test]
fn ammo_kind_takes_the_first_true_draw() {
    assert_eq!(ammo_kind(true, true, false, false, 7), Some(Ammo::Kulja(7)));
    assert_eq!(ammo_kind(false, true, true, true, 3), Some(Ammo::Strela(3)));
    assert_eq!(ammo_kind(false, false, true, false, 49), Some(Ammo::Oscep(49)));
    assert_eq!(ammo_kind(false, false, false, true, 1), Some(Ammo::Drotik(1)));
    assert_eq!(ammo_kind(false, false, false, false, 1), None);
}

#[test]
fn scattered_ammo_lies_on_the_map_and_darts_come_last() {
    let mut app = App::new(GameMap::new(60, 60));
    app.scatter_ammo(60);
    let n = app.entity_counter;
    assert!(n >= 1);
    for id in 0..n - 1 {
        let pos = *app.components.positions.get(&id).unwrap();
        assert!((0..60).contains(&pos.0) && (0..60).contains(&pos.1));
        assert!(app.game_map.voxels[pos.0 as usize][pos.1 as usize].entity_set.contains(&id));
        match app.components.ent_types.get(&id) {
            Some(EntityType::Item(ItemType::Ammo(
                Ammo::Kulja(k) | Ammo::Strela(k) | Ammo::Oscep(k) | Ammo::Drotik(k),
            ))) => assert!((1..50).contains(k)),
            other => panic!("not a stack of ammunition: {:?}", other),
        }
        if id > 0 {
            let before = *app.components.positions.get(&(id - 1)).unwrap();
            assert!(before < pos);
        }
    }
    assert_eq!(app.components.positions.get(&(n - 1)), Some(&(5, 6)));
    assert_eq!(app.components.ent_types.get(&(n - 1)), Some(&EntityType::Item(ItemType::Ammo(Ammo::Drotik(50)))));
    assert_eq!(app.components.positions.len() as i64, n);
}

#[test]
fn empty_map_gets_only_the_darts() {
    let mut app = App::new(GameMap::new(0, 0));
    app.scatter_ammo(0);
    assert_eq!(app.entity_counter, 1);
    assert_eq!(app.components.positions.get(&0), Some(&(5, 6)));
}

#[test]
fn results_kept_only_for_the_player_and_what_it_sees() {
    let mut app = small_world();
    app.components.positions.insert(1, (4, 4));
    app.components.ent_types.insert(1, EntityType::Animal(1));
    app.game_map.voxels[4][4].entity_set.push(1);
    let fov = vec![(2, 2), (4, 4)];
    let wait = |e: i64| ActionResult::Success(GameAction::Wait(e), SuccessType::Normal);
    app.keep_visible_result(0, wait(0), &fov);
    app.keep_visible_result(1, wait(1), &fov);
    app.keep_visible_result(9, wait(9), &fov);
    assert_eq!(app.action_results, vec![wait(0), wait(1)]);
    // out of sight, the animal's report is dropped
    app.keep_visible_result(1, wait(1), &vec![(2, 2)]);
    assert_eq!(app.action_results.len(), 2);
}

#[test]
fn reload_ui_with_player_off_the_map() {
    let mut app = small_world();
    app.components.positions.insert(0, (40, 40));
    app.item_list_state = Some(3);
    app.reload_ui(&vec![]);
    assert_eq!(app.item_list_state, Some(3));
    app.input_state = InputState::Inventory;
    app.selected_menu = ItemVecType::Equipped;
    app.reload_ui(&vec![]);
    assert_eq!(app.item_list_state, Some(3));
    assert_eq!(app.game_map.ent_types_copy, app.components.ent_types);
}

#[test]
fn spawned_ids_are_fresh_and_keep_others() {
    let mut app = small_world();
    app.spawn_item_at(&(2, 2), ItemType::Weapon(1));
    assert_eq!(app.components.positions.get(&0), Some(&(2, 2)));
    assert_eq!(app.components.ent_types.get(&100), Some(&EntityType::Item(ItemType::Weapon(1))));
    assert_eq!(app.game_map.voxels[2][2].entity_set, vec![0, 100]);
    assert_eq!(app.entity_counter, 101);
}

#[test]
fn sure_and_impossible_draws() {
    let mut app = small_world();
    assert!(app.draw(1, 1));
    assert!(app.draw(50, 50));
    assert!(!app.draw(0, 5));
    assert_eq!(app.entity_counter, 100);
}

#[test]
fn handle_actions_answers_deaths_and_meals_it_hears_of() {
    let mut app = small_world();
    app.components.positions.insert(1, (4, 4));
    app.components.ent_types.insert(1, EntityType::Animal(1));
    app.game_map.voxels[4][4].entity_set.push(1);
    app.action_vec = vec![
        GameAction::Death(1),
        GameAction::Go(0, CardinalDirection::North),
        GameAction::Consume(0, 3),
        GameAction::Death(9),
        GameAction::Wait(0),
    ];
    app.handle_actions(&vec![(2, 2), (4, 4)]);
    assert!(app.action_vec.is_empty());
    assert_eq!(
        app.action_results,
        vec![
            ActionResult::Success(GameAction::Death(1), SuccessType::Normal),
            ActionResult::Success(GameAction::Consume(0, 3), SuccessType::Normal),
        ]
    );
    assert_eq!(app.components.positions.get(&0), Some(&(2, 2)));
}

#[test]
fn init_lays_ammo_and_copies_types() {
    let mut app = small_world();
    app.init(20, &vec![]);
    let n = app.entity_counter;
    assert!(n >= 101);
    assert_eq!(app.components.positions.get(&0), Some(&(2, 2)));
    assert_eq!(app.components.positions.get(&(n - 1)), Some(&(5, 6)));
    assert_eq!(app.components.ent_types.get(&(n - 1)), Some(&EntityType::Item(ItemType::Ammo(Ammo::Drotik(50)))));
    assert_eq!(app.game_map.ent_types_copy, app.components.ent_types);
    assert_eq!(app.input_state, InputState::Basic);
}
