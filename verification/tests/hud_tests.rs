use latin_tui::app::App;
use latin_tui::hud::equipment_strings;
use latin_tui::world::{EntityType, Equipment, GameMap, ItemType};

fn v(xs: &[&str]) -> Vec<String> {
    xs.iter().map(|x| x.to_string()).collect()
}

#[test]
fn weapon_line() {
    assert_eq!(equipment_strings(&v(&[]), &v(&[])).0, "Pęsti");
    assert_eq!(equipment_strings(&v(&["meč"]), &v(&[])).0, "meč");
    assert_eq!(equipment_strings(&v(&["meč", "luk"]), &v(&[])).0, "meč i luk");
    assert_eq!(equipment_strings(&v(&["meč", "luk", "nož"]), &v(&[])).0, "Pęsti");
}

#[test]
fn armor_line() {
    assert_eq!(equipment_strings(&v(&[]), &v(&[])).1, "Ničto");
    assert_eq!(equipment_strings(&v(&[]), &v(&["šapka"])).1, "šapka");
    assert_eq!(equipment_strings(&v(&[]), &v(&["šapka", "plašč", "čizmy"])).1, "šapka, plašč, čizmy");
}

#[test]
fn weapons_and_clothing_of_the_player() {
    let mut app = App::new(GameMap::new(2, 2));
    app.components.ent_types.insert(1, EntityType::Item(ItemType::Weapon(0)));
    app.components.ent_types.insert(2, EntityType::Item(ItemType::Clothing(0)));
    app.components.ent_types.insert(3, EntityType::Item(ItemType::Consumable(0)));
    app.components.ent_types.insert(4, EntityType::Item(ItemType::Weapon(1)));
    app.components.equipments.insert(
        0,
        Equipment { equipped: vec![2, 1, 3, 4], inventory: vec![], arrows: 0, darts: 0, javelins: 0, bullets: 0 },
    );
    assert_eq!(app.equipped_weapons_and_clothing(), (vec![1, 4], vec![2]));
    app.local_player_id = 9;
    assert_eq!(app.equipped_weapons_and_clothing(), (vec![], vec![]));
}
