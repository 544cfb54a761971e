//! The text of the player's side panel.
use vstd::prelude::*;
use vstd::string::*;
use crate::app::{equipped_of, App};
use crate::world::{EntityID, EntityType, ItemType};

verus! {

/// The names joined with ", " between them.
pub open spec fn joined(names: Seq<Seq<char>>) -> Seq<char>
    decreases names.len(),
{
    if names.len() == 0 {
        Seq::empty()
    } else if names.len() == 1 {
        names[0]
    } else {
        joined(names.drop_last()) + seq![',', ' '] + names.last()
    }
}

/// What the weapon line says: the weapon, or both weapons joined by " i ";
/// bare fists ("Pęsti") for none, or for more than two.
pub open spec fn weapon_text(weapons: Seq<Seq<char>>) -> Seq<char> {
    if weapons.len() == 1 {
        weapons[0]
    } else if weapons.len() == 2 {
        weapons[0] + seq![' ', 'i', ' '] + weapons[1]
    } else {
        seq!['P', 'ę', 's', 't', 'i']
    }
}

/// What the clothing line says: the pieces joined by ", ", or nothing
/// ("Ničto") for none.
pub open spec fn armor_text(armor: Seq<Seq<char>>) -> Seq<char> {
    if armor.len() > 0 {
        joined(armor)
    } else {
        seq!['N', 'i', 'č', 't', 'o']
    }
}

/// The names of a list of strings.
pub open spec fn names_of(v: Seq<String>) -> Seq<Seq<char>> {
    v.map_values(|s: String| s@)
}

/// The weapon line and the clothing line of the side panel, from the names
/// of the weapons and of the clothes the player has equipped.
pub fn equipment_strings(weapons: &Vec<String>, armor: &Vec<String>) -> (r: (String, String))
    ensures
        r.0@ == weapon_text(names_of(weapons@)),
        r.1@ == armor_text(names_of(armor@)),
{
    let weapon_string = if weapons.len() == 1 {
        weapons[0].clone()
    } else if weapons.len() == 2 {
        let mut s = weapons[0].clone();
        s.append(" i ");
        s.append(weapons[1].as_str());
        proof {
            reveal_strlit(" i ");
            assert(" i "@ =~= seq![' ', 'i', ' ']);
        }
        s
    } else {
        proof {
            reveal_strlit("Pęsti");
            assert("Pęsti"@ =~= seq!['P', 'ę', 's', 't', 'i']);
        }
        String::from_str("Pęsti")
    };
    let ghost names = names_of(armor@);
    let armor_string = if armor.len() > 0 {
        let mut s = armor[0].clone();
        let mut thing: usize = 1;
        proof {
            assert(names.take(1) =~= seq![names[0]]);
        }
        while thing < armor.len()
            invariant
                1 <= thing <= armor@.len(),
                names == names_of(armor@),
                s@ == joined(names.take(thing as int)),
            decreases armor@.len() - thing,
        {
            s.append(", ");
            s.append(armor[thing].as_str());
            proof {
                reveal_strlit(", ");
                assert(", "@ =~= seq![',', ' ']);
                assert(names.take(thing + 1).drop_last() =~= names.take(thing as int));
            }
            thing = thing + 1;
        }
        proof {
            assert(names.take(armor@.len() as int) =~= names);
        }
        s
    } else {
        proof {
            reveal_strlit("Ničto");
            assert("Ničto"@ =~= seq!['N', 'i', 'č', 't', 'o']);
        }
        String::from_str("Ničto")
    };
    (weapon_string, armor_string)
}

/// The items of `s` whose recorded type is a weapon, in order.
pub open spec fn weapons_only(types: Map<EntityID, EntityType>, s: Seq<EntityID>) -> Seq<EntityID>
    decreases s.len(),
{
    if s.len() == 0 {
        s
    } else if types.contains_key(s.last()) && types[s.last()] matches EntityType::Item(ItemType::Weapon(_)) {
        weapons_only(types, s.drop_last()).push(s.last())
    } else {
        weapons_only(types, s.drop_last())
    }
}

/// The items of `s` whose recorded type is clothing, in order.
pub open spec fn clothing_only(types: Map<EntityID, EntityType>, s: Seq<EntityID>) -> Seq<EntityID>
    decreases s.len(),
{
    if s.len() == 0 {
        s
    } else if types.contains_key(s.last()) && types[s.last()] matches EntityType::Item(ItemType::Clothing(_)) {
        clothing_only(types, s.drop_last()).push(s.last())
    } else {
        clothing_only(types, s.drop_last())
    }
}

impl App {
    /// Every item the player has equipped has a recorded type.
    pub open spec fn equipped_items_typed(&self) -> bool {
        let eq = equipped_of(self.components.equipments@, self.local_player_id);
        forall|i: int| 0 <= i < eq.len() ==> self.components.ent_types@.contains_key(#[trigger] eq[i])
    }

    /// The weapons and the clothes among what the player has equipped, each
    /// in equipment order: what the side panel names.
    pub fn equipped_weapons_and_clothing(&self) -> (r: (Vec<EntityID>, Vec<EntityID>))
        requires
            self.equipped_items_typed(),
        ensures
            r.0@ == weapons_only(self.components.ent_types@, equipped_of(self.components.equipments@, self.local_player_id)),
            r.1@ == clothing_only(self.components.ent_types@, equipped_of(self.components.equipments@, self.local_player_id)),
    {
        let mut weapons: Vec<EntityID> = Vec::new();
        let mut armor: Vec<EntityID> = Vec::new();
        if let Some(player_equip) = self.components.equipments.get(&self.local_player_id) {
            let ghost eq = player_equip.equipped@;
            let ghost types = self.components.ent_types@;
            let mut i: usize = 0;
            while i < player_equip.equipped.len()
                invariant
                    i <= eq.len(),
                    eq == player_equip.equipped@,
                    eq == equipped_of(self.components.equipments@, self.local_player_id),
                    types == self.components.ent_types@,
                    self.equipped_items_typed(),
                    weapons@ == weapons_only(types, eq.take(i as int)),
                    armor@ == clothing_only(types, eq.take(i as int)),
                decreases eq.len() - i,
            {
                let item = player_equip.equipped[i];
                proof {
                    assert(eq.take(i + 1).drop_last() =~= eq.take(i as int));
                    assert(types.contains_key(eq[i as int]));
                }
                let item_type = self.components.ent_types.get(&item).unwrap();
                match item_type {
                    EntityType::Item(ItemType::Weapon(_)) => weapons.push(item),
                    EntityType::Item(ItemType::Clothing(_)) => armor.push(item),
                    _ => {},
                }
                i = i + 1;
            }
            proof {
                assert(eq.take(eq.len() as int) =~= eq);
            }
        }
        (weapons, armor)
    }
}

} // verus!
