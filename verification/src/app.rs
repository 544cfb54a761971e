//! The game's state between two frames, and the turn logic that changes it.
use vstd::prelude::*;
use vstd::std_specs::iter::IteratorSpec;
use std::collections::HashMap;
use std::collections::VecDeque;
use rand::rngs::SmallRng;
use crate::outside::{chance, seeded_rng};
use crate::world::{
    ActionResult, ComponentHolder, EntityID, EntityType, Equipment, GameAction, GameMap, Health, InputState,
    ItemVecType, Position, ents_on_tiles, lemma_without, pos_in_range, remove_ent_from_vec, without,
};

verus! {

broadcast use vstd::std_specs::hash::group_hash_axioms;

/// The game: the world, the player's view of it, and the turn's queues.
pub struct App {
    pub entity_counter: i64,
    pub components: ComponentHolder,
    pub input_state: InputState,
    pub action_results: Vec<ActionResult>,
    pub action_result_strings: VecDeque<String>,
    pub selected_menu: ItemVecType,
    /// The row selected in the list on screen, if any.
    pub item_list_state: Option<usize>,
    pub exit: bool,
    pub game_map: GameMap,
    pub action_vec: Vec<GameAction>,
    pub local_player_id: EntityID,
    /// The tiles the player has seen, each once.
    pub seen_tiles: Vec<Position>,
    pub small_rng: SmallRng,
    /// Every draw made from `small_rng` through `draw`, oldest first.
    pub draws: Ghost<Seq<Draw>>,
}

/// One draw of the random generator: the odds `numerator / denominator`
/// it was asked for, and what came out.
pub type Draw = (u32, u32, bool);

/// Whether the recorded type of `e` is an item.
pub open spec fn is_item(types: Map<EntityID, EntityType>, e: EntityID) -> bool {
    types.contains_key(e) && types[e] is Item
}

/// Whether the recorded type of `e` is a creature.
pub open spec fn is_creature(types: Map<EntityID, EntityType>, e: EntityID) -> bool {
    types.contains_key(e) && types[e].spec_is_attackable()
}

/// The items of `s`, in order.
pub open spec fn items_only(types: Map<EntityID, EntityType>, s: Seq<EntityID>) -> Seq<EntityID>
    decreases s.len(),
{
    if s.len() == 0 {
        s
    } else if is_item(types, s.last()) {
        items_only(types, s.drop_last()).push(s.last())
    } else {
        items_only(types, s.drop_last())
    }
}

/// The creatures of `s`, in order.
pub open spec fn creatures_only(types: Map<EntityID, EntityType>, s: Seq<EntityID>) -> Seq<EntityID>
    decreases s.len(),
{
    if s.len() == 0 {
        s
    } else if is_creature(types, s.last()) {
        creatures_only(types, s.drop_last()).push(s.last())
    } else {
        creatures_only(types, s.drop_last())
    }
}

/// The inventory of `e`, or nothing where it has no equipment.
pub open spec fn inventory_of(eqs: Map<EntityID, Equipment>, e: EntityID) -> Seq<EntityID> {
    if eqs.contains_key(e) {
        eqs[e].inventory@
    } else {
        Seq::empty()
    }
}

/// What `e` has equipped, or nothing where it has no equipment.
pub open spec fn equipped_of(eqs: Map<EntityID, Equipment>, e: EntityID) -> Seq<EntityID> {
    if eqs.contains_key(e) {
        eqs[e].equipped@
    } else {
        Seq::empty()
    }
}

/// The row `sid` of a list, as `(true, id)`, or `(false, 0)` past its end.
pub open spec fn pick(list: Seq<EntityID>, sid: usize) -> (bool, EntityID) {
    if sid < list.len() {
        (true, list[sid as int])
    } else {
        (false, 0)
    }
}

/// A selection moved back onto the last row of a list that has shrunk under
/// it; an empty list leaves the selection as it was.
pub open spec fn clamped(sel: Option<usize>, len: nat) -> Option<usize> {
    match sel {
        Some(s) => if s >= len && len > 0 {
            Some((len - 1) as usize)
        } else {
            Some(s)
        },
        None => None,
    }
}

/// The ids of a map's keys, each once, in the map's own order.
pub(crate) fn keys_of<V>(m: &HashMap<EntityID, V>) -> (ks: Vec<EntityID>)
    ensures
        ks@.no_duplicates(),
        ks@.to_set() == m@.dom(),
        ks@.len() == m@.len(),
{
    let mut ks: Vec<EntityID> = Vec::new();
    let ghost all = vstd::std_specs::hash::spec_keys_iter(m).remaining().unref();
    for k in it: m.keys()
        invariant
            it.seq().unref() == all,
            all.no_duplicates(),
            all.to_set() == m@.dom(),
            all.len() == m@.dom().len(),
            ks@ == all.take(it.index()),
    {
        proof {
            assert(all.take(it.index() + 1) =~= all.take(it.index()).push(*k));
        }
        ks.push(*k);
    }
    proof {
        assert(all.take(all.len() as int) =~= all);
    }
    ks
}

/// A clamped selection is on the list whenever the list has rows, and
/// clamping twice is clamping once.
pub proof fn lemma_clamped(sel: Option<usize>, len: nat)
    requires
        len <= usize::MAX,
    ensures
        len > 0 && clamped(sel, len) is Some ==> clamped(sel, len)->0 < len,
        clamped(clamped(sel, len), len) == clamped(sel, len),
        sel is None ==> clamped(sel, len) is None,
{
}

/// After the interface is reloaded, a selection on a list with rows always
/// picks an entity: the selected row is on the list.
pub proof fn lemma_reloaded_selection_picks(app: App, fov: Seq<Position>, before: Option<usize>)
    requires
        app.input_state != InputState::Basic,
        app.item_list_state == clamped(before, app.list_len(fov)),
        app.list_len(fov) <= usize::MAX,
        before is Some,
        app.list_len(fov) > 0,
    ensures
        app.selection(fov).0,
{
}

/// The selected row names the entity shown on it: when aiming, the target
/// on that row of the target list; in the inventory screen, the item on
/// that row of the open menu. Past the end of the list, with the basic
/// keys, or with no row selected, it names nothing.
pub proof fn lemma_selection_is_the_row(app: App, fov: Seq<Position>, sid: usize)
    ensures
        app.item_list_state is None ==> app.selection(fov) == (false, 0i64),
        app.input_state == InputState::Basic ==> app.selection(fov) == (false, 0i64),
        app.item_list_state == Some(sid) && app.input_state == InputState::RangedAttack
            ==> app.selection(fov) == (if sid < app.attackable_from(app.local_player_id, fov).len() {
                (true, app.attackable_from(app.local_player_id, fov)[sid as int])
            } else {
                (false, 0i64)
            }),
        app.item_list_state == Some(sid) && app.input_state == InputState::Inventory
            ==> app.selection(fov) == (if sid < app.menu_items(app.selected_menu).len() {
                (true, app.menu_items(app.selected_menu)[sid as int])
            } else {
                (false, 0i64)
            }),
{
}

/// An entity never sees itself, and it sees every other entity that
/// stands on a tile of its field of view.
pub proof fn lemma_visible_excludes_viewer(app: App, eid: EntityID, fov: Seq<Position>)
    ensures
        !app.visible_from(eid, fov).contains(eid),
        forall|x: EntityID| x != eid ==> (#[trigger] app.visible_from(eid, fov).contains(x)
            <==> ents_on_tiles(app.game_map.tiles(), fov).contains(x)),
{
    lemma_without(ents_on_tiles(app.game_map.tiles(), fov), eid);
}

impl App {
    /// A new game on `game_map`: no entities, no messages, the basic key set,
    /// and the random generator seeded with 1.
    pub fn new(game_map: GameMap) -> (app: App)
        ensures
            app.entity_counter == 0,
            app.components.positions@ == Map::<EntityID, Position>::empty(),
            app.components.healths@ == Map::<EntityID, Health>::empty(),
            app.components.equipments@ == Map::<EntityID, Equipment>::empty(),
            app.components.ent_types@ == Map::<EntityID, EntityType>::empty(),
            app.input_state == InputState::Basic,
            app.action_results@ == Seq::<ActionResult>::empty(),
            app.action_result_strings@ == Seq::<String>::empty(),
            app.selected_menu == ItemVecType::Inventory,
            app.item_list_state == None::<usize>,
            !app.exit,
            app.game_map == game_map,
            app.action_vec@ == Seq::<GameAction>::empty(),
            app.local_player_id == 0,
            app.seen_tiles@ == Seq::<Position>::empty(),
            app.draws@ == Seq::<Draw>::empty(),
    {
        App {
            entity_counter: 0,
            components: ComponentHolder::new(),
            input_state: InputState::Basic,
            action_results: Vec::new(),
            action_result_strings: VecDeque::new(),
            selected_menu: ItemVecType::Inventory,
            item_list_state: None,
            exit: false,
            game_map,
            action_vec: Vec::new(),
            local_player_id: 0,
            seen_tiles: Vec::new(),
            small_rng: seeded_rng(1),
            draws: Ghost(Seq::empty()),
        }
    }

    /// Every field but `exit` is the same in the two states.
    pub open spec fn same_but_exit(self, other: App) -> bool {
        &&& self.entity_counter == other.entity_counter
        &&& self.components == other.components
        &&& self.input_state == other.input_state
        &&& self.action_results == other.action_results
        &&& self.action_result_strings == other.action_result_strings
        &&& self.selected_menu == other.selected_menu
        &&& self.item_list_state == other.item_list_state
        &&& self.game_map == other.game_map
        &&& self.action_vec == other.action_vec
        &&& self.local_player_id == other.local_player_id
        &&& self.seen_tiles == other.seen_tiles
        &&& self.small_rng == other.small_rng
        &&& self.draws == other.draws
    }

    /// Every field but the random generator and its draw log is the same
    /// in the two states.
    pub open spec fn same_but_rng(self, other: App) -> bool {
        &&& self.entity_counter == other.entity_counter
        &&& self.components == other.components
        &&& self.input_state == other.input_state
        &&& self.action_results == other.action_results
        &&& self.action_result_strings == other.action_result_strings
        &&& self.selected_menu == other.selected_menu
        &&& self.item_list_state == other.item_list_state
        &&& self.exit == other.exit
        &&& self.game_map == other.game_map
        &&& self.action_vec == other.action_vec
        &&& self.local_player_id == other.local_player_id
        &&& self.seen_tiles == other.seen_tiles
    }

    /// Draws `true` with odds `numerator / denominator` from the random
    /// generator, and logs the draw.
    pub fn draw(&mut self, numerator: u32, denominator: u32) -> (b: bool)
        requires
            0 < denominator,
            numerator <= denominator,
        ensures
            final(self).draws@ == old(self).draws@.push((numerator, denominator, b)),
            numerator == 0 ==> !b,
            numerator == denominator ==> b,
            final(self).same_but_rng(*old(self)),
    {
        let b = chance(&mut self.small_rng, numerator, denominator);
        self.draws = Ghost(self.draws@.push((numerator, denominator, b)));
        b
    }

    /// Ends the game loop.
    pub fn exit(&mut self)
        ensures
            final(self).exit,
            final(self).same_but_exit(*old(self)),
    {
        self.exit = true;
    }

    /// The items that `eid` carries in its inventory.
    pub fn inventory_item_vec_of_ent(&self, eid: &EntityID) -> (v: Vec<EntityID>)
        ensures
            v@ == inventory_of(self.components.equipments@, *eid),
    {
        let mut evec: Vec<EntityID> = Vec::new();
        if let Some(ent_equi) = self.components.equipments.get(eid) {
            let mut i: usize = 0;
            while i < ent_equi.inventory.len()
                invariant
                    i <= ent_equi.inventory@.len(),
                    evec@ == ent_equi.inventory@.take(i as int),
                decreases ent_equi.inventory@.len() - i,
            {
                evec.push(ent_equi.inventory[i]);
                proof {
                    assert(ent_equi.inventory@.take(i + 1) =~= ent_equi.inventory@.take(i as int).push(ent_equi.inventory@[i as int]));
                }
                i = i + 1;
            }
            proof {
                assert(ent_equi.inventory@.take(ent_equi.inventory@.len() as int) =~= ent_equi.inventory@);
            }
        }
        evec
    }

    /// The items that `eid` has equipped.
    pub fn equipped_item_vec_of_ent(&self, eid: &EntityID) -> (v: Vec<EntityID>)
        ensures
            v@ == equipped_of(self.components.equipments@, *eid),
    {
        let mut evec: Vec<EntityID> = Vec::new();
        if let Some(ent_equi) = self.components.equipments.get(eid) {
            let mut i: usize = 0;
            while i < ent_equi.equipped.len()
                invariant
                    i <= ent_equi.equipped@.len(),
                    evec@ == ent_equi.equipped@.take(i as int),
                decreases ent_equi.equipped@.len() - i,
            {
                evec.push(ent_equi.equipped[i]);
                proof {
                    assert(ent_equi.equipped@.take(i + 1) =~= ent_equi.equipped@.take(i as int).push(ent_equi.equipped@[i as int]));
                }
                i = i + 1;
            }
            proof {
                assert(ent_equi.equipped@.take(ent_equi.equipped@.len() as int) =~= ent_equi.equipped@);
            }
        }
        evec
    }

    /// Where `eid` stands, there is a tile.
    pub open spec fn stands_on_map(&self, eid: EntityID) -> bool {
        self.components.positions@.contains_key(eid) ==> self.game_map.has_voxel(self.components.positions@[eid])
    }

    /// The items on the tile where `eid` stands, in tile order.
    pub open spec fn ground_items(&self, eid: EntityID) -> Seq<EntityID> {
        if self.components.positions@.contains_key(eid) {
            items_only(self.components.ent_types@, self.game_map.tiles()[self.components.positions@[eid]])
        } else {
            Seq::empty()
        }
    }

    /// The items lying on the tile where `eid` stands.
    pub fn ground_item_vec_at_ent(&self, eid: &EntityID) -> (v: Vec<EntityID>)
        requires
            self.stands_on_map(*eid),
        ensures
            v@ == self.ground_items(*eid),
    {
        let mut evec: Vec<EntityID> = Vec::new();
        if let Some(ent_pos) = self.components.positions.get(eid) {
            let ent_vox = self.game_map.get_voxel_at(ent_pos).unwrap();
            let ghost types = self.components.ent_types@;
            let ghost tile = ent_vox.entity_set@;
            assert(tile == self.game_map.tiles()[*ent_pos]);
            let mut i: usize = 0;
            while i < ent_vox.entity_set.len()
                invariant
                    i <= tile.len(),
                    tile == ent_vox.entity_set@,
                    types == self.components.ent_types@,
                    evec@ == items_only(types, tile.take(i as int)),
                decreases tile.len() - i,
            {
                let boop = ent_vox.entity_set[i];
                proof {
                    assert(tile.take(i + 1).drop_last() =~= tile.take(i as int));
                }
                match self.components.ent_types.get(&boop) {
                    Some(EntityType::Item(_)) => {
                        evec.push(boop);
                    },
                    _ => {},
                }
                i = i + 1;
            }
            proof {
                assert(tile.take(tile.len() as int) =~= tile);
            }
        }
        evec
    }

    /// The entities on the tiles `fov` other than `eid` itself.
    pub open spec fn visible_from(&self, eid: EntityID, fov: Seq<Position>) -> Seq<EntityID> {
        without(ents_on_tiles(self.game_map.tiles(), fov), eid)
    }

    /// The entities that `eid` sees, given `fov`, the tiles in its field of
    /// view; `eid` itself is left out.
    pub fn generate_visible_ents_from_ent(&self, eid: &EntityID, fov: &Vec<Position>) -> (v: Vec<EntityID>)
        ensures
            v@ == self.visible_from(*eid, fov@),
    {
        let mut visible_ents_with_self = self.game_map.generate_visible_ents_from_point(fov);
        remove_ent_from_vec(&mut visible_ents_with_self, eid);
        visible_ents_with_self
    }

    /// Where `e` stands, its coordinates are small enough to draw lines from.
    pub open spec fn placed_in_range(&self, e: EntityID) -> bool {
        self.components.positions@.contains_key(e) ==> pos_in_range(self.components.positions@[e])
    }

    /// The creatures that `subj` sees, in sight order; nothing where it has
    /// no position. Each is checked for a clear line from the tile of `subj`
    /// to the tile of `subj`, which a line of one tile always is.
    pub open spec fn attackable_from(&self, subj: EntityID, fov: Seq<Position>) -> Seq<EntityID> {
        if self.components.positions@.contains_key(subj) {
            creatures_only(self.components.ent_types@, self.visible_from(subj, fov))
        } else {
            Seq::empty()
        }
    }

    /// The creatures that `subj` can shoot at.
    pub fn ranged_attackable_ents(&self, subj: &EntityID, fov: &Vec<Position>) -> (v: Vec<EntityID>)
        requires
            self.placed_in_range(*subj),
        ensures
            v@ == self.attackable_from(*subj, fov@),
    {
        let mut new_vec: Vec<EntityID> = Vec::new();
        if let Some(subj_pos) = self.components.positions.get(subj) {
            let visible_ents = self.generate_visible_ents_from_ent(subj, fov);
            let ghost types = self.components.ent_types@;
            let mut i: usize = 0;
            while i < visible_ents.len()
                invariant
                    i <= visible_ents@.len(),
                    types == self.components.ent_types@,
                    self.components.positions@.contains_key(*subj),
                    *subj_pos == self.components.positions@[*subj],
                    pos_in_range(*subj_pos),
                    new_vec@ == creatures_only(types, visible_ents@.take(i as int)),
                decreases visible_ents@.len() - i,
            {
                let entik = visible_ents[i];
                proof {
                    assert(visible_ents@.take(i + 1).drop_last() =~= visible_ents@.take(i as int));
                }
                let typik = self.components.ent_types.get(&entik);
                if let Some(t) = typik {
                    if t.is_attackable() {
                        if let Some(obj_pos) = self.components.positions.get(subj) {
                            if self.game_map.line_from_point_to_point_is_unblocked(
                                subj_pos,
                                obj_pos,
                                &self.components.ent_types,
                            ) {
                                new_vec.push(entik);
                            }
                        }
                    }
                }
                i = i + 1;
            }
            proof {
                assert(visible_ents@.take(visible_ents@.len() as int) =~= visible_ents@);
            }
        }
        new_vec
    }

    /// The list shown for a menu of the inventory screen.
    pub open spec fn menu_items(&self, menu: ItemVecType) -> Seq<EntityID> {
        match menu {
            ItemVecType::Equipped => equipped_of(self.components.equipments@, self.local_player_id),
            ItemVecType::Inventory => inventory_of(self.components.equipments@, self.local_player_id),
            ItemVecType::Ground => self.ground_items(self.local_player_id),
        }
    }

    /// The entity under the selection: in the inventory screen, the selected
    /// row of the open menu; when aiming, the selected target.
    pub open spec fn selection(&self, fov: Seq<Position>) -> (bool, EntityID) {
        match self.item_list_state {
            Some(sid) => if self.input_state == InputState::Inventory {
                pick(self.menu_items(self.selected_menu), sid)
            } else if self.input_state == InputState::RangedAttack {
                pick(self.attackable_from(self.local_player_id, fov), sid)
            } else {
                (false, 0)
            },
            None => (false, 0),
        }
    }

    /// The entity that the selected row stands for, as `(true, id)`, or
    /// `(false, 0)` where no row is selected or the row is past the list.
    /// `fov` is the player's field of view.
    pub fn manage_item_vec_input(&self, fov: &Vec<Position>) -> (r: (bool, EntityID))
        requires
            self.stands_on_map(self.local_player_id),
            self.input_state == InputState::RangedAttack && self.item_list_state is Some
                ==> self.placed_in_range(self.local_player_id),
        ensures
            r == self.selection(fov@),
            self.item_list_state is None ==> r == (false, 0i64),
            (match self.item_list_state {
                Some(sid) => {
                    &&& self.input_state == InputState::RangedAttack
                        && sid < self.attackable_from(self.local_player_id, fov@).len()
                        ==> r == (true, self.attackable_from(self.local_player_id, fov@)[sid as int])
                    &&& self.input_state == InputState::Inventory && sid < self.menu_items(self.selected_menu).len()
                        ==> r == (true, self.menu_items(self.selected_menu)[sid as int])
                },
                None => true,
            }),
    {
        let ground_vec = self.ground_item_vec_at_ent(&self.local_player_id);
        let equi_vec = self.equipped_item_vec_of_ent(&self.local_player_id);
        let inv_vec = self.inventory_item_vec_of_ent(&self.local_player_id);

        if let Some(sid) = self.item_list_state {
            if self.input_state == InputState::Inventory {
                let list = match self.selected_menu {
                    ItemVecType::Equipped => &equi_vec,
                    ItemVecType::Inventory => &inv_vec,
                    ItemVecType::Ground => &ground_vec,
                };
                if sid < list.len() {
                    return (true, list[sid]);
                }
            } else if self.input_state == InputState::RangedAttack {
                let vecik = self.ranged_attackable_ents(&self.local_player_id, fov);
                if sid < vecik.len() {
                    return (true, vecik[sid]);
                }
            }
        }
        (false, 0)
    }

    /// The fields that `reload_ui` leaves alone are the same in the two
    /// states.
    pub open spec fn same_but_ui(self, other: App) -> bool {
        &&& self.entity_counter == other.entity_counter
        &&& self.components == other.components
        &&& self.input_state == other.input_state
        &&& self.action_results == other.action_results
        &&& self.action_result_strings == other.action_result_strings
        &&& self.selected_menu == other.selected_menu
        &&& self.exit == other.exit
        &&& self.game_map.voxels == other.game_map.voxels
        &&& self.action_vec == other.action_vec
        &&& self.local_player_id == other.local_player_id
        &&& self.seen_tiles == other.seen_tiles
        &&& self.small_rng == other.small_rng
        &&& self.draws == other.draws
    }

    /// The length of the list that the selection moves in.
    pub open spec fn list_len(&self, fov: Seq<Position>) -> nat {
        match self.input_state {
            InputState::Inventory => self.menu_items(self.selected_menu).len(),
            InputState::RangedAttack => self.attackable_from(self.local_player_id, fov).len(),
            InputState::Basic => 0,
        }
    }

    /// Copies the entity types to the map for drawing, and moves the
    /// selection back onto the list where the list has shrunk.
    pub fn reload_ui(&mut self, fov: &Vec<Position>)
        requires
            old(self).input_state == InputState::Inventory && old(self).selected_menu == ItemVecType::Ground
                ==> old(self).stands_on_map(old(self).local_player_id),
            old(self).input_state == InputState::RangedAttack ==> old(self).placed_in_range(old(self).local_player_id),
        ensures
            final(self).game_map.ent_types_copy@ == old(self).components.ent_types@,
            final(self).item_list_state == (if old(self).input_state == InputState::Basic {
                old(self).item_list_state
            } else {
                clamped(old(self).item_list_state, old(self).list_len(fov@))
            }),
            final(self).same_but_ui(*old(self)),
    {
        self.game_map.ent_types_copy = self.components.ent_types.clone();
        assert(self.game_map.tiles() =~= old(self).game_map.tiles());
        assert(self.attackable_from(self.local_player_id, fov@) == old(self).attackable_from(self.local_player_id, fov@));
        assert(self.menu_items(self.selected_menu) == old(self).menu_items(self.selected_menu));
        let len = match self.input_state {
            InputState::Inventory => {
                match self.selected_menu {
                    ItemVecType::Equipped => self.equipped_item_vec_of_ent(&self.local_player_id).len(),
                    ItemVecType::Inventory => self.inventory_item_vec_of_ent(&self.local_player_id).len(),
                    ItemVecType::Ground => self.ground_item_vec_at_ent(&self.local_player_id).len(),
                }
            },
            InputState::RangedAttack => self.ranged_attackable_ents(&self.local_player_id, fov).len(),
            InputState::Basic => 0,
        };
        assert(len == old(self).list_len(fov@));
        if self.input_state != InputState::Basic {
            if let Some(sel) = self.item_list_state {
                if sel >= len && len > 0 {
                    self.item_list_state = Some(len - 1);
                }
            }
        }
    }
}

} // verus!
