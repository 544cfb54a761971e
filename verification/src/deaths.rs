//! Deaths: reporting them, and what a dead creature leaves behind.
use vstd::prelude::*;
use crate::app::{keys_of, App};
use crate::world::{ActionResult, Ammo, EntityID, EntityType, Equipment, GameAction, Health, ItemType, Position, SuccessType, without};

verus! {

broadcast use vstd::std_specs::hash::group_hash_axioms;

/// The parts of the game that deaths and new items change: the component
/// tables, the entities on each tile, and the next free entity id.
pub struct World {
    pub positions: Map<EntityID, Position>,
    pub healths: Map<EntityID, Health>,
    pub equipments: Map<EntityID, Equipment>,
    pub ent_types: Map<EntityID, EntityType>,
    pub tiles: Map<Position, Seq<EntityID>>,
    pub counter: int,
}

/// A new item entity at `pos`, with the next free id.
pub open spec fn spawned(w: World, pos: Position, item: ItemType) -> World {
    let id = w.counter as EntityID;
    World {
        positions: w.positions.insert(id, pos),
        ent_types: w.ent_types.insert(id, EntityType::Item(item)),
        tiles: if w.tiles.contains_key(pos) {
            w.tiles.insert(pos, w.tiles[pos].push(id))
        } else {
            w.tiles
        },
        counter: w.counter + 1,
        ..w
    }
}

/// The ammunition of a dead creature, dropped as new items at `pos`:
/// arrows, darts, javelins and bullets, each stack only where it is not empty.
pub open spec fn ammo_dropped(w: World, pos: Position, eq: Equipment) -> World {
    let w1 = if eq.arrows > 0 { spawned(w, pos, ItemType::Ammo(Ammo::Strela(eq.arrows))) } else { w };
    let w2 = if eq.darts > 0 { spawned(w1, pos, ItemType::Ammo(Ammo::Drotik(eq.darts))) } else { w1 };
    let w3 = if eq.javelins > 0 { spawned(w2, pos, ItemType::Ammo(Ammo::Oscep(eq.javelins))) } else { w2 };
    if eq.bullets > 0 { spawned(w3, pos, ItemType::Ammo(Ammo::Kulja(eq.bullets))) } else { w3 }
}

/// The world after `e` dies: it loses its position and its health; where it
/// stood on a tile, it leaves the tile, and its equipment, if it had any, is
/// left on the tile: what it wore, then what it carried, then its
/// ammunition as new items.
pub open spec fn buried(w: World, e: EntityID) -> World {
    let w0 = if !w.positions.contains_key(e) {
        w
    } else {
        let pos = w.positions[e];
        let w1 = World { positions: w.positions.remove(e), ..w };
        if !w.tiles.contains_key(pos) {
            w1
        } else {
            let tile = without(w.tiles[pos], e);
            if !w.equipments.contains_key(e) {
                World { tiles: w1.tiles.insert(pos, tile), ..w1 }
            } else {
                let eq = w.equipments[e];
                let w2 = World {
                    tiles: w1.tiles.insert(pos, tile + eq.equipped@ + eq.inventory@),
                    equipments: w1.equipments.remove(e),
                    ..w1
                };
                ammo_dropped(w2, pos, eq)
            }
        }
    };
    World { healths: w0.healths.remove(e), ..w0 }
}

/// The world after the entities of `order` die, in that order.
pub open spec fn buried_all(w: World, order: Seq<EntityID>) -> World
    decreases order.len(),
{
    if order.len() == 0 {
        w
    } else {
        buried(buried_all(w, order.drop_last()), order.last())
    }
}

/// The reports of the deaths of the entities of `order`, in that order.
pub open spec fn death_reports(order: Seq<EntityID>) -> Seq<ActionResult>
    decreases order.len(),
{
    if order.len() == 0 {
        Seq::empty()
    } else {
        death_reports(order.drop_last()).push(
            ActionResult::Success(GameAction::Death(order.last()), SuccessType::Normal),
        )
    }
}

/// The entities whose health has run out.
pub open spec fn dead_ids(healths: Map<EntityID, Health>) -> Set<EntityID> {
    Set::new(|e: EntityID| healths.contains_key(e) && healths[e].current_health <= 0)
}

/// A death removes exactly the dead entity's health; nothing else touches
/// the health table.
pub proof fn lemma_buried_healths(w: World, e: EntityID)
    ensures
        buried(w, e).healths == w.healths.remove(e),
{
}

/// After a sequence of deaths, the health table holds exactly the entities
/// that had a health and are not among the dead, with their old health.
pub proof fn lemma_buried_all_healths(w: World, order: Seq<EntityID>)
    ensures
        forall|k: EntityID| #[trigger] buried_all(w, order).healths.contains_key(k)
            <==> (w.healths.contains_key(k) && !order.contains(k)),
        forall|k: EntityID| #[trigger] buried_all(w, order).healths.contains_key(k)
            ==> buried_all(w, order).healths[k] == w.healths[k],
    decreases order.len(),
{
    if order.len() > 0 {
        let init = order.drop_last();
        lemma_buried_all_healths(w, init);
        lemma_buried_healths(buried_all(w, init), order.last());
        assert forall|k: EntityID| #[trigger] order.contains(k) <==> (init.contains(k) || k == order.last()) by {
            if order.contains(k) {
                let j = choose|j: int| 0 <= j < order.len() && order[j] == k;
                if j < order.len() - 1 {
                    assert(init[j] == k);
                }
            }
            if init.contains(k) {
                let j = choose|j: int| 0 <= j < init.len() && init[j] == k;
                assert(order[j] == k);
            }
            if k == order.last() {
                assert(order[order.len() - 1] == k);
            }
        }
    }
}

/// Once the dead are buried, every entity left in the health table is
/// alive, and every living entity keeps its health.
pub proof fn lemma_deaths_leave_the_living(w: World, order: Seq<EntityID>)
    requires
        order.to_set() == dead_ids(w.healths),
    ensures
        forall|k: EntityID| #[trigger] buried_all(w, order).healths.contains_key(k)
            ==> buried_all(w, order).healths[k].current_health > 0,
        forall|k: EntityID| w.healths.contains_key(k) && w.healths[k].current_health > 0
            ==> #[trigger] buried_all(w, order).healths.contains_key(k) && buried_all(w, order).healths[k] == w.healths[k],
{
    lemma_buried_all_healths(w, order);
    assert forall|k: EntityID| #[trigger] order.contains(k) <==> dead_ids(w.healths).contains(k) by {
        assert(order.to_set().contains(k) <==> order.contains(k));
    }
}

/// Every id in use is below the next free id, which is a valid id.
pub open spec fn ids_below_counter(w: World) -> bool {
    &&& i64::MIN <= w.counter
    &&& forall|e: EntityID| #[trigger] w.positions.contains_key(e) ==> e < w.counter
    &&& forall|e: EntityID| #[trigger] w.ent_types.contains_key(e) ==> e < w.counter
    &&& forall|e: EntityID| #[trigger] w.healths.contains_key(e) ==> e < w.counter
    &&& forall|e: EntityID| #[trigger] w.equipments.contains_key(e) ==> e < w.counter
}

/// Every entity of `w` keeps its position, type and equipment in `v`.
pub open spec fn keeps_entities(w: World, v: World) -> bool {
    &&& forall|e: EntityID| #[trigger] w.positions.contains_key(e) ==> v.positions.contains_key(e) && v.positions[e] == w.positions[e]
    &&& forall|e: EntityID| #[trigger] w.ent_types.contains_key(e) ==> v.ent_types.contains_key(e) && v.ent_types[e] == w.ent_types[e]
    &&& v.equipments == w.equipments
    &&& v.healths == w.healths
    &&& v.counter >= w.counter
}

/// With every id below the counter, a new item takes an id that nothing
/// uses, overwrites nothing, and keeps every id below the counter.
pub proof fn lemma_spawned_fresh(w: World, pos: Position, item: ItemType)
    requires
        ids_below_counter(w),
        w.counter < i64::MAX,
    ensures
        !w.positions.contains_key(w.counter as EntityID),
        !w.ent_types.contains_key(w.counter as EntityID),
        ids_below_counter(spawned(w, pos, item)),
        keeps_entities(w, spawned(w, pos, item)),
{
}

proof fn lemma_ammo_dropped_fresh(w: World, pos: Position, eq: Equipment)
    requires
        ids_below_counter(w),
        w.counter <= i64::MAX - 4,
    ensures
        ids_below_counter(ammo_dropped(w, pos, eq)),
        keeps_entities(w, ammo_dropped(w, pos, eq)),
        ammo_dropped(w, pos, eq).counter <= w.counter + 4,
{
    let w1 = if eq.arrows > 0 { spawned(w, pos, ItemType::Ammo(Ammo::Strela(eq.arrows))) } else { w };
    let w2 = if eq.darts > 0 { spawned(w1, pos, ItemType::Ammo(Ammo::Drotik(eq.darts))) } else { w1 };
    let w3 = if eq.javelins > 0 { spawned(w2, pos, ItemType::Ammo(Ammo::Oscep(eq.javelins))) } else { w2 };
    if eq.arrows > 0 { lemma_spawned_fresh(w, pos, ItemType::Ammo(Ammo::Strela(eq.arrows))); }
    if eq.darts > 0 { lemma_spawned_fresh(w1, pos, ItemType::Ammo(Ammo::Drotik(eq.darts))); }
    if eq.javelins > 0 { lemma_spawned_fresh(w2, pos, ItemType::Ammo(Ammo::Oscep(eq.javelins))); }
    if eq.bullets > 0 { lemma_spawned_fresh(w3, pos, ItemType::Ammo(Ammo::Kulja(eq.bullets))); }
}

proof fn lemma_buried_keeps_others(w: World, e: EntityID)
    requires
        ids_below_counter(w),
        w.counter <= i64::MAX - 4,
    ensures
        ids_below_counter(buried(w, e)),
        buried(w, e).counter <= w.counter + 4,
        buried(w, e).counter >= w.counter,
        forall|x: EntityID| x != e && #[trigger] w.positions.contains_key(x)
            ==> buried(w, e).positions.contains_key(x) && buried(w, e).positions[x] == w.positions[x],
{
    if w.positions.contains_key(e) {
        let pos = w.positions[e];
        if w.tiles.contains_key(pos) && w.equipments.contains_key(e) {
            let eq = w.equipments[e];
            let w1 = World { positions: w.positions.remove(e), ..w };
            let tile = without(w.tiles[pos], e);
            let w2 = World {
                tiles: w1.tiles.insert(pos, tile + eq.equipped@ + eq.inventory@),
                equipments: w1.equipments.remove(e),
                ..w1
            };
            lemma_ammo_dropped_fresh(w2, pos, eq);
        }
    }
}

/// With every id below the counter, the entities that do not die keep
/// their positions through a sequence of deaths.
pub proof fn lemma_deaths_keep_survivors_in_place(w: World, order: Seq<EntityID>)
    requires
        ids_below_counter(w),
        w.counter + 4 * order.len() <= i64::MAX,
    ensures
        ids_below_counter(buried_all(w, order)),
        w.counter <= buried_all(w, order).counter <= w.counter + 4 * order.len(),
        forall|x: EntityID| !order.contains(x) && #[trigger] w.positions.contains_key(x)
            ==> buried_all(w, order).positions.contains_key(x) && buried_all(w, order).positions[x] == w.positions[x],
    decreases order.len(),
{
    if order.len() > 0 {
        let init = order.drop_last();
        lemma_deaths_keep_survivors_in_place(w, init);
        lemma_buried_keeps_others(buried_all(w, init), order.last());
        assert forall|x: EntityID| !order.contains(x) && #[trigger] w.positions.contains_key(x)
            implies buried_all(w, order).positions.contains_key(x) && buried_all(w, order).positions[x] == w.positions[x] by {
            assert(!init.contains(x)) by {
                if init.contains(x) {
                    let j = choose|j: int| 0 <= j < init.len() && init[j] == x;
                    assert(order[j] == x);
                }
            }
            assert(x != order.last()) by {
                assert(order[order.len() - 1] == order.last());
            }
        }
    }
}

/// Whether `v` holds an item with an id from `from` on that is the stack of
/// ammunition `a` standing at `pos`, and lying on the tile there where `v`
/// has one.
pub open spec fn has_new_stack(v: World, from: int, pos: Position, a: Ammo) -> bool {
    exists|id: EntityID|
        from <= id < v.counter && #[trigger] v.ent_types.contains_key(id)
            && v.ent_types[id] == EntityType::Item(ItemType::Ammo(a)) && v.positions.contains_key(id)
            && v.positions[id] == pos && (v.tiles.contains_key(pos) ==> v.tiles[pos].contains(id))
}

proof fn lemma_spawn_makes_stack(v: World, from: int, pos: Position, a: Ammo)
    requires
        from <= v.counter,
        i64::MIN <= v.counter < i64::MAX,
    ensures
        has_new_stack(spawned(v, pos, ItemType::Ammo(a)), from, pos, a),
{
    let u = spawned(v, pos, ItemType::Ammo(a));
    let id = v.counter as EntityID;
    assert(id == v.counter);
    if u.tiles.contains_key(pos) {
        let t = u.tiles[pos];
        assert(t[t.len() - 1] == id);
    }
    assert(u.ent_types.contains_key(id));
}

proof fn lemma_stack_survives_spawn(v: World, from: int, pos: Position, a: Ammo, p2: Position, item: ItemType)
    requires
        has_new_stack(v, from, pos, a),
        i64::MIN <= v.counter < i64::MAX,
    ensures
        has_new_stack(spawned(v, p2, item), from, pos, a),
{
    let u = spawned(v, p2, item);
    let id = choose|id: EntityID|
        from <= id < v.counter && #[trigger] v.ent_types.contains_key(id)
            && v.ent_types[id] == EntityType::Item(ItemType::Ammo(a)) && v.positions.contains_key(id)
            && v.positions[id] == pos && (v.tiles.contains_key(pos) ==> v.tiles[pos].contains(id));
    assert(id != v.counter as EntityID);
    if u.tiles.contains_key(pos) {
        let j = choose|j: int| 0 <= j < v.tiles[pos].len() && v.tiles[pos][j] == id;
        assert(u.tiles[pos][j] == id);
    }
    assert(u.ent_types.contains_key(id));
}

/// A dead creature's ammunition is dropped kind for kind: for each kind it
/// held a positive amount of, a new stack of that same kind and count
/// stands at `pos` and lies on the tile there.
pub proof fn lemma_ammo_dropped_stacks(w: World, pos: Position, eq: Equipment)
    requires
        i64::MIN <= w.counter,
        w.counter + 4 <= i64::MAX,
    ensures
        eq.arrows > 0 ==> has_new_stack(ammo_dropped(w, pos, eq), w.counter, pos, Ammo::Strela(eq.arrows)),
        eq.darts > 0 ==> has_new_stack(ammo_dropped(w, pos, eq), w.counter, pos, Ammo::Drotik(eq.darts)),
        eq.javelins > 0 ==> has_new_stack(ammo_dropped(w, pos, eq), w.counter, pos, Ammo::Oscep(eq.javelins)),
        eq.bullets > 0 ==> has_new_stack(ammo_dropped(w, pos, eq), w.counter, pos, Ammo::Kulja(eq.bullets)),
{
    let ia = ItemType::Ammo(Ammo::Strela(eq.arrows));
    let id_ = ItemType::Ammo(Ammo::Drotik(eq.darts));
    let ij = ItemType::Ammo(Ammo::Oscep(eq.javelins));
    let ib = ItemType::Ammo(Ammo::Kulja(eq.bullets));
    let w1 = if eq.arrows > 0 { spawned(w, pos, ia) } else { w };
    let w2 = if eq.darts > 0 { spawned(w1, pos, id_) } else { w1 };
    let w3 = if eq.javelins > 0 { spawned(w2, pos, ij) } else { w2 };
    assert(w.counter <= w1.counter <= w.counter + 1);
    assert(w1.counter <= w2.counter <= w1.counter + 1);
    assert(w2.counter <= w3.counter <= w2.counter + 1);
    if eq.arrows > 0 {
        lemma_spawn_makes_stack(w, w.counter, pos, Ammo::Strela(eq.arrows));
        if eq.darts > 0 { lemma_stack_survives_spawn(w1, w.counter, pos, Ammo::Strela(eq.arrows), pos, id_); }
        if eq.javelins > 0 { lemma_stack_survives_spawn(w2, w.counter, pos, Ammo::Strela(eq.arrows), pos, ij); }
        if eq.bullets > 0 { lemma_stack_survives_spawn(w3, w.counter, pos, Ammo::Strela(eq.arrows), pos, ib); }
    }
    if eq.darts > 0 {
        lemma_spawn_makes_stack(w1, w.counter, pos, Ammo::Drotik(eq.darts));
        if eq.javelins > 0 { lemma_stack_survives_spawn(w2, w.counter, pos, Ammo::Drotik(eq.darts), pos, ij); }
        if eq.bullets > 0 { lemma_stack_survives_spawn(w3, w.counter, pos, Ammo::Drotik(eq.darts), pos, ib); }
    }
    if eq.javelins > 0 {
        lemma_spawn_makes_stack(w2, w.counter, pos, Ammo::Oscep(eq.javelins));
        if eq.bullets > 0 { lemma_stack_survives_spawn(w3, w.counter, pos, Ammo::Oscep(eq.javelins), pos, ib); }
    }
    if eq.bullets > 0 {
        lemma_spawn_makes_stack(w3, w.counter, pos, Ammo::Kulja(eq.bullets));
    }
}

/// When a creature that stands on a tile and has equipment dies, for each
/// kind of ammunition it held a positive amount of, a new stack of that
/// same kind and count stands where it stood and lies on that tile.
pub proof fn lemma_buried_leaves_ammo(w: World, e: EntityID)
    requires
        w.positions.contains_key(e),
        w.tiles.contains_key(w.positions[e]),
        w.equipments.contains_key(e),
        i64::MIN <= w.counter,
        w.counter + 4 <= i64::MAX,
    ensures
        ({
            let eq = w.equipments[e];
            let pos = w.positions[e];
            let v = buried(w, e);
            &&& v.tiles.contains_key(pos)
            &&& eq.arrows > 0 ==> has_new_stack(v, w.counter, pos, Ammo::Strela(eq.arrows))
            &&& eq.darts > 0 ==> has_new_stack(v, w.counter, pos, Ammo::Drotik(eq.darts))
            &&& eq.javelins > 0 ==> has_new_stack(v, w.counter, pos, Ammo::Oscep(eq.javelins))
            &&& eq.bullets > 0 ==> has_new_stack(v, w.counter, pos, Ammo::Kulja(eq.bullets))
        }),
{
    let pos = w.positions[e];
    let eq = w.equipments[e];
    let w1 = World { positions: w.positions.remove(e), ..w };
    let tile = without(w.tiles[pos], e);
    let w2 = World {
        tiles: w1.tiles.insert(pos, tile + eq.equipped@ + eq.inventory@),
        equipments: w1.equipments.remove(e),
        ..w1
    };
    lemma_ammo_dropped_stacks(w2, pos, eq);
    lemma_ammo_dropped_keeps_tiles(w2, pos, eq);
}

proof fn lemma_ammo_dropped_keeps_tiles(w: World, pos: Position, eq: Equipment)
    ensures
        ammo_dropped(w, pos, eq).tiles.dom() == w.tiles.dom(),
{
    let w1 = if eq.arrows > 0 { spawned(w, pos, ItemType::Ammo(Ammo::Strela(eq.arrows))) } else { w };
    let w2 = if eq.darts > 0 { spawned(w1, pos, ItemType::Ammo(Ammo::Drotik(eq.darts))) } else { w1 };
    let w3 = if eq.javelins > 0 { spawned(w2, pos, ItemType::Ammo(Ammo::Oscep(eq.javelins))) } else { w2 };
    assert(w1.tiles.dom() =~= w.tiles.dom());
    assert(w2.tiles.dom() =~= w1.tiles.dom());
    assert(w3.tiles.dom() =~= w2.tiles.dom());
    assert(ammo_dropped(w, pos, eq).tiles.dom() =~= w3.tiles.dom());
}

impl App {
    /// The parts of the game that deaths and new items change.
    pub open spec fn world(&self) -> World {
        World {
            positions: self.components.positions@,
            healths: self.components.healths@,
            equipments: self.components.equipments@,
            ent_types: self.components.ent_types@,
            tiles: self.game_map.tiles(),
            counter: self.entity_counter as int,
        }
    }

    /// Everything outside `world` is the same in the two states.
    pub open spec fn same_but_world(self, other: App) -> bool {
        &&& self.input_state == other.input_state
        &&& self.action_result_strings == other.action_result_strings
        &&& self.selected_menu == other.selected_menu
        &&& self.item_list_state == other.item_list_state
        &&& self.exit == other.exit
        &&& self.game_map.ent_types_copy == other.game_map.ent_types_copy
        &&& self.game_map.opacity() == other.game_map.opacity()
        &&& self.action_vec == other.action_vec
        &&& self.local_player_id == other.local_player_id
        &&& self.seen_tiles == other.seen_tiles
        &&& self.small_rng == other.small_rng
        &&& self.draws == other.draws
    }

    /// Creates an item entity at `pos` with the next free id and puts it on
    /// the tile there, if the map has one.
    pub fn spawn_item_at(&mut self, pos: &Position, item: ItemType)
        requires
            old(self).entity_counter < i64::MAX,
        ensures
            final(self).world() == spawned(old(self).world(), *pos, item),
            final(self).same_but_world(*old(self)),
            final(self).action_results == old(self).action_results,
            ids_below_counter(old(self).world()) ==> {
                &&& !old(self).components.positions@.contains_key(old(self).entity_counter)
                &&& !old(self).components.ent_types@.contains_key(old(self).entity_counter)
                &&& ids_below_counter(final(self).world())
                &&& keeps_entities(old(self).world(), final(self).world())
            },
    {
        let id = self.entity_counter;
        self.entity_counter = id + 1;
        self.components.ent_types.insert(id, EntityType::Item(item));
        self.components.positions.insert(id, *pos);
        self.game_map.push_to_voxel(pos, id);
        proof {
            assert(self.world().tiles =~= spawned(old(self).world(), *pos, item).tiles);
            if ids_below_counter(old(self).world()) {
                lemma_spawned_fresh(old(self).world(), *pos, item);
            }
        }
    }

    fn bury(&mut self, eid: EntityID)
        requires
            old(self).entity_counter <= i64::MAX - 4,
        ensures
            final(self).world() == buried(old(self).world(), eid),
            final(self).same_but_world(*old(self)),
            final(self).action_results == old(self).action_results,
            old(self).entity_counter <= final(self).entity_counter <= old(self).entity_counter + 4,
    {
        let ghost w = old(self).world();
        let removed = self.components.positions.remove(&eid);
        if let Some(e_pos) = removed {
            if self.game_map.get_voxel_at(&e_pos).is_some() {
                self.game_map.remove_from_voxel(&e_pos, eid);
                let ghost t = without(w.tiles[e_pos], eid);
                if let Some(equi) = self.components.equipments.remove(&eid) {
                    self.game_map.push_all_to_voxel(&e_pos, &equi.equipped);
                    self.game_map.push_all_to_voxel(&e_pos, &equi.inventory);
                    let ghost w2 = World {
                        tiles: w.tiles.insert(e_pos, t + equi.equipped@ + equi.inventory@),
                        equipments: w.equipments.remove(eid),
                        positions: w.positions.remove(eid),
                        ..w
                    };
                    proof {
                        assert(self.game_map.tiles() =~= w.tiles.insert(e_pos, t + equi.equipped@ + equi.inventory@));
                        assert(equi == w.equipments[eid]);
                        assert(self.world() == w2);
                    }
                    if equi.arrows > 0 {
                        self.spawn_item_at(&e_pos, ItemType::Ammo(Ammo::Strela(equi.arrows)));
                    }
                    if equi.darts > 0 {
                        self.spawn_item_at(&e_pos, ItemType::Ammo(Ammo::Drotik(equi.darts)));
                    }
                    if equi.javelins > 0 {
                        self.spawn_item_at(&e_pos, ItemType::Ammo(Ammo::Oscep(equi.javelins)));
                    }
                    if equi.bullets > 0 {
                        self.spawn_item_at(&e_pos, ItemType::Ammo(Ammo::Kulja(equi.bullets)));
                    }
                    assert(self.world() == ammo_dropped(w2, e_pos, equi));
                } else {
                    assert(self.game_map.tiles() =~= w.tiles.insert(e_pos, t));
                    assert(self.components.equipments@ =~= w.equipments);
                }
            } else {
                assert(self.game_map.tiles() =~= w.tiles);
            }
        } else {
            assert(self.components.positions@ =~= w.positions);
        }
        let ghost before = self.world();
        assert(World { healths: before.healths.remove(eid), ..before } == buried(w, eid));
        self.components.healths.remove(&eid);
        assert(self.world() == World { healths: before.healths.remove(eid), ..before });
    }

    /// Reports and buries every creature whose health has run out. The dead
    /// are taken in the order in which the health table yields them; each
    /// death is reported, in that order, and the world is that order's
    /// `buried_all`.
    pub fn handle_deaths(&mut self)
        requires
            old(self).entity_counter + 4 * old(self).components.healths@.len() <= i64::MAX,
        ensures
            exists|order: Seq<EntityID>|
                {
                    &&& order.no_duplicates()
                    &&& order.to_set() == dead_ids(old(self).components.healths@)
                    &&& final(self).world() == buried_all(old(self).world(), order)
                    &&& final(self).action_results@ == old(self).action_results@ + death_reports(order)
                },
            final(self).same_but_world(*old(self)),
    {
        let ids = keys_of(&self.components.healths);
        let mut healths_to_remove: Vec<EntityID> = Vec::new();
        let ghost h = self.components.healths@;
        let mut i: usize = 0;
        while i < ids.len()
            invariant
                i <= ids@.len(),
                ids@.no_duplicates(),
                ids@.to_set() == h.dom(),
                h == self.components.healths@,
                self.world() == old(self).world(),
                self.same_but_world(*old(self)),
                healths_to_remove@.no_duplicates(),
                healths_to_remove@.len() <= i,
                forall|e: EntityID| healths_to_remove@.contains(e) <==> (exists|j: int| 0 <= j < i && ids@[j] == e && h[e].current_health <= 0),
                self.action_results@ == old(self).action_results@ + death_reports(healths_to_remove@),
            decreases ids@.len() - i,
        {
            let eid = ids[i];
            proof {
                assert(ids@.to_set().contains(eid));
            }
            let health = self.components.healths.get(&eid).unwrap();
            if health.current_health <= 0 {
                proof {
                    assert(!healths_to_remove@.contains(eid)) by {
                        if healths_to_remove@.contains(eid) {
                            let j = choose|j: int| 0 <= j < i && ids@[j] == eid && h[eid].current_health <= 0;
                            assert(ids@[j] == ids@[i as int]);
                        }
                    }
                }
                let ghost before = healths_to_remove@;
                self.action_results.push(ActionResult::Success(GameAction::Death(eid), SuccessType::Normal));
                healths_to_remove.push(eid);
                proof {
                    assert(healths_to_remove@.drop_last() == before) by {
                        assert(healths_to_remove@.drop_last() =~= before);
                    }
                    assert forall|e: EntityID| healths_to_remove@.contains(e) <==> (exists|j: int| 0 <= j < i + 1 && ids@[j] == e && h[e].current_health <= 0) by {
                        if healths_to_remove@.contains(e) && e != eid {
                            assert(before.contains(e));
                        }
                        if exists|j: int| 0 <= j < i + 1 && ids@[j] == e && h[e].current_health <= 0 {
                            if e != eid {
                                let j = choose|j: int| 0 <= j < i + 1 && ids@[j] == e && h[e].current_health <= 0;
                                assert(j != i);
                                assert(before.contains(e));
                                assert(healths_to_remove@[before.index_of(e)] == e);
                            } else {
                                assert(healths_to_remove@[healths_to_remove@.len() - 1] == e);
                            }
                        }
                    }
                    assert(self.action_results@ == old(self).action_results@ + death_reports(healths_to_remove@)) by {
                        assert(death_reports(healths_to_remove@).drop_last() == death_reports(before));
                    }
                }
            }
            i = i + 1;
        }
        let ghost order = healths_to_remove@;
        proof {
            assert(order.to_set() =~= dead_ids(h)) by {
                assert forall|e: EntityID| order.to_set().contains(e) <==> dead_ids(h).contains(e) by {
                    if dead_ids(h).contains(e) {
                        assert(ids@.to_set().contains(e));
                        let j = choose|j: int| 0 <= j < ids@.len() && ids@[j] == e;
                    }
                }
            }
        }
        let ghost results = self.action_results@;
        let mut k: usize = 0;
        while k < healths_to_remove.len()
            invariant
                k <= order.len(),
                order == healths_to_remove@,
                order.len() <= h.len(),
                self.action_results@ == results,
                self.world() == buried_all(old(self).world(), order.take(k as int)),
                old(self).entity_counter <= self.entity_counter <= old(self).entity_counter + 4 * k,
                old(self).entity_counter + 4 * h.len() <= i64::MAX,
                self.same_but_world(*old(self)),
            decreases order.len() - k,
        {
            let eid = healths_to_remove[k];
            self.bury(eid);
            proof {
                assert(order.take(k + 1).drop_last() =~= order.take(k as int));
            }
            k = k + 1;
        }
        proof {
            assert(order.take(order.len() as int) =~= order);
        }
    }
}

} // verus!
