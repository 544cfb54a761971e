//! The entities of the game world, their components, and the tile map they
//! stand on.
use vstd::prelude::*;
use std::collections::HashMap;
use crate::outside::{bresenham_points, bresenham_line, line_length};

verus! {

broadcast use vstd::std_specs::hash::group_hash_axioms;

/// Identifies an entity: a creature or an item.
pub type EntityID = i64;

/// One coordinate of a tile.
pub type CoordinateUnit = i32;

/// A tile, as `(x, y)`.
pub type Position = (CoordinateUnit, CoordinateUnit);

/// Ammunition, with the number of pieces in the stack.
#[derive(Debug, PartialEq, Eq, Clone, Copy, Structural)]
pub enum Ammo {
    Kulja(i32),
    Strela(i32),
    Oscep(i32),
    Drotik(i32),
}

/// What an item is; weapons, clothing and consumables carry their kind.
#[derive(Debug, PartialEq, Eq, Clone, Copy, Structural)]
pub enum ItemType {
    Weapon(u32),
    Clothing(u32),
    Ammo(Ammo),
    Consumable(u32),
}

/// What an entity is; humans carry their profession, animals their species.
#[derive(Debug, PartialEq, Eq, Clone, Copy, Structural)]
pub enum EntityType {
    Human(u32),
    Animal(u32),
    Item(ItemType),
}

impl EntityType {
    /// Creatures can be attacked; items cannot.
    pub open spec fn spec_is_attackable(&self) -> bool {
        !(self is Item)
    }

    /// Whether a creature can be attacked.
    pub fn is_attackable(&self) -> (b: bool)
        ensures
            b == self.spec_is_attackable(),
    {
        !matches!(self, EntityType::Item(_))
    }
}

#[derive(Debug, PartialEq, Eq, Clone, Copy, Structural)]
pub enum CardinalDirection {
    North,
    South,
    East,
    West,
    NorthEast,
    NorthWest,
    SouthEast,
    SouthWest,
}

/// Something an entity does in a turn.
#[derive(Debug, PartialEq, Eq, Clone, Copy, Structural)]
pub enum GameAction {
    Go(EntityID, CardinalDirection),
    Drop(EntityID, EntityID),
    PickUp(EntityID, EntityID),
    Equip(EntityID, EntityID),
    UnEquip(EntityID, EntityID),
    RangedAttack(EntityID, EntityID),
    Wait(EntityID),
    BumpAttack(EntityID, EntityID),
    Death(EntityID),
    Consume(EntityID, u32),
}

#[derive(Debug, PartialEq, Eq, Clone, Copy, Structural)]
pub enum SuccessType {
    Normal,
}

/// The outcome of an action, as reported to the player.
#[derive(Debug, PartialEq, Eq, Clone, Copy, Structural)]
pub enum ActionResult {
    Success(GameAction, SuccessType),
}

/// What the keys currently do.
#[derive(Debug, PartialEq, Eq, Clone, Copy, Structural)]
pub enum InputState {
    Basic,
    Inventory,
    RangedAttack,
}

/// Which item list the inventory screen shows.
#[derive(Debug, PartialEq, Eq, Clone, Copy, Structural)]
pub enum ItemVecType {
    Equipped,
    Inventory,
    Ground,
}

#[derive(Debug, PartialEq, Eq, Clone, Copy, Structural)]
pub struct Health {
    pub current_health: i64,
}

/// What a creature wears and carries, and its ammunition.
pub struct Equipment {
    pub equipped: Vec<EntityID>,
    pub inventory: Vec<EntityID>,
    pub arrows: i32,
    pub darts: i32,
    pub javelins: i32,
    pub bullets: i32,
}

/// The component tables, each keyed by entity.
pub struct ComponentHolder {
    pub positions: HashMap<EntityID, Position>,
    pub healths: HashMap<EntityID, Health>,
    pub equipments: HashMap<EntityID, Equipment>,
    pub ent_types: HashMap<EntityID, EntityType>,
}

impl ComponentHolder {
    /// Empty tables.
    pub fn new() -> (c: ComponentHolder)
        ensures
            c.positions@ == Map::<EntityID, Position>::empty(),
            c.healths@ == Map::<EntityID, Health>::empty(),
            c.equipments@ == Map::<EntityID, Equipment>::empty(),
            c.ent_types@ == Map::<EntityID, EntityType>::empty(),
    {
        ComponentHolder {
            positions: HashMap::new(),
            healths: HashMap::new(),
            equipments: HashMap::new(),
            ent_types: HashMap::new(),
        }
    }
}

/// One tile: the entities that stand on it, and whether it blocks sight.
pub struct Voxel {
    pub entity_set: Vec<EntityID>,
    pub opaque: bool,
}

/// The tiles, as columns indexed by `x` and then `y`, and the copy of the
/// entity types that the map is drawn with.
pub struct GameMap {
    pub voxels: Vec<Vec<Voxel>>,
    pub ent_types_copy: HashMap<EntityID, EntityType>,
}

/// The sequence with every occurrence of `e` taken out, order kept.
pub open spec fn without(s: Seq<EntityID>, e: EntityID) -> Seq<EntityID>
    decreases s.len(),
{
    if s.len() == 0 {
        s
    } else if s.last() == e {
        without(s.drop_last(), e)
    } else {
        without(s.drop_last(), e).push(s.last())
    }
}

/// Taking `e` out leaves no `e`, keeps every other element, and keeps no
/// element that was not there; taking it out again changes nothing.
pub proof fn lemma_without(s: Seq<EntityID>, e: EntityID)
    ensures
        !without(s, e).contains(e),
        forall|x: EntityID| x != e ==> (#[trigger] without(s, e).contains(x) <==> s.contains(x)),
        without(without(s, e), e) == without(s, e),
        without(s, e).len() <= s.len(),
    decreases s.len(),
{
    if s.len() > 0 {
        let init = s.drop_last();
        lemma_without(init, e);
        assert forall|x: EntityID| x != e implies (#[trigger] without(s, e).contains(x) <==> s.contains(x)) by {
            if s.contains(x) {
                let j = choose|j: int| 0 <= j < s.len() && s[j] == x;
                if j < s.len() - 1 {
                    assert(init[j] == x);
                    assert(init.contains(x));
                    assert(without(init, e).contains(x));
                    let k = choose|k: int| 0 <= k < without(init, e).len() && without(init, e)[k] == x;
                    if s.last() != e {
                        assert(without(init, e).push(s.last())[k] == x);
                    }
                } else {
                    assert(s.last() == x);
                    assert(without(init, e).push(s.last())[without(init, e).len() as int] == x);
                }
            }
            if without(s, e).contains(x) {
                if s.last() != e {
                    let w = without(init, e).push(s.last());
                    let j = choose|j: int| 0 <= j < w.len() && w[j] == x;
                    if j < w.len() - 1 {
                        assert(without(init, e)[j] == x);
                        assert(without(init, e).contains(x));
                        let k = choose|k: int| 0 <= k < init.len() && init[k] == x;
                        assert(s[k] == x);
                    } else {
                        assert(s[s.len() - 1] == x);
                    }
                } else {
                    let k = choose|k: int| 0 <= k < init.len() && init[k] == x;
                    assert(s[k] == x);
                }
            }
        }
        if s.last() != e {
            let w = without(init, e).push(s.last());
            assert(w.drop_last() =~= without(init, e));
            assert(!without(s, e).contains(e)) by {
                if w.contains(e) {
                    let j = choose|j: int| 0 <= j < w.len() && w[j] == e;
                    if j < w.len() - 1 {
                        assert(without(init, e)[j] == e);
                    }
                }
            }
        }
    }
}

/// Takes every occurrence of `ent_to_remove` out of `ent_vec`, keeping the
/// order of the rest.
pub fn remove_ent_from_vec(ent_vec: &mut Vec<EntityID>, ent_to_remove: &EntityID)
    ensures
        final(ent_vec)@ == without(old(ent_vec)@, *ent_to_remove),
{
    let ghost orig = ent_vec@;
    let mut kept: Vec<EntityID> = Vec::new();
    let mut i: usize = 0;
    while i < ent_vec.len()
        invariant
            ent_vec@ == orig,
            i <= orig.len(),
            kept@ == without(orig.take(i as int), *ent_to_remove),
        decreases orig.len() - i,
    {
        let x = ent_vec[i];
        proof {
            assert(orig.take(i + 1).drop_last() =~= orig.take(i as int));
        }
        if x != *ent_to_remove {
            kept.push(x);
        }
        i = i + 1;
    }
    proof {
        assert(orig.take(orig.len() as int) =~= orig);
    }
    *ent_vec = kept;
}

/// The ids of the entities that stand on the tiles `fov`, tile by tile.
pub open spec fn ents_on_tiles(tiles: Map<Position, Seq<EntityID>>, fov: Seq<Position>) -> Seq<EntityID>
    decreases fov.len(),
{
    if fov.len() == 0 {
        Seq::empty()
    } else {
        ents_on_tiles(tiles, fov.drop_last()) + (if tiles.contains_key(fov.last()) {
            tiles[fov.last()]
        } else {
            Seq::empty()
        })
    }
}

/// An entity whose recorded type is a creature blocks a line of fire.
pub open spec fn blocks(types: Map<EntityID, EntityType>, e: EntityID) -> bool {
    types.contains_key(e) && types[e].spec_is_attackable()
}

/// No entity on the tile blocks a line of fire.
pub open spec fn tile_is_clear(tiles: Map<Position, Seq<EntityID>>, types: Map<EntityID, EntityType>, p: Position) -> bool {
    tiles.contains_key(p) ==> forall|k: int| 0 <= k < tiles[p].len() ==> !blocks(types, #[trigger] tiles[p][k])
}

/// Every tile strictly between the two ends of the line is clear.
pub open spec fn line_is_clear(
    tiles: Map<Position, Seq<EntityID>>,
    types: Map<EntityID, EntityType>,
    line: Seq<Position>,
) -> bool {
    forall|i: int| 0 < i < line.len() - 1 ==> tile_is_clear(tiles, types, #[trigger] line[i])
}

/// A coordinate small enough for line drawing.
pub open spec fn coord_in_range(c: CoordinateUnit) -> bool {
    -0x2000_0000 <= c <= 0x2000_0000
}

pub open spec fn pos_in_range(p: Position) -> bool {
    coord_in_range(p.0) && coord_in_range(p.1)
}

impl GameMap {
    /// A map of `width` by `height` empty, transparent tiles.
    pub fn new(width: usize, height: usize) -> (m: GameMap)
        ensures
            m.voxels@.len() == width,
            forall|x: int| 0 <= x < width ==> (#[trigger] m.voxels@[x])@.len() == height,
            forall|p: Position| m.has_voxel(p) ==> (#[trigger] m.voxel(p)).entity_set@.len() == 0 && !m.voxel(p).opaque,
            m.ent_types_copy@ == Map::<EntityID, EntityType>::empty(),
    {
        let mut voxels: Vec<Vec<Voxel>> = Vec::new();
        let mut x: usize = 0;
        while x < width
            invariant
                x <= width,
                voxels@.len() == x,
                forall|i: int| 0 <= i < x ==> (#[trigger] voxels@[i])@.len() == height,
                forall|i: int, j: int| 0 <= i < x && 0 <= j < height ==> (#[trigger] voxels@[i]@[j]).entity_set@.len() == 0 && !voxels@[i]@[j].opaque,
            decreases width - x,
        {
            let mut column: Vec<Voxel> = Vec::new();
            let mut y: usize = 0;
            while y < height
                invariant
                    y <= height,
                    column@.len() == y,
                    forall|j: int| 0 <= j < y ==> (#[trigger] column@[j]).entity_set@.len() == 0 && !column@[j].opaque,
                decreases height - y,
            {
                column.push(Voxel { entity_set: Vec::new(), opaque: false });
                y = y + 1;
            }
            voxels.push(column);
            x = x + 1;
        }
        GameMap { voxels, ent_types_copy: HashMap::new() }
    }

    /// Whether the map has a tile at `p`.
    pub open spec fn has_voxel(&self, p: Position) -> bool {
        0 <= p.0 < self.voxels@.len() && 0 <= p.1 < self.voxels@[p.0 as int]@.len()
    }

    /// The tile at `p`.
    pub open spec fn voxel(&self, p: Position) -> Voxel {
        self.voxels@[p.0 as int]@[p.1 as int]
    }

    /// The entities on each tile of the map.
    pub open spec fn tiles(&self) -> Map<Position, Seq<EntityID>> {
        Map::new(|p: Position| self.has_voxel(p), |p: Position| self.voxel(p).entity_set@)
    }

    /// Whether each tile of the map blocks sight.
    pub open spec fn opacity(&self) -> Map<Position, bool> {
        Map::new(|p: Position| self.has_voxel(p), |p: Position| self.voxel(p).opaque)
    }

    /// The tile at `pos`, if the map has one there.
    pub fn get_voxel_at(&self, pos: &Position) -> (v: Option<&Voxel>)
        ensures
            match v {
                Some(v) => self.has_voxel(*pos) && *v == self.voxel(*pos),
                None => !self.has_voxel(*pos),
            },
    {
        if pos.0 < 0 || pos.1 < 0 {
            return None;
        }
        let x = pos.0 as usize;
        let y = pos.1 as usize;
        if x < self.voxels.len() && y < self.voxels[x].len() {
            Some(&self.voxels[x][y])
        } else {
            None
        }
    }

    /// Puts `id` on the tile at `pos`, last; does nothing off the map.
    pub fn push_to_voxel(&mut self, pos: &Position, id: EntityID)
        ensures
            final(self).tiles() == (if old(self).has_voxel(*pos) {
                old(self).tiles().insert(*pos, old(self).tiles()[*pos].push(id))
            } else {
                old(self).tiles()
            }),
            final(self).opacity() == old(self).opacity(),
            final(self).ent_types_copy == old(self).ent_types_copy,
    {
        if pos.0 < 0 || pos.1 < 0 {
            return;
        }
        let x = pos.0 as usize;
        let y = pos.1 as usize;
        if x < self.voxels.len() && y < self.voxels[x].len() {
            self.voxels[x][y].entity_set.push(id);
            proof {
                assert(self.tiles() =~= old(self).tiles().insert(*pos, old(self).tiles()[*pos].push(id)));
                assert(self.opacity() =~= old(self).opacity());
            }
        }
    }

    /// Takes `id` off the tile at `pos`; does nothing off the map.
    pub fn remove_from_voxel(&mut self, pos: &Position, id: EntityID)
        ensures
            final(self).tiles() == (if old(self).has_voxel(*pos) {
                old(self).tiles().insert(*pos, without(old(self).tiles()[*pos], id))
            } else {
                old(self).tiles()
            }),
            final(self).opacity() == old(self).opacity(),
            final(self).ent_types_copy == old(self).ent_types_copy,
    {
        if pos.0 < 0 || pos.1 < 0 {
            return;
        }
        let x = pos.0 as usize;
        let y = pos.1 as usize;
        if x < self.voxels.len() && y < self.voxels[x].len() {
            remove_ent_from_vec(&mut self.voxels[x][y].entity_set, &id);
            proof {
                assert(self.tiles() =~= old(self).tiles().insert(*pos, without(old(self).tiles()[*pos], id)));
                assert(self.opacity() =~= old(self).opacity());
            }
        }
    }

    /// Puts `ids` on the tile at `pos`, last and in order; does nothing off
    /// the map.
    pub fn push_all_to_voxel(&mut self, pos: &Position, ids: &Vec<EntityID>)
        ensures
            final(self).tiles() == (if old(self).has_voxel(*pos) {
                old(self).tiles().insert(*pos, old(self).tiles()[*pos] + ids@)
            } else {
                old(self).tiles()
            }),
            final(self).opacity() == old(self).opacity(),
            final(self).ent_types_copy == old(self).ent_types_copy,
    {
        let mut i: usize = 0;
        while i < ids.len()
            invariant
                i <= ids@.len(),
                self.opacity() == old(self).opacity(),
                self.ent_types_copy == old(self).ent_types_copy,
                self.tiles() == (if old(self).has_voxel(*pos) {
                    old(self).tiles().insert(*pos, old(self).tiles()[*pos] + ids@.take(i as int))
                } else {
                    old(self).tiles()
                }),
            decreases ids@.len() - i,
        {
            self.push_to_voxel(pos, ids[i]);
            proof {
                assert(old(self).tiles()[*pos] + ids@.take(i + 1) =~= (old(self).tiles()[*pos] + ids@.take(i as int)).push(ids@[i as int]));
                if old(self).has_voxel(*pos) {
                    assert(self.tiles() =~= old(self).tiles().insert(*pos, old(self).tiles()[*pos] + ids@.take(i + 1)));
                }
            }
            i = i + 1;
        }
        proof {
            assert(ids@.take(ids@.len() as int) =~= ids@);
        }
    }

    /// The entities on the tiles `fov`, tile by tile; tiles off the map hold
    /// none.
    pub fn generate_visible_ents_from_point(&self, fov: &Vec<Position>) -> (ents: Vec<EntityID>)
        ensures
            ents@ == ents_on_tiles(self.tiles(), fov@),
    {
        let mut ents: Vec<EntityID> = Vec::new();
        let mut i: usize = 0;
        while i < fov.len()
            invariant
                i <= fov@.len(),
                ents@ == ents_on_tiles(self.tiles(), fov@.take(i as int)),
            decreases fov@.len() - i,
        {
            proof {
                assert(fov@.take(i + 1).drop_last() =~= fov@.take(i as int));
            }
            match self.get_voxel_at(&fov[i]) {
                Some(v) => {
                    let mut j: usize = 0;
                    let ghost before = ents@;
                    while j < v.entity_set.len()
                        invariant
                            j <= v.entity_set@.len(),
                            ents@ == before + v.entity_set@.take(j as int),
                        decreases v.entity_set@.len() - j,
                    {
                        ents.push(v.entity_set[j]);
                        proof {
                            assert(v.entity_set@.take(j + 1) =~= v.entity_set@.take(j as int).push(v.entity_set@[j as int]));
                        }
                        j = j + 1;
                    }
                    proof {
                        assert(v.entity_set@.take(v.entity_set@.len() as int) =~= v.entity_set@);
                    }
                },
                None => {
                    proof {
                        assert(ents@ =~= ents@ + Seq::<EntityID>::empty());
                    }
                },
            }
            i = i + 1;
        }
        proof {
            assert(fov@.take(fov@.len() as int) =~= fov@);
        }
        ents
    }

    fn voxel_is_clear(&self, p: &Position, types: &HashMap<EntityID, EntityType>) -> (b: bool)
        ensures
            b == tile_is_clear(self.tiles(), types@, *p),
    {
        match self.get_voxel_at(p) {
            None => true,
            Some(v) => {
                let mut k: usize = 0;
                while k < v.entity_set.len()
                    invariant
                        k <= v.entity_set@.len(),
                        self.has_voxel(*p),
                        v.entity_set@ == self.tiles()[*p],
                        forall|j: int| 0 <= j < k ==> !blocks(types@, #[trigger] v.entity_set@[j]),
                    decreases v.entity_set@.len() - k,
                {
                    let e = v.entity_set[k];
                    match types.get(&e) {
                        Some(t) => {
                            if t.is_attackable() {
                                assert(blocks(types@, v.entity_set@[k as int]));
                                return false;
                            }
                        },
                        None => {},
                    }
                    k = k + 1;
                }
                true
            },
        }
    }

    /// Whether no creature stands on the line from `start` to `end`, ends
    /// excluded.
    pub fn line_from_point_to_point_is_unblocked(
        &self,
        start: &Position,
        end: &Position,
        types: &HashMap<EntityID, EntityType>,
    ) -> (b: bool)
        requires
            pos_in_range(*start),
            pos_in_range(*end),
        ensures
            b == line_is_clear(self.tiles(), types@, bresenham_line(*start, *end)),
            bresenham_line(*start, *end).len() == line_length(*start, *end),
            line_length(*start, *end) <= 2 ==> b,
    {
        let line = bresenham_points(*start, *end);
        let mut i: usize = 1;
        while i < line.len() - 1
            invariant
                line@ == bresenham_line(*start, *end),
                line@.len() == line_length(*start, *end),
                1 <= i <= line@.len(),
                line@.len() >= 1,
                forall|j: int| 0 < j < i && j < line@.len() - 1 ==> tile_is_clear(self.tiles(), types@, #[trigger] line@[j]),
            decreases line@.len() - i,
        {
            if !self.voxel_is_clear(&line[i], types) {
                return false;
            }
            i = i + 1;
        }
        true
    }
}

} // verus!
