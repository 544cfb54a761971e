//! The ammunition laid out on a new map.
use vstd::prelude::*;
use crate::ai::first_true_draws;
use crate::app::{App, Draw};
use crate::deaths::{ids_below_counter, keeps_entities, spawned, World};
use crate::outside::draw_in_range;
use crate::world::{Ammo, InputState, ItemType, Position};

verus! {

/// The world after the items of `drops` are created, in order.
pub open spec fn spawned_all(w: World, drops: Seq<(Position, ItemType)>) -> World
    decreases drops.len(),
{
    if drops.len() == 0 {
        w
    } else {
        spawned(spawned_all(w, drops.drop_last()), drops.last().0, drops.last().1)
    }
}

/// The stack picked by the draws for the four kinds of ammunition, tried in
/// the order bullets, arrows, javelins, darts: the first kind whose draw
/// came out true, with `amount` pieces; nothing where none did.
pub open spec fn ammo_for(d1: bool, d2: bool, d3: bool, d4: bool, amount: i32) -> Option<Ammo> {
    if d1 {
        Some(Ammo::Kulja(amount))
    } else if d2 {
        Some(Ammo::Strela(amount))
    } else if d3 {
        Some(Ammo::Oscep(amount))
    } else if d4 {
        Some(Ammo::Drotik(amount))
    } else {
        None
    }
}

/// The kind of a stack is fixed by the first of the four draws that comes
/// out true, tried in the order bullets, arrows, javelins, darts; later
/// draws change nothing, the stack has exactly `amount` pieces, and where
/// none comes out true there is no stack.
pub proof fn lemma_ammo_first_true_draw(d1: bool, d2: bool, d3: bool, d4: bool, amount: i32)
    ensures
        d1 ==> ammo_for(d1, d2, d3, d4, amount) == Some(Ammo::Kulja(amount)),
        !d1 && d2 ==> ammo_for(d1, d2, d3, d4, amount) == Some(Ammo::Strela(amount)),
        !d1 && !d2 && d3 ==> ammo_for(d1, d2, d3, d4, amount) == Some(Ammo::Oscep(amount)),
        !d1 && !d2 && !d3 && d4 ==> ammo_for(d1, d2, d3, d4, amount) == Some(Ammo::Drotik(amount)),
        !d1 && !d2 && !d3 && !d4 ==> ammo_for(d1, d2, d3, d4, amount) is None,
{
}

/// A tile gets a stack only where its first draw, with odds 1 in 50, comes
/// out true; every draw for it has odds 1 in 50, and its draws stop at the
/// first kind draw that comes out true.
pub proof fn lemma_tile_turn(pos: Position, lay: bool, d1: bool, d2: bool, d3: bool, d4: bool, amount: i32)
    ensures
        ({
            let t = tile_turn_of(pos, lay, d1, d2, d3, d4, amount);
            &&& t.0 == pos
            &&& t.1[0] == (1u32, 50u32, lay)
            &&& !lay ==> t.1.len() == 1 && t.2 is None
            &&& lay && (d1 || d2 || d3 || d4) ==> t.2 is Some
            &&& forall|i: int| 0 <= i < t.1.len() ==> (#[trigger] t.1[i]).0 == 1 && t.1[i].1 == 50
            &&& forall|i: int| 1 <= i < t.1.len() - 1 ==> !(#[trigger] t.1[i]).2
        }),
{
    let t = tile_turn_of(pos, lay, d1, d2, d3, d4, amount);
    if lay {
        let k = first_true_draws(1, 50, d1, d2, d3, d4);
        assert forall|i: int| 0 <= i < t.1.len() implies (#[trigger] t.1[i]).0 == 1 && t.1[i].1 == 50 by {
            if i >= 1 {
                assert(t.1[i] == k[i - 1]);
            }
        }
        assert forall|i: int| 1 <= i < t.1.len() - 1 implies !(#[trigger] t.1[i]).2 by {
            assert(t.1[i] == k[i - 1]);
        }
    }
}

/// The stack of ammunition picked by the draws for the four kinds.
pub fn ammo_kind(d1: bool, d2: bool, d3: bool, d4: bool, amount: i32) -> (a: Option<Ammo>)
    ensures
        a == ammo_for(d1, d2, d3, d4, amount),
{
    if d1 {
        Some(Ammo::Kulja(amount))
    } else if d2 {
        Some(Ammo::Strela(amount))
    } else if d3 {
        Some(Ammo::Oscep(amount))
    } else if d4 {
        Some(Ammo::Drotik(amount))
    } else {
        None
    }
}

/// A stack of ammunition of 1 to 49 pieces.
pub open spec fn small_stack(item: ItemType) -> bool {
    match item {
        ItemType::Ammo(a) => match a {
            Ammo::Kulja(n) => 1 <= n < 50,
            Ammo::Strela(n) => 1 <= n < 50,
            Ammo::Oscep(n) => 1 <= n < 50,
            Ammo::Drotik(n) => 1 <= n < 50,
        },
        _ => false,
    }
}

/// Whether tile `a` comes before tile `b`, by `x` and then by `y`.
pub open spec fn tile_before(a: Position, b: Position) -> bool {
    a.0 < b.0 || (a.0 == b.0 && a.1 < b.1)
}

/// Stacks scattered over the square of side `size` at the origin: each a
/// small stack on a tile of the square, in tile order, at most one a tile.
pub open spec fn scattered(drops: Seq<(Position, ItemType)>, size: int) -> bool {
    &&& forall|i: int|
        0 <= i < drops.len() ==> 0 <= (#[trigger] drops[i]).0.0 < size && 0 <= drops[i].0.1 < size
            && small_stack(drops[i].1)
    &&& forall|i: int, j: int| 0 <= i < j < drops.len() ==> tile_before(#[trigger] drops[i].0, #[trigger] drops[j].0)
}

/// The stack of fifty darts that every new map has at `(5, 6)`.
pub open spec fn darts_drop() -> (Position, ItemType) {
    ((5, 6), ItemType::Ammo(Ammo::Drotik(50)))
}

proof fn lemma_cells_below_square(x: int, y: int, size: int)
    requires
        0 <= x < size,
        0 <= y < size,
    ensures
        x * size + y < size * size,
{
    assert(x * size + y < size * size) by (nonlinear_arith)
        requires
            0 <= x < size,
            0 <= y < size,
    ;
}

proof fn lemma_next_row(x: int, size: int)
    ensures
        x * size + size == (x + 1) * size,
{
    assert(x * size + size == (x + 1) * size) by (nonlinear_arith);
}

/// What one tile gets when ammunition is laid out: the tile, the draws
/// made for it, and the stack laid there, if any.
pub type TileTurn = (Position, Seq<Draw>, Option<ItemType>);

/// The turn of tile `pos` from the outcomes of its draws: a draw with odds
/// 1 in 50 decides whether a stack lies there; if so, up to four draws with
/// the same odds try the kinds in turn until one comes out true, and that
/// kind lies there with `amount` pieces.
pub open spec fn tile_turn_of(pos: Position, lay: bool, d1: bool, d2: bool, d3: bool, d4: bool, amount: i32) -> TileTurn {
    if !lay {
        (pos, seq![(1u32, 50u32, false)], None)
    } else {
        (
            pos,
            seq![(1u32, 50u32, true)] + first_true_draws(1, 50, d1, d2, d3, d4),
            match ammo_for(d1, d2, d3, d4, amount) {
                Some(a) => Some(ItemType::Ammo(a)),
                None => None,
            },
        )
    }
}

/// Whether `t` is the turn of its tile for some outcomes of its draws and
/// an amount of 1 to 49 pieces.
pub open spec fn tile_turn_ok(t: TileTurn) -> bool {
    exists|lay: bool, d1: bool, d2: bool, d3: bool, d4: bool, amount: i32|
        1 <= amount < 50 && #[trigger] tile_turn_of(t.0, lay, d1, d2, d3, d4, amount) == t
}

/// All the draws of the tile turns `ts`, in order.
pub open spec fn tile_draws(ts: Seq<TileTurn>) -> Seq<Draw>
    decreases ts.len(),
{
    if ts.len() == 0 {
        Seq::empty()
    } else {
        tile_draws(ts.drop_last()) + ts.last().1
    }
}

/// The stacks laid by the tile turns `ts`, in order, each with its tile.
pub open spec fn tile_drops(ts: Seq<TileTurn>) -> Seq<(Position, ItemType)>
    decreases ts.len(),
{
    if ts.len() == 0 {
        Seq::empty()
    } else {
        match ts.last().2 {
            Some(item) => tile_drops(ts.drop_last()).push((ts.last().0, item)),
            None => tile_drops(ts.drop_last()),
        }
    }
}

/// The tile turns of a whole square of side `size`: one for each tile, in
/// tile order, each following from the outcomes of its draws.
pub open spec fn square_turns(ts: Seq<TileTurn>, size: int) -> bool {
    &&& ts.len() == size * size
    &&& forall|i: int|
        0 <= i < ts.len() ==> tile_turn_ok(#[trigger] ts[i]) && 0 <= ts[i].0.0 < size && 0 <= ts[i].0.1 < size
    &&& forall|i: int, j: int| 0 <= i < j < ts.len() ==> tile_before(#[trigger] ts[i].0, #[trigger] ts[j].0)
}

proof fn lemma_tiles_push(ts: Seq<TileTurn>, t: TileTurn)
    ensures
        tile_draws(ts.push(t)) == tile_draws(ts) + t.1,
        tile_drops(ts.push(t)) == (match t.2 {
            Some(item) => tile_drops(ts).push((t.0, item)),
            None => tile_drops(ts),
        }),
{
    assert(ts.push(t).drop_last() =~= ts);
}

impl App {
    /// Everything outside `world` and the random generator is the same in
    /// the two states.
    pub open spec fn same_but_world_and_rng(self, other: App) -> bool {
        &&& self.input_state == other.input_state
        &&& self.action_results == other.action_results
        &&& self.action_result_strings == other.action_result_strings
        &&& self.selected_menu == other.selected_menu
        &&& self.item_list_state == other.item_list_state
        &&& self.exit == other.exit
        &&& self.game_map.ent_types_copy == other.game_map.ent_types_copy
        &&& self.game_map.opacity() == other.game_map.opacity()
        &&& self.action_vec == other.action_vec
        &&& self.local_player_id == other.local_player_id
        &&& self.seen_tiles == other.seen_tiles
    }

    /// Lays ammunition out on the square of side `map_size` at the origin:
    /// on each tile, by `x` and then by `y`, a draw with odds 1 in 50 decides
    /// whether a stack lies there; if so, the four kinds are tried in turn,
    /// each with a draw with odds 1 in 50, and the first that comes out true
    /// lies there with 1 to 49 pieces. The draws are made only as far as
    /// they are needed, each is logged, and the stack follows from them by
    /// `ammo_kind`. Last, fifty darts are laid at `(5, 6)`. Where every id
    /// in use is below the counter, the new stacks take fresh ids and every
    /// entity keeps its place.
    #[verifier::rlimit(40)]
    pub fn scatter_ammo(&mut self, map_size: i32)
        requires
            0 <= map_size,
            old(self).entity_counter + map_size * map_size < i64::MAX,
        ensures
            exists|ts: Seq<TileTurn>|
                square_turns(ts, map_size as int)
                    && final(self).draws@ == old(self).draws@ + tile_draws(ts)
                    && final(self).world() == spawned_all(old(self).world(), tile_drops(ts).push(darts_drop()))
                    && scattered(tile_drops(ts), map_size as int),
            final(self).same_but_world_and_rng(*old(self)),
            ids_below_counter(old(self).world()) ==> ids_below_counter(final(self).world())
                && keeps_entities(old(self).world(), final(self).world()),
    {
        let ghost w0 = self.world();
        let ghost mut drops: Seq<(Position, ItemType)> = Seq::empty();
        let ghost mut ts: Seq<TileTurn> = Seq::empty();
        proof {
            assert(self.draws@ =~= old(self).draws@ + tile_draws(ts));
        }
        let mut x: i32 = 0;
        while x < map_size
            invariant
                0 <= x <= map_size,
                w0 == old(self).world(),
                self.world() == spawned_all(w0, drops),
                scattered(drops, map_size as int),
                forall|i: int| 0 <= i < drops.len() ==> (#[trigger] drops[i]).0.0 < x,
                drops.len() <= x * map_size,
                self.entity_counter == old(self).entity_counter + drops.len(),
                old(self).entity_counter + map_size * map_size < i64::MAX,
                self.same_but_world_and_rng(*old(self)),
                ids_below_counter(w0) ==> ids_below_counter(self.world()) && keeps_entities(w0, self.world()),
                drops == tile_drops(ts),
                self.draws@ == old(self).draws@ + tile_draws(ts),
                ts.len() == x * map_size,
                forall|i: int|
                    0 <= i < ts.len() ==> tile_turn_ok(#[trigger] ts[i]) && 0 <= ts[i].0.0 < x && 0 <= ts[i].0.1 < map_size,
                forall|i: int, j: int| 0 <= i < j < ts.len() ==> tile_before(#[trigger] ts[i].0, #[trigger] ts[j].0),
            decreases map_size - x,
        {
            let mut y: i32 = 0;
            while y < map_size
                invariant
                    0 <= x < map_size,
                    0 <= y <= map_size,
                    w0 == old(self).world(),
                    self.world() == spawned_all(w0, drops),
                    scattered(drops, map_size as int),
                    forall|i: int| 0 <= i < drops.len() ==> tile_before(#[trigger] drops[i].0, (x, y)),
                    drops.len() <= x * map_size + y,
                    self.entity_counter == old(self).entity_counter + drops.len(),
                    old(self).entity_counter + map_size * map_size < i64::MAX,
                    self.same_but_world_and_rng(*old(self)),
                    ids_below_counter(w0) ==> ids_below_counter(self.world()) && keeps_entities(w0, self.world()),
                    drops == tile_drops(ts),
                    self.draws@ == old(self).draws@ + tile_draws(ts),
                    ts.len() == x * map_size + y,
                    forall|i: int|
                        0 <= i < ts.len() ==> tile_turn_ok(#[trigger] ts[i]) && 0 <= ts[i].0.0 <= x && 0 <= ts[i].0.1 < map_size
                            && tile_before(ts[i].0, (x, y)),
                    forall|i: int, j: int| 0 <= i < j < ts.len() ==> tile_before(#[trigger] ts[i].0, #[trigger] ts[j].0),
                decreases map_size - y,
            {
                proof {
                    lemma_cells_below_square(x as int, y as int, map_size as int);
                }
                let ghost dr0 = self.draws@;
                let ghost mut turn: TileTurn = tile_turn_of((x, y), false, false, false, false, false, 1);
                let lay = self.draw(1, 50);
                if lay {
                    let d1 = self.draw(1, 50);
                    let d2 = if d1 { false } else { self.draw(1, 50) };
                    let d3 = if d1 || d2 { false } else { self.draw(1, 50) };
                    let d4 = if d1 || d2 || d3 { false } else { self.draw(1, 50) };
                    proof {
                        assert(self.draws@ =~= dr0 + (seq![(1u32, 50u32, true)] + first_true_draws(1, 50, d1, d2, d3, d4)));
                        turn = tile_turn_of((x, y), true, d1, d2, d3, d4, 1);
                        assert(turn.0 == (x, y));
                        assert(tile_turn_of(turn.0, true, d1, d2, d3, d4, 1) == turn);
                        assert(tile_turn_ok(turn));
                    }
                    if d1 || d2 || d3 || d4 {
                        let amount = draw_in_range(&mut self.small_rng, 1, 50);
                        proof {
                            turn = tile_turn_of((x, y), true, d1, d2, d3, d4, amount);
                            assert(turn.0 == (x, y));
                            assert(tile_turn_of(turn.0, true, d1, d2, d3, d4, amount) == turn);
                            assert(tile_turn_ok(turn));
                        }
                        if let Some(stack) = ammo_kind(d1, d2, d3, d4, amount) {
                            let ghost before = drops;
                            self.spawn_item_at(&(x, y), ItemType::Ammo(stack));
                            proof {
                                drops = drops.push(((x, y), ItemType::Ammo(stack)));
                                assert(drops.drop_last() =~= before);
                                assert forall|i: int, j: int| 0 <= i < j < drops.len() implies tile_before(
                                    #[trigger] drops[i].0,
                                    #[trigger] drops[j].0,
                                ) by {
                                    if j < before.len() {
                                        assert(drops[i] == before[i]);
                                        assert(drops[j] == before[j]);
                                    } else {
                                        assert(drops[i] == before[i]);
                                    }
                                }
                                assert forall|i: int| 0 <= i < drops.len() implies 0 <= (#[trigger] drops[i]).0.0 < map_size
                                    && 0 <= drops[i].0.1 < map_size && small_stack(drops[i].1) by {
                                    if i < before.len() {
                                        assert(drops[i] == before[i]);
                                    }
                                }
                                assert forall|i: int| 0 <= i < drops.len() implies tile_before(
                                    #[trigger] drops[i].0,
                                    (x, (y + 1) as i32),
                                ) by {
                                    if i < before.len() {
                                        assert(drops[i] == before[i]);
                                    }
                                }
                            }
                        }
                    }
                } else {
                    proof {
                        assert(self.draws@ =~= dr0 + seq![(1u32, 50u32, false)]);
                        assert(turn.0 == (x, y));
                        assert(tile_turn_of(turn.0, false, false, false, false, false, 1) == turn);
                        assert(tile_turn_ok(turn));
                    }
                }
                proof {
                    let t0 = ts;
                    ts = t0.push(turn);
                    lemma_tiles_push(t0, turn);
                    assert(self.draws@ =~= old(self).draws@ + tile_draws(ts));
                    assert forall|i: int| 0 <= i < ts.len() implies tile_turn_ok(#[trigger] ts[i]) && 0 <= ts[i].0.0 <= x
                        && 0 <= ts[i].0.1 < map_size && tile_before(ts[i].0, (x, (y + 1) as i32)) by {
                        if i < t0.len() {
                            assert(ts[i] == t0[i]);
                        }
                    }
                    assert forall|i: int, j: int| 0 <= i < j < ts.len() implies tile_before(
                        #[trigger] ts[i].0,
                        #[trigger] ts[j].0,
                    ) by {
                        assert(ts[i] == t0[i]);
                        if j < t0.len() {
                            assert(ts[j] == t0[j]);
                        }
                    }
                }
                y = y + 1;
            }
            proof {
                lemma_next_row(x as int, map_size as int);
            }
            x = x + 1;
        }
        let ghost before = drops;
        self.spawn_item_at(&(5, 6), ItemType::Ammo(Ammo::Drotik(50)));
        proof {
            assert(drops.push(darts_drop()).drop_last() =~= before);
            assert(square_turns(ts, map_size as int));
        }
    }

    /// Sets up a new game, whose keys are the basic set, on a square map of
    /// side `map_size`: lays the ammunition out as `scatter_ammo` does, then
    /// copies the entity types to the map for drawing. `fov` is the player's
    /// field of view.
    pub fn init(&mut self, map_size: i32, fov: &Vec<Position>)
        requires
            0 <= map_size,
            old(self).entity_counter + map_size * map_size < i64::MAX,
            old(self).input_state == InputState::Basic,
        ensures
            exists|ts: Seq<TileTurn>|
                square_turns(ts, map_size as int)
                    && final(self).draws@ == old(self).draws@ + tile_draws(ts)
                    && final(self).world() == spawned_all(old(self).world(), tile_drops(ts).push(darts_drop()))
                    && scattered(tile_drops(ts), map_size as int),
            final(self).game_map.ent_types_copy@ == final(self).components.ent_types@,
            final(self).input_state == InputState::Basic,
            final(self).action_results == old(self).action_results,
            final(self).action_result_strings == old(self).action_result_strings,
            final(self).selected_menu == old(self).selected_menu,
            final(self).item_list_state == old(self).item_list_state,
            final(self).exit == old(self).exit,
            final(self).game_map.opacity() == old(self).game_map.opacity(),
            final(self).action_vec == old(self).action_vec,
            final(self).local_player_id == old(self).local_player_id,
            final(self).seen_tiles == old(self).seen_tiles,
            ids_below_counter(old(self).world()) ==> ids_below_counter(final(self).world())
                && keeps_entities(old(self).world(), final(self).world()),
    {
        self.scatter_ammo(map_size);
        let ghost mid = *self;
        self.reload_ui(fov);
        proof {
            assert(self.world().tiles =~= mid.world().tiles);
            assert(self.game_map.opacity() =~= mid.game_map.opacity());
        }
    }
}

} // verus!
