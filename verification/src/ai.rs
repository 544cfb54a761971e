//! The moves of the computer players.
use vstd::prelude::*;
use crate::app::{keys_of, App, Draw};
use crate::world::{CardinalDirection, EntityID, EntityType, GameAction, Position};

verus! {

broadcast use vstd::std_specs::hash::group_hash_axioms;

/// The entity that carries out an action.
pub open spec fn actor(a: GameAction) -> EntityID {
    match a {
        GameAction::Go(e, _) => e,
        GameAction::Drop(e, _) => e,
        GameAction::PickUp(e, _) => e,
        GameAction::Equip(e, _) => e,
        GameAction::UnEquip(e, _) => e,
        GameAction::RangedAttack(e, _) => e,
        GameAction::Wait(e) => e,
        GameAction::BumpAttack(e, _) => e,
        GameAction::Death(e) => e,
        GameAction::Consume(e, _) => e,
    }
}

/// The actions of `acts` that `e` carries out, in order.
pub open spec fn actions_of(acts: Seq<GameAction>, e: EntityID) -> Seq<GameAction>
    decreases acts.len(),
{
    if acts.len() == 0 {
        acts
    } else if actor(acts.last()) == e {
        actions_of(acts.drop_last(), e).push(acts.last())
    } else {
        actions_of(acts.drop_last(), e)
    }
}

/// The step a human takes by its `x` offset from the player: west,
/// south-west or north-west where it stands at or east of the player's `x`;
/// east, south-east or north-east otherwise.
pub open spec fn x_step_ok(d: CardinalDirection, at_or_east: bool) -> bool {
    if at_or_east {
        d == CardinalDirection::West || d == CardinalDirection::SouthWest || d == CardinalDirection::NorthWest
    } else {
        d == CardinalDirection::East || d == CardinalDirection::SouthEast || d == CardinalDirection::NorthEast
    }
}

/// The step a human takes by its `y` offset from the player: south,
/// south-west or south-east where its `y` is at least the player's; north,
/// north-east or north-west otherwise.
pub open spec fn y_step_ok(d: CardinalDirection, y_at_least: bool) -> bool {
    if y_at_least {
        d == CardinalDirection::South || d == CardinalDirection::SouthWest || d == CardinalDirection::SouthEast
    } else {
        d == CardinalDirection::North || d == CardinalDirection::NorthEast || d == CardinalDirection::NorthWest
    }
}

/// The moves of a human the player sees: one step chosen by its `x` offset
/// from the player, then one chosen by its `y` offset.
pub open spec fn human_moves_ok(acts: Seq<GameAction>, e: EntityID, pos: Position, player: Position) -> bool {
    &&& acts.len() == 2
    &&& acts[0] matches GameAction::Go(a, h) && a == e && x_step_ok(h, pos.0 >= player.0)
    &&& acts[1] matches GameAction::Go(b, v) && b == e && y_step_ok(v, pos.1 >= player.1)
}

/// The moves of an animal the player sees: at most one step west, east,
/// south or north.
pub open spec fn animal_moves_ok(acts: Seq<GameAction>, e: EntityID) -> bool {
    &&& acts.len() <= 1
    &&& acts.len() == 1 ==> (acts[0] matches GameAction::Go(a, d) && a == e && (d == CardinalDirection::West
        || d == CardinalDirection::East || d == CardinalDirection::South || d == CardinalDirection::North))
}

/// The step a human takes along `x`, from the draws made for it: where it
/// stands at or east of the player, west when the first draw comes out true,
/// else south-west when the second does, else north-west; east, south-east
/// and north-east on the other side.
pub open spec fn x_step_for(at_or_east: bool, first: bool, second: bool) -> CardinalDirection {
    if at_or_east {
        if first {
            CardinalDirection::West
        } else if second {
            CardinalDirection::SouthWest
        } else {
            CardinalDirection::NorthWest
        }
    } else {
        if first {
            CardinalDirection::East
        } else if second {
            CardinalDirection::SouthEast
        } else {
            CardinalDirection::NorthEast
        }
    }
}

/// The step a human takes along `y`, from the draws made for it: where its
/// `y` is at least the player's, south when the first draw comes out true,
/// else south-west when the second does, else south-east; north, north-east
/// and north-west on the other side.
pub open spec fn y_step_for(y_at_least: bool, first: bool, second: bool) -> CardinalDirection {
    if y_at_least {
        if first {
            CardinalDirection::South
        } else if second {
            CardinalDirection::SouthWest
        } else {
            CardinalDirection::SouthEast
        }
    } else {
        if first {
            CardinalDirection::North
        } else if second {
            CardinalDirection::NorthEast
        } else {
            CardinalDirection::NorthWest
        }
    }
}

/// The step an animal takes from its draws: west on the first that comes
/// out true, then east, south, north; none when all four come out false.
pub open spec fn animal_step_for(d1: bool, d2: bool, d3: bool, d4: bool) -> Option<CardinalDirection> {
    if d1 {
        Some(CardinalDirection::West)
    } else if d2 {
        Some(CardinalDirection::East)
    } else if d3 {
        Some(CardinalDirection::South)
    } else if d4 {
        Some(CardinalDirection::North)
    } else {
        None
    }
}

/// The `x` step of a human, from its side of the player and its draws.
pub fn human_x_step(at_or_east: bool, first: bool, second: bool) -> (d: CardinalDirection)
    ensures
        d == x_step_for(at_or_east, first, second),
        x_step_ok(d, at_or_east),
{
    if at_or_east {
        if first {
            CardinalDirection::West
        } else if second {
            CardinalDirection::SouthWest
        } else {
            CardinalDirection::NorthWest
        }
    } else {
        if first {
            CardinalDirection::East
        } else if second {
            CardinalDirection::SouthEast
        } else {
            CardinalDirection::NorthEast
        }
    }
}

/// The `y` step of a human, from its side of the player and its draws.
pub fn human_y_step(y_at_least: bool, first: bool, second: bool) -> (d: CardinalDirection)
    ensures
        d == y_step_for(y_at_least, first, second),
        y_step_ok(d, y_at_least),
{
    if y_at_least {
        if first {
            CardinalDirection::South
        } else if second {
            CardinalDirection::SouthWest
        } else {
            CardinalDirection::SouthEast
        }
    } else {
        if first {
            CardinalDirection::North
        } else if second {
            CardinalDirection::NorthEast
        } else {
            CardinalDirection::NorthWest
        }
    }
}

/// The step of an animal, from its draws.
pub fn animal_step(d1: bool, d2: bool, d3: bool, d4: bool) -> (s: Option<CardinalDirection>)
    ensures
        s == animal_step_for(d1, d2, d3, d4),
{
    if d1 {
        Some(CardinalDirection::West)
    } else if d2 {
        Some(CardinalDirection::East)
    } else if d3 {
        Some(CardinalDirection::South)
    } else if d4 {
        Some(CardinalDirection::North)
    } else {
        None
    }
}

/// Whether the recorded type of the actor of `a` is a human.
pub open spec fn by_human(types: Map<EntityID, EntityType>, a: GameAction) -> bool {
    types.contains_key(actor(a)) && types[actor(a)] is Human
}

/// Whether the recorded type of the actor of `a` is an animal.
pub open spec fn by_animal(types: Map<EntityID, EntityType>, a: GameAction) -> bool {
    types.contains_key(actor(a)) && types[actor(a)] is Animal
}

/// The humans' moves come first, then the animals'.
pub open spec fn humans_first(types: Map<EntityID, EntityType>, moves: Seq<GameAction>, split: int) -> bool {
    &&& 0 <= split <= moves.len()
    &&& forall|i: int| 0 <= i < split ==> by_human(types, #[trigger] moves[i])
    &&& forall|i: int| split <= i < moves.len() ==> by_animal(types, #[trigger] moves[i])
}

/// The draws for one step of a human: one with odds 4 in 5, and a second
/// with the same odds only where the first came out false.
pub open spec fn step_draws(first: bool, second: bool) -> Seq<Draw> {
    if first {
        seq![(4u32, 5u32, true)]
    } else {
        seq![(4u32, 5u32, false), (4u32, 5u32, second)]
    }
}

/// The draws for up to four tries, each with odds `n / d`, made in turn
/// until one comes out true.
pub open spec fn first_true_draws(n: u32, d: u32, d1: bool, d2: bool, d3: bool, d4: bool) -> Seq<Draw> {
    if d1 {
        seq![(n, d, true)]
    } else if d2 {
        seq![(n, d, false), (n, d, true)]
    } else if d3 {
        seq![(n, d, false), (n, d, false), (n, d, true)]
    } else {
        seq![(n, d, false), (n, d, false), (n, d, false), (n, d, d4)]
    }
}

/// The turn of one computer player: who it is, the draws made for it, and
/// the moves queued for it.
pub type AiTurn = (EntityID, Seq<Draw>, Seq<GameAction>);

/// The turn of a human at `pos` that the player at `player` sees, from the
/// outcomes of its draws: two draws at most for its `x` step, then two at
/// most for its `y` step.
pub open spec fn human_turn_of(
    e: EntityID,
    pos: Position,
    player: Position,
    f1: bool,
    s1: bool,
    f2: bool,
    s2: bool,
) -> AiTurn {
    (
        e,
        step_draws(f1, s1) + step_draws(f2, s2),
        seq![
            GameAction::Go(e, x_step_for(pos.0 >= player.0, f1, s1)),
            GameAction::Go(e, y_step_for(pos.1 >= player.1, f2, s2)),
        ],
    )
}

/// The turn of an animal that the player sees, from the outcomes of its
/// draws: up to four, with odds 3 in 10, until one comes out true.
pub open spec fn animal_turn_of(e: EntityID, d1: bool, d2: bool, d3: bool, d4: bool) -> AiTurn {
    (
        e,
        first_true_draws(3, 10, d1, d2, d3, d4),
        match animal_step_for(d1, d2, d3, d4) {
            Some(dir) => seq![GameAction::Go(e, dir)],
            None => Seq::<GameAction>::empty(),
        },
    )
}

/// Whether `t` is the turn of a human for some outcomes of its draws.
pub open spec fn human_turn_ok(t: AiTurn, positions: Map<EntityID, Position>, player: Position) -> bool {
    exists|f1: bool, s1: bool, f2: bool, s2: bool|
        #[trigger] human_turn_of(t.0, positions[t.0], player, f1, s1, f2, s2) == t
}

/// Whether `t` is the turn of an animal for some outcomes of its draws.
pub open spec fn animal_turn_ok(t: AiTurn) -> bool {
    exists|d1: bool, d2: bool, d3: bool, d4: bool| #[trigger] animal_turn_of(t.0, d1, d2, d3, d4) == t
}

/// Whose turns `ts` are, in order.
pub open spec fn turn_ids(ts: Seq<AiTurn>) -> Seq<EntityID> {
    ts.map_values(|t: AiTurn| t.0)
}

/// All the draws of the turns `ts`, in order.
pub open spec fn turn_draws(ts: Seq<AiTurn>) -> Seq<Draw>
    decreases ts.len(),
{
    if ts.len() == 0 {
        Seq::empty()
    } else {
        turn_draws(ts.drop_last()) + ts.last().1
    }
}

/// All the moves of the turns `ts`, in order.
pub open spec fn turn_moves(ts: Seq<AiTurn>) -> Seq<GameAction>
    decreases ts.len(),
{
    if ts.len() == 0 {
        Seq::empty()
    } else {
        turn_moves(ts.drop_last()) + ts.last().2
    }
}

/// How a step moves an entity, as `(dx, dy)`: east is growing `x` and
/// north is growing `y`.
pub open spec fn step_offset(d: CardinalDirection) -> (int, int) {
    match d {
        CardinalDirection::North => (0, 1),
        CardinalDirection::South => (0, -1),
        CardinalDirection::East => (1, 0),
        CardinalDirection::West => (-1, 0),
        CardinalDirection::NorthEast => (1, 1),
        CardinalDirection::NorthWest => (-1, 1),
        CardinalDirection::SouthEast => (1, -1),
        CardinalDirection::SouthWest => (-1, -1),
    }
}

/// A human's `x` step always moves it along `x` toward the player: west
/// where it stands at or east of the player, east otherwise. Where the
/// first draw comes out true the step is straight; otherwise it is
/// diagonal, to the south where the second draw comes out true and to the
/// north where it does not.
pub proof fn lemma_x_step_toward_player(at_or_east: bool, first: bool, second: bool)
    ensures
        step_offset(x_step_for(at_or_east, first, second)).0 == (if at_or_east { -1int } else { 1int }),
        step_offset(x_step_for(at_or_east, first, second)).1 == (if first {
            0int
        } else if second {
            -1int
        } else {
            1int
        }),
{
}

/// A human's `y` step always moves it along `y` toward the player: south
/// where its `y` is at least the player's, north otherwise. Where the first
/// draw comes out true the step is straight; otherwise it is diagonal, to
/// the west where the second draw agrees with the side (true south of
/// nothing, false north) and to the east where it does not.
pub proof fn lemma_y_step_toward_player(y_at_least: bool, first: bool, second: bool)
    ensures
        step_offset(y_step_for(y_at_least, first, second)).1 == (if y_at_least { -1int } else { 1int }),
        step_offset(y_step_for(y_at_least, first, second)).0 == (if first {
            0int
        } else if second == y_at_least {
            -1int
        } else {
            1int
        }),
{
}

/// An animal's step is fixed by the first of its draws that comes out true,
/// tried in the order west, east, south, north; later draws change
/// nothing, and where none comes out true it stays.
pub proof fn lemma_animal_first_true_draw(d1: bool, d2: bool, d3: bool, d4: bool)
    ensures
        d1 ==> animal_step_for(d1, d2, d3, d4) == Some(CardinalDirection::West),
        !d1 && d2 ==> animal_step_for(d1, d2, d3, d4) == Some(CardinalDirection::East),
        !d1 && !d2 && d3 ==> animal_step_for(d1, d2, d3, d4) == Some(CardinalDirection::South),
        !d1 && !d2 && !d3 && d4 ==> animal_step_for(d1, d2, d3, d4) == Some(CardinalDirection::North),
        !d1 && !d2 && !d3 && !d4 ==> animal_step_for(d1, d2, d3, d4) is None,
{
}

/// A human's turn: one step along `x` toward the player, then one along
/// `y` toward the player, each straight where the first draw for it came
/// out true. Every draw has odds 4 in 5, and the second draw of a step is
/// made only where the first came out false.
pub proof fn lemma_human_turn(
    e: EntityID,
    pos: Position,
    player: Position,
    f1: bool,
    s1: bool,
    f2: bool,
    s2: bool,
)
    ensures
        ({
            let t = human_turn_of(e, pos, player, f1, s1, f2, s2);
            &&& t.0 == e
            &&& t.2.len() == 2
            &&& t.2[0] matches GameAction::Go(a, d) && a == e
                && step_offset(d).0 == (if pos.0 >= player.0 { -1int } else { 1int })
                && (f1 ==> step_offset(d).1 == 0)
            &&& t.2[1] matches GameAction::Go(b, d) && b == e
                && step_offset(d).1 == (if pos.1 >= player.1 { -1int } else { 1int })
                && (f2 ==> step_offset(d).0 == 0)
            &&& t.1.len() == (if f1 { 1int } else { 2int }) + (if f2 { 1int } else { 2int })
            &&& forall|i: int| 0 <= i < t.1.len() ==> (#[trigger] t.1[i]).0 == 4 && t.1[i].1 == 5
            &&& t.1[0].2 == f1
        }),
{
    lemma_x_step_toward_player(pos.0 >= player.0, f1, s1);
    lemma_y_step_toward_player(pos.1 >= player.1, f2, s2);
    let t = human_turn_of(e, pos, player, f1, s1, f2, s2);
    assert forall|i: int| 0 <= i < t.1.len() implies (#[trigger] t.1[i]).0 == 4 && t.1[i].1 == 5 by {
        let a = step_draws(f1, s1);
        if i < a.len() {
            assert(t.1[i] == a[i]);
        } else {
            assert(t.1[i] == step_draws(f2, s2)[i - a.len()]);
        }
    }
}

/// An animal's turn: its draws all have odds 3 in 10 and stop at the first
/// that comes out true; it moves once where one did, in the direction of
/// the first, and stays where none did.
pub proof fn lemma_animal_turn(e: EntityID, d1: bool, d2: bool, d3: bool, d4: bool)
    ensures
        ({
            let t = animal_turn_of(e, d1, d2, d3, d4);
            &&& t.0 == e
            &&& forall|i: int| 0 <= i < t.1.len() ==> (#[trigger] t.1[i]).0 == 3 && t.1[i].1 == 10
            &&& forall|i: int| 0 <= i < t.1.len() - 1 ==> !(#[trigger] t.1[i]).2
            &&& t.2.len() == (if d1 || d2 || d3 || d4 { 1int } else { 0int })
            &&& d1 ==> t.2 == seq![GameAction::Go(e, CardinalDirection::West)]
            &&& !d1 && d2 ==> t.2 == seq![GameAction::Go(e, CardinalDirection::East)]
            &&& !d1 && !d2 && d3 ==> t.2 == seq![GameAction::Go(e, CardinalDirection::South)]
            &&& !d1 && !d2 && !d3 && d4 ==> t.2 == seq![GameAction::Go(e, CardinalDirection::North)]
        }),
{
    lemma_animal_first_true_draw(d1, d2, d3, d4);
}

/// A coordinate difference that fits in the coordinate type.
pub open spec fn diff_fits(a: i32, b: i32) -> bool {
    i32::MIN <= a - b <= i32::MAX
}

proof fn lemma_turns_push(ts: Seq<AiTurn>, t: AiTurn)
    ensures
        turn_draws(ts.push(t)) == turn_draws(ts) + t.1,
        turn_moves(ts.push(t)) == turn_moves(ts) + t.2,
        turn_ids(ts.push(t)) == turn_ids(ts).push(t.0),
{
    assert(ts.push(t).drop_last() =~= ts);
    assert(turn_ids(ts.push(t)) =~= turn_ids(ts).push(t.0));
}

proof fn lemma_push_no_duplicates(s: Seq<EntityID>, x: EntityID)
    requires
        s.no_duplicates(),
        !s.contains(x),
    ensures
        s.push(x).no_duplicates(),
{
    assert forall|i: int, j: int| 0 <= i < s.push(x).len() && 0 <= j < s.push(x).len() && i != j implies s.push(x)[i] != s.push(x)[j] by {
        if i < s.len() && j < s.len() {
        } else if i == s.len() {
            assert(s[j] == s.push(x)[j]);
        } else {
            assert(s[i] == s.push(x)[i]);
        }
    }
}

proof fn lemma_push_contains(s: Seq<EntityID>, x: EntityID)
    ensures
        forall|e: EntityID| #[trigger] s.push(x).contains(e) <==> (s.contains(e) || e == x),
{
    assert forall|e: EntityID| #[trigger] s.push(x).contains(e) <==> (s.contains(e) || e == x) by {
        if s.contains(e) {
            let j = choose|j: int| 0 <= j < s.len() && #[trigger] s[j] == e;
            assert(s.push(x)[j] == e);
        }
        if e == x {
            assert(s.push(x)[s.len() as int] == e);
        }
        if s.push(x).contains(e) {
            let t = s.push(x);
            let j = choose|j: int| 0 <= j < t.len() && #[trigger] t[j] == e;
            if j < s.len() {
                assert(s[j] == e);
            }
        }
    }
}

proof fn lemma_take_next_contains(s: Seq<EntityID>, k: int)
    requires
        0 <= k < s.len(),
    ensures
        forall|e: EntityID| #[trigger] s.take(k + 1).contains(e) <==> (s.take(k).contains(e) || e == s[k]),
{
    assert forall|e: EntityID| #[trigger] s.take(k + 1).contains(e) <==> (s.take(k).contains(e) || e == s[k]) by {
        if s.take(k + 1).contains(e) {
            let t = s.take(k + 1);
            let j = choose|j: int| 0 <= j < t.len() && #[trigger] t[j] == e;
            if j < k {
                assert(s.take(k)[j] == e);
            }
        }
        if s.take(k).contains(e) {
            let t = s.take(k);
            let j = choose|j: int| 0 <= j < t.len() && #[trigger] t[j] == e;
            assert(s.take(k + 1)[j] == e);
        }
        if e == s[k] {
            assert(s.take(k + 1)[k] == e);
        }
    }
}

pub(crate) fn contains_ent(v: &Vec<EntityID>, e: EntityID) -> (b: bool)
    ensures
        b == v@.contains(e),
{
    let mut i: usize = 0;
    while i < v.len()
        invariant
            i <= v@.len(),
            forall|j: int| 0 <= j < i ==> v@[j] != e,
        decreases v@.len() - i,
    {
        if v[i] == e {
            return true;
        }
        i = i + 1;
    }
    false
}

impl App {
    /// The offset from the player of every human the player sees fits in
    /// the coordinate type.
    pub open spec fn ai_offsets_fit(&self, fov: Seq<Position>) -> bool {
        forall|e: EntityID|
            #![trigger self.components.positions@.contains_key(e)]
            self.components.positions@.contains_key(e) && e != self.local_player_id
                && self.components.ent_types@.contains_key(e) && self.components.ent_types@[e] is Human
                && self.visible_from(self.local_player_id, fov).contains(e)
                ==> diff_fits(self.components.positions@[e].0, self.player_pos().0)
                    && diff_fits(self.components.positions@[e].1, self.player_pos().1)
    }

    /// Where the player stands, or the origin where it has no position.
    pub open spec fn player_pos(&self) -> Position {
        if self.components.positions@.contains_key(self.local_player_id) {
            self.components.positions@[self.local_player_id]
        } else {
            (0, 0)
        }
    }

    /// The moves that the computer players may add in one turn, given the
    /// player's field of view: each human the player sees takes a step by
    /// its `x` offset from the player and then one by its `y` offset, each
    /// animal the player sees takes at most one step, and no other entity
    /// moves.
    pub open spec fn ai_moves_ok(&self, fov: Seq<Position>, moves: Seq<GameAction>) -> bool {
        let types = self.components.ent_types@;
        let vis = self.visible_from(self.local_player_id, fov);
        forall|e: EntityID|
            #![trigger actions_of(moves, e)]
            if e != self.local_player_id && types.contains_key(e) && types[e] is Human && vis.contains(e)
                && self.components.positions@.contains_key(e) {
                human_moves_ok(actions_of(moves, e), e, self.components.positions@[e], self.player_pos())
            } else if e != self.local_player_id && types.contains_key(e) && types[e] is Animal && vis.contains(e) {
                animal_moves_ok(actions_of(moves, e), e)
            } else {
                actions_of(moves, e).len() == 0
            }
    }

    /// Everything but the action queue and the random generator is the
    /// same in the two states.
    pub open spec fn same_but_actions(self, other: App) -> bool {
        &&& self.entity_counter == other.entity_counter
        &&& self.components == other.components
        &&& self.input_state == other.input_state
        &&& self.action_results == other.action_results
        &&& self.action_result_strings == other.action_result_strings
        &&& self.selected_menu == other.selected_menu
        &&& self.item_list_state == other.item_list_state
        &&& self.exit == other.exit
        &&& self.game_map == other.game_map
        &&& self.local_player_id == other.local_player_id
        &&& self.seen_tiles == other.seen_tiles
    }

    /// The turns of the humans in one round: one for each human other than
    /// the player that the player sees and that has a position, each once,
    /// in some order, each following from the outcomes of its draws.
    pub open spec fn human_turns_ok(&self, fov: Seq<Position>, hs: Seq<AiTurn>) -> bool {
        let types = self.components.ent_types@;
        let positions = self.components.positions@;
        let vis = self.visible_from(self.local_player_id, fov);
        &&& turn_ids(hs).no_duplicates()
        &&& forall|e: EntityID|
            #[trigger] turn_ids(hs).contains(e) <==> (e != self.local_player_id && types.contains_key(e)
                && types[e] is Human && vis.contains(e) && positions.contains_key(e))
        &&& forall|i: int| 0 <= i < hs.len() ==> human_turn_ok(#[trigger] hs[i], positions, self.player_pos())
    }

    /// The turns of the animals in one round: one for each animal other than
    /// the player that the player sees, each once, in some order, each
    /// following from the outcomes of its draws.
    pub open spec fn animal_turns_ok(&self, fov: Seq<Position>, ans: Seq<AiTurn>) -> bool {
        let types = self.components.ent_types@;
        let vis = self.visible_from(self.local_player_id, fov);
        &&& turn_ids(ans).no_duplicates()
        &&& forall|e: EntityID|
            #[trigger] turn_ids(ans).contains(e) <==> (e != self.local_player_id && types.contains_key(e)
                && types[e] is Animal && vis.contains(e))
        &&& forall|i: int| 0 <= i < ans.len() ==> animal_turn_ok(#[trigger] ans[i])
    }

    /// Queues the moves of the computer players that the player sees.
    /// `fov` is the player's field of view. Each human takes one step chosen
    /// by its `x` offset from the player and then one chosen by its `y`
    /// offset; each animal takes one step or stays. The draws come from the
    /// random generator, with odds 4 in 5 for humans and 3 in 10 for
    /// animals, made only as far as they are needed and each logged; the
    /// steps follow from them by `human_x_step`, `human_y_step` and
    /// `animal_step`. The humans' turns come before the animals'.
    #[verifier::rlimit(80)]
    #[verifier::spinoff_prover]
    pub fn handle_ai(&mut self, fov: &Vec<Position>)
        requires
            old(self).ai_offsets_fit(fov@),
        ensures
            exists|moves: Seq<GameAction>, split: int|
                final(self).action_vec@ == old(self).action_vec@ + moves && old(self).ai_moves_ok(fov@, moves)
                    && humans_first(old(self).components.ent_types@, moves, split),
            exists|hs: Seq<AiTurn>, ans: Seq<AiTurn>|
                old(self).human_turns_ok(fov@, hs) && old(self).animal_turns_ok(fov@, ans)
                    && final(self).draws@ == old(self).draws@ + turn_draws(hs) + turn_draws(ans)
                    && final(self).action_vec@ == old(self).action_vec@ + turn_moves(hs) + turn_moves(ans),
            final(self).same_but_actions(*old(self)),
    {
        let player = self.local_player_id;
        let ents_visible_from_player = self.generate_visible_ents_from_ent(&player, fov);
        let lp_pos: Position = match self.components.positions.get(&player) {
            Some(p) => *p,
            None => (0, 0),
        };
        let ghost types = self.components.ent_types@;
        let ghost positions = self.components.positions@;
        let ids = keys_of(&self.components.ent_types);
        let mut conscious_ents: Vec<EntityID> = Vec::new();
        let mut stupid_ents: Vec<EntityID> = Vec::new();
        let mut i: usize = 0;
        while i < ids.len()
            invariant
                i <= ids@.len(),
                ids@.no_duplicates(),
                ids@.to_set() == types.dom(),
                types == self.components.ent_types@,
                conscious_ents@.no_duplicates(),
                stupid_ents@.no_duplicates(),
                forall|e: EntityID| conscious_ents@.contains(e) <==> (ids@.take(i as int).contains(e) && e != player && types[e] is Human),
                forall|e: EntityID| stupid_ents@.contains(e) <==> (ids@.take(i as int).contains(e) && e != player && types[e] is Animal),
            decreases ids@.len() - i,
        {
            let id = ids[i];
            proof {
                lemma_take_next_contains(ids@, i as int);
                assert(ids@.take(i + 1) =~= ids@.take(i as int).push(id));
                assert(ids@.to_set().contains(id));
                assert(!ids@.take(i as int).contains(id)) by {
                    if ids@.take(i as int).contains(id) {
                        let j = choose|j: int| 0 <= j < i && ids@.take(i as int)[j] == id;
                        assert(ids@[j] == ids@[i as int]);
                    }
                }
            }
            if id != player {
                match self.components.ent_types.get(&id) {
                    Some(EntityType::Human(_)) => {
                        proof {
                            lemma_push_no_duplicates(conscious_ents@, id);
                            lemma_push_contains(conscious_ents@, id);
                        }
                        conscious_ents.push(id);
                    },
                    Some(EntityType::Animal(_)) => {
                        proof {
                            lemma_push_no_duplicates(stupid_ents@, id);
                            lemma_push_contains(stupid_ents@, id);
                        }
                        stupid_ents.push(id);
                    },
                    _ => {},
                }
            }
            i = i + 1;
        }
        proof {
            assert(ids@.take(ids@.len() as int) =~= ids@);
        }
        let ghost vis = ents_visible_from_player@;
        let ghost start = self.action_vec@;
        let ghost mut moves: Seq<GameAction> = Seq::empty();
        let ghost mut hturns: Seq<AiTurn> = Seq::empty();
        proof {
            assert(self.draws@ =~= old(self).draws@ + turn_draws(hturns));
            assert(turn_ids(hturns) =~= Seq::<EntityID>::empty());
        }
        let mut k: usize = 0;
        while k < conscious_ents.len()
            invariant
                self.draws@ == old(self).draws@ + turn_draws(hturns),
                moves == turn_moves(hturns),
                turn_ids(hturns).no_duplicates(),
                forall|e: EntityID|
                    #[trigger] turn_ids(hturns).contains(e) <==> (conscious_ents@.take(k as int).contains(e)
                        && vis.contains(e) && positions.contains_key(e)),
                forall|i: int| 0 <= i < hturns.len() ==> human_turn_ok(#[trigger] hturns[i], positions, lp_pos),
                k <= conscious_ents@.len(),
                conscious_ents@.no_duplicates(),
                self.action_vec@ == start + moves,
                start == old(self).action_vec@,
                vis == ents_visible_from_player@,
                self.same_but_actions(*old(self)),
                positions == self.components.positions@,
                types == self.components.ent_types@,
                forall|e: EntityID| #![trigger conscious_ents@.contains(e)] conscious_ents@.contains(e) ==> e != player && types.contains_key(e) && types[e] is Human,
                forall|e: EntityID| #![trigger positions.contains_key(e)] positions.contains_key(e) && conscious_ents@.contains(e) && vis.contains(e)
                    ==> diff_fits(positions[e].0, lp_pos.0) && diff_fits(positions[e].1, lp_pos.1),
                lp_pos == old(self).player_pos(),
                forall|i: int| 0 <= i < moves.len() ==> by_human(types, #[trigger] moves[i]),
                forall|e: EntityID|
                    #![trigger actions_of(moves, e)]
                    if conscious_ents@.take(k as int).contains(e) && vis.contains(e) && positions.contains_key(e) {
                        human_moves_ok(actions_of(moves, e), e, positions[e], lp_pos)
                    } else {
                        actions_of(moves, e).len() == 0
                    },
            decreases conscious_ents@.len() - k,
        {
            let meow = conscious_ents[k];
            proof {
                lemma_take_next_contains(conscious_ents@, k as int);
                assert(conscious_ents@.take(k + 1) =~= conscious_ents@.take(k as int).push(meow));
                assert(!conscious_ents@.take(k as int).contains(meow)) by {
                    if conscious_ents@.take(k as int).contains(meow) {
                        let j = choose|j: int| 0 <= j < k && conscious_ents@.take(k as int)[j] == meow;
                        assert(conscious_ents@[j] == conscious_ents@[k as int]);
                    }
                }
            }
            if contains_ent(&ents_visible_from_player, meow) {
                let pos_found: Option<Position> = match self.components.positions.get(&meow) {
                    Some(p) => Some(*p),
                    None => None,
                };
                if let Some(ent_pos) = pos_found {
                    assert(positions.contains_key(meow) && positions[meow] == ent_pos);
                    assert(conscious_ents@.contains(meow)) by {
                        assert(conscious_ents@[k as int] == meow);
                    }
                    let x_dif = ent_pos.0 - lp_pos.0;
                    let y_dif = ent_pos.1 - lp_pos.1;
                    let ghost d0 = self.draws@;
                    let first = self.draw(4, 5);
                    let second = if first { false } else { self.draw(4, 5) };
                    proof {
                        assert(self.draws@ =~= d0 + step_draws(first, second));
                    }
                    let h = human_x_step(x_dif >= 0, first, second);
                    self.action_vec.push(GameAction::Go(meow, h));
                    let ghost d1 = self.draws@;
                    let first2 = self.draw(4, 5);
                    let second2 = if first2 { false } else { self.draw(4, 5) };
                    proof {
                        assert(self.draws@ =~= d1 + step_draws(first2, second2));
                    }
                    let v = human_y_step(y_dif >= 0, first2, second2);
                    self.action_vec.push(GameAction::Go(meow, v));
                    proof {
                        let t = human_turn_of(meow, ent_pos, lp_pos, first, second, first2, second2);
                        let ts0 = hturns;
                        let mv0 = moves;
                        hturns = ts0.push(t);
                        lemma_turns_push(ts0, t);
                        assert(self.draws@ =~= old(self).draws@ + turn_draws(hturns));
                        assert(mv0.push(GameAction::Go(meow, h)).push(GameAction::Go(meow, v)) =~= turn_moves(hturns));
                        lemma_push_no_duplicates(turn_ids(ts0), meow);
                        lemma_push_contains(turn_ids(ts0), meow);
                        assert(hturns[hturns.len() - 1] == t);
                        assert(human_turn_of(meow, positions[meow], lp_pos, first, second, first2, second2) == t);
                        assert(human_turn_ok(hturns[hturns.len() - 1], positions, lp_pos));
                        assert forall|i: int| 0 <= i < hturns.len() implies human_turn_ok(#[trigger] hturns[i], positions, lp_pos) by {
                            if i < ts0.len() {
                                assert(hturns[i] == ts0[i]);
                            }
                        }
                    }
                    proof {
                        let m0 = moves;
                        let m1 = m0.push(GameAction::Go(meow, h));
                        moves = m1.push(GameAction::Go(meow, v));
                        assert(self.action_vec@ =~= start + moves);
                        assert(moves.drop_last() =~= m1);
                        assert(m1.drop_last() =~= m0);
                        assert(actions_of(m0, meow).len() == 0);
                        assert(actions_of(m1, meow) == actions_of(m0, meow).push(GameAction::Go(meow, h)));
                        assert(actions_of(moves, meow) == actions_of(m1, meow).push(GameAction::Go(meow, v)));
                        assert(actions_of(moves, meow) =~= seq![GameAction::Go(meow, h), GameAction::Go(meow, v)]);
                        assert forall|e: EntityID| e != meow implies #[trigger] actions_of(moves, e) == actions_of(m0, e) by {
                            assert(actions_of(moves, e) == actions_of(m1, e));
                            assert(actions_of(m1, e) == actions_of(m0, e));
                        }
                        assert forall|i: int| 0 <= i < moves.len() implies by_human(types, #[trigger] moves[i]) by {
                            if i < m0.len() {
                                assert(moves[i] == m0[i]);
                            }
                        }
                    }
                }
            }
            k = k + 1;
        }
        let ghost human_moves = moves;
        proof {
            assert(conscious_ents@.take(conscious_ents@.len() as int) =~= conscious_ents@);
            assert(old(self).human_turns_ok(fov@, hturns)) by {
                assert forall|e: EntityID| #[trigger] turn_ids(hturns).contains(e) <==> (e != player
                    && types.contains_key(e) && types[e] is Human && vis.contains(e) && positions.contains_key(e)) by {
                    if types.contains_key(e) && e != player {
                        assert(ids@.to_set().contains(e));
                        assert(ids@.contains(e));
                    }
                }
            }
        }
        let ghost mut aturns: Seq<AiTurn> = Seq::empty();
        proof {
            assert(self.draws@ =~= old(self).draws@ + turn_draws(hturns) + turn_draws(aturns));
            assert(moves =~= turn_moves(hturns) + turn_moves(aturns));
            assert(turn_ids(aturns) =~= Seq::<EntityID>::empty());
        }
        proof {
            assert forall|e: EntityID| #![trigger stupid_ents@.contains(e)] stupid_ents@.contains(e) implies actions_of(human_moves, e).len() == 0 by {
                assert(!conscious_ents@.contains(e));
                assert(conscious_ents@.take(conscious_ents@.len() as int) =~= conscious_ents@);
                assert(actions_of(moves, e).len() == 0);
            }
            assert(moves.take(human_moves.len() as int) =~= human_moves);
        }
        let mut k: usize = 0;
        while k < stupid_ents.len()
            invariant
                k <= stupid_ents@.len(),
                stupid_ents@.no_duplicates(),
                self.action_vec@ == start + moves,
                start == old(self).action_vec@,
                vis == ents_visible_from_player@,
                self.same_but_actions(*old(self)),
                types == self.components.ent_types@,
                forall|e: EntityID| #![trigger stupid_ents@.contains(e)] stupid_ents@.contains(e) ==> types.contains_key(e) && types[e] is Animal,
                human_moves.len() <= moves.len(),
                human_moves == turn_moves(hturns),
                self.draws@ == old(self).draws@ + turn_draws(hturns) + turn_draws(aturns),
                moves == turn_moves(hturns) + turn_moves(aturns),
                old(self).human_turns_ok(fov@, hturns),
                turn_ids(aturns).no_duplicates(),
                forall|e: EntityID|
                    #[trigger] turn_ids(aturns).contains(e) <==> (stupid_ents@.take(k as int).contains(e) && vis.contains(e)),
                forall|i: int| 0 <= i < aturns.len() ==> animal_turn_ok(#[trigger] aturns[i]),
                moves.take(human_moves.len() as int) == human_moves,
                forall|i: int| 0 <= i < human_moves.len() ==> by_human(types, #[trigger] human_moves[i]),
                forall|i: int| human_moves.len() <= i < moves.len() ==> by_animal(types, #[trigger] moves[i]),
                forall|e: EntityID| #![trigger stupid_ents@.contains(e)] stupid_ents@.contains(e) ==> actions_of(human_moves, e).len() == 0,
                forall|e: EntityID|
                    #![trigger actions_of(moves, e)]
                    if stupid_ents@.take(k as int).contains(e) && vis.contains(e) {
                        animal_moves_ok(actions_of(moves, e), e)
                    } else {
                        actions_of(moves, e) == actions_of(human_moves, e)
                    },
            decreases stupid_ents@.len() - k,
        {
            let meow = stupid_ents[k];
            proof {
                lemma_take_next_contains(stupid_ents@, k as int);
                assert(stupid_ents@.take(k + 1) =~= stupid_ents@.take(k as int).push(meow));
                assert(!stupid_ents@.take(k as int).contains(meow)) by {
                    if stupid_ents@.take(k as int).contains(meow) {
                        let j = choose|j: int| 0 <= j < k && stupid_ents@.take(k as int)[j] == meow;
                        assert(stupid_ents@[j] == stupid_ents@[k as int]);
                    }
                }
                assert(stupid_ents@.contains(meow)) by {
                    assert(stupid_ents@[k as int] == meow);
                }
            }
            if contains_ent(&ents_visible_from_player, meow) {
                let ghost dr0 = self.draws@;
                let d1 = self.draw(3, 10);
                let d2 = if d1 { false } else { self.draw(3, 10) };
                let d3 = if d1 || d2 { false } else { self.draw(3, 10) };
                let d4 = if d1 || d2 || d3 { false } else { self.draw(3, 10) };
                proof {
                    assert(self.draws@ =~= dr0 + first_true_draws(3, 10, d1, d2, d3, d4));
                }
                let step = animal_step(d1, d2, d3, d4);
                let ghost m_before = moves;
                if let Some(d) = step {
                    self.action_vec.push(GameAction::Go(meow, d));
                    proof {
                        let m0 = moves;
                        moves = m0.push(GameAction::Go(meow, d));
                        assert(self.action_vec@ =~= start + moves);
                        assert(moves.drop_last() =~= m0);
                        assert(actions_of(m0, meow) == actions_of(human_moves, meow));
                        assert(actions_of(human_moves, meow).len() == 0);
                        assert(actions_of(moves, meow) == actions_of(m0, meow).push(GameAction::Go(meow, d)));
                        assert(actions_of(moves, meow) =~= seq![GameAction::Go(meow, d)]);
                        assert forall|e: EntityID| e != meow implies #[trigger] actions_of(moves, e) == actions_of(m0, e) by {
                            assert(actions_of(moves, e) == actions_of(m0, e));
                        }
                        assert(moves.take(human_moves.len() as int) =~= m0.take(human_moves.len() as int));
                        assert forall|i: int| human_moves.len() <= i < moves.len() implies by_animal(types, #[trigger] moves[i]) by {
                            if i < m0.len() {
                                assert(moves[i] == m0[i]);
                            }
                        }
                    }
                }
                proof {
                    let t = animal_turn_of(meow, d1, d2, d3, d4);
                    let a0 = aturns;
                    aturns = a0.push(t);
                    lemma_turns_push(a0, t);
                    assert(moves =~= m_before + t.2);
                    assert(self.draws@ =~= old(self).draws@ + turn_draws(hturns) + turn_draws(aturns));
                    assert(moves =~= turn_moves(hturns) + turn_moves(aturns));
                    lemma_push_no_duplicates(turn_ids(a0), meow);
                    lemma_push_contains(turn_ids(a0), meow);
                    assert(aturns[aturns.len() - 1] == t);
                    assert(animal_turn_of(meow, d1, d2, d3, d4) == t);
                    assert(animal_turn_ok(aturns[aturns.len() - 1]));
                    assert forall|i: int| 0 <= i < aturns.len() implies animal_turn_ok(#[trigger] aturns[i]) by {
                        if i < a0.len() {
                            assert(aturns[i] == a0[i]);
                        }
                    }
                }
            }
            k = k + 1;
        }
        proof {
            let t = old(self).components.ent_types@;
            assert forall|e: EntityID| #![trigger actions_of(moves, e)]
                if e != player && t.contains_key(e) && t[e] is Human && vis.contains(e) && positions.contains_key(e) {
                    human_moves_ok(actions_of(moves, e), e, positions[e], lp_pos)
                } else if e != player && t.contains_key(e) && t[e] is Animal && vis.contains(e) {
                    animal_moves_ok(actions_of(moves, e), e)
                } else {
                    actions_of(moves, e).len() == 0
                } by {
                if t.contains_key(e) && e != player {
                    assert(ids@.to_set().contains(e));
                    assert(ids@.contains(e));
                }
                if stupid_ents@.contains(e) {
                    assert(stupid_ents@.take(stupid_ents@.len() as int) =~= stupid_ents@);
                }
                if conscious_ents@.contains(e) {
                    assert(conscious_ents@.take(conscious_ents@.len() as int) =~= conscious_ents@);
                }
            }
            assert(old(self).ai_moves_ok(fov@, moves));
            assert forall|i: int| 0 <= i < human_moves.len() implies by_human(types, #[trigger] moves[i]) by {
                assert(moves.take(human_moves.len() as int)[i] == moves[i]);
            }
            assert(humans_first(t, moves, human_moves.len() as int));
            assert(stupid_ents@.take(stupid_ents@.len() as int) =~= stupid_ents@);
            assert(old(self).animal_turns_ok(fov@, aturns)) by {
                assert forall|e: EntityID| #[trigger] turn_ids(aturns).contains(e) <==> (e != player
                    && t.contains_key(e) && t[e] is Animal && vis.contains(e)) by {
                    if t.contains_key(e) && e != player {
                        assert(ids@.to_set().contains(e));
                        assert(ids@.contains(e));
                    }
                }
            }
            assert(self.action_vec@ =~= old(self).action_vec@ + turn_moves(hturns) + turn_moves(aturns));
        }
    }
}

} // verus!
