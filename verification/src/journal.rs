//! What the player has seen and been told, and lines between entities.
use vstd::prelude::*;
use crate::ai::{actor, contains_ent};
use crate::app::App;
use crate::outside::{bresenham_line, bresenham_points, line_length};
use crate::world::{ActionResult, EntityID, GameAction, Position, SuccessType};

verus! {

broadcast use vstd::std_specs::hash::group_hash_axioms;

/// The tiles seen so far, followed by those of `fov` not seen before, in
/// order and each once.
pub open spec fn seen_after(seen: Seq<Position>, fov: Seq<Position>) -> Seq<Position>
    decreases fov.len(),
{
    if fov.len() == 0 {
        seen
    } else {
        let before = seen_after(seen, fov.drop_last());
        if before.contains(fov.last()) {
            before
        } else {
            before.push(fov.last())
        }
    }
}

/// The message log after the non-empty `lines` are put at its front, one
/// after the other, so that the last line ends up first.
pub open spec fn log_after(log: Seq<String>, lines: Seq<String>) -> Seq<String>
    decreases lines.len(),
{
    if lines.len() == 0 {
        log
    } else {
        let before = log_after(log, lines.drop_last());
        if lines.last()@.len() > 0 {
            seq![lines.last()] + before
        } else {
            before
        }
    }
}

/// The first `n` elements, or all where there are fewer.
pub open spec fn first_n<T>(s: Seq<T>, n: nat) -> Seq<T> {
    if s.len() <= n {
        s
    } else {
        s.take(n as int)
    }
}

fn same_pos(a: &Position, b: &Position) -> (r: bool)
    ensures
        r == (*a == *b),
{
    a.0 == b.0 && a.1 == b.1
}

/// The log never holds more than a hundred lines, and a non-empty line put
/// last comes first.
pub proof fn lemma_log_after(log: Seq<String>, lines: Seq<String>)
    ensures
        first_n(log_after(log, lines), 100).len() <= 100,
        lines.len() > 0 && lines.last()@.len() > 0 ==> log_after(log, lines)[0] == lines.last(),
        log_after(log, lines).len() >= log.len(),
    decreases lines.len(),
{
    if lines.len() > 0 {
        lemma_log_after(log, lines.drop_last());
    }
}

/// Updating the seen tiles keeps every tile seen before, in place, and
/// adds every tile of the field of view.
pub proof fn lemma_seen_after(seen: Seq<Position>, fov: Seq<Position>)
    ensures
        seen_after(seen, fov).len() >= seen.len(),
        seen_after(seen, fov).take(seen.len() as int) == seen,
        forall|i: int| 0 <= i < fov.len() ==> seen_after(seen, fov).contains(#[trigger] fov[i]),
    decreases fov.len(),
{
    if fov.len() > 0 {
        let init = fov.drop_last();
        lemma_seen_after(seen, init);
        let before = seen_after(seen, init);
        if !before.contains(fov.last()) {
            assert(before.push(fov.last()).take(seen.len() as int) =~= before.take(seen.len() as int));
            assert(before.push(fov.last())[before.len() as int] == fov.last());
        }
        assert forall|i: int| 0 <= i < fov.len() implies seen_after(seen, fov).contains(#[trigger] fov[i]) by {
            if i < fov.len() - 1 {
                assert(init[i] == fov[i]);
                assert(before.contains(init[i]));
                if !before.contains(fov.last()) {
                    let j = choose|j: int| 0 <= j < before.len() && before[j] == fov[i];
                    assert(before.push(fov.last())[j] == fov[i]);
                }
            }
        }
    }
}

/// The distance between two entities is the same both ways, at least one,
/// and one from an entity to itself.
pub proof fn lemma_line_length(a: Position, b: Position)
    ensures
        line_length(a, b) == line_length(b, a),
        line_length(a, b) >= 1,
        line_length(a, a) == 1,
{
}

/// The distance between two entities is the same both ways.
pub proof fn lemma_distance_symmetric(app: App, a: EntityID, b: EntityID)
    ensures
        app.distance(a, b) == app.distance(b, a),
{
    if app.components.positions@.contains_key(a) && app.components.positions@.contains_key(b) {
        lemma_line_length(app.components.positions@[a], app.components.positions@[b]);
    }
}

/// The report an action gets without a handler of its own: a death and a
/// meal succeed as they are; other actions get none here.
pub open spec fn answer(a: GameAction) -> Option<ActionResult> {
    match a {
        GameAction::Death(_) => Some(ActionResult::Success(a, SuccessType::Normal)),
        GameAction::Consume(_, _) => Some(ActionResult::Success(a, SuccessType::Normal)),
        _ => None,
    }
}

/// A death and a meal are answered with success, as they are; no other
/// action is answered here.
pub proof fn lemma_answers(a: GameAction)
    ensures
        a is Death || a is Consume ==> answer(a) == Some(ActionResult::Success(a, SuccessType::Normal)),
        !(a is Death || a is Consume) ==> answer(a) is None,
{
}

/// The reports of the actions `acts` that the player of `app` hears of,
/// given its field of view `fov`, in order.
pub open spec fn heard_reports(app: App, acts: Seq<GameAction>, fov: Seq<Position>) -> Seq<ActionResult>
    decreases acts.len(),
{
    if acts.len() == 0 {
        Seq::empty()
    } else {
        let before = heard_reports(app, acts.drop_last(), fov);
        match answer(acts.last()) {
            Some(r) => if app.reported(actor(acts.last()), fov) {
                before.push(r)
            } else {
                before
            },
            None => before,
        }
    }
}

/// The reports heard of are exactly those of the deaths and meals among
/// `acts` whose subject the player is or sees, each a success of its
/// action, in the order of the actions.
pub proof fn lemma_heard_reports(app: App, acts: Seq<GameAction>, fov: Seq<Position>)
    ensures
        heard_reports(app, acts, fov).len() <= acts.len(),
        forall|i: int|
            0 <= i < heard_reports(app, acts, fov).len() ==> exists|j: int|
                0 <= j < acts.len() && (acts[j] is Death || acts[j] is Consume) && app.reported(actor(acts[j]), fov)
                    && #[trigger] heard_reports(app, acts, fov)[i] == ActionResult::Success(acts[j], SuccessType::Normal),
        forall|j: int|
            0 <= j < acts.len() && (#[trigger] acts[j] is Death || acts[j] is Consume) && app.reported(actor(acts[j]), fov)
                ==> heard_reports(app, acts, fov).contains(ActionResult::Success(acts[j], SuccessType::Normal)),
    decreases acts.len(),
{
    if acts.len() > 0 {
        let init = acts.drop_last();
        lemma_heard_reports(app, init, fov);
        let before = heard_reports(app, init, fov);
        let h = heard_reports(app, acts, fov);
        let a = acts.last();
        assert forall|i: int| 0 <= i < h.len() implies exists|j: int|
            0 <= j < acts.len() && (acts[j] is Death || acts[j] is Consume) && app.reported(actor(acts[j]), fov)
                && #[trigger] h[i] == ActionResult::Success(acts[j], SuccessType::Normal) by {
            if i < before.len() {
                assert(h[i] == before[i]);
                let j = choose|j: int|
                    0 <= j < init.len() && (init[j] is Death || init[j] is Consume) && app.reported(actor(init[j]), fov)
                        && #[trigger] before[i] == ActionResult::Success(init[j], SuccessType::Normal);
                assert(acts[j] == init[j]);
            } else {
                assert(acts[acts.len() - 1] == a);
            }
        }
        assert forall|j: int|
            0 <= j < acts.len() && (#[trigger] acts[j] is Death || acts[j] is Consume) && app.reported(actor(acts[j]), fov)
                implies h.contains(ActionResult::Success(acts[j], SuccessType::Normal)) by {
            let r = ActionResult::Success(acts[j], SuccessType::Normal);
            if j < init.len() {
                assert(init[j] == acts[j]);
                let k = choose|k: int| 0 <= k < before.len() && before[k] == r;
                assert(h[k] == r);
            } else {
                assert(h[h.len() - 1] == r);
            }
        }
    }
}

impl App {
    /// How many tiles the line from `a` to `b` crosses, ends included, where
    /// both stand somewhere.
    pub open spec fn distance(&self, a: EntityID, b: EntityID) -> Option<int> {
        if self.components.positions@.contains_key(a) && self.components.positions@.contains_key(b) {
            Some(line_length(self.components.positions@[a], self.components.positions@[b]))
        } else {
            None
        }
    }

    /// Adds the tiles of `fov`, the player's field of view, to the tiles the
    /// player has seen; nothing changes while the player has no position.
    pub fn update_seen_tiles(&mut self, fov: &Vec<Position>)
        ensures
            final(self).seen_tiles@ == (if old(self).components.positions@.contains_key(old(self).local_player_id) {
                seen_after(old(self).seen_tiles@, fov@)
            } else {
                old(self).seen_tiles@
            }),
            old(self).seen_tiles@.no_duplicates() ==> final(self).seen_tiles@.no_duplicates(),
            final(self).same_but_seen(*old(self)),
    {
        if self.components.positions.get(&self.local_player_id).is_some() {
            let mut i: usize = 0;
            while i < fov.len()
                invariant
                    i <= fov@.len(),
                    self.seen_tiles@ == seen_after(old(self).seen_tiles@, fov@.take(i as int)),
                    old(self).seen_tiles@.no_duplicates() ==> self.seen_tiles@.no_duplicates(),
                    self.same_but_seen(*old(self)),
                decreases fov@.len() - i,
            {
                let p = fov[i];
                proof {
                    assert(fov@.take(i + 1).drop_last() =~= fov@.take(i as int));
                }
                let mut found = false;
                let mut j: usize = 0;
                while j < self.seen_tiles.len()
                    invariant
                        j <= self.seen_tiles@.len(),
                        found <==> exists|k: int| 0 <= k < j && self.seen_tiles@[k] == p,
                    decreases self.seen_tiles@.len() - j,
                {
                    if same_pos(&self.seen_tiles[j], &p) {
                        found = true;
                    }
                    j = j + 1;
                }
                if !found {
                    let ghost before = self.seen_tiles@;
                    self.seen_tiles.push(p);
                    proof {
                        if before.no_duplicates() {
                            assert forall|a: int, b: int| 0 <= a < self.seen_tiles@.len() && 0 <= b < self.seen_tiles@.len() && a != b
                                implies self.seen_tiles@[a] != self.seen_tiles@[b] by {
                                if a < before.len() && b < before.len() {
                                    assert(self.seen_tiles@[a] == before[a]);
                                    assert(self.seen_tiles@[b] == before[b]);
                                } else if a == before.len() {
                                    assert(self.seen_tiles@[b] == before[b]);
                                } else {
                                    assert(self.seen_tiles@[a] == before[a]);
                                }
                            }
                        }
                    }
                }
                i = i + 1;
            }
            proof {
                assert(fov@.take(fov@.len() as int) =~= fov@);
            }
        }
    }

    /// Everything but the seen tiles is the same in the two states.
    pub open spec fn same_but_seen(self, other: App) -> bool {
        &&& self.entity_counter == other.entity_counter
        &&& self.components == other.components
        &&& self.input_state == other.input_state
        &&& self.action_results == other.action_results
        &&& self.action_result_strings == other.action_result_strings
        &&& self.selected_menu == other.selected_menu
        &&& self.item_list_state == other.item_list_state
        &&& self.exit == other.exit
        &&& self.game_map == other.game_map
        &&& self.action_vec == other.action_vec
        &&& self.local_player_id == other.local_player_id
        &&& self.small_rng == other.small_rng
        &&& self.draws == other.draws
    }

    /// Everything but the reports and the message log is the same in the
    /// two states.
    pub open spec fn same_but_log(self, other: App) -> bool {
        &&& self.entity_counter == other.entity_counter
        &&& self.components == other.components
        &&& self.input_state == other.input_state
        &&& self.selected_menu == other.selected_menu
        &&& self.item_list_state == other.item_list_state
        &&& self.exit == other.exit
        &&& self.game_map == other.game_map
        &&& self.action_vec == other.action_vec
        &&& self.local_player_id == other.local_player_id
        &&& self.seen_tiles == other.seen_tiles
        &&& self.small_rng == other.small_rng
        &&& self.draws == other.draws
    }

    /// Moves the turn's reports into the message log. `lines[i]` is the text
    /// of the report `action_results[i]`; the reports are cleared, each
    /// non-empty line is put at the front of the log in turn, and the log is
    /// cut to its first hundred lines.
    pub fn gen_action_result_strings(&mut self, lines: Vec<String>)
        requires
            lines@.len() == old(self).action_results@.len(),
        ensures
            final(self).action_results@ == Seq::<ActionResult>::empty(),
            final(self).action_result_strings@ == first_n(log_after(old(self).action_result_strings@, lines@), 100),
            final(self).same_but_log(*old(self)),
    {
        self.action_results.clear();
        let ghost start = self.action_result_strings@;
        let mut i: usize = 0;
        let ghost all = lines@;
        for linija in it: lines.into_iter()
            invariant
                it.seq() == all,
                self.action_result_strings@ == log_after(start, all.take(it.index())),
                self.action_results@ == Seq::<ActionResult>::empty(),
                self.same_but_log(*old(self)),
        {
            proof {
                assert(all.take(it.index() + 1).drop_last() =~= all.take(it.index()));
            }
            if !linija.as_str().is_empty() {
                self.action_result_strings.push_front(linija);
            }
        }
        proof {
            assert(all.take(all.len() as int) =~= all);
        }
        self.action_result_strings.truncate(100);
        proof {
            let l = log_after(start, all);
            if l.len() > 100 {
                assert(l.subrange(0, 100) =~= l.take(100));
            }
        }
    }

    /// Every field but the turn's reports is the same in the two states.
    pub open spec fn same_but_reports(self, other: App) -> bool {
        &&& self.entity_counter == other.entity_counter
        &&& self.components == other.components
        &&& self.input_state == other.input_state
        &&& self.action_result_strings == other.action_result_strings
        &&& self.selected_menu == other.selected_menu
        &&& self.item_list_state == other.item_list_state
        &&& self.exit == other.exit
        &&& self.game_map == other.game_map
        &&& self.action_vec == other.action_vec
        &&& self.local_player_id == other.local_player_id
        &&& self.seen_tiles == other.seen_tiles
        &&& self.small_rng == other.small_rng
        &&& self.draws == other.draws
    }

    /// Whether the player hears of what `subject` does: it is the player
    /// itself, or one of the entities the player sees.
    pub open spec fn reported(&self, subject: EntityID, fov: Seq<Position>) -> bool {
        subject == self.local_player_id || self.visible_from(self.local_player_id, fov).contains(subject)
    }

    /// Keeps the report `r` of an action of `subject` for the message log
    /// where the player hears of it, and drops it otherwise. `fov` is the
    /// player's field of view.
    pub fn keep_visible_result(&mut self, subject: EntityID, r: ActionResult, fov: &Vec<Position>)
        ensures
            final(self).action_results@ == (if old(self).reported(subject, fov@) {
                old(self).action_results@.push(r)
            } else {
                old(self).action_results@
            }),
            final(self).same_but_reports(*old(self)),
    {
        let player = self.local_player_id;
        let keep = if subject == player {
            true
        } else {
            let vis = self.generate_visible_ents_from_ent(&player, fov);
            contains_ent(&vis, subject)
        };
        if keep {
            self.action_results.push(r);
        }
    }

    /// Every field but the turn's reports and the action queue is the same
    /// in the two states.
    pub open spec fn same_but_turn(self, other: App) -> bool {
        &&& self.entity_counter == other.entity_counter
        &&& self.components == other.components
        &&& self.input_state == other.input_state
        &&& self.action_result_strings == other.action_result_strings
        &&& self.selected_menu == other.selected_menu
        &&& self.item_list_state == other.item_list_state
        &&& self.exit == other.exit
        &&& self.game_map == other.game_map
        &&& self.local_player_id == other.local_player_id
        &&& self.seen_tiles == other.seen_tiles
        &&& self.small_rng == other.small_rng
        &&& self.draws == other.draws
    }

    /// Empties the action queue and reports what the player hears of: a
    /// death or a meal succeeds as it is, and its report is kept where the
    /// player is its subject or sees it. Moves, item handling and attacks
    /// have their own rules, which this library does not hold; they leave
    /// the queue without a report. `fov` is the player's field of view.
    pub fn handle_actions(&mut self, fov: &Vec<Position>)
        ensures
            final(self).action_vec@ == Seq::<GameAction>::empty(),
            final(self).action_results@ == old(self).action_results@ + heard_reports(*old(self), old(self).action_vec@, fov@),
            final(self).same_but_turn(*old(self)),
    {
        let mut queued: Vec<GameAction> = Vec::new();
        std::mem::swap(&mut queued, &mut self.action_vec);
        let ghost acts = queued@;
        proof {
            assert(self.action_results@ =~= old(self).action_results@ + heard_reports(*old(self), acts.take(0), fov@));
        }
        let mut i: usize = 0;
        while i < queued.len()
            invariant
                i <= queued@.len(),
                acts == queued@,
                acts == old(self).action_vec@,
                self.action_vec@ == Seq::<GameAction>::empty(),
                self.action_results@ == old(self).action_results@ + heard_reports(*old(self), acts.take(i as int), fov@),
                self.same_but_turn(*old(self)),
            decreases queued@.len() - i,
        {
            let a = queued[i];
            let ghost before = self.action_results@;
            match a {
                GameAction::Death(subject) => {
                    self.keep_visible_result(subject, ActionResult::Success(a, SuccessType::Normal), fov);
                },
                GameAction::Consume(subject, _) => {
                    self.keep_visible_result(subject, ActionResult::Success(a, SuccessType::Normal), fov);
                },
                _ => {},
            }
            proof {
                assert(acts.take(i + 1).drop_last() =~= acts.take(i as int));
                assert(acts.take(i + 1).last() == a);
                assert(self.action_results@ =~= old(self).action_results@ + heard_reports(*old(self), acts.take(i + 1), fov@));
            }
            i = i + 1;
        }
        proof {
            assert(acts.take(acts.len() as int) =~= acts);
        }
    }

    /// The newest twenty lines of the message log, newest first.
    pub fn render_event_paragraph(&self) -> (lines: Vec<String>)
        ensures
            lines@ == first_n(self.action_result_strings@, 20),
    {
        let mut line_vec: Vec<String> = Vec::new();
        let n = self.action_result_strings.len();
        let mut i: usize = 0;
        while i < 20 && i < n
            invariant
                i <= 20,
                i <= n,
                n == self.action_result_strings@.len(),
                line_vec@ == self.action_result_strings@.take(i as int),
            decreases 20 - i,
        {
            line_vec.push(self.action_result_strings[i].clone());
            proof {
                assert(self.action_result_strings@.take(i + 1) =~= self.action_result_strings@.take(i as int).push(self.action_result_strings@[i as int]));
            }
            i = i + 1;
        }
        proof {
            if n <= 20 {
                assert(self.action_result_strings@.take(n as int) =~= self.action_result_strings@);
            }
        }
        line_vec
    }

    /// The line of tiles from `subj` to `obj`, where both stand somewhere.
    pub fn line_from_ent_to_ent(&self, subj: &EntityID, obj: &EntityID) -> (line: Option<Vec<Position>>)
        requires
            self.placed_in_range(*subj),
            self.placed_in_range(*obj),
        ensures
            match line {
                Some(l) => self.components.positions@.contains_key(*subj) && self.components.positions@.contains_key(*obj)
                    && l@ == bresenham_line(self.components.positions@[*subj], self.components.positions@[*obj])
                    && l@.len() == line_length(self.components.positions@[*subj], self.components.positions@[*obj]),
                None => !(self.components.positions@.contains_key(*subj) && self.components.positions@.contains_key(*obj)),
            },
    {
        if let Some(startik) = self.components.positions.get(subj) {
            if let Some(endik) = self.components.positions.get(obj) {
                return Some(bresenham_points(*startik, *endik));
            }
        }
        None
    }

    /// How many tiles the line from `subj` to `obj` crosses, ends included,
    /// where both stand somewhere.
    pub fn distance_from_ent_to_ent(&self, subj: &EntityID, obj: &EntityID) -> (d: Option<i32>)
        requires
            self.placed_in_range(*subj),
            self.placed_in_range(*obj),
        ensures
            match d {
                Some(n) => self.distance(*subj, *obj) == Some(n as int),
                None => self.distance(*subj, *obj) is None,
            },
    {
        if let Some(line) = self.line_from_ent_to_ent(subj, obj) {
            let mut distance: i32 = 0;
            let mut i: usize = 0;
            while i < line.len()
                invariant
                    i <= line@.len(),
                    distance == i,
                    line@.len() <= 0x4000_0001,
                decreases line@.len() - i,
            {
                distance = distance + 1;
                i = i + 1;
            }
            Some(distance)
        } else {
            None
        }
    }
}

} // verus!
