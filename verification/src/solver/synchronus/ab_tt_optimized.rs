//! Alpha-beta search with a table keyed by one word, and a driver that
//! closes in on the value with windows of width one.
use crate::bitboard::{lemma_value_of_none, points};
use crate::bits::is_card;
use crate::solver::buffer::{buffer_get, buffer_len, successor_items};
use crate::solver::rules::{
    at_trick_start, attains, bounds_moves, game_value, hash_key, is_successor, legal_moves,
    lemma_hand_sizes, lemma_key_injective, lemma_listed, lemma_next_valid, lemma_value_bounds,
    lemma_value_is_extremum, move_value, next_state, pot, successor_entry, valid_state,
};
use crate::solver::synchronus::ab_tt::{Bounds, entry_sound, entry_value, window_result};
use crate::solver::synchronus::local_state::LState;
use crate::solver::GlobalState;
use std::collections::HashMap;
use vstd::prelude::*;

verus! {

broadcast use vstd::std_specs::hash::group_hash_axioms;

/// Every entry of the table says what is true of the state whose key it
/// stands under.
pub open spec fn table_sound(g: GlobalState, table: Map<u32, (i8, Bounds)>) -> bool {
    forall|s: LState|
        valid_state(g, s) && at_trick_start(s) && #[trigger] table.contains_key(hash_key(g, s))
            ==> entry_sound(table[hash_key(g, s)].0, table[hash_key(g, s)].1, game_value(g, s))
}

/// `pos` is the key of a state at the start of a trick of whose value the
/// entry says what is true.
pub open spec fn sound_at(g: GlobalState, pos: u32, score: i8, bound: Bounds) -> bool {
    exists|s: LState|
        #[trigger] valid_state(g, s) && at_trick_start(s) && hash_key(g, s) == pos && entry_sound(
            score,
            bound,
            game_value(g, s),
        )
}

/// `pos` is the key of a state at the start of a trick.
pub open spec fn is_start_key(g: GlobalState, pos: u32) -> bool {
    exists|s: LState| #[trigger] valid_state(g, s) && at_trick_start(s) && hash_key(g, s) == pos
}

/// Every key of `after` was a key of `before` or is the key of a state at
/// the start of a trick: nothing is kept for a state with a card on the
/// table.
pub open spec fn gains_start_keys(
    g: GlobalState,
    before: Map<u32, (i8, Bounds)>,
    after: Map<u32, (i8, Bounds)>,
) -> bool {
    forall|k: u32| #[trigger] after.contains_key(k) ==> before.contains_key(k) || is_start_key(g, k)
}

/// A sound table stays sound when a sound entry is put in.
pub proof fn lemma_table_insert(
    g: GlobalState,
    table: Map<u32, (i8, Bounds)>,
    pos: u32,
    score: i8,
    bound: Bounds,
)
    requires
        g.has_marks(),
        table_sound(g, table),
        sound_at(g, pos, score, bound),
    ensures
        table_sound(g, table.insert(pos, (score, bound))),
{
    let s0 = choose|s: LState|
        #[trigger] valid_state(g, s) && at_trick_start(s) && hash_key(g, s) == pos && entry_sound(
            score,
            bound,
            game_value(g, s),
        );
    let after = table.insert(pos, (score, bound));
    assert forall|s: LState|
        valid_state(g, s) && at_trick_start(s) && #[trigger] after.contains_key(
            hash_key(g, s),
        ) implies entry_sound(
        after[hash_key(g, s)].0,
        after[hash_key(g, s)].1,
        game_value(g, s),
    ) by {
        if hash_key(g, s) == pos {
            lemma_key_injective(g, s, s0);
        } else {
            assert(table.contains_key(hash_key(g, s)));
        }
    }
}

/// A solver for one game, with the table of the states it has met.
pub struct EnhancedSolver {
    pub global_state: GlobalState,
    pub look_up_table: HashMap<u32, (i8, Bounds)>,
}

impl EnhancedSolver {
    /// The game is in order, its skat has the two cards that mark the
    /// players, and the table says only what is true.
    pub open spec fn wf(&self) -> bool {
        &&& self.global_state.wf()
        &&& self.global_state.has_marks()
        &&& table_sound(self.global_state, self.look_up_table@)
    }

    /// A solver with an empty table. The solver marks the player to move
    /// by the cards of the skat; for a game without a skat it puts the two
    /// lowest cards that are in no hand in its place. The states of the
    /// game and their values stay the same (`lemma_marks_keep_game`).
    pub fn new(global_state: GlobalState) -> (solver: EnhancedSolver)
        requires
            global_state.wf(),
        ensures
            solver.wf(),
            solver.global_state == global_state.with_marks(),
            forall|k: u32| !solver.look_up_table@.contains_key(k),
    {
        EnhancedSolver { global_state: global_state.mark_players(), look_up_table: HashMap::new() }
    }

    fn try_insert(&mut self, local_state: &LState, score: i8, bound: Bounds)
        requires
            old(self).wf(),
            valid_state(old(self).global_state, *local_state),
            local_state.current_suit.is_none() ==> entry_sound(
                score,
                bound,
                game_value(old(self).global_state, *local_state),
            ),
        ensures
            final(self).wf(),
            final(self).global_state == old(self).global_state,
            final(self).look_up_table@ == (if local_state.current_suit.is_none() {
                old(self).look_up_table@.insert(
                    hash_key(old(self).global_state, *local_state),
                    (score, bound),
                )
            } else {
                old(self).look_up_table@
            }),
            gains_start_keys(
                old(self).global_state,
                old(self).look_up_table@,
                final(self).look_up_table@,
            ),
    {
        if local_state.is_full_node() {
            let pos = local_state.get_hash_better(&self.global_state);
            self.insert(pos, score, bound);
        }
    }

    fn insert(&mut self, pos: u32, score: i8, bound: Bounds)
        requires
            old(self).wf(),
            sound_at(old(self).global_state, pos, score, bound),
        ensures
            final(self).wf(),
            final(self).global_state == old(self).global_state,
            final(self).look_up_table@ == old(self).look_up_table@.insert(pos, (score, bound)),
            gains_start_keys(
                old(self).global_state,
                old(self).look_up_table@,
                final(self).look_up_table@,
            ),
    {
        proof {
            lemma_table_insert(self.global_state, self.look_up_table@, pos, score, bound);
            let s = choose|s: LState|
                #[trigger] valid_state(self.global_state, s) && at_trick_start(s) && hash_key(
                    self.global_state,
                    s,
                ) == pos && entry_sound(score, bound, game_value(self.global_state, s));
            assert(is_start_key(self.global_state, pos));
        }
        self.look_up_table.insert(pos, (score, bound));
    }

    /// The points that the player who plays alone is sure of from
    /// `local_state` on, together with the points of the skat. The value is
    /// closed in on by searches with windows of width one.
    pub fn solve(&mut self, local_state: LState) -> (total: u8)
        requires
            old(self).wf(),
            valid_state(old(self).global_state, local_state),
        ensures
            final(self).wf(),
            final(self).global_state == old(self).global_state,
            total == game_value(old(self).global_state, local_state) + old(
                self,
            ).global_state.skat_points,
            total <= 120,
    {
        let ghost g = self.global_state;
        let ghost value = game_value(g, local_state);
        proof {
            lemma_value_bounds(g, local_state);
            lemma_hand_sizes(g, local_state);
            lemma_value_of_none();
        }
        let mut min: i8 = 0;
        let mut max: i8 = local_state.remaining_cards.get_cards_points() as i8;
        if local_state.current_played_cards.0.0 != 0 {
            max = max + local_state.current_played_cards.0.get_point() as i8;
        }
        if local_state.current_played_cards.1.0 != 0 {
            max = max + local_state.current_played_cards.1.get_point() as i8;
        }
        while min < max
            invariant
                self.wf(),
                self.global_state == g,
                g == old(self).global_state,
                valid_state(g, local_state),
                value == game_value(g, local_state),
                0 <= min <= value <= max <= pot(local_state),
                pot(local_state) + g.skat_points <= 120,
            decreases max - min,
        {
            let mut med: i8 = min + (max - min) / 2;
            if med <= 0 && min / 2 < med {
                med = min / 2;
            } else if med >= 0 && max / 2 > med {
                med = max / 2;
            }
            let r = self.ab_tt(local_state, med, med + 1);
            if r <= med {
                max = r;
            } else {
                min = r;
            }
        }
        min as u8 + self.global_state.skat_points
    }

    /// Searches `local_state` with the window from `agoof` to `bgoof`
    /// for the points that the player who plays alone is sure of from there
    /// on. The window must leave room for the points already made on the
    /// way: `agoof` is no less than the points still to be had minus 120.
    /// At the start of a trick the result is then in the table, as the
    /// value or as a bound of it. Where no card is left the result is 0
    /// and the table stays as it is; nothing is ever kept for a state with
    /// a card on the table.
    pub fn ab_tt(&mut self, local_state: LState, agoof: i8, bgoof: i8) -> (r: i8)
        requires
            old(self).wf(),
            valid_state(old(self).global_state, local_state),
            pot(local_state) - 120 <= agoof < bgoof <= 120,
        ensures
            final(self).wf(),
            final(self).global_state == old(self).global_state,
            window_result(
                agoof as int,
                bgoof as int,
                r as int,
                game_value(old(self).global_state, local_state),
            ),
            r >= agoof || r >= 0,
            r <= bgoof || r <= pot(local_state),
            local_state.current_suit.is_none() && local_state.remaining_cards.0 != 0 ==> final(self).look_up_table@.contains_key(hash_key(old(self).global_state, local_state)) && final(self).look_up_table@[hash_key(old(self).global_state, local_state)].0 == r,
            local_state.remaining_cards.0 == 0 ==> r == 0 && final(self).look_up_table@ == old(
                self,
            ).look_up_table@,
            gains_start_keys(
                old(self).global_state,
                old(self).look_up_table@,
                final(self).look_up_table@,
            ),
        decreases local_state.remaining_cards.0,
    {
        let ghost g = self.global_state;
        let ghost value = game_value(g, local_state);
        proof {
            lemma_value_bounds(g, local_state);
            lemma_hand_sizes(g, local_state);
        }
        if local_state.is_terminal() {
            return 0;
        }
        let mut new_alpha = agoof;
        let mut new_beta = bgoof;
        if local_state.is_full_node() {
            let pos = local_state.get_hash_better(&self.global_state);
            match self.look_up_table.get(&pos) {
                Some(result) => {
                    let score = result.0;
                    assert(at_trick_start(local_state));
                    assert(self.look_up_table@.contains_key(hash_key(g, local_state)));
                    assert(entry_sound(score, result.1, value));
                    match result.1 {
                        Bounds::Valid => {
                            return score;
                        },
                        Bounds::LowerBound => {
                            if score > new_alpha {
                                new_alpha = score;
                            }
                        },
                        Bounds::UpperBound => {
                            if score < new_beta {
                                new_beta = score;
                            }
                        },
                    }
                    if new_alpha >= new_beta {
                        return score;
                    }
                },
                None => {},
            }
        }
        let is_max = local_state.is_max_node(&self.global_state);
        let mut result: i8 = if is_max {
            new_alpha
        } else {
            new_beta
        };
        let next = local_state.get_next_states(&self.global_state);
        let n = buffer_len(&next);
        let ghost items = successor_items(next);
        let ghost legal = legal_moves(g, local_state);
        proof {
            lemma_listed(g, local_state, items);
            lemma_value_is_extremum(g, local_state);
        }
        let mut i: usize = 0;
        while i < n
            invariant
                self.wf(),
                self.global_state == g,
                g == old(self).global_state,
                gains_start_keys(g, old(self).look_up_table@, self.look_up_table@),
                valid_state(g, local_state),
                local_state.remaining_cards.0 != 0,
                items == successor_items(next),
                legal == legal_moves(g, local_state),
                value == game_value(g, local_state),
                is_max == (local_state.current_player == g.alone_player),
                n == items.len(),
                i <= n,
                forall|k: int|
                    0 <= k < items.len() ==> is_successor(g, local_state, #[trigger] items[k], legal),
                bounds_moves(g, local_state, legal, value),
                agoof <= new_alpha < new_beta <= bgoof,
                new_alpha == agoof || value >= new_alpha,
                new_beta == bgoof || value <= new_beta,
                pot(local_state) - 120 <= agoof,
                bgoof <= 120,
                0 <= value <= pot(local_state) <= 120,
                is_max ==> new_alpha <= result < new_beta && (result == new_alpha || value
                    >= result),
                !is_max ==> new_alpha < result <= new_beta && (result == new_beta || value
                    <= result),
                forall|k: int|
                    0 <= k < i ==> if is_max {
                        entry_value(g, #[trigger] items[k]) <= result
                    } else {
                        entry_value(g, items[k]) >= result
                    },
            decreases n - i,
        {
            let entry = buffer_get(&next, i);
            let next_state = entry.0;
            let achieved_points = entry.2;
            let t_q = achieved_points as i8;
            proof {
                let c = choose|c: u32|
                    is_card(c) && c & legal == c && items[i as int] == #[trigger] successor_entry(
                        g,
                        local_state,
                        c,
                    );
                assert(is_successor(g, local_state, items[i as int], legal));
                lemma_next_valid(g, local_state, c);
                lemma_value_bounds(g, next_state);
                assert(entry_value(g, entry) == move_value(g, local_state, c));
            }
            if is_max {
                let succ_val = t_q + self.ab_tt(next_state, result - t_q, new_beta - t_q);
                if succ_val > result {
                    result = succ_val;
                }
                if result >= new_beta {
                    self.try_insert(&local_state, result, Bounds::LowerBound);
                    return result;
                }
            } else {
                let succ_val = t_q + self.ab_tt(next_state, new_alpha - t_q, result - t_q);
                if succ_val < result {
                    result = succ_val;
                }
                if result <= new_alpha {
                    self.try_insert(&local_state, result, Bounds::UpperBound);
                    return result;
                }
            }
            i = i + 1;
        }
        proof {
            let c = choose|c: u32|
                is_card(c) && c & legal == c && #[trigger] move_value(g, local_state, c) == value;
            assert(attains(g, local_state, legal, value));
            assert(items.contains(successor_entry(g, local_state, c)));
            let k = choose|k: int|
                0 <= k < items.len() && items[k] == successor_entry(g, local_state, c);
            lemma_next_valid(g, local_state, c);
            assert(entry_value(g, items[k]) == move_value(g, local_state, c));
        }
        if !local_state.is_full_node() {
            return result;
        }
        assert(at_trick_start(local_state));
        let pos = local_state.get_hash_better(&self.global_state);
        if is_max {
            if result != agoof {
                assert(valid_state(g, local_state) && entry_sound(result, Bounds::Valid, value));
                self.insert(pos, result, Bounds::Valid);
            } else {
                assert(valid_state(g, local_state) && entry_sound(
                    result,
                    Bounds::UpperBound,
                    value,
                ));
                self.insert(pos, result, Bounds::UpperBound);
            }
        } else if result != bgoof {
            assert(valid_state(g, local_state) && entry_sound(result, Bounds::Valid, value));
            self.insert(pos, result, Bounds::Valid);
        } else {
            assert(valid_state(g, local_state) && entry_sound(result, Bounds::LowerBound, value));
            self.insert(pos, result, Bounds::LowerBound);
        }
        result
    }
}

} // verus!
