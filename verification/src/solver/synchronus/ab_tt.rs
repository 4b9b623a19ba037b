//! Alpha-beta search with a table of the states met, keyed by the cards
//! not yet played and the player to move.
use crate::bits::is_card;
use crate::solver::buffer::{buffer_get, buffer_len, successor_items};
use crate::solver::rules::{successors, 
    at_trick_start, attains, bounds_moves, game_value, is_successor, legal_moves, lemma_hand_sizes,
    lemma_listed, lemma_next_valid, lemma_value_bounds, lemma_value_is_extremum, move_value, pot,
    Successor, successor_entry, valid_state,
};
use crate::solver::synchronus::local_state::LState;
use crate::solver::{GlobalState, Player};
use std::collections::HashMap;
use vstd::prelude::*;

verus! {

broadcast use vstd::std_specs::hash::group_hash_axioms;

/// What a score in the table says of the value of a state: that it is
/// the value, or no more than the value, or no less.
#[derive(Debug, Clone, Copy, PartialEq, Eq, Structural)]
pub enum Bounds {
    Valid,
    LowerBound,
    UpperBound,
}

/// The entry says of `value` what is true.
pub open spec fn entry_sound(score: i8, bound: Bounds, value: int) -> bool {
    match bound {
        Bounds::Valid => score == value,
        Bounds::LowerBound => score <= value,
        Bounds::UpperBound => score >= value,
    }
}

/// What a search with the window from `alpha` to `beta` says of `value`
/// by returning `r`: inside the window `r` is the value; at or below
/// `alpha` the value is no more than `r`; at or above `beta` no less.
pub open spec fn window_result(alpha: int, beta: int, r: int, value: int) -> bool {
    &&& r <= alpha ==> value <= r
    &&& r >= beta ==> value >= r
    &&& alpha < r < beta ==> value == r
}

/// What the move `e` is worth to the player who plays alone.
pub open spec fn entry_value(g: GlobalState, e: Successor) -> int {
    e.2 + game_value(g, e.0)
}


/// Among the moves of `items`, the move at place `j` is the first that is
/// worth `worth`, and every move before it is worth less to the side that
/// moves.
pub open spec fn first_best_at(
    g: GlobalState,
    s: LState,
    items: Seq<Successor>,
    worth: int,
    j: int,
) -> bool {
    &&& 0 <= j < items.len()
    &&& entry_value(g, items[j]) == worth
    &&& forall|k: int|
        0 <= k < j ==> if s.current_player == g.alone_player {
            entry_value(g, #[trigger] items[k]) < worth
        } else {
            entry_value(g, items[k]) > worth
        }
}

/// `chosen` is the state after the first move, from the lowest card up,
/// that is worth `worth`.
pub open spec fn picks_lowest(g: GlobalState, s: LState, worth: int, chosen: LState) -> bool {
    exists|j: int|
        #[trigger] first_best_at(g, s, successors(g, s, legal_moves(g, s)), worth, j) && chosen
            == successors(g, s, legal_moves(g, s))[j].0
}

/// The cards not yet played and the player to move as one number: the
/// cards in the lower 32 bits, the player above them.
pub open spec fn pair_key(key: (u32, Player)) -> u64 {
    (key.0 + 0x1_0000_0000 * (match key.1 {
        Player::One => 0int,
        Player::Two => 1int,
        Player::Three => 2int,
    })) as u64
}

/// Every entry of the table says what is true of the state whose cards
/// and player it stands under.
pub open spec fn pair_table_sound(g: GlobalState, table: Map<u64, (i8, Bounds)>) -> bool {
    forall|s: LState|
        valid_state(g, s) && at_trick_start(s) && #[trigger] table.contains_key(
            pair_key((s.remaining_cards.0, s.current_player)),
        ) ==> entry_sound(
            table[pair_key((s.remaining_cards.0, s.current_player))].0,
            table[pair_key((s.remaining_cards.0, s.current_player))].1,
            game_value(g, s),
        )
}

/// `pos` stands for the cards and the player of a state at the start of a
/// trick.
pub open spec fn is_pair_key(g: GlobalState, pos: u64) -> bool {
    exists|s: LState|
        #[trigger] valid_state(g, s) && at_trick_start(s) && pair_key(
            (s.remaining_cards.0, s.current_player),
        ) == pos
}

/// Every key of `after` was a key of `before` or stands for a state at
/// the start of a trick: nothing is kept for a state with a card on the
/// table.
pub open spec fn gains_pair_keys(
    g: GlobalState,
    before: Map<u64, (i8, Bounds)>,
    after: Map<u64, (i8, Bounds)>,
) -> bool {
    forall|k: u64| #[trigger] after.contains_key(k) ==> before.contains_key(k) || is_pair_key(g, k)
}

/// A sound table stays sound when a sound entry is put in for a state.
pub proof fn lemma_pair_table_insert(
    g: GlobalState,
    table: Map<u64, (i8, Bounds)>,
    s0: LState,
    score: i8,
    bound: Bounds,
)
    requires
        pair_table_sound(g, table),
        valid_state(g, s0),
        at_trick_start(s0),
        entry_sound(score, bound, game_value(g, s0)),
    ensures
        pair_table_sound(
            g,
            table.insert(pair_key((s0.remaining_cards.0, s0.current_player)), (score, bound)),
        ),
{
    let pos = pair_key((s0.remaining_cards.0, s0.current_player));
    let after = table.insert(pos, (score, bound));
    assert forall|s: LState|
        valid_state(g, s) && at_trick_start(s) && #[trigger] after.contains_key(
            pair_key((s.remaining_cards.0, s.current_player)),
        ) implies entry_sound(
        after[pair_key((s.remaining_cards.0, s.current_player))].0,
        after[pair_key((s.remaining_cards.0, s.current_player))].1,
        game_value(g, s),
    ) by {
        if pair_key((s.remaining_cards.0, s.current_player)) == pos {
            assert(s.remaining_cards.0 == s0.remaining_cards.0);
            assert(s.current_player == s0.current_player);
            assert(s.remaining_cards == s0.remaining_cards);
            assert(s.current_played_cards.0 == s0.current_played_cards.0);
            assert(s.current_played_cards.1 == s0.current_played_cards.1);
            assert(s.current_played_cards == s0.current_played_cards);
            assert(s == s0);
        } else {
            assert(table.contains_key(pair_key((s.remaining_cards.0, s.current_player))));
        }
    }
}

/// The number that stands for a pair of cards and player.
pub fn pack_key(key: (u32, Player)) -> (pos: u64)
    ensures
        pos == pair_key(key),
{
    let cards: u64 = key.0 as u64;
    match key.1 {
        Player::One => cards,
        Player::Two => cards + 0x1_0000_0000,
        Player::Three => cards + 0x2_0000_0000,
    }
}

/// A solver for one game, with the table of the states it has met.
pub struct DefaultSolver {
    pub global_state: GlobalState,
    pub look_up_table: HashMap<u64, (i8, Bounds)>,
}

impl DefaultSolver {
    /// The game is in order and the table says only what is true.
    pub open spec fn wf(&self) -> bool {
        self.global_state.wf() && pair_table_sound(self.global_state, self.look_up_table@)
    }

    /// A solver with an empty table.
    pub fn new(global_state: GlobalState) -> (solver: DefaultSolver)
        requires
            global_state.wf(),
        ensures
            solver.wf(),
            solver.global_state == global_state,
            forall|k: u64| !solver.look_up_table@.contains_key(k),
    {
        DefaultSolver { global_state, look_up_table: HashMap::new() }
    }

    /// The points that the player who plays alone is sure of from
    /// `local_state` on, together with the points of the skat.
    pub fn solve(&mut self, local_state: LState) -> (total: i8)
        requires
            old(self).wf(),
            valid_state(old(self).global_state, local_state),
        ensures
            final(self).wf(),
            final(self).global_state == old(self).global_state,
            total == game_value(old(self).global_state, local_state) + old(
                self,
            ).global_state.skat_points,
            0 <= total <= 120,
    {
        proof {
            lemma_value_bounds(self.global_state, local_state);
            lemma_hand_sizes(self.global_state, local_state);
        }
        self.ab_tt(local_state, 0, 120) + self.global_state.skat_points as i8
    }

    fn try_insert(&mut self, local_state: &LState, score: i8, bound: Bounds)
        requires
            old(self).wf(),
            valid_state(old(self).global_state, *local_state),
            local_state.current_suit.is_none() ==> entry_sound(
                score,
                bound,
                game_value(old(self).global_state, *local_state),
            ),
        ensures
            final(self).wf(),
            final(self).global_state == old(self).global_state,
            final(self).look_up_table@ == (if local_state.current_suit.is_none() {
                old(self).look_up_table@.insert(
                    pair_key((local_state.remaining_cards.0, local_state.current_player)),
                    (score, bound),
                )
            } else {
                old(self).look_up_table@
            }),
            gains_pair_keys(
                old(self).global_state,
                old(self).look_up_table@,
                final(self).look_up_table@,
            ),
    {
        if local_state.is_full_node() {
            proof {
                assert(valid_state(self.global_state, *local_state) && at_trick_start(
                    *local_state,
                ));
                assert(is_pair_key(
                    self.global_state,
                    pair_key((local_state.remaining_cards.0, local_state.current_player)),
                ));
                lemma_pair_table_insert(
                    self.global_state,
                    self.look_up_table@,
                    *local_state,
                    score,
                    bound,
                );
            }
            self.look_up_table.insert(pack_key(local_state.get_hash()), (score, bound));
        }
    }

    /// Searches `local_state` with the window from `agoof` to `bgoof`
    /// for the points that the player who plays alone is sure of from there
    /// on. The window must leave room for the points already made on the
    /// way: `agoof` is no less than the points still to be had minus 120.
    /// At the start of a trick the result is then in the table, as the
    /// value or as a bound of it. Where no card is left the result is 0
    /// and the table stays as it is; nothing is ever kept for a state with
    /// a card on the table.
    pub fn ab_tt(&mut self, local_state: LState, agoof: i8, bgoof: i8) -> (r: i8)
        requires
            old(self).wf(),
            valid_state(old(self).global_state, local_state),
            pot(local_state) - 120 <= agoof < bgoof <= 120,
        ensures
            final(self).wf(),
            final(self).global_state == old(self).global_state,
            window_result(
                agoof as int,
                bgoof as int,
                r as int,
                game_value(old(self).global_state, local_state),
            ),
            r >= agoof || r >= 0,
            r <= bgoof || r <= pot(local_state),
            local_state.current_suit.is_none() && local_state.remaining_cards.0 != 0 ==> final(self).look_up_table@.contains_key(
                pair_key((local_state.remaining_cards.0, local_state.current_player)),
            ) && final(self).look_up_table@[pair_key(
                (local_state.remaining_cards.0, local_state.current_player),
            )].0 == r,
            local_state.remaining_cards.0 == 0 ==> r == 0 && final(self).look_up_table@ == old(
                self,
            ).look_up_table@,
            gains_pair_keys(
                old(self).global_state,
                old(self).look_up_table@,
                final(self).look_up_table@,
            ),
        decreases local_state.remaining_cards.0,
    {
        let ghost g = self.global_state;
        let ghost value = game_value(g, local_state);
        proof {
            lemma_value_bounds(g, local_state);
            lemma_hand_sizes(g, local_state);
        }
        if local_state.is_terminal() {
            return 0;
        }
        let mut new_alpha = agoof;
        let mut new_beta = bgoof;
        if local_state.is_full_node() {
            let pos = pack_key(local_state.get_hash());
            match self.look_up_table.get(&pos) {
                Some(result) => {
                    let score = result.0;
                    assert(at_trick_start(local_state));
                    assert(self.look_up_table@.contains_key(
                        pair_key((local_state.remaining_cards.0, local_state.current_player)),
                    ));
                    assert(entry_sound(score, result.1, value));
                    match result.1 {
                        Bounds::Valid => {
                            return score;
                        },
                        Bounds::LowerBound => {
                            if score > new_alpha {
                                new_alpha = score;
                            }
                        },
                        Bounds::UpperBound => {
                            if score < new_beta {
                                new_beta = score;
                            }
                        },
                    }
                    if new_alpha >= new_beta {
                        return score;
                    }
                },
                None => {},
            }
        }
        let is_max = local_state.is_max_node(&self.global_state);
        let ghost first_alpha = new_alpha;
        let ghost first_beta = new_beta;
        let mut changed = false;
        let next = local_state.get_next_states(&self.global_state);
        let n = buffer_len(&next);
        let ghost items = successor_items(next);
        let ghost legal = legal_moves(g, local_state);
        proof {
            lemma_listed(g, local_state, items);
            lemma_value_is_extremum(g, local_state);
        }
        let mut i: usize = 0;
        while i < n
            invariant
                self.wf(),
                self.global_state == g,
                g == old(self).global_state,
                gains_pair_keys(g, old(self).look_up_table@, self.look_up_table@),
                valid_state(g, local_state),
                local_state.remaining_cards.0 != 0,
                items == successor_items(next),
                legal == legal_moves(g, local_state),
                value == game_value(g, local_state),
                is_max == (local_state.current_player == g.alone_player),
                n == items.len(),
                i <= n,
                forall|k: int|
                    0 <= k < items.len() ==> is_successor(g, local_state, #[trigger] items[k], legal),
                bounds_moves(g, local_state, legal, value),
                agoof <= first_alpha <= new_alpha < new_beta <= first_beta <= bgoof,
                first_alpha == agoof || value >= first_alpha,
                first_beta == bgoof || value <= first_beta,
                pot(local_state) - 120 <= agoof,
                bgoof <= 120,
                0 <= value <= pot(local_state) <= 120,
                is_max ==> new_beta == first_beta && (if changed {
                    new_alpha > first_alpha && value >= new_alpha
                } else {
                    new_alpha == first_alpha
                }),
                !is_max ==> new_alpha == first_alpha && (if changed {
                    new_beta < first_beta && value <= new_beta
                } else {
                    new_beta == first_beta
                }),
                forall|k: int|
                    0 <= k < i ==> if is_max {
                        entry_value(g, #[trigger] items[k]) <= new_alpha
                    } else {
                        entry_value(g, items[k]) >= new_beta
                    },
            decreases n - i,
        {
            let entry = buffer_get(&next, i);
            let next_state = entry.0;
            let achieved_points = entry.2;
            let t_q = achieved_points as i8;
            proof {
                let c = choose|c: u32|
                    is_card(c) && c & legal == c && items[i as int] == #[trigger] successor_entry(
                        g,
                        local_state,
                        c,
                    );
                assert(is_successor(g, local_state, items[i as int], legal));
                lemma_next_valid(g, local_state, c);
                lemma_value_bounds(g, next_state);
                assert(entry_value(g, entry) == move_value(g, local_state, c));
            }
            let succ_val = t_q + self.ab_tt(next_state, new_alpha - t_q, new_beta - t_q);
            if is_max {
                if succ_val > new_alpha {
                    changed = true;
                    new_alpha = succ_val;
                }
                if new_alpha >= new_beta {
                    self.try_insert(&local_state, new_alpha, Bounds::LowerBound);
                    return new_alpha;
                }
            } else {
                if succ_val < new_beta {
                    changed = true;
                    new_beta = succ_val;
                }
                if new_beta <= new_alpha {
                    self.try_insert(&local_state, new_beta, Bounds::UpperBound);
                    return new_beta;
                }
            }
            i = i + 1;
        }
        proof {
            let c = choose|c: u32|
                is_card(c) && c & legal == c && #[trigger] move_value(g, local_state, c) == value;
            assert(attains(g, local_state, legal, value));
            assert(items.contains(successor_entry(g, local_state, c)));
            let k = choose|k: int|
                0 <= k < items.len() && items[k] == successor_entry(g, local_state, c);
            lemma_next_valid(g, local_state, c);
            assert(entry_value(g, items[k]) == move_value(g, local_state, c));
        }
        let result = if is_max {
            new_alpha
        } else {
            new_beta
        };
        if !local_state.is_full_node() {
            return result;
        }
        assert(at_trick_start(local_state));
        if changed {
            self.try_insert(&local_state, result, Bounds::Valid);
            return result;
        }
        if is_max {
            self.try_insert(&local_state, result, Bounds::UpperBound);
        } else {
            self.try_insert(&local_state, result, Bounds::LowerBound);
        }
        result
    }
}

} // verus!
