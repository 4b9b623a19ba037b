//! The searcher of which several may run side by side on one game: an
//! alpha-beta search on packed states with a table of its own.
use crate::solver::bitstates::{BitGlobal, BitLocal, lists_bit_moves};
use crate::solver::buffer::{bit_buffer_get, bit_buffer_len, bit_successor_items};
use crate::solver::fx_table::{FxTable, fx_get, fx_insert, fx_new};
use crate::solver::rules::{
    bounds_moves, game_value, legal_moves, lemma_hand_sizes, lemma_value_bounds,
    lemma_value_is_extremum, pot,
};
use crate::solver::synchronus::ab_tt::{Bounds, entry_sound, window_result};
use crate::solver::synchronus::ab_tt_bitstates::{gains_packed_keys, is_packed_key, 
    bit_entry_value, bit_table_sound, lemma_bit_attained, lemma_bit_moves, lemma_bit_table_insert,
};
use vstd::prelude::*;

verus! {

/// A searcher for one game on packed states, with the table of the
/// states it has met.
pub struct LazyMoreEnhancedSolver {
    pub global_state: BitGlobal,
    pub look_up_table: FxTable,
}

impl LazyMoreEnhancedSolver {
    /// The game is in order and the table says only what is true.
    pub open spec fn wf(&self) -> bool {
        self.global_state.wf() && bit_table_sound(self.global_state, self.look_up_table@)
    }

    /// A searcher with an empty table.
    pub fn new(global_state: BitGlobal) -> (solver: LazyMoreEnhancedSolver)
        requires
            global_state.wf(),
        ensures
            solver.wf(),
            solver.global_state == global_state,
            forall|k: u32| !solver.look_up_table@.contains_key(k),
    {
        LazyMoreEnhancedSolver { global_state, look_up_table: fx_new() }
    }

    fn try_insert(&mut self, local_state: &BitLocal, score: i8, bound: Bounds)
        requires
            old(self).wf(),
            local_state.wf_in(old(self).global_state),
            local_state.current_suit == 0 ==> entry_sound(
                score,
                bound,
                game_value(old(self).global_state@, local_state.view_in(old(self).global_state)),
            ),
        ensures
            final(self).wf(),
            final(self).global_state == old(self).global_state,
            final(self).look_up_table@ == (if local_state.current_suit == 0 {
                old(self).look_up_table@.insert(local_state.state, (score, bound))
            } else {
                old(self).look_up_table@
            }),
            gains_packed_keys(
                old(self).global_state,
                old(self).look_up_table@,
                final(self).look_up_table@,
            ),
    {
        if local_state.is_full_node() {
            proof {
                assert(local_state.wf_in(self.global_state));
                assert(is_packed_key(self.global_state, local_state.state));
                lemma_bit_table_insert(
                    self.global_state,
                    self.look_up_table@,
                    *local_state,
                    score,
                    bound,
                );
            }
            fx_insert(&mut self.look_up_table, local_state.get_hash(), (score, bound));
        }
    }

    /// The points that the first player, who plays alone, is sure of from
    /// `local_state` on, together with the points of the skat.
    pub fn solve(&mut self, local_state: BitLocal) -> (total: u8)
        requires
            old(self).wf(),
            local_state.wf_in(old(self).global_state),
        ensures
            final(self).wf(),
            final(self).global_state == old(self).global_state,
            total == game_value(
                old(self).global_state@,
                local_state.view_in(old(self).global_state),
            ) + old(self).global_state.skat_points,
            total <= 120,
    {
        proof {
            lemma_value_bounds(self.global_state@, local_state.view_in(self.global_state));
            lemma_hand_sizes(self.global_state@, local_state.view_in(self.global_state));
        }
        self.ab_tt(local_state, 0, 120) as u8 + self.global_state.skat_points
    }

    /// Searches `local_state` with the window from `agoof` to `bgoof`
    /// for the points that the first player is sure of from there on. The
    /// window must leave room for the points already made on the way:
    /// `agoof` is no less than the points still to be had minus 120. At
    /// the start of a trick with points left the result is then in the
    /// table, as the value or as a bound of it. Where nothing is left to
    /// be won the result is 0 and the table stays as it is; nothing is
    /// ever kept for a state with a card on the table.
    pub fn ab_tt(&mut self, local_state: BitLocal, agoof: i8, bgoof: i8) -> (r: i8)
        requires
            old(self).wf(),
            local_state.wf_in(old(self).global_state),
            pot(local_state.view_in(old(self).global_state)) - 120 <= agoof < bgoof <= 120,
        ensures
            final(self).wf(),
            final(self).global_state == old(self).global_state,
            window_result(
                agoof as int,
                bgoof as int,
                r as int,
                game_value(old(self).global_state@, local_state.view_in(old(self).global_state)),
            ),
            r >= agoof || r >= 0,
            r <= bgoof || r <= pot(local_state.view_in(old(self).global_state)),
            local_state.current_suit == 0 && !local_state.nothing_left(old(self).global_state.skat)
                ==> final(self).look_up_table@.contains_key(local_state.state),
            local_state.current_suit == 0 && !local_state.nothing_left(old(self).global_state.skat)
                ==> final(self).look_up_table@[local_state.state].0 == r,
            local_state.nothing_left(old(self).global_state.skat) ==> r == 0,
            local_state.nothing_left(old(self).global_state.skat) ==> final(self).look_up_table@
                == old(self).look_up_table@,
            gains_packed_keys(
                old(self).global_state,
                old(self).look_up_table@,
                final(self).look_up_table@,
            ),
        decreases local_state.state & !old(self).global_state.skat.0,
    {
        let ghost g = self.global_state;
        let ghost v = local_state.view_in(g);
        let ghost value = game_value(g@, v);
        proof {
            lemma_value_bounds(g@, v);
            lemma_hand_sizes(g@, v);
        }
        if local_state.is_terminal(self.global_state.skat) {
            proof {
                local_state.lemma_terminal(g);
            }
            return 0;
        }
        proof {
            crate::bits::lemma_word(!crate::bitboard::SEVEN_OR_EIGHT_OR_NINE);
        }
        let mut new_alpha = agoof;
        let mut new_beta = bgoof;
        if local_state.is_full_node() {
            match fx_get(&self.look_up_table, local_state.get_hash()) {
                Some(result) => {
                    let score = result.0;
                    assert(self.look_up_table@.contains_key(local_state.state));
                    assert(entry_sound(score, result.1, value));
                    match result.1 {
                        Bounds::Valid => {
                            return score;
                        },
                        Bounds::LowerBound => {
                            if score > new_alpha {
                                new_alpha = score;
                            }
                        },
                        Bounds::UpperBound => {
                            if score < new_beta {
                                new_beta = score;
                            }
                        },
                    }
                    if new_alpha >= new_beta {
                        return score;
                    }
                },
                None => {},
            }
        }
        let ghost first_alpha = new_alpha;
        let ghost first_beta = new_beta;
        let next = local_state.get_next_states(&self.global_state);
        let n = bit_buffer_len(&next);
        let ghost items = bit_successor_items(next);
        let mut i: usize = 0;
        proof {
            lemma_value_is_extremum(g@, v);
        }
        if local_state.is_max_node(&self.global_state) {
            while i < n
                invariant
                    self.wf(),
                    self.global_state == g,
                    g == old(self).global_state,
                    local_state.wf_in(g),
                    v == local_state.view_in(g),
                    gains_packed_keys(g, old(self).look_up_table@, self.look_up_table@),
                    local_state.state & !g.skat.0 != 0,
                !local_state.nothing_left(g.skat),
                    !local_state.nothing_left(g.skat),
                    items == bit_successor_items(next),
                    lists_bit_moves(g, local_state, items),
                    value == game_value(g@, v),
                    v.current_player == g@.alone_player,
                    n == items.len(),
                    i <= n,
                    bounds_moves(g@, v, legal_moves(g@, v), value),
                    agoof <= first_alpha <= new_alpha < new_beta <= bgoof,
                    first_alpha == agoof || value >= first_alpha,
                    new_beta == bgoof || value <= new_beta,
                    pot(v) - 120 <= agoof,
                    bgoof <= 120,
                    0 <= value <= pot(v) <= 120,
                    new_alpha == first_alpha || value >= new_alpha,
                    forall|k: int|
                        0 <= k < i ==> bit_entry_value(g, #[trigger] items[k]) <= new_alpha,
                decreases n - i,
            {
                let entry = bit_buffer_get(&next, i);
                let next_state = entry.0;
                let achieved_points = entry.1;
                proof {
                    lemma_bit_moves(g, local_state, items, i as int);
                    lemma_value_bounds(g@, next_state.view_in(g));
                }
                let t_q = achieved_points as i8;
                let succ_val = t_q + self.ab_tt(next_state, new_alpha - t_q, new_beta - t_q);
                if succ_val > new_alpha {
                    new_alpha = succ_val;
                }
                if new_alpha >= new_beta {
                    self.try_insert(&local_state, new_alpha, Bounds::LowerBound);
                    return new_alpha;
                }
                i = i + 1;
            }
            proof {
                let k = lemma_bit_attained(g, local_state, items);
            }
            if !local_state.is_full_node() {
                return new_alpha;
            }
            if new_alpha != agoof {
                self.try_insert(&local_state, new_alpha, Bounds::Valid);
            } else {
                self.try_insert(&local_state, new_alpha, Bounds::UpperBound);
            }
            return new_alpha;
        }
        while i < n
            invariant
                self.wf(),
                self.global_state == g,
                g == old(self).global_state,
                gains_packed_keys(g, old(self).look_up_table@, self.look_up_table@),
                local_state.wf_in(g),
                v == local_state.view_in(g),
                local_state.state & !g.skat.0 != 0,
                !local_state.nothing_left(g.skat),
                items == bit_successor_items(next),
                lists_bit_moves(g, local_state, items),
                value == game_value(g@, v),
                v.current_player != g@.alone_player,
                n == items.len(),
                i <= n,
                bounds_moves(g@, v, legal_moves(g@, v), value),
                agoof <= new_alpha < new_beta <= first_beta <= bgoof,
                new_alpha == agoof || value >= new_alpha,
                first_beta == bgoof || value <= first_beta,
                pot(v) - 120 <= agoof,
                bgoof <= 120,
                0 <= value <= pot(v) <= 120,
                new_beta == first_beta || value <= new_beta,
                forall|k: int| 0 <= k < i ==> bit_entry_value(g, #[trigger] items[k]) >= new_beta,
            decreases n - i,
        {
            let entry = bit_buffer_get(&next, i);
            let next_state = entry.0;
            let achieved_points = entry.1;
            proof {
                lemma_bit_moves(g, local_state, items, i as int);
                lemma_value_bounds(g@, next_state.view_in(g));
            }
            let t_q = achieved_points as i8;
            let succ_val = t_q + self.ab_tt(next_state, new_alpha - t_q, new_beta - t_q);
            if succ_val < new_beta {
                new_beta = succ_val;
            }
            if new_beta <= new_alpha {
                self.try_insert(&local_state, new_beta, Bounds::UpperBound);
                return new_beta;
            }
            i = i + 1;
        }
        proof {
            let k = lemma_bit_attained(g, local_state, items);
        }
        if !local_state.is_full_node() {
            return new_beta;
        }
        if new_beta != bgoof {
            self.try_insert(&local_state, new_beta, Bounds::Valid);
        } else {
            self.try_insert(&local_state, new_beta, Bounds::LowerBound);
        }
        new_beta
    }
}

} // verus!
