//! Alpha-beta search on packed states, with a table keyed by the packed
//! state and a driver that closes in on the value with windows of width
//! one.
use crate::bits::is_card;
use crate::solver::bitstates::{
    bit_successor, BitGlobal, BitLocal, is_bit_successor, lemma_bit_next, lists_bit_moves,
};
use crate::solver::buffer::{BitSuccessor, bit_buffer_get, bit_buffer_len, bit_successor_items};
use crate::solver::fx_table::{FxTable, TableEntry, fx_get, fx_insert, fx_new};
use crate::solver::rules::{
    bounds_moves, game_value, legal_moves, lemma_hand_sizes, lemma_has_cards, lemma_next_valid,
    lemma_value_bounds, lemma_value_is_extremum, move_value, pot,
};
use crate::solver::synchronus::ab_tt::{Bounds, entry_sound, window_result};
use vstd::prelude::*;

verus! {

/// Every entry of the table says what is true of the packed state at the
/// start of a trick that is its key.
pub open spec fn bit_table_sound(g: BitGlobal, table: Map<u32, TableEntry>) -> bool {
    forall|s: BitLocal|
        s.wf_in(g) && s.current_suit == 0 && #[trigger] table.contains_key(s.state)
            ==> entry_sound(table[s.state].0, table[s.state].1, game_value(g@, s.view_in(g)))
}

/// `pos` is a packed state at the start of a trick.
pub open spec fn is_packed_key(g: BitGlobal, pos: u32) -> bool {
    exists|s: BitLocal| #[trigger] s.wf_in(g) && s.current_suit == 0 && s.state == pos
}

/// Every key of `after` was a key of `before` or is a packed state at the
/// start of a trick: nothing is kept for a state with a card on the table.
pub open spec fn gains_packed_keys(
    g: BitGlobal,
    before: Map<u32, TableEntry>,
    after: Map<u32, TableEntry>,
) -> bool {
    forall|k: u32|
        #[trigger] after.contains_key(k) ==> before.contains_key(k) || is_packed_key(g, k)
}

/// A sound table stays sound when a sound entry is put in for a state.
pub proof fn lemma_bit_table_insert(
    g: BitGlobal,
    table: Map<u32, TableEntry>,
    s0: BitLocal,
    score: i8,
    bound: Bounds,
)
    requires
        bit_table_sound(g, table),
        s0.wf_in(g),
        s0.current_suit == 0,
        entry_sound(score, bound, game_value(g@, s0.view_in(g))),
    ensures
        bit_table_sound(g, table.insert(s0.state, (score, bound))),
{
    let after = table.insert(s0.state, (score, bound));
    assert forall|s: BitLocal|
        s.wf_in(g) && s.current_suit == 0 && #[trigger] after.contains_key(
            s.state,
        ) implies entry_sound(
        after[s.state].0,
        after[s.state].1,
        game_value(g@, s.view_in(g)),
    ) by {
        if s.state == s0.state {
            assert(s.current_played_cards.0 == s0.current_played_cards.0);
            assert(s.current_played_cards.1 == s0.current_played_cards.1);
            assert(s.current_played_cards == s0.current_played_cards);
            assert(s.view_in(g) == s0.view_in(g));
        } else {
            assert(table.contains_key(s.state));
        }
    }
}

/// What the move `e` is worth to the player who plays alone.
pub open spec fn bit_entry_value(g: BitGlobal, e: BitSuccessor) -> int {
    e.1 + game_value(g@, e.0.view_in(g))
}

/// What a search needs to know of the moves of a state: each is the
/// move with an allowed card, leads to a state that can occur and has
/// fewer cards, and is worth what that card is worth.
pub proof fn lemma_bit_moves(g: BitGlobal, s: BitLocal, items: Seq<BitSuccessor>, k: int)
    requires
        s.wf_in(g),
        lists_bit_moves(g, s, items),
        0 <= k < items.len(),
    ensures
        items[k].0.wf_in(g),
        (items[k].0.state & !g.skat.0) < (s.state & !g.skat.0),
        pot(items[k].0.view_in(g)) + items[k].1 <= pot(s.view_in(g)),
        items[k].1 <= 120,
        is_bit_successor(g, s, items[k], legal_moves(g@, s.view_in(g))),
        exists|c: u32|
            is_card(c) && c & legal_moves(g@, s.view_in(g)) == c && bit_entry_value(g, items[k])
                == #[trigger] move_value(g@, s.view_in(g), c),
{
    let v = s.view_in(g);
    let legal = legal_moves(g@, v);
    assert(is_bit_successor(g, s, items[k], legal));
    let c = choose|c: u32|
        is_card(c) && c & legal == c && items[k] == #[trigger] bit_successor(g, s, c);
    lemma_has_cards(g@, v, c);
    lemma_next_valid(g@, v, c);
    lemma_bit_next(g, s, c);
    lemma_hand_sizes(g@, v);
    assert(bit_entry_value(g, items[k]) == move_value(g@, v, c));
}

/// The value of a state is the value of one of the moves of its list.
pub proof fn lemma_bit_attained(g: BitGlobal, s: BitLocal, items: Seq<BitSuccessor>) -> (k: int)
    requires
        s.wf_in(g),
        lists_bit_moves(g, s, items),
        s.state & !g.skat.0 != 0,
    ensures
        0 <= k < items.len(),
        bit_entry_value(g, items[k]) == game_value(g@, s.view_in(g)),
{
    let v = s.view_in(g);
    let legal = legal_moves(g@, v);
    lemma_value_is_extremum(g@, v);
    let c = choose|c: u32|
        is_card(c) && c & legal == c && #[trigger] move_value(g@, v, c) == game_value(g@, v);
    assert(items.contains(bit_successor(g, s, c)));
    let k = choose|k: int| 0 <= k < items.len() && items[k] == bit_successor(g, s, c);
    lemma_next_valid(g@, v, c);
    lemma_bit_next(g, s, c);
    k
}

/// A solver for one game on packed states, with the table of the states
/// it has met.
pub struct MoreEnhancedSolver {
    pub global_state: BitGlobal,
    pub look_up_table: FxTable,
}

impl MoreEnhancedSolver {
    /// The game is in order and the table says only what is true.
    pub open spec fn wf(&self) -> bool {
        self.global_state.wf() && bit_table_sound(self.global_state, self.look_up_table@)
    }

    /// A solver with an empty table.
    pub fn new(global_state: BitGlobal) -> (solver: MoreEnhancedSolver)
        requires
            global_state.wf(),
        ensures
            solver.wf(),
            solver.global_state == global_state,
            forall|k: u32| !solver.look_up_table@.contains_key(k),
    {
        MoreEnhancedSolver { global_state, look_up_table: fx_new() }
    }

    fn try_insert(&mut self, local_state: &BitLocal, score: i8, bound: Bounds)
        requires
            old(self).wf(),
            local_state.wf_in(old(self).global_state),
            local_state.current_suit == 0 ==> entry_sound(
                score,
                bound,
                game_value(old(self).global_state@, local_state.view_in(old(self).global_state)),
            ),
        ensures
            final(self).wf(),
            final(self).global_state == old(self).global_state,
            final(self).look_up_table@ == (if local_state.current_suit == 0 {
                old(self).look_up_table@.insert(local_state.state, (score, bound))
            } else {
                old(self).look_up_table@
            }),
            gains_packed_keys(
                old(self).global_state,
                old(self).look_up_table@,
                final(self).look_up_table@,
            ),
    {
        if local_state.is_full_node() {
            proof {
                assert(local_state.wf_in(self.global_state));
                assert(is_packed_key(self.global_state, local_state.state));
                lemma_bit_table_insert(
                    self.global_state,
                    self.look_up_table@,
                    *local_state,
                    score,
                    bound,
                );
            }
            fx_insert(&mut self.look_up_table, local_state.get_hash(), (score, bound));
        }
    }

    /// The points that the first player, who plays alone, is sure of from
    /// `local_state` on, together with the points of the skat.
    pub fn solve(&mut self, local_state: BitLocal) -> (total: u8)
        requires
            old(self).wf(),
            local_state.wf_in(old(self).global_state),
        ensures
            final(self).wf(),
            final(self).global_state == old(self).global_state,
            total == game_value(
                old(self).global_state@,
                local_state.view_in(old(self).global_state),
            ) + old(self).global_state.skat_points,
            total <= 120,
    {
        let ghost g = self.global_state;
        let ghost value = game_value(g@, local_state.view_in(g));
        proof {
            lemma_value_bounds(g@, local_state.view_in(g));
            lemma_hand_sizes(g@, local_state.view_in(g));
        }
        let mut min: i8 = 0;
        let mut max: i8 = 120;
        while min < max
            invariant
                self.wf(),
                self.global_state == g,
                g == old(self).global_state,
                local_state.wf_in(g),
                value == game_value(g@, local_state.view_in(g)),
                0 <= min <= value <= max <= 120,
                value <= pot(local_state.view_in(g)),
                pot(local_state.view_in(g)) + g.skat_points <= 120,
            decreases max - min,
        {
            let mut med: i8 = min + (max - min) / 2;
            if med <= 0 && min / 2 < med {
                med = min / 2;
            } else if med >= 0 && max / 2 > med {
                med = max / 2;
            }
            let r = self.ab_tt(local_state, med, med + 1);
            if r <= med {
                max = r;
            } else {
                min = r;
            }
        }
        min as u8 + self.global_state.skat_points
    }

    /// Searches `local_state` with the window from `agoof` to `bgoof`
    /// for the points that the first player is sure of from there on. The
    /// window must leave room for the points already made on the way:
    /// `agoof` is no less than the points still to be had minus 120. At
    /// the start of a trick with points left the result is then in the
    /// table, as the value or as a bound of it. Where nothing is left to
    /// be won the result is 0 and the table stays as it is; nothing is
    /// ever kept for a state with a card on the table.
    pub fn ab_tt(&mut self, local_state: BitLocal, agoof: i8, bgoof: i8) -> (r: i8)
        requires
            old(self).wf(),
            local_state.wf_in(old(self).global_state),
            pot(local_state.view_in(old(self).global_state)) - 120 <= agoof < bgoof <= 120,
        ensures
            final(self).wf(),
            final(self).global_state == old(self).global_state,
            window_result(
                agoof as int,
                bgoof as int,
                r as int,
                game_value(old(self).global_state@, local_state.view_in(old(self).global_state)),
            ),
            r >= agoof || r >= 0,
            r <= bgoof || r <= pot(local_state.view_in(old(self).global_state)),
            local_state.current_suit == 0 && !local_state.nothing_left(old(self).global_state.skat)
                ==> final(self).look_up_table@.contains_key(local_state.state),
            local_state.current_suit == 0 && !local_state.nothing_left(old(self).global_state.skat)
                ==> final(self).look_up_table@[local_state.state].0 == r,
            local_state.nothing_left(old(self).global_state.skat) ==> r == 0,
            local_state.nothing_left(old(self).global_state.skat) ==> final(self).look_up_table@
                == old(self).look_up_table@,
            gains_packed_keys(
                old(self).global_state,
                old(self).look_up_table@,
                final(self).look_up_table@,
            ),
        decreases local_state.state & !old(self).global_state.skat.0,
    {
        let ghost g = self.global_state;
        let ghost v = local_state.view_in(g);
        let ghost value = game_value(g@, v);
        proof {
            lemma_value_bounds(g@, v);
            lemma_hand_sizes(g@, v);
        }
        if local_state.is_terminal(self.global_state.skat) {
            proof {
                local_state.lemma_terminal(g);
            }
            return 0;
        }
        proof {
            crate::bits::lemma_word(!crate::bitboard::SEVEN_OR_EIGHT_OR_NINE);
        }
        let mut new_alpha = agoof;
        let mut new_beta = bgoof;
        if local_state.is_full_node() {
            match fx_get(&self.look_up_table, local_state.get_hash()) {
                Some(result) => {
                    let score = result.0;
                    assert(self.look_up_table@.contains_key(local_state.state));
                    assert(entry_sound(score, result.1, value));
                    match result.1 {
                        Bounds::Valid => {
                            return score;
                        },
                        Bounds::LowerBound => {
                            if score > new_alpha {
                                new_alpha = score;
                            }
                        },
                        Bounds::UpperBound => {
                            if score < new_beta {
                                new_beta = score;
                            }
                        },
                    }
                    if new_alpha >= new_beta {
                        return score;
                    }
                },
                None => {},
            }
        }
        let is_max = local_state.is_max_node(&self.global_state);
        let ghost first_alpha = new_alpha;
        let ghost first_beta = new_beta;
        let next = local_state.get_next_states(&self.global_state);
        let n = bit_buffer_len(&next);
        let ghost items = bit_successor_items(next);
        let mut i: usize = 0;
        proof {
            lemma_value_is_extremum(g@, v);
        }
        while i < n
            invariant
                self.wf(),
                self.global_state == g,
                g == old(self).global_state,
                gains_packed_keys(g, old(self).look_up_table@, self.look_up_table@),
                local_state.wf_in(g),
                v == local_state.view_in(g),
                local_state.state & !g.skat.0 != 0,
                !local_state.nothing_left(g.skat),
                items == bit_successor_items(next),
                lists_bit_moves(g, local_state, items),
                value == game_value(g@, v),
                is_max == (v.current_player == g@.alone_player),
                n == items.len(),
                i <= n,
                bounds_moves(g@, v, legal_moves(g@, v), value),
                agoof <= first_alpha <= new_alpha < new_beta <= first_beta <= bgoof,
                first_alpha == agoof || value >= first_alpha,
                first_beta == bgoof || value <= first_beta,
                pot(v) - 120 <= agoof,
                bgoof <= 120,
                0 <= value <= pot(v) <= 120,
                is_max ==> new_beta == first_beta && (new_alpha == first_alpha || value
                    >= new_alpha),
                !is_max ==> new_alpha == first_alpha && (new_beta == first_beta || value
                    <= new_beta),
                forall|k: int|
                    0 <= k < i ==> if is_max {
                        bit_entry_value(g, #[trigger] items[k]) <= new_alpha
                    } else {
                        bit_entry_value(g, items[k]) >= new_beta
                    },
            decreases n - i,
        {
            let entry = bit_buffer_get(&next, i);
            let next_state = entry.0;
            let achieved_points = entry.1;
            proof {
                lemma_bit_moves(g, local_state, items, i as int);
                lemma_value_bounds(g@, next_state.view_in(g));
            }
            let t_q = achieved_points as i8;
            let succ_val = t_q + self.ab_tt(next_state, new_alpha - t_q, new_beta - t_q);
            if is_max {
                if succ_val > new_alpha {
                    new_alpha = succ_val;
                }
                if new_alpha >= new_beta {
                    self.try_insert(&local_state, new_alpha, Bounds::LowerBound);
                    return new_alpha;
                }
            } else {
                if succ_val < new_beta {
                    new_beta = succ_val;
                }
                if new_beta <= new_alpha {
                    self.try_insert(&local_state, new_beta, Bounds::UpperBound);
                    return new_beta;
                }
            }
            i = i + 1;
        }
        proof {
            let k = lemma_bit_attained(g, local_state, items);
        }
        let result = if is_max {
            new_alpha
        } else {
            new_beta
        };
        if !local_state.is_full_node() {
            return result;
        }
        if is_max {
            if new_alpha != agoof {
                self.try_insert(&local_state, result, Bounds::Valid);
            } else {
                self.try_insert(&local_state, result, Bounds::UpperBound);
            }
        } else if result != bgoof {
            self.try_insert(&local_state, result, Bounds::Valid);
        } else {
            self.try_insert(&local_state, result, Bounds::LowerBound);
        }
        result
    }
}

} // verus!
