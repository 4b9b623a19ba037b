//! Search on states that carry the points of the move that led to them:
//! the plain search through all moves, and alpha-beta search.
use crate::bitboard::{BitCard, BitCards};
use crate::bits::is_card;
use crate::solver::buffer::{buffer_get, buffer_len, successor_items};
use crate::solver::rules::{
    attains, bounds_moves, game_value, holding, is_successor, legal_moves, lemma_hand_sizes,
    lemma_has_cards, lemma_next_valid, lemma_successors, lemma_value_bounds, lemma_value_is_extremum, move_value,
    next_state, pot, step_points, Successor, successor_entry, successors, valid_state,
};
use crate::solver::synchronus::ab::{ab, picks_first};
use crate::solver::synchronus::ab_tt::{entry_value, first_best_at, picks_lowest, window_result};
use crate::solver::{GlobalState, Player};
use arrayvec::ArrayVec;
use vstd::prelude::*;

verus! {

/// A state of the game together with the points that the move that led
/// to it brought the player who plays alone.
#[derive(Clone, Copy, Debug)]
pub struct LState {
    pub remaining_cards: BitCards,
    pub current_played_cards: (BitCard, BitCard),
    pub current_player: Player,
    pub current_suit: Option<BitCards>,
    pub achieved_points: u8,
}

impl LState {
    /// The state of the game without the points.
    pub open spec fn state(self) -> crate::solver::synchronus::local_state::LState {
        crate::solver::synchronus::local_state::LState {
            remaining_cards: self.remaining_cards,
            current_player: self.current_player,
            current_played_cards: self.current_played_cards,
            current_suit: self.current_suit,
        }
    }

    /// The state after the card `c`, with the points that `c` brings.
    pub open spec fn after(self, g: GlobalState, c: u32) -> LState {
        let n = next_state(g, self.state(), c);
        LState {
            remaining_cards: n.remaining_cards,
            current_played_cards: n.current_played_cards,
            current_player: n.current_player,
            current_suit: n.current_suit,
            achieved_points: step_points(g, self.state(), c) as u8,
        }
    }

    /// The state of the game without the points.
    pub fn to_state(&self) -> (s: crate::solver::synchronus::local_state::LState)
        ensures
            s == self.state(),
    {
        crate::solver::synchronus::local_state::LState {
            remaining_cards: self.remaining_cards,
            current_player: self.current_player,
            current_played_cards: self.current_played_cards,
            current_suit: self.current_suit,
        }
    }

    pub fn get_hash(&self) -> (key: (u32, Player))
        ensures
            key == (self.remaining_cards.0, self.current_player),
    {
        (self.remaining_cards.0, self.current_player)
    }

    pub fn is_terminal(&self) -> (b: bool)
        ensures
            b == (self.remaining_cards.0 == 0),
    {
        self.remaining_cards.0 == 0
    }

    pub fn is_max_node(&self, global_state: &GlobalState) -> (b: bool)
        ensures
            b == (self.current_player == global_state.alone_player),
    {
        self.current_player == global_state.alone_player
    }

    /// The cards that the player to move still holds.
    pub fn get_available(&self, global_state: &GlobalState) -> (cards: BitCards)
        ensures
            cards.0 == holding(*global_state, self.state(), self.current_player),
    {
        self.to_state().get_available(self.current_player, global_state)
    }

    /// The moves that are allowed in this state, from the lowest card up.
    pub fn get_next_states(&self, global_state: &GlobalState) -> (next: ArrayVec<Successor, 10>)
        requires
            valid_state(*global_state, self.state()),
        ensures
            successor_items(next) == successors(
                *global_state,
                self.state(),
                legal_moves(*global_state, self.state()),
            ),
    {
        self.to_state().list_moves(global_state)
    }
}

/// The state that a move leads to, with the points of the move.
pub fn follow(entry: Successor) -> (next: LState)
    ensures
        next.state() == entry.0,
        next.achieved_points == entry.2,
{
    LState {
        remaining_cards: entry.0.remaining_cards,
        current_played_cards: entry.0.current_played_cards,
        current_player: entry.0.current_player,
        current_suit: entry.0.current_suit,
        achieved_points: entry.2,
    }
}

/// `chosen` is the state after an allowed move that is worth `worth`.
pub open spec fn leads_to(g: GlobalState, s: LState, worth: int, chosen: LState) -> bool {
    exists|c: u32|
        is_card(c) && c & legal_moves(g, s.state()) == c && chosen == s.after(g, c)
            && #[trigger] move_value(g, s.state(), c) == worth
}

/// The points of the move that led to `local_state` together with the
/// points that the player who plays alone is sure of from there on, found
/// by trying every move; and the state after the first best move, from the
/// lowest card up. At the end of the game no state is named; elsewhere
/// none is named only where no move brings a point, or holds the others
/// below 120.
pub fn minimax(local_state: LState, global_state: &GlobalState) -> (result: (u8, Option<LState>))
    requires
        valid_state(*global_state, local_state.state()),
        local_state.achieved_points + pot(local_state.state()) <= 120,
    ensures
        result.0 == local_state.achieved_points + game_value(*global_state, local_state.state()),
        match result.1 {
            Some(chosen) => leads_to(
                *global_state,
                local_state,
                game_value(*global_state, local_state.state()),
                chosen,
            ) && picks_lowest(
                *global_state,
                local_state.state(),
                game_value(*global_state, local_state.state()),
                chosen.state(),
            ),
            None => local_state.remaining_cards.0 == 0 || result.0 == (if local_state.current_player
                == global_state.alone_player {
                0u8
            } else {
                120u8
            }),
        },
    decreases local_state.remaining_cards.0,
{
    let ghost g = *global_state;
    let ghost s = local_state.state();
    let ghost value = game_value(g, s);
    proof {
        lemma_value_bounds(g, s);
    }
    if local_state.is_terminal() {
        return (local_state.achieved_points, None);
    }
    let is_max = local_state.is_max_node(global_state);
    let mut result: u8 = if is_max {
        0
    } else {
        120
    };
    let mut optimal_move: Option<LState> = None;
    let next = local_state.get_next_states(global_state);
    let n = buffer_len(&next);
    let ghost items = successor_items(next);
    let ghost legal = legal_moves(g, s);
    let ghost picked: u32 = 0;
    let ghost at: int = 0;
    proof {
        lemma_successors(g, s, legal);
        lemma_value_is_extremum(g, s);
    }
    let mut i: usize = 0;
    while i < n
        invariant
            g == *global_state,
            s == local_state.state(),
            valid_state(g, s),
            local_state.achieved_points + pot(s) <= 120,
            s.remaining_cards.0 != 0,
            items == successor_items(next),
            items == successors(g, s, legal),
            legal == legal_moves(g, s),
            value == game_value(g, s),
            0 <= value <= pot(s),
            is_max == (s.current_player == g.alone_player),
            n == items.len(),
            i <= n,
            forall|k: int| 0 <= k < items.len() ==> is_successor(g, s, #[trigger] items[k], legal),
            bounds_moves(g, s, legal, value),
            forall|k: int|
                0 <= k < i ==> if is_max {
                    local_state.achieved_points + (#[trigger] items[k]).2 + game_value(
                        g,
                        items[k].0,
                    ) <= result
                } else {
                    local_state.achieved_points + items[k].2 + game_value(g, items[k].0) >= result
                },
            match optimal_move {
                Some(chosen) => {
                    &&& is_card(picked)
                    &&& picked & legal == picked
                    &&& chosen == local_state.after(g, picked)
                    &&& 0 <= at < i
                    &&& chosen.state() == items[at].0
                    &&& first_best_at(g, s, items, result - local_state.achieved_points, at)
                    &&& result == local_state.achieved_points + move_value(g, s, picked)
                    &&& if is_max {
                        result > 0
                    } else {
                        result < 120
                    }
                },
                None => result == (if is_max {
                    0u8
                } else {
                    120u8
                }),
            },
        decreases n - i,
    {
        let entry = buffer_get(&next, i);
        let ghost c = choose|c: u32|
            is_card(c) && c & legal == c && items[i as int] == #[trigger] successor_entry(g, s, c);
        proof {
            assert(is_successor(g, s, items[i as int], legal));
            lemma_next_valid(g, s, c);
            lemma_value_bounds(g, entry.0);
            assert(entry.2 + game_value(g, entry.0) == move_value(g, s, c));
        }
        let next_state = follow(entry);
        let (local_result, _) = minimax(next_state, global_state);
        let next_result = local_state.achieved_points + local_result;
        if is_max {
            if next_result > result {
                result = next_result;
                optimal_move = Some(next_state);
                proof {
                    picked = c;
                    at = i as int;
                }
            }
        } else if next_result < result {
            result = next_result;
            optimal_move = Some(next_state);
            proof {
                picked = c;
                at = i as int;
            }
        }
        i = i + 1;
    }
    proof {
        let c = choose|c: u32|
            is_card(c) && c & legal == c && #[trigger] move_value(g, s, c) == value;
        assert(attains(g, s, legal, value));
        assert(items.contains(successor_entry(g, s, c)));
        let k = choose|k: int| 0 <= k < items.len() && items[k] == successor_entry(g, s, c);
        lemma_next_valid(g, s, c);
        assert(items[k].2 + game_value(g, items[k].0) == move_value(g, s, c));
    }
    (result, optimal_move)
}

/// What the state that an alpha-beta search names says: it is the state
/// after an allowed move, and the result of the search says of the value
/// of that move what it says of the value of the state.
pub open spec fn names_after(
    g: GlobalState,
    s: LState,
    alpha: int,
    beta: int,
    r: int,
    chosen: LState,
) -> bool {
    exists|c: u32|
        is_card(c) && c & legal_moves(g, s.state()) == c && chosen == s.after(g, c)
            && window_result(alpha, beta, r, #[trigger] move_value(g, s.state(), c))
}

proof fn lemma_played_card(rem: u32, c: u32)
    by (bit_vector)
    requires
        c & rem == c,
    ensures
        rem ^ (rem & !c) == c,
{
}

/// Searches `local_state` with the window from `alpha` to `beta` for the
/// points that the player who plays alone is sure of from there on, and
/// names the state after a move that leads there: where the result lies
/// inside the window, the first best move in the order in which the moves
/// are tried. The points of the move that led to `local_state` are not
/// counted.
pub fn minimax_with_alpha_beta(
    local_state: LState,
    global_state: &GlobalState,
    alpha: i8,
    beta: i8,
) -> (result: (i8, Option<LState>))
    requires
        valid_state(*global_state, local_state.state()),
        pot(local_state.state()) - 120 <= alpha < beta <= 120,
    ensures
        window_result(
            alpha as int,
            beta as int,
            result.0 as int,
            game_value(*global_state, local_state.state()),
        ),
        match result.1 {
            Some(chosen) => names_after(
                *global_state,
                local_state,
                alpha as int,
                beta as int,
                result.0 as int,
                chosen,
            ) && (alpha < result.0 < beta ==> picks_first(
                *global_state,
                local_state.state(),
                result.0 as int,
                chosen.state(),
            )),
            None => local_state.remaining_cards.0 == 0 || result.0 == (if local_state.current_player
                == global_state.alone_player {
                alpha
            } else {
                beta
            }),
        },
{
    let state = local_state.to_state();
    let found = ab(state, global_state, alpha, beta);
    match found.1 {
        None => (found.0, None),
        Some(chosen) => {
            let card = state.remaining_cards.0 ^ chosen.remaining_cards.0;
            proof {
                let g = *global_state;
                let c = choose|c: u32|
                    is_card(c) && c & legal_moves(g, state) == c && chosen == next_state(
                        g,
                        state,
                        c,
                    ) && window_result(
                        alpha as int,
                        beta as int,
                        found.0 as int,
                        #[trigger] move_value(g, state, c),
                    );
                lemma_has_cards(g, state, c);
                lemma_next_valid(g, state, c);
                lemma_played_card(state.remaining_cards.0, c);
                assert(card == c);
            }
            let entry = state.get_next_state(BitCard(card), global_state);
            (found.0, Some(follow(entry)))
        },
    }
}


/// Searches `local_state` with the window from `alpha` to `beta` for the
/// points that the player who plays alone is sure of from there on, and
/// names the state after a move that leads there. The result is the best
/// that the moves tried have shown, also where it lies outside the window:
/// at or below `alpha` the value is no more than the result, at or above
/// `beta` no less, and between them the result is the value and the move
/// named is the first best, from the lowest card up. The points of the
/// move that led to `local_state` are not counted.
pub fn minimax_v2(local_state: LState, global_state: &GlobalState, alpha: i8, beta: i8) -> (result:
    (i8, Option<LState>))
    requires
        valid_state(*global_state, local_state.state()),
        pot(local_state.state()) - 120 <= alpha < beta <= 120,
    ensures
        window_result(
            alpha as int,
            beta as int,
            result.0 as int,
            game_value(*global_state, local_state.state()),
        ),
        0 <= result.0 <= 120,
        match result.1 {
            Some(chosen) => names_after(
                *global_state,
                local_state,
                alpha as int,
                beta as int,
                result.0 as int,
                chosen,
            ) && (alpha < result.0 < beta ==> picks_lowest(
                *global_state,
                local_state.state(),
                result.0 as int,
                chosen.state(),
            )),
            None => local_state.remaining_cards.0 == 0 || result.0 == (if local_state.current_player
                == global_state.alone_player {
                0i8
            } else {
                120i8
            }),
        },
    decreases local_state.remaining_cards.0,
{
    let ghost g = *global_state;
    let ghost s = local_state.state();
    let ghost value = game_value(g, s);
    proof {
        lemma_value_bounds(g, s);
        lemma_hand_sizes(g, s);
    }
    if local_state.is_terminal() {
        return (0, None);
    }
    let is_max = local_state.is_max_node(global_state);
    let mut result: i8 = if is_max {
        0
    } else {
        120
    };
    let mut optimal_move: Option<LState> = None;
    let mut alpha_now = alpha;
    let mut beta_now = beta;
    let next = local_state.get_next_states(global_state);
    let n = buffer_len(&next);
    let ghost items = successor_items(next);
    let ghost legal = legal_moves(g, s);
    let ghost picked: u32 = 0;
    let ghost at: int = 0;
    proof {
        lemma_successors(g, s, legal);
        lemma_value_is_extremum(g, s);
    }
    let mut i: usize = 0;
    while i < n && beta_now > alpha_now
        invariant
            g == *global_state,
            s == local_state.state(),
            valid_state(g, s),
            s.remaining_cards.0 != 0,
            items == successor_items(next),
            items == successors(g, s, legal),
            legal == legal_moves(g, s),
            value == game_value(g, s),
            0 <= value <= pot(s) <= 120,
            is_max == (s.current_player == g.alone_player),
            n == items.len(),
            i <= n,
            forall|k: int| 0 <= k < items.len() ==> is_successor(g, s, #[trigger] items[k], legal),
            bounds_moves(g, s, legal, value),
            pot(s) - 120 <= alpha < beta <= 120,
            0 <= result <= 120,
            is_max ==> beta_now == beta && alpha <= alpha_now <= (if result > alpha {
                result
            } else {
                alpha
            }) && (result > alpha ==> value >= result),
            !is_max ==> alpha_now == alpha && beta >= beta_now >= (if result < beta {
                result
            } else {
                beta
            }) && (result < beta ==> value <= result),
            beta_now > alpha_now ==> forall|k: int|
                0 <= k < i ==> if is_max {
                    entry_value(g, #[trigger] items[k]) <= result
                } else {
                    entry_value(g, items[k]) >= result
                },
            match optimal_move {
                Some(chosen) => {
                    &&& is_card(picked)
                    &&& picked & legal == picked
                    &&& chosen == local_state.after(g, picked)
                    &&& 0 <= at < i
                    &&& chosen.state() == items[at].0
                    &&& alpha < result < beta ==> first_best_at(g, s, items, result as int, at)
                    &&& window_result(
                        alpha as int,
                        beta as int,
                        result as int,
                        move_value(g, s, picked),
                    )
                    &&& if is_max {
                        result > 0
                    } else {
                        result < 120
                    }
                },
                None => result == (if is_max {
                    0i8
                } else {
                    120i8
                }),
            },
        decreases n - i,
    {
        let entry = buffer_get(&next, i);
        let ghost c = choose|c: u32|
            is_card(c) && c & legal == c && items[i as int] == #[trigger] successor_entry(g, s, c);
        proof {
            assert(is_successor(g, s, items[i as int], legal));
            lemma_next_valid(g, s, c);
            lemma_value_bounds(g, entry.0);
            assert(entry_value(g, entry) == move_value(g, s, c));
        }
        let next_state = follow(entry);
        let gained = next_state.achieved_points as i8;
        let (local_result, _) = minimax_v2(
            next_state,
            global_state,
            alpha_now - gained,
            beta_now - gained,
        );
        let next_result = gained + local_result;
        if is_max {
            if next_result > result {
                result = next_result;
                optimal_move = Some(next_state);
                proof {
                    picked = c;
                    at = i as int;
                }
            }
            if result > alpha_now {
                alpha_now = result;
            }
        } else {
            if next_result < result {
                result = next_result;
                optimal_move = Some(next_state);
                proof {
                    picked = c;
                    at = i as int;
                }
            }
            if result < beta_now {
                beta_now = result;
            }
        }
        i = i + 1;
    }
    proof {
        if beta_now > alpha_now {
            let c = choose|c: u32|
                is_card(c) && c & legal == c && #[trigger] move_value(g, s, c) == value;
            assert(attains(g, s, legal, value));
            assert(items.contains(successor_entry(g, s, c)));
            let k = choose|k: int| 0 <= k < items.len() && items[k] == successor_entry(g, s, c);
            lemma_next_valid(g, s, c);
            assert(entry_value(g, items[k]) == move_value(g, s, c));
        }
    }
    (result, optimal_move)
}

} // verus!
