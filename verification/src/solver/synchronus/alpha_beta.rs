//! Alpha-beta search on states that carry the points made so far, with
//! results that count all points of the player who plays alone.
use crate::bitboard::{BitCard, BitCards};
use crate::bits::is_card;
use crate::solver::buffer::{buffer_get, buffer_len, successor_items};
use crate::solver::rules::{
    attains, bounds_moves, game_value, holding, is_successor, legal_moves, lemma_has_cards,
    lemma_next_valid, lemma_successors, lemma_value_bounds, lemma_value_is_extremum, move_value,
    next_state, pot, step_points, Successor, successor_entry, successors, valid_state,
};
use crate::solver::synchronus::ab_tt::{first_best_at, picks_lowest, window_result};
use crate::solver::synchronus::local_state::LState;
use crate::solver::{GlobalState, Player};
use arrayvec::ArrayVec;
use vstd::prelude::*;

verus! {

/// A state of the game together with the points that the player who
/// plays alone has made so far.
#[derive(Debug, Clone, Copy, PartialEq)]
pub struct LocalState {
    pub remaining_cards: BitCards,
    pub current_played_cards: (BitCard, BitCard),
    pub current_player: Player,
    pub current_suit: Option<BitCards>,
    pub current_points_alone: u8,
}

impl LocalState {
    /// The state of the game without the points.
    pub open spec fn state(self) -> LState {
        LState {
            remaining_cards: self.remaining_cards,
            current_player: self.current_player,
            current_played_cards: self.current_played_cards,
            current_suit: self.current_suit,
        }
    }

    /// The state can occur, and the points made, those still to be had
    /// and those of the skat are no more than 120 together.
    pub open spec fn fits(self, g: GlobalState) -> bool {
        valid_state(g, self.state()) && self.current_points_alone + pot(self.state())
            + g.skat_points <= 120
    }

    /// All the points that the player who plays alone is sure of: those
    /// made, those of the skat and those that the rest of the game brings.
    pub open spec fn total(self, g: GlobalState) -> int {
        self.current_points_alone + g.skat_points + game_value(g, self.state())
    }

    /// The state after the card `c`, with the points that it brings.
    pub open spec fn after(self, g: GlobalState, c: u32) -> LocalState {
        let n = next_state(g, self.state(), c);
        LocalState {
            remaining_cards: n.remaining_cards,
            current_played_cards: n.current_played_cards,
            current_player: n.current_player,
            current_suit: n.current_suit,
            current_points_alone: (self.current_points_alone + step_points(g, self.state(), c)) as u8,
        }
    }

    /// The state at the start of a trick, with no points made.
    pub fn new(remaining_cards: BitCards, current_player: Player) -> (s: LocalState)
        ensures
            s.remaining_cards == remaining_cards,
            s.current_player == current_player,
            s.current_played_cards == (BitCard(0), BitCard(0)),
            s.current_suit.is_none(),
            s.current_points_alone == 0,
    {
        LocalState {
            remaining_cards,
            current_played_cards: (BitCard(0), BitCard(0)),
            current_player,
            current_suit: None,
            current_points_alone: 0,
        }
    }

    pub fn is_terminal(&self) -> (b: bool)
        ensures
            b == (self.remaining_cards.0 == 0),
    {
        self.remaining_cards.0 == 0
    }

    pub fn is_max_node(&self, global_state: &GlobalState) -> (b: bool)
        ensures
            b == (self.current_player == global_state.alone_player),
    {
        self.current_player == global_state.alone_player
    }

    /// The state of the game without the points.
    pub fn to_state(&self) -> (s: LState)
        ensures
            s == self.state(),
    {
        LState {
            remaining_cards: self.remaining_cards,
            current_player: self.current_player,
            current_played_cards: self.current_played_cards,
            current_suit: self.current_suit,
        }
    }

    /// The cards that the player to move still holds.
    pub fn get_available(&self, global_state: &GlobalState) -> (cards: BitCards)
        ensures
            cards.0 == holding(*global_state, self.state(), self.current_player),
    {
        self.to_state().get_available(self.current_player, global_state)
    }

    /// The state that a move leads to.
    pub fn follow(&self, global_state: &GlobalState, entry: Successor) -> (next: LocalState)
        requires
            self.fits(*global_state),
            is_successor(
                *global_state,
                self.state(),
                entry,
                legal_moves(*global_state, self.state()),
            ),
        ensures
            next.state() == entry.0,
            next.current_points_alone == self.current_points_alone + entry.2,
            next.fits(*global_state),
            next.total(*global_state) == self.current_points_alone + global_state.skat_points
                + entry.2 + game_value(*global_state, entry.0),
    {
        proof {
            let g = *global_state;
            let c = choose|c: u32|
                is_card(c) && c & legal_moves(g, self.state()) == c && entry
                    == #[trigger] successor_entry(g, self.state(), c);
            lemma_has_cards(g, self.state(), c);
            lemma_next_valid(g, self.state(), c);
        }
        LocalState {
            remaining_cards: entry.0.remaining_cards,
            current_played_cards: entry.0.current_played_cards,
            current_player: entry.0.current_player,
            current_suit: entry.0.current_suit,
            current_points_alone: self.current_points_alone + entry.2,
        }
    }

    /// The state after the card `next_move`, which the player to move
    /// may play.
    pub fn get_next_state(&self, next_move: BitCard, global_state: &GlobalState) -> (next:
        LocalState)
        requires
            self.fits(*global_state),
            is_card(next_move.0),
            next_move.0 & legal_moves(*global_state, self.state()) == next_move.0,
        ensures
            next == self.after(*global_state, next_move.0),
            next.fits(*global_state),
    {
        let entry = self.to_state().get_next_state(next_move, global_state);
        self.follow(global_state, entry)
    }

    /// The moves that are allowed in this state, from the lowest card up.
    pub fn get_next_states(&self, global_state: &GlobalState) -> (next: ArrayVec<Successor, 10>)
        requires
            valid_state(*global_state, self.state()),
        ensures
            successor_items(next) == successors(
                *global_state,
                self.state(),
                legal_moves(*global_state, self.state()),
            ),
    {
        self.to_state().list_moves(global_state)
    }
}

/// What the state that a search names says: it is the state after an
/// allowed move, and the result of the search says of all the points of
/// that move what it says of all the points of the state.
pub open spec fn names_state(
    g: GlobalState,
    s: LocalState,
    alpha: int,
    beta: int,
    r: int,
    chosen: LocalState,
) -> bool {
    exists|c: u32|
        is_card(c) && c & legal_moves(g, s.state()) == c && chosen == #[trigger] s.after(g, c)
            && window_result(alpha, beta, r, chosen.total(g))
}

/// Searches `local_state` with the window from `alpha` to `beta` for all
/// the points that the player who plays alone is sure of, and names the
/// state after a move that leads there: where the result lies inside the
/// window, the first best move from the lowest card up. At the end of the
/// game it names none; elsewhere it names none only where no move brings
/// the player who plays alone a point, or holds the others below 120.
pub fn minimax(local_state: LocalState, global_state: &GlobalState, alpha: u8, beta: u8) -> (result:
    (u8, Option<LocalState>))
    requires
        local_state.fits(*global_state),
        alpha < beta <= 120,
    ensures
        window_result(
            alpha as int,
            beta as int,
            result.0 as int,
            local_state.total(*global_state),
        ),
        result.0 <= 120,
        match result.1 {
            Some(chosen) => names_state(
                *global_state,
                local_state,
                alpha as int,
                beta as int,
                result.0 as int,
                chosen,
            ) && (alpha < result.0 < beta ==> picks_lowest(
                *global_state,
                local_state.state(),
                result.0 - local_state.current_points_alone - global_state.skat_points,
                chosen.state(),
            )),
            None => local_state.remaining_cards.0 == 0 || result.0 == (if local_state.current_player
                == global_state.alone_player {
                0u8
            } else {
                120u8
            }),
        },
    decreases local_state.remaining_cards.0,
{
    let ghost g = *global_state;
    let ghost s = local_state.state();
    let ghost total = local_state.total(g);
    proof {
        lemma_value_bounds(g, s);
    }
    if local_state.is_terminal() {
        return (local_state.current_points_alone + global_state.skat_points, None);
    }
    let mut result: u8;
    let mut optimal_move: Option<LocalState> = None;
    let mut alpha_now = alpha;
    let mut beta_now = beta;
    let next = local_state.get_next_states(global_state);
    let n = buffer_len(&next);
    let ghost items = successor_items(next);
    let ghost legal = legal_moves(g, s);
    let ghost picked: u32 = 0;
    let ghost at: int = 0;
    proof {
        lemma_successors(g, s, legal);
        lemma_value_is_extremum(g, s);
    }
    let mut i: usize = 0;
    if local_state.is_max_node(global_state) {
        result = 0;
        while i < n && beta_now > alpha_now
            invariant
                g == *global_state,
                s == local_state.state(),
                local_state.fits(g),
                s.remaining_cards.0 != 0,
                items == successor_items(next),
                items == successors(g, s, legal),
                legal == legal_moves(g, s),
                total == local_state.total(g),
                s.current_player == g.alone_player,
                n == items.len(),
                i <= n,
                forall|k: int| 0 <= k < items.len() ==> is_successor(g, s, #[trigger] items[k], legal),
                bounds_moves(g, s, legal, game_value(g, s)),
                alpha < beta <= 120,
                beta_now == beta,
                alpha_now == (if result > alpha {
                    result
                } else {
                    alpha
                }),
                result <= 120,
                beta_now > alpha_now ==> forall|k: int|
                    0 <= k < i ==> local_state.current_points_alone + g.skat_points + (
                    #[trigger] items[k]).2 + game_value(g, items[k].0) <= result,
                result > alpha ==> total >= result,
                match optimal_move {
                    Some(chosen) => {
                        &&& is_card(picked)
                        &&& picked & legal == picked
                        &&& chosen == local_state.after(g, picked)
                        &&& 0 <= at < i
                        &&& chosen.state() == items[at].0
                        &&& alpha < result < beta ==> first_best_at(
                            g,
                            s,
                            items,
                            result - local_state.current_points_alone - g.skat_points,
                            at,
                        )
                        &&& result > 0
                        &&& window_result(
                            alpha as int,
                            beta as int,
                            result as int,
                            chosen.total(g),
                        )
                    },
                    None => result == 0,
                },
            decreases n - i,
        {
            let entry = buffer_get(&next, i);
            let ghost c = choose|c: u32|
                is_card(c) && c & legal == c && items[i as int] == #[trigger] successor_entry(
                    g,
                    s,
                    c,
                );
            proof {
                assert(is_successor(g, s, items[i as int], legal));
                lemma_next_valid(g, s, c);
                assert(entry.2 + game_value(g, entry.0) == move_value(g, s, c));
            }
            let next_state = local_state.follow(global_state, entry);
            let (next_result, _) = minimax(next_state, global_state, alpha_now, beta_now);
            if next_result > result {
                result = next_result;
                optimal_move = Some(next_state);
                proof {
                    picked = c;
                    at = i as int;
                }
            }
            if result > alpha_now {
                alpha_now = result;
            }
            i = i + 1;
        }
    } else {
        result = 120;
        while i < n && beta_now > alpha_now
            invariant
                g == *global_state,
                s == local_state.state(),
                local_state.fits(g),
                s.remaining_cards.0 != 0,
                items == successor_items(next),
                items == successors(g, s, legal),
                legal == legal_moves(g, s),
                total == local_state.total(g),
                s.current_player != g.alone_player,
                n == items.len(),
                i <= n,
                forall|k: int| 0 <= k < items.len() ==> is_successor(g, s, #[trigger] items[k], legal),
                bounds_moves(g, s, legal, game_value(g, s)),
                alpha < beta <= 120,
                alpha_now == alpha,
                beta_now == (if result < beta {
                    result
                } else {
                    beta
                }),
                result <= 120,
                total <= 120,
                beta_now > alpha_now ==> forall|k: int|
                    0 <= k < i ==> local_state.current_points_alone + g.skat_points + (
                    #[trigger] items[k]).2 + game_value(g, items[k].0) >= result,
                result < beta ==> total <= result,
                match optimal_move {
                    Some(chosen) => {
                        &&& is_card(picked)
                        &&& picked & legal == picked
                        &&& chosen == local_state.after(g, picked)
                        &&& 0 <= at < i
                        &&& chosen.state() == items[at].0
                        &&& alpha < result < beta ==> first_best_at(
                            g,
                            s,
                            items,
                            result - local_state.current_points_alone - g.skat_points,
                            at,
                        )
                        &&& result < 120
                        &&& window_result(
                            alpha as int,
                            beta as int,
                            result as int,
                            chosen.total(g),
                        )
                    },
                    None => result == 120,
                },
            decreases n - i,
        {
            let entry = buffer_get(&next, i);
            let ghost c = choose|c: u32|
                is_card(c) && c & legal == c && items[i as int] == #[trigger] successor_entry(
                    g,
                    s,
                    c,
                );
            proof {
                assert(is_successor(g, s, items[i as int], legal));
                lemma_next_valid(g, s, c);
                assert(entry.2 + game_value(g, entry.0) == move_value(g, s, c));
            }
            let next_state = local_state.follow(global_state, entry);
            let (next_result, _) = minimax(next_state, global_state, alpha_now, beta_now);
            if next_result < result {
                result = next_result;
                optimal_move = Some(next_state);
                proof {
                    picked = c;
                    at = i as int;
                }
            }
            if result < beta_now {
                beta_now = result;
            }
            i = i + 1;
        }
    }
    proof {
        if beta_now > alpha_now {
            let c = choose|c: u32|
                is_card(c) && c & legal == c && #[trigger] move_value(g, s, c) == game_value(g, s);
            assert(attains(g, s, legal, game_value(g, s)));
            assert(items.contains(successor_entry(g, s, c)));
            let k = choose|k: int| 0 <= k < items.len() && items[k] == successor_entry(g, s, c);
            lemma_next_valid(g, s, c);
            assert(items[k].2 + game_value(g, items[k].0) == move_value(g, s, c));
        }
    }
    (result, optimal_move)
}

} // verus!
