//! Alpha-beta search without a table.
use crate::bits::is_card;
use crate::solver::buffer::{buffer_get, buffer_len, successor_items};
use crate::solver::rules::{
    attains, bounds_moves, game_value, is_successor, legal_moves, lemma_hand_sizes, lemma_listed,
    lemma_next_valid, lemma_value_bounds, lemma_value_is_extremum, move_value, next_state, pot,
    successor_entry, valid_state,
};
use crate::solver::rules::{Successor, lists_successors};
use crate::solver::synchronus::ab_tt::{entry_value, first_best_at, window_result};
use crate::solver::synchronus::local_state::LState;
use crate::solver::GlobalState;
use vstd::prelude::*;

verus! {

/// What the move that a search names says: it is the state after an
/// allowed move, and the result of the search says of the value of that
/// move what it says of the value of the state.
pub open spec fn names_move(
    g: GlobalState,
    s: LState,
    alpha: int,
    beta: int,
    r: int,
    chosen: LState,
) -> bool {
    exists|c: u32|
        is_card(c) && c & legal_moves(g, s) == c && chosen == next_state(g, s, c) && window_result(
            alpha,
            beta,
            r,
            #[trigger] move_value(g, s, c),
        )
}

/// `chosen` is the state after the first move, in the order in which the
/// moves are tried, that is worth `worth`.
pub open spec fn picks_first(g: GlobalState, s: LState, worth: int, chosen: LState) -> bool {
    exists|items: Seq<Successor>, j: int|
        #[trigger] first_best_at(g, s, items, worth, j) && lists_successors(g, s, items) && chosen
            == items[j].0
}

/// Searches `local_state` with the window from `alpha` to `beta` for the
/// points that the player who plays alone is sure of from there on, and
/// names a move that leads there: where the result lies inside the window,
/// the first best move in the order in which the moves are tried. No move
/// is named at the end of the game, nor where no move is better than the
/// edge of the window from which the side to move starts.
pub fn ab(local_state: LState, global_state: &GlobalState, alpha: i8, beta: i8) -> (result: (
    i8,
    Option<LState>,
))
    requires
        valid_state(*global_state, local_state),
        pot(local_state) - 120 <= alpha < beta <= 120,
    ensures
        window_result(
            alpha as int,
            beta as int,
            result.0 as int,
            game_value(*global_state, local_state),
        ),
        result.0 >= alpha || result.0 >= 0,
        result.0 <= beta || result.0 <= pot(local_state),
        match result.1 {
            Some(chosen) => names_move(
                *global_state,
                local_state,
                alpha as int,
                beta as int,
                result.0 as int,
                chosen,
            ) && (alpha < result.0 < beta ==> picks_first(
                *global_state,
                local_state,
                result.0 as int,
                chosen,
            )),
            None => local_state.remaining_cards.0 == 0 || result.0 == (if local_state.current_player
                == global_state.alone_player {
                alpha
            } else {
                beta
            }),
        },
    decreases local_state.remaining_cards.0,
{
    let ghost g = *global_state;
    let ghost value = game_value(g, local_state);
    proof {
        lemma_value_bounds(g, local_state);
        lemma_hand_sizes(g, local_state);
    }
    if local_state.is_terminal() {
        return (0, None);
    }
    let mut optimal_move: Option<LState> = None;
    let mut new_alpha = alpha;
    let mut new_beta = beta;
    let is_max = local_state.is_max_node(global_state);
    let next = local_state.get_next_states(global_state);
    let n = buffer_len(&next);
    let ghost items = successor_items(next);
    let ghost legal = legal_moves(g, local_state);
    let ghost picked: u32 = 0;
    let ghost at: int = 0;
    proof {
        lemma_listed(g, local_state, items);
        lemma_value_is_extremum(g, local_state);
    }
    let mut i: usize = 0;
    while i < n && new_alpha < new_beta
        invariant
            g == *global_state,
            valid_state(g, local_state),
            local_state.remaining_cards.0 != 0,
            items == successor_items(next),
            lists_successors(g, local_state, items),
            legal == legal_moves(g, local_state),
            value == game_value(g, local_state),
            is_max == (local_state.current_player == g.alone_player),
            n == items.len(),
            i <= n,
            forall|k: int|
                0 <= k < items.len() ==> is_successor(g, local_state, #[trigger] items[k], legal),
            bounds_moves(g, local_state, legal, value),
            pot(local_state) - 120 <= alpha < beta <= 120,
            0 <= value <= pot(local_state) <= 120,
            is_max ==> new_beta == beta && alpha <= new_alpha && (new_alpha <= beta || new_alpha
                <= pot(local_state)) && (new_alpha == alpha || value >= new_alpha),
            !is_max ==> new_alpha == alpha && new_beta <= beta && (new_beta >= alpha || new_beta
                >= 0) && (new_beta == beta || value <= new_beta),
            new_alpha < new_beta ==> forall|k: int|
                0 <= k < i ==> if is_max {
                    entry_value(g, #[trigger] items[k]) <= new_alpha
                } else {
                    entry_value(g, items[k]) >= new_beta
                },
            match optimal_move {
                Some(chosen) => {
                    &&& is_card(picked)
                    &&& picked & legal == picked
                    &&& chosen == next_state(g, local_state, picked)
                    &&& 0 <= at < i
                    &&& chosen == items[at].0
                    &&& new_alpha < new_beta ==> first_best_at(
                        g,
                        local_state,
                        items,
                        (if is_max {
                            new_alpha
                        } else {
                            new_beta
                        }) as int,
                        at,
                    )
                    &&& if is_max {
                        new_alpha > alpha && window_result(
                            alpha as int,
                            beta as int,
                            new_alpha as int,
                            move_value(g, local_state, picked),
                        )
                    } else {
                        new_beta < beta && window_result(
                            alpha as int,
                            beta as int,
                            new_beta as int,
                            move_value(g, local_state, picked),
                        )
                    }
                },
                None => if is_max {
                    new_alpha == alpha
                } else {
                    new_beta == beta
                },
            },
        decreases n - i,
    {
        let entry = buffer_get(&next, i);
        let next_state = entry.0;
        let achieved = entry.2 as i8;
        let ghost c = choose|c: u32|
            is_card(c) && c & legal == c && items[i as int] == #[trigger] successor_entry(
                g,
                local_state,
                c,
            );
        proof {
            assert(is_successor(g, local_state, items[i as int], legal));
            lemma_next_valid(g, local_state, c);
            lemma_value_bounds(g, next_state);
            assert(entry_value(g, entry) == move_value(g, local_state, c));
        }
        let poss_alpha_or_beta = achieved + ab(
            next_state,
            global_state,
            new_alpha - achieved,
            new_beta - achieved,
        ).0;
        if is_max {
            if poss_alpha_or_beta > new_alpha {
                new_alpha = poss_alpha_or_beta;
                optimal_move = Some(next_state);
                proof {
                    picked = c;
                    at = i as int;
                }
            }
        } else if poss_alpha_or_beta < new_beta {
            new_beta = poss_alpha_or_beta;
            optimal_move = Some(next_state);
            proof {
                picked = c;
                at = i as int;
            }
        }
        i = i + 1;
    }
    proof {
        if new_alpha < new_beta {
            let c = choose|c: u32|
                is_card(c) && c & legal == c && #[trigger] move_value(g, local_state, c) == value;
            assert(attains(g, local_state, legal, value));
            assert(items.contains(successor_entry(g, local_state, c)));
            let k = choose|k: int|
                0 <= k < items.len() && items[k] == successor_entry(g, local_state, c);
            lemma_next_valid(g, local_state, c);
            assert(entry_value(g, items[k]) == move_value(g, local_state, c));
        }
    }
    if is_max {
        (new_alpha, optimal_move)
    } else {
        (new_beta, optimal_move)
    }
}

} // verus!
