//! What holds of the game and of the order of the cards, whatever the
//! deal.
use crate::bitboard::{
    color_mask, GRAND_MASK, HEARTS_TRUMPF_MASK, KARO_TRUMPF_MASK, KREUZ_TRUMPF_MASK,
    lemma_deck_points, lemma_points_split, lemma_trump_masks, PIQUS_TRUMPF_MASK, points, stronger,
    trick_winner, trump_mask, Variant,
};
use crate::bits::{is_card, lemma_lowest, lowest};
use crate::solver::rules::{
    at_trick_start, best_of, game_value, hash_key, legal_moves, lemma_chain, lemma_hand_sizes,
    lemma_key_injective, lemma_legal_moves, lemma_next_valid, lemma_part, lemma_value_bounds,
    lemma_value_is_extremum, move_value, next_state, pot, step_points_against, valid_state,
};
use crate::solver::synchronus::local_state::LState;
use crate::solver::{GlobalState, ahead_of_three};
use vstd::prelude::*;

verus! {

/// The points that the two players who play together are sure of from
/// the state `s` on, whatever the player who plays alone does.
pub open spec fn value_against(g: GlobalState, s: LState) -> int
    decreases s.remaining_cards.0, 1int, 0int,
{
    if s.remaining_cards.0 == 0 {
        0
    } else {
        best_against(g, s, legal_moves(g, s))
    }
}

/// The same where only the cards of `moves` may be played: the two pick
/// the move that is best for them, the player who plays alone the worst.
pub open spec fn best_against(g: GlobalState, s: LState, moves: u32) -> int
    decreases s.remaining_cards.0, 0int, moves,
{
    if moves == 0 || moves & s.remaining_cards.0 != moves {
        0
    } else {
        let c = lowest(moves);
        let rest = moves & !c;
        proof {
            lemma_lowest(moves);
            crate::solver::rules::lemma_move_shrinks(s.remaining_cards.0, moves, c);
        }
        let v = step_points_against(g, s, c) + value_against(g, next_state(g, s, c));
        if rest == 0 {
            v
        } else if s.current_player == g.alone_player {
            if v <= best_against(g, s, rest) {
                v
            } else {
                best_against(g, s, rest)
            }
        } else {
            if v >= best_against(g, s, rest) {
                v
            } else {
                best_against(g, s, rest)
            }
        }
    }
}

/// What one side is sure of and what the other side is sure of are
/// together all the points still to be had.
pub proof fn lemma_zero_sum(g: GlobalState, s: LState)
    requires
        valid_state(g, s),
    ensures
        game_value(g, s) + value_against(g, s) == pot(s),
    decreases s.remaining_cards.0, 1int, 0int,
{
    if s.remaining_cards.0 != 0 {
        lemma_legal_moves(g, s);
        lemma_best_zero_sum(g, s, legal_moves(g, s));
    } else {
        crate::bitboard::lemma_points_bound(0);
        crate::bitboard::lemma_value_of_none();
        crate::bits::lemma_word(g.player_cards.0.0);
        crate::bits::lemma_word(g.player_cards.1.0);
        crate::bits::lemma_word(g.player_cards.2.0);
        crate::bits::lemma_count_zero(0);
    }
}

proof fn lemma_best_zero_sum(g: GlobalState, s: LState, moves: u32)
    requires
        valid_state(g, s),
        s.remaining_cards.0 != 0,
        moves != 0,
        moves & legal_moves(g, s) == moves,
    ensures
        best_of(g, s, moves) + best_against(g, s, moves) == pot(s),
    decreases s.remaining_cards.0, 0int, moves,
{
    let c = lowest(moves);
    lemma_lowest(moves);
    lemma_legal_moves(g, s);
    lemma_chain(moves, legal_moves(g, s), s.remaining_cards.0);
    lemma_part(moves, c, legal_moves(g, s), c);
    lemma_part(moves, c, s.remaining_cards.0, c);
    lemma_next_valid(g, s, c);
    lemma_zero_sum(g, next_state(g, s, c));
    if moves & !c != 0 {
        lemma_best_zero_sum(g, s, moves & !c);
    }
}

/// In a game with all 32 cards the points that the player who plays
/// alone is sure of, the skat included, and the points that the two others
/// are sure of are 120 together.
pub proof fn lemma_points_add_up(g: GlobalState, s: LState)
    requires
        valid_state(g, s),
        at_trick_start(s),
        s.remaining_cards.0 == g.hands(),
        g.hands() | g.skat.0 == 0xFFFF_FFFFu32,
        g.skat_points == points(g.skat.0),
    ensures
        game_value(g, s) + g.skat_points + value_against(g, s) == 120,
{
    lemma_zero_sum(g, s);
    crate::solver::rules::lemma_hands(
        g.player_cards.0.0,
        g.player_cards.1.0,
        g.player_cards.2.0,
        s.remaining_cards.0,
        g.skat.0,
    );
    lemma_points_split(g.hands(), g.skat.0);
    lemma_deck_points();
    crate::bitboard::lemma_value_of_none();
}

/// Whoever plays alone, the points that this player is sure of lie
/// between nothing and the points still to be had: two games that differ
/// only in who plays alone differ by no more than those points.
pub proof fn lemma_swap_bound(g1: GlobalState, g2: GlobalState, s: LState)
    requires
        valid_state(g1, s),
        valid_state(g2, s),
        g1.player_cards == g2.player_cards,
        g1.skat == g2.skat,
        g1.variant == g2.variant,
    ensures
        game_value(g2, s) <= game_value(g1, s) + pot(s),
        game_value(g1, s) <= game_value(g2, s) + pot(s),
        0 <= game_value(g1, s) + g1.skat_points <= 120,
        0 <= game_value(g2, s) + g2.skat_points <= 120,
{
    lemma_value_bounds(g1, s);
    lemma_value_bounds(g2, s);
    lemma_hand_sizes(g1, s);
    lemma_hand_sizes(g2, s);
}

/// Two players cannot both be sure of more than there is. What one
/// player is sure of when playing alone, and what another is sure of when
/// that one plays alone instead, with the same hands in the same kind of
/// game, are together no more than the points still to be had.
pub proof fn lemma_swap_sum(g1: GlobalState, g2: GlobalState, s: LState)
    requires
        valid_state(g1, s),
        valid_state(g2, s),
        g1.player_cards == g2.player_cards,
        g1.variant == g2.variant,
        g1.alone_player != g2.alone_player,
    ensures
        game_value(g1, s) + game_value(g2, s) <= pot(s),
    decreases s.remaining_cards.0,
{
    if s.remaining_cards.0 != 0 {
        let legal = legal_moves(g1, s);
        assert(legal == legal_moves(g2, s));
        lemma_value_is_extremum(g1, s);
        lemma_value_is_extremum(g2, s);
        let c1 = choose|c: u32|
            is_card(c) && c & legal == c && #[trigger] move_value(g1, s, c) == game_value(g1, s);
        let c2 = choose|c: u32|
            is_card(c) && c & legal == c && #[trigger] move_value(g2, s, c) == game_value(g2, s);
        // the move of the player who is alone in one of the games and to
        // move; where neither is to move, any move
        let c = if s.current_player == g2.alone_player {
            c2
        } else {
            c1
        };
        assert(game_value(g1, s) <= move_value(g1, s, c));
        assert(game_value(g2, s) <= move_value(g2, s, c));
        lemma_next_valid(g1, s, c);
        lemma_next_valid(g2, s, c);
        assert(next_state(g1, s, c) == next_state(g2, s, c));
        lemma_swap_sum(g1, g2, next_state(g1, s, c));
    } else {
        lemma_value_bounds(g1, s);
    }
}

/// Two states at the start of a trick that have one key have one value.
pub proof fn lemma_key_value(g: GlobalState, s1: LState, s2: LState)
    requires
        valid_state(g, s1),
        valid_state(g, s2),
        at_trick_start(s1),
        at_trick_start(s2),
        g.has_marks(),
        hash_key(g, s1) == hash_key(g, s2),
    ensures
        game_value(g, s1) == game_value(g, s2),
{
    lemma_key_injective(g, s1, s2);
}

/// The value of a state where the moves are tried in the order `order`:
/// the best of them for the side that moves.
pub open spec fn best_in_order(g: GlobalState, s: LState, order: Seq<u32>) -> int
    decreases order.len(),
{
    if order.len() == 0 {
        0
    } else if order.len() == 1 {
        move_value(g, s, order[0])
    } else {
        let v = move_value(g, s, order.last());
        let before = best_in_order(g, s, order.drop_last());
        if s.current_player == g.alone_player {
            if v >= before {
                v
            } else {
                before
            }
        } else {
            if v <= before {
                v
            } else {
                before
            }
        }
    }
}

/// `order` holds the cards that may be played in `s`, each at least once.
pub open spec fn orders_moves(g: GlobalState, s: LState, order: Seq<u32>) -> bool {
    &&& forall|i: int|
        0 <= i < order.len() ==> is_card(#[trigger] order[i]) && order[i] & legal_moves(g, s)
            == order[i]
    &&& forall|c: u32| is_card(c) && c & legal_moves(g, s) == c ==> #[trigger] order.contains(c)
}

proof fn lemma_order_extremum(g: GlobalState, s: LState, order: Seq<u32>)
    requires
        order.len() > 0,
    ensures
        exists|i: int|
            0 <= i < order.len() && best_in_order(g, s, order) == move_value(
                g,
                s,
                #[trigger] order[i],
            ),
        forall|i: int|
            0 <= i < order.len() ==> if s.current_player == g.alone_player {
                move_value(g, s, #[trigger] order[i]) <= best_in_order(g, s, order)
            } else {
                move_value(g, s, order[i]) >= best_in_order(g, s, order)
            },
    decreases order.len(),
{
    if order.len() == 1 {
        assert(best_in_order(g, s, order) == move_value(g, s, order[0]));
    } else {
        let front = order.drop_last();
        lemma_order_extremum(g, s, front);
        let j = choose|j: int|
            0 <= j < front.len() && best_in_order(g, s, front) == move_value(
                g,
                s,
                #[trigger] front[j],
            );
        assert(front[j] == order[j]);
        let last = order.len() - 1;
        if best_in_order(g, s, order) == move_value(g, s, order[last]) {
        } else {
            assert(best_in_order(g, s, order) == move_value(g, s, order[j]));
        }
        assert forall|i: int| 0 <= i < order.len() implies if s.current_player
            == g.alone_player {
            move_value(g, s, #[trigger] order[i]) <= best_in_order(g, s, order)
        } else {
            move_value(g, s, order[i]) >= best_in_order(g, s, order)
        } by {
            if i < last {
                assert(front[i] == order[i]);
            }
        }
    }
}

/// The value of a state does not depend on the order in which its moves
/// are tried.
pub proof fn lemma_order_independent(g: GlobalState, s: LState, order: Seq<u32>)
    requires
        valid_state(g, s),
        s.remaining_cards.0 != 0,
        orders_moves(g, s, order),
    ensures
        best_in_order(g, s, order) == game_value(g, s),
{
    let legal = legal_moves(g, s);
    let value = game_value(g, s);
    lemma_value_is_extremum(g, s);
    let c = choose|c: u32| is_card(c) && c & legal == c && #[trigger] move_value(g, s, c) == value;
    assert(order.contains(c));
    lemma_order_extremum(g, s, order);
    let i = choose|i: int|
        0 <= i < order.len() && best_in_order(g, s, order) == move_value(g, s, #[trigger] order[i]);
    let k = choose|k: int| 0 <= k < order.len() && order[k] == c;
    assert(move_value(g, s, order[k]) == value);
    assert(is_card(order[i]) && order[i] & legal == order[i]);
}

/// The trumps of one of the five games that are played.
pub open spec fn is_trump_set(trump: u32) -> bool {
    trump == GRAND_MASK || trump == KREUZ_TRUMPF_MASK || trump == PIQUS_TRUMPF_MASK || trump
        == HEARTS_TRUMPF_MASK || trump == KARO_TRUMPF_MASK
}

/// Two cards that can be set against each other: one is a trump, or
/// both are of one suit.
pub open spec fn comparable(a: u32, b: u32, trump: u32) -> bool {
    a & trump != 0 || b & trump != 0 || color_mask(a) == color_mask(b)
}

proof fn lemma_order_bits(a: u32, b: u32, c: u32, trump: u32)
    by (bit_vector)
    requires
        is_card(a),
        is_card(b),
        is_card(c),
        is_trump_set(trump),
    ensures
        !stronger(a, a, trump),
        a != b ==> stronger(a, b, trump) || stronger(b, a, trump),
        a != b && comparable(a, b, trump) ==> !(stronger(a, b, trump) && stronger(b, a, trump)),
        comparable(a, b, trump) && comparable(b, c, trump) && comparable(a, c, trump) && stronger(
            a,
            b,
            trump,
        ) && stronger(b, c, trump) ==> stronger(a, c, trump),
{
}

/// Among cards that can be set against each other, to be stronger is a
/// strict order: no card is stronger than itself, of two different cards
/// exactly one is the stronger, and a card that is stronger than a second
/// is stronger than every card that the second is stronger than. Two cards
/// that are no trumps and of different suits each stay ahead of the other;
/// of two different cards one is always ahead. The points of a card are the
/// same in every game.
pub proof fn lemma_stronger_is_order(a: u32, b: u32, c: u32, variant: Variant)
    requires
        is_card(a),
        is_card(b),
        is_card(c),
        variant.has_trump(),
    ensures
        !stronger(a, a, trump_mask(variant)),
        a != b ==> stronger(a, b, trump_mask(variant)) || stronger(b, a, trump_mask(variant)),
        a != b && comparable(a, b, trump_mask(variant)) ==> !(stronger(a, b, trump_mask(variant))
            && stronger(b, a, trump_mask(variant))),
        comparable(a, b, trump_mask(variant)) && comparable(b, c, trump_mask(variant))
            && comparable(a, c, trump_mask(variant)) && stronger(a, b, trump_mask(variant))
            && stronger(b, c, trump_mask(variant)) ==> stronger(a, c, trump_mask(variant)),
{
    lemma_trump_masks();
    lemma_order_bits(a, b, c, trump_mask(variant));
}

proof fn lemma_winner_bits(first: u32, second: u32, third: u32, trump: u32)
    by (bit_vector)
    requires
        is_card(first),
        is_card(second),
        is_card(third),
        first != second,
        first != third,
        second != third,
        is_trump_set(trump),
    ensures
        trick_winner(first, second, third, trump) == first || trick_winner(
            first,
            second,
            third,
            trump,
        ) == second || trick_winner(first, second, third, trump) == third,
        trick_winner(first, second, third, trump) == ahead_of_three(first, second, third, trump),
        !stronger(second, trick_winner(first, second, third, trump), trump) || (second & trump == 0
            && second & color_mask(first) == 0),
        !stronger(third, trick_winner(first, second, third, trump), trump) || (third & trump == 0
            && third & color_mask(first) == 0),
        trick_winner(first, second, third, trump) != first ==> !stronger(
            first,
            trick_winner(first, second, third, trump),
            trump,
        ),
{
}

/// The card that takes a trick of three different cards is one of the
/// three and the card found by comparing the cards in turn. The card led
/// does not stay ahead of another card that takes the trick, and a card
/// played after stays ahead of the card that takes the trick only where it
/// is no trump and does not follow the suit led.
pub proof fn lemma_trick_winner(first: u32, second: u32, third: u32, variant: Variant)
    requires
        is_card(first),
        is_card(second),
        is_card(third),
        first != second,
        first != third,
        second != third,
        variant.has_trump(),
    ensures
        trick_winner(first, second, third, trump_mask(variant)) == first || trick_winner(
            first,
            second,
            third,
            trump_mask(variant),
        ) == second || trick_winner(first, second, third, trump_mask(variant)) == third,
        trick_winner(first, second, third, trump_mask(variant)) == ahead_of_three(
            first,
            second,
            third,
            trump_mask(variant),
        ),
        !stronger(
            second,
            trick_winner(first, second, third, trump_mask(variant)),
            trump_mask(variant),
        ) || (second & trump_mask(variant) == 0 && second & color_mask(first) == 0),
        !stronger(
            third,
            trick_winner(first, second, third, trump_mask(variant)),
            trump_mask(variant),
        ) || (third & trump_mask(variant) == 0 && third & color_mask(first) == 0),
        trick_winner(first, second, third, trump_mask(variant)) != first ==> !stronger(
            first,
            trick_winner(first, second, third, trump_mask(variant)),
            trump_mask(variant),
        ),
{
    lemma_trump_masks();
    lemma_winner_bits(first, second, third, trump_mask(variant));
}

} // verus!
