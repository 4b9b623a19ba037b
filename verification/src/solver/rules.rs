//! The game as a mathematical object: which states can occur, which moves
//! are allowed in them, and how many points the player who plays alone is
//! sure of from a state on.
use crate::bitboard::{
    BitCard, BitCards, card_value, lemma_points_bound, lemma_points_card, lemma_points_remove,
    lemma_points_split, lemma_value_of_none, points, trick_points, trick_winner, trump_mask,
};
use crate::bits::{
    count, is_card, lemma_count_complement, lemma_count_remove, lemma_count_split,
    lemma_count_subset, lemma_count_zero, lemma_lowest, lowest,
};
use crate::solver::synchronus::local_state::LState;
use crate::solver::{GlobalState, Player, led_suit, owner, playable};
use vstd::prelude::*;

verus! {

/// The cards that a player still holds.
pub open spec fn holding(g: GlobalState, s: LState, player: Player) -> u32 {
    g.hand(player) & s.remaining_cards.0
}

/// The cards that the player to move may play.
pub open spec fn legal_moves(g: GlobalState, s: LState) -> u32 {
    playable(holding(g, s, s.current_player), s.current_suit)
}

/// No card lies on the table: a trick is about to begin.
pub open spec fn at_trick_start(s: LState) -> bool {
    s.current_played_cards.0.0 == 0 && s.current_played_cards.1.0 == 0
}

/// The state after the player to move has played the card `c`.
pub open spec fn next_state(g: GlobalState, s: LState, c: u32) -> LState {
    let rest = BitCards(s.remaining_cards.0 & !c);
    if at_trick_start(s) {
        LState {
            remaining_cards: rest,
            current_player: s.current_player.next(),
            current_played_cards: (BitCard(c), BitCard(0)),
            current_suit: Some(BitCards(led_suit(c, trump_mask(g.variant)))),
        }
    } else if s.current_played_cards.1.0 == 0 {
        LState {
            remaining_cards: rest,
            current_player: s.current_player.next(),
            current_played_cards: (s.current_played_cards.0, BitCard(c)),
            current_suit: s.current_suit,
        }
    } else {
        LState {
            remaining_cards: rest,
            current_player: owner(
                g,
                trick_winner(
                    s.current_played_cards.0.0,
                    s.current_played_cards.1.0,
                    c,
                    trump_mask(g.variant),
                ),
            ),
            current_played_cards: (BitCard(0), BitCard(0)),
            current_suit: None,
        }
    }
}

/// The points that playing `c` brings the player who plays alone: those
/// of the trick where `c` is its third card and that player takes it.
pub open spec fn step_points(g: GlobalState, s: LState, c: u32) -> nat {
    if s.current_played_cards.1.0 != 0 && owner(
        g,
        trick_winner(s.current_played_cards.0.0, s.current_played_cards.1.0, c, trump_mask(g.variant)),
    ) == g.alone_player {
        trick_points(s.current_played_cards.0.0, s.current_played_cards.1.0, c)
    } else {
        0
    }
}

/// The points that playing `c` brings the two other players.
pub open spec fn step_points_against(g: GlobalState, s: LState, c: u32) -> nat {
    if s.current_played_cards.1.0 != 0 && owner(
        g,
        trick_winner(s.current_played_cards.0.0, s.current_played_cards.1.0, c, trump_mask(g.variant)),
    ) != g.alone_player {
        trick_points(s.current_played_cards.0.0, s.current_played_cards.1.0, c)
    } else {
        0
    }
}

/// The points still to be had: those of the cards not yet played and of
/// the cards on the table.
pub open spec fn pot(s: LState) -> nat {
    points(s.remaining_cards.0) + card_value(s.current_played_cards.0.0) + card_value(
        s.current_played_cards.1.0,
    )
}

/// A state that can occur in the game `g`. The cards not yet played lie
/// in the hands; the cards on the table were played by the players before
/// the one to move, are gone from the hands, and the first of them fixes
/// the suit; and each player has played once per trick.
pub open spec fn valid_state(g: GlobalState, s: LState) -> bool {
    let p = s.current_player;
    let first = s.current_played_cards.0.0;
    let second = s.current_played_cards.1.0;
    let mine = count(holding(g, s, p));
    &&& g.wf()
    &&& s.remaining_cards.0 & g.hands() == s.remaining_cards.0
    &&& if first == 0 {
        &&& second == 0
        &&& s.current_suit.is_none()
        &&& count(holding(g, s, p.next())) == mine
        &&& count(holding(g, s, p.next().next())) == mine
    } else {
        &&& is_card(first)
        &&& first & s.remaining_cards.0 == 0
        &&& s.current_suit == Some(BitCards(led_suit(first, trump_mask(g.variant))))
        &&& if second == 0 {
            &&& first & g.hand(p.next().next()) == first
            &&& count(holding(g, s, p.next())) == mine
            &&& count(holding(g, s, p.next().next())) + 1 == mine
        } else {
            &&& is_card(second)
            &&& second & s.remaining_cards.0 == 0
            &&& first & g.hand(p.next()) == first
            &&& second & g.hand(p.next().next()) == second
            &&& count(holding(g, s, p.next())) + 1 == mine
            &&& count(holding(g, s, p.next().next())) + 1 == mine
        }
    }
}

/// Playing a card of a set of moves leaves fewer cards and fewer moves.
pub proof fn lemma_move_shrinks(rem: u32, moves: u32, c: u32)
    by (bit_vector)
    requires
        moves & rem == moves,
        c != 0,
        c & moves == c,
    ensures
        rem & !c < rem,
        (moves & !c) & rem == moves & !c,
        c & rem == c,
        moves & !c < moves,
{
}

/// The points that the player who plays alone is sure of from the state
/// `s` on, whatever the two others do, not counting what lies behind:
/// that player picks the best move, the others the worst for that player.
pub open spec fn game_value(g: GlobalState, s: LState) -> int
    decreases s.remaining_cards.0, 1int, 0int,
{
    if s.remaining_cards.0 == 0 {
        0
    } else {
        best_of(g, s, legal_moves(g, s))
    }
}

/// The value of the state `s` where only the cards of `moves` may be
/// played: the highest value of a move where the player who plays alone
/// is to move, the lowest where another is.
pub open spec fn best_of(g: GlobalState, s: LState, moves: u32) -> int
    decreases s.remaining_cards.0, 0int, moves,
{
    if moves == 0 || moves & s.remaining_cards.0 != moves {
        0
    } else {
        let c = lowest(moves);
        let rest = moves & !c;
        proof {
            lemma_lowest(moves);
            lemma_move_shrinks(s.remaining_cards.0, moves, c);
        }
        let v = step_points(g, s, c) + game_value(g, next_state(g, s, c));
        if rest == 0 {
            v
        } else if s.current_player == g.alone_player {
            if v >= best_of(g, s, rest) {
                v
            } else {
                best_of(g, s, rest)
            }
        } else {
            if v <= best_of(g, s, rest) {
                v
            } else {
                best_of(g, s, rest)
            }
        }
    }
}

/// What the move `c` is worth to the player who plays alone.
pub open spec fn move_value(g: GlobalState, s: LState, c: u32) -> int {
    step_points(g, s, c) + game_value(g, next_state(g, s, c))
}


/// What follows where three hands and the skat have no common card and
/// the cards left lie in the hands.
pub proof fn lemma_hands(h0: u32, h1: u32, h2: u32, rem: u32, skat: u32)
    by (bit_vector)
    requires
        h0 & h1 == 0,
        h0 & h2 == 0,
        h1 & h2 == 0,
        rem & (h0 | h1 | h2) == rem,
        skat & (h0 | h1 | h2) == 0,
    ensures
        (h0 & rem == 0 && h1 & rem == 0 && h2 & rem == 0) ==> rem == 0,
        (h0 | h1) & h2 == 0,
        (h0 | h1 | h2) & skat == 0,
        ((h0 | h1 | h2) | skat) & 0xFFFF_FFFFu32 == (h0 | h1 | h2) | skat,
        (h0 & rem) & h0 == h0 & rem,
        (h1 & rem) & h1 == h1 & rem,
        (h2 & rem) & h2 == h2 & rem,
        rem & skat == 0,
        h0 & (h0 | h1 | h2) == h0,
        h1 & (h0 | h1 | h2) == h1,
        h2 & (h0 | h1 | h2) == h2,
        h1 & h0 == 0,
        h2 & h0 == 0,
        h2 & h1 == 0,
{
}

/// Playing a card of one hand leaves the other hands as they are.
pub proof fn lemma_play(mine: u32, other: u32, rem: u32, hands: u32, c: u32)
    by (bit_vector)
    requires
        mine & other == 0,
        rem & hands == rem,
        c & (mine & rem) == c,
    ensures
        other & (rem & !c) == other & rem,
        mine & (rem & !c) == (mine & rem) & !c,
        (rem & !c) & hands == rem & !c,
        c & (rem & !c) == 0,
        c & rem == c,
        c & mine == c,
{
}

/// The cards that a player holds, and those of them that follow a suit,
/// lie in the hand and in the cards left.
pub proof fn lemma_playable(cards: u32, mask: u32, hand: u32, rem: u32)
    by (bit_vector)
    requires
        cards == hand & rem,
    ensures
        cards & cards == cards,
        (mask & cards) & cards == mask & cards,
        cards & rem == cards,
        cards & hand == cards,
        (mask & cards) & rem == mask & cards,
        (mask & cards) & hand == mask & cards,
{
}

/// A set of moves without one of its cards: the rest lies where the set
/// lies, and every other card of the set is in the rest.
pub proof fn lemma_part(moves: u32, l: u32, w: u32, c: u32)
    by (bit_vector)
    requires
        l & moves == l,
    ensures
        moves & w == moves ==> l & w == l && (moves & !l) & w == moves & !l,
        (moves & !l) & moves == moves & !l,
        is_card(c) && c & moves == c && is_card(l) ==> c == l || c & (moves & !l) == c,
        c & (moves & !l) == c ==> c & moves == c && c != l || c == 0,
{
}

/// In a state where cards are left the player to move holds a card, may
/// play one, and holds at most ten.
pub proof fn lemma_legal_moves(g: GlobalState, s: LState)
    requires
        valid_state(g, s),
        s.remaining_cards.0 != 0,
    ensures
        legal_moves(g, s) != 0,
        legal_moves(g, s) & holding(g, s, s.current_player) == legal_moves(g, s),
        legal_moves(g, s) & s.remaining_cards.0 == legal_moves(g, s),
        legal_moves(g, s) & g.hand(s.current_player) == legal_moves(g, s),
        legal_moves(g, s) & legal_moves(g, s) == legal_moves(g, s),
{
    let p = s.current_player;
    let rem = s.remaining_cards.0;
    let h0 = g.player_cards.0.0;
    let h1 = g.player_cards.1.0;
    let h2 = g.player_cards.2.0;
    lemma_hands(h0, h1, h2, rem, g.skat.0);
    lemma_count_zero(holding(g, s, Player::One));
    lemma_count_zero(holding(g, s, Player::Two));
    lemma_count_zero(holding(g, s, Player::Three));
    assert(holding(g, s, p) != 0);
    match s.current_suit {
        None => {
            lemma_playable(holding(g, s, p), 0, g.hand(p), rem);
        },
        Some(mask) => {
            lemma_playable(holding(g, s, p), mask.0, g.hand(p), rem);
        },
    }
    lemma_chain(legal_moves(g, s), holding(g, s, p), rem);
}

/// No player holds more than ten cards, and the cards still to be played
/// and the skat together hold no more than 120 points.
pub proof fn lemma_hand_sizes(g: GlobalState, s: LState)
    requires
        valid_state(g, s),
    ensures
        count(holding(g, s, s.current_player)) <= 10,
        count(legal_moves(g, s)) <= 10,
        pot(s) + points(g.skat.0) <= 120,
        pot(s) + g.skat_points <= 120,
{
    let p = s.current_player;
    let rem = s.remaining_cards.0;
    let h0 = g.player_cards.0.0;
    let h1 = g.player_cards.1.0;
    let h2 = g.player_cards.2.0;
    let first = s.current_played_cards.0.0;
    let second = s.current_played_cards.1.0;
    lemma_hands(h0, h1, h2, rem, g.skat.0);
    lemma_count_split(h0, h1);
    lemma_count_split(h0 | h1, h2);
    lemma_count_split(h0 | h1 | h2, g.skat.0);
    lemma_count_subset((h0 | h1 | h2) | g.skat.0, 0xFFFF_FFFF);
    lemma_count_complement(0);
    lemma_count_zero(0);
    crate::bits::lemma_word(0);
    lemma_count_subset(holding(g, s, Player::One), h0);
    lemma_count_subset(holding(g, s, Player::Two), h1);
    lemma_count_subset(holding(g, s, Player::Three), h2);
    match s.current_suit {
        None => {
            lemma_playable(holding(g, s, p), 0, g.hand(p), rem);
        },
        Some(mask) => {
            lemma_playable(holding(g, s, p), mask.0, g.hand(p), rem);
        },
    }
    lemma_count_subset(legal_moves(g, s), holding(g, s, p));
    // the points
    lemma_value_of_none();
    let led = if second == 0 {
        g.hand(p.next().next())
    } else {
        g.hand(p.next())
    };
    lemma_table(rem, first, second, led, g.hand(p.next().next()), h0 | h1 | h2, g.skat.0);
    lemma_points_split(rem, first);
    lemma_points_split(rem | first, second);
    lemma_points_split(rem | first | second, g.skat.0);
    lemma_points_bound((rem | first | second) | g.skat.0);
    lemma_points_bound(g.skat.0);
    if first != 0 {
        lemma_points_card(first);
    }
    if second != 0 {
        lemma_points_card(second);
    }
}

/// The cards left, the cards on the table and the skat have no common
/// card.
pub proof fn lemma_table(
    rem: u32,
    first: u32,
    second: u32,
    led: u32,
    followed: u32,
    hands: u32,
    skat: u32,
)
    by (bit_vector)
    requires
        rem & hands == rem,
        first == 0 || first & rem == 0,
        second == 0 || second & rem == 0,
        first == 0 || first & led == first,
        second == 0 || second & followed == second,
        led & hands == led,
        followed & hands == followed,
        second == 0 || led & followed == 0,
        skat & hands == 0,
    ensures
        rem & first == 0,
        (rem | first) & second == 0,
        (rem | first | second) & skat == 0,
{
}

/// A card that is not among the cards left is not among fewer of them.
pub proof fn lemma_off_table(x: u32, rem: u32, c: u32)
    by (bit_vector)
    requires
        x == 0 || x & rem == 0,
    ensures
        x & (rem & !c) == 0,
{
}

/// Playing an allowed card leads to a state that can occur, with fewer
/// cards; the points of a finished trick go to one side, and all other
/// points are still to be had.
pub proof fn lemma_next_valid(g: GlobalState, s: LState, c: u32)
    requires
        valid_state(g, s),
        is_card(c),
        c & legal_moves(g, s) == c,
        s.remaining_cards.0 != 0,
    ensures
        valid_state(g, next_state(g, s, c)),
        next_state(g, s, c).remaining_cards.0 < s.remaining_cards.0,
        next_state(g, s, c).remaining_cards.0 == s.remaining_cards.0 & !c,
        c & s.remaining_cards.0 == c,
        pot(next_state(g, s, c)) + step_points(g, s, c) + step_points_against(g, s, c) == pot(s),
{
    let p = s.current_player;
    let rem = s.remaining_cards.0;
    let h0 = g.player_cards.0.0;
    let h1 = g.player_cards.1.0;
    let h2 = g.player_cards.2.0;
    let first = s.current_played_cards.0.0;
    let second = s.current_played_cards.1.0;
    let n = next_state(g, s, c);
    lemma_legal_moves(g, s);
    lemma_hands(h0, h1, h2, rem, g.skat.0);
    lemma_part(legal_moves(g, s), c, holding(g, s, p), c);
    assert(c & holding(g, s, p) == c);
    lemma_play(g.hand(p), g.hand(p.next()), rem, g.hands(), c);
    lemma_play(g.hand(p), g.hand(p.next().next()), rem, g.hands(), c);
    lemma_count_remove(holding(g, s, p), c);
    crate::bits::lemma_remove(rem, c);
    lemma_points_remove(rem, c);
    lemma_value_of_none();
    lemma_off_table(first, rem, c);
    lemma_off_table(second, rem, c);
    assert(n.remaining_cards.0 == rem & !c);
    assert(holding(g, n, p) == holding(g, s, p) & !c);
    assert(holding(g, n, p.next()) == holding(g, s, p.next()));
    assert(holding(g, n, p.next().next()) == holding(g, s, p.next().next()));
    assert(p.next().next().next() == p);
    if first == 0 {
        assert(valid_state(g, n));
    } else if second == 0 {
        assert(valid_state(g, n));
    } else {
        assert(valid_state(g, n));
    }
}

/// From a state that can occur the player who plays alone is sure of no
/// less than nothing and of no more than is still to be had.
pub proof fn lemma_value_bounds(g: GlobalState, s: LState)
    requires
        valid_state(g, s),
    ensures
        0 <= game_value(g, s) <= pot(s),
    decreases s.remaining_cards.0, 1int, 0int,
{
    if s.remaining_cards.0 != 0 {
        lemma_legal_moves(g, s);
        lemma_best_bounds(g, s, legal_moves(g, s));
    }
}

/// The value over a set of allowed moves lies between nothing and the
/// points still to be had.
pub proof fn lemma_best_bounds(g: GlobalState, s: LState, moves: u32)
    requires
        valid_state(g, s),
        s.remaining_cards.0 != 0,
        moves != 0,
        moves & legal_moves(g, s) == moves,
    ensures
        0 <= best_of(g, s, moves) <= pot(s),
    decreases s.remaining_cards.0, 0int, moves,
{
    let c = lowest(moves);
    lemma_lowest(moves);
    lemma_legal_moves(g, s);
    lemma_chain(moves, legal_moves(g, s), s.remaining_cards.0);
    lemma_part(moves, c, legal_moves(g, s), c);
    lemma_part(moves, c, s.remaining_cards.0, c);
    lemma_next_valid(g, s, c);
    lemma_value_bounds(g, next_state(g, s, c));
    if moves & !c != 0 {
        lemma_best_bounds(g, s, moves & !c);
    }
}

/// A subset of a subset is a subset.
pub proof fn lemma_chain(a: u32, b: u32, c: u32)
    by (bit_vector)
    requires
        a & b == a,
        b & c == b,
    ensures
        a & c == a,
        a & a == a,
{
}

/// No move of `moves` is worth more than `bound` to the side that moves.
pub open spec fn bounds_moves(g: GlobalState, s: LState, moves: u32, bound: int) -> bool {
    forall|c: u32|
        is_card(c) && c & moves == c ==> if s.current_player == g.alone_player {
            #[trigger] move_value(g, s, c) <= bound
        } else {
            move_value(g, s, c) >= bound
        }
}

/// Some move of `moves` is worth exactly `value`.
pub open spec fn attains(g: GlobalState, s: LState, moves: u32, value: int) -> bool {
    exists|c: u32| is_card(c) && c & moves == c && #[trigger] move_value(g, s, c) == value
}

/// The value over a set of moves is the value of one of them, and no move
/// of the set is better for the side that moves: it does not depend on the
/// order in which the moves are tried.
pub proof fn lemma_best_is_extremum(g: GlobalState, s: LState, moves: u32)
    requires
        moves != 0,
        moves & s.remaining_cards.0 == moves,
    ensures
        bounds_moves(g, s, moves, best_of(g, s, moves)),
        attains(g, s, moves, best_of(g, s, moves)),
    decreases moves,
{
    let l = lowest(moves);
    let rest = moves & !l;
    lemma_lowest(moves);
    lemma_part(moves, l, s.remaining_cards.0, l);
    assert(move_value(g, s, l) == step_points(g, s, l) + game_value(g, next_state(g, s, l)));
    if rest == 0 {
        assert forall|c: u32| is_card(c) && c & moves == c implies c == l by {
            lemma_part(moves, l, s.remaining_cards.0, c);
            crate::bits::lemma_word(c);
        }
        assert(is_card(l) && l & moves == l && move_value(g, s, l) == best_of(g, s, moves));
    } else {
        lemma_best_is_extremum(g, s, rest);
        let b = best_of(g, s, moves);
        assert forall|c: u32| is_card(c) && c & moves == c implies if s.current_player
            == g.alone_player {
            #[trigger] move_value(g, s, c) <= b
        } else {
            move_value(g, s, c) >= b
        } by {
            lemma_part(moves, l, s.remaining_cards.0, c);
        }
        let w = choose|c: u32|
            is_card(c) && c & rest == c && #[trigger] move_value(g, s, c) == best_of(g, s, rest);
        lemma_part(moves, l, s.remaining_cards.0, w);
        if b == move_value(g, s, l) {
            assert(is_card(l) && l & moves == l && move_value(g, s, l) == b);
        } else {
            assert(is_card(w) && w & moves == w && move_value(g, s, w) == b);
        }
    }
}

/// The value of a state where cards are left is the value of an allowed
/// move, and no allowed move is better for the side that moves.
pub proof fn lemma_value_is_extremum(g: GlobalState, s: LState)
    requires
        valid_state(g, s),
        s.remaining_cards.0 != 0,
    ensures
        bounds_moves(g, s, legal_moves(g, s), game_value(g, s)),
        attains(g, s, legal_moves(g, s), game_value(g, s)),
{
    lemma_legal_moves(g, s);
    lemma_best_is_extremum(g, s, legal_moves(g, s));
}


/// A move as the search sees it: the state it leads to, the points by
/// which moves are tried in order, and the points it brings the player
/// who plays alone.
pub type Successor = (LState, u8, u8);

/// The points by which the move `c` is ranked: the points of the card
/// where it opens a trick, those of both cards where it is the second, and
/// what the trick brings the player who plays alone where it is the third.
pub open spec fn expected_points(g: GlobalState, s: LState, c: u32) -> nat {
    if at_trick_start(s) {
        card_value(c)
    } else if s.current_played_cards.1.0 == 0 {
        card_value(s.current_played_cards.0.0) + card_value(c)
    } else {
        step_points(g, s, c)
    }
}

/// The move `c` as the search sees it.
pub open spec fn successor_entry(g: GlobalState, s: LState, c: u32) -> Successor {
    (next_state(g, s, c), expected_points(g, s, c) as u8, step_points(g, s, c) as u8)
}

/// The moves with the cards of `moves`, from the lowest card up.
pub open spec fn successors(g: GlobalState, s: LState, moves: u32) -> Seq<Successor>
    decreases moves,
{
    if moves == 0 {
        Seq::empty()
    } else {
        proof {
            lemma_lowest(moves);
        }
        seq![successor_entry(g, s, lowest(moves))] + successors(g, s, moves & !lowest(moves))
    }
}

/// The points by which a move is put in order: for a move that ends a
/// trick what it brings, for another what is expected of it.
pub open spec fn sort_key(e: Successor) -> u8 {
    if e.0.current_suit.is_none() {
        e.2
    } else {
        e.1
    }
}

/// `e` is the move with some card of `moves`.
pub open spec fn is_successor(g: GlobalState, s: LState, e: Successor, moves: u32) -> bool {
    exists|c: u32| is_card(c) && c & moves == c && e == #[trigger] successor_entry(g, s, c)
}

/// The moves of `successors` are those with the cards of `moves`, each once.
pub proof fn lemma_successors(g: GlobalState, s: LState, moves: u32)
    ensures
        successors(g, s, moves).len() == count(moves),
        forall|i: int|
            0 <= i < successors(g, s, moves).len() ==> is_successor(
                g,
                s,
                #[trigger] successors(g, s, moves)[i],
                moves,
            ),
        forall|c: u32|
            is_card(c) && c & moves == c ==> successors(g, s, moves).contains(
                #[trigger] successor_entry(g, s, c),
            ),
    decreases moves,
{
    if moves == 0 {
        lemma_count_zero(0);
        assert forall|c: u32| is_card(c) && c & moves == c implies false by {
            crate::bits::lemma_word(c);
        }
    } else {
        let l = lowest(moves);
        let rest = moves & !l;
        let all = successors(g, s, moves);
        let tail = successors(g, s, rest);
        lemma_lowest(moves);
        lemma_count_remove(moves, l);
        lemma_successors(g, s, rest);
        assert(all == seq![successor_entry(g, s, l)] + tail);
        assert forall|i: int| 0 <= i < all.len() implies is_successor(
            g,
            s,
            #[trigger] all[i],
            moves,
        ) by {
            if i == 0 {
                assert(all[0] == successor_entry(g, s, l));
            } else {
                assert(all[i] == tail[i - 1]);
                let c = choose|c: u32|
                    is_card(c) && c & rest == c && tail[i - 1] == #[trigger] successor_entry(
                        g,
                        s,
                        c,
                    );
                lemma_part(moves, l, moves, c);
            }
        }
        assert forall|c: u32| is_card(c) && c & moves == c implies all.contains(
            #[trigger] successor_entry(g, s, c),
        ) by {
            lemma_part(moves, l, moves, c);
            if c == l {
                assert(all[0] == successor_entry(g, s, c));
            } else {
                let j = choose|j: int| 0 <= j < tail.len() && tail[j] == successor_entry(g, s, c);
                assert(all[j + 1] == successor_entry(g, s, c));
            }
        }
    }
}

/// The moves of `items` that are put in order by `k` points, in their
/// order.
pub open spec fn with_key(items: Seq<Successor>, k: u8) -> Seq<Successor> {
    items.filter(|e: Successor| sort_key(e) == k)
}

/// `items` holds the moves that are allowed in `s`, each once, those
/// with the most points first and moves of equal points from the lowest
/// card up.
pub open spec fn lists_successors(g: GlobalState, s: LState, items: Seq<Successor>) -> bool {
    &&& items.to_multiset() == successors(g, s, legal_moves(g, s)).to_multiset()
    &&& forall|i: int, j: int|
        0 <= i < j < items.len() ==> sort_key(#[trigger] items[i]) >= sort_key(#[trigger] items[j])
    &&& forall|k: u8| #[trigger]
        with_key(items, k) == with_key(successors(g, s, legal_moves(g, s)), k)
}

/// Every entry of such a list is an allowed move, and every allowed
/// move is in the list.
pub proof fn lemma_listed(g: GlobalState, s: LState, items: Seq<Successor>)
    requires
        items.to_multiset() == successors(g, s, legal_moves(g, s)).to_multiset(),
    ensures
        items.len() == count(legal_moves(g, s)),
        forall|i: int|
            0 <= i < items.len() ==> is_successor(g, s, #[trigger] items[i], legal_moves(g, s)),
        forall|c: u32|
            is_card(c) && c & legal_moves(g, s) == c ==> items.contains(
                #[trigger] successor_entry(g, s, c),
            ),
{
    let all = successors(g, s, legal_moves(g, s));
    lemma_successors(g, s, legal_moves(g, s));
    items.to_multiset_ensures();
    all.to_multiset_ensures();
    assert forall|i: int| 0 <= i < items.len() implies is_successor(
        g,
        s,
        #[trigger] items[i],
        legal_moves(g, s),
    ) by {
        assert(items.contains(items[i]));
        assert(items.to_multiset().count(items[i]) > 0);
        assert(all.to_multiset().count(items[i]) > 0);
        assert(all.contains(items[i]));
        let j = choose|j: int| 0 <= j < all.len() && all[j] == items[i];
        assert(is_successor(g, s, all[j], legal_moves(g, s)));
    }
    assert forall|c: u32| is_card(c) && c & legal_moves(g, s) == c implies items.contains(
        #[trigger] successor_entry(g, s, c),
    ) by {
        assert(all.contains(successor_entry(g, s, c)));
        assert(all.to_multiset().count(successor_entry(g, s, c)) > 0);
        assert(items.to_multiset().count(successor_entry(g, s, c)) > 0);
    }
}

/// The mark that stands for a player in a key: none for the first
/// player, the lower card of the skat for the second, the higher for the
/// third.
pub open spec fn player_mark(g: GlobalState, player: Player) -> u32 {
    match player {
        Player::One => 0,
        Player::Two => lowest(g.skat.0),
        Player::Three => g.skat.0 & !lowest(g.skat.0),
    }
}

/// The key under which the value of a state at the start of a trick is
/// kept: the cards not yet played and the mark of the player to move. The
/// keys tell the players apart where the skat has two cards.
pub open spec fn hash_key(g: GlobalState, s: LState) -> u32 {
    s.remaining_cards.0 | player_mark(g, s.current_player)
}

/// Cards left with different marks, or different cards left with one
/// mark, give different keys.
pub proof fn lemma_marks(skat: u32, low: u32, rem1: u32, rem2: u32)
    by (bit_vector)
    requires
        low != 0,
        low & skat == low,
        skat & !low != 0,
        rem1 & skat == 0,
        rem2 & skat == 0,
    ensures
        rem1 | low != rem2,
        rem1 | (skat & !low) != rem2,
        rem1 | low != rem2 | (skat & !low),
        rem1 == rem2 <==> rem1 | low == rem2 | low,
        rem1 == rem2 <==> rem1 | (skat & !low) == rem2 | (skat & !low),
        rem1 | 0 == rem1,
        rem2 | 0 == rem2,
{
}

/// Two states at the start of a trick that have one key are one state.
pub proof fn lemma_key_injective(g: GlobalState, s1: LState, s2: LState)
    requires
        valid_state(g, s1),
        valid_state(g, s2),
        at_trick_start(s1),
        at_trick_start(s2),
        g.has_marks(),
        hash_key(g, s1) == hash_key(g, s2),
    ensures
        s1 == s2,
{
    let skat = g.skat.0;
    let low = lowest(skat);
    lemma_count_zero(skat);
    lemma_lowest(skat);
    lemma_count_remove(skat, low);
    lemma_count_zero(skat & !low);
    lemma_hands(
        g.player_cards.0.0,
        g.player_cards.1.0,
        g.player_cards.2.0,
        s1.remaining_cards.0,
        skat,
    );
    lemma_hands(
        g.player_cards.0.0,
        g.player_cards.1.0,
        g.player_cards.2.0,
        s2.remaining_cards.0,
        skat,
    );
    lemma_marks(skat, low, s1.remaining_cards.0, s2.remaining_cards.0);
    lemma_marks(skat, low, s2.remaining_cards.0, s1.remaining_cards.0);
    assert(s1.current_player == s2.current_player);
    assert(s1.remaining_cards.0 == s2.remaining_cards.0);
    assert(s1.remaining_cards == s2.remaining_cards);
    assert(s1.current_played_cards.0 == s2.current_played_cards.0);
    assert(s1.current_played_cards.1 == s2.current_played_cards.1);
    assert(s1.current_played_cards == s2.current_played_cards);
}


/// A card that may be played is one of the cards left.
proof fn lemma_card_left(c: u32, legal: u32, hand: u32, rem: u32, suit: u32)
    by (bit_vector)
    requires
        c != 0,
        c & legal == c,
        legal == hand & rem || legal == suit & (hand & rem),
    ensures
        rem != 0,
{
}

/// Where a card may be played, cards are left.
pub proof fn lemma_has_cards(g: GlobalState, s: LState, c: u32)
    requires
        c != 0,
        c & legal_moves(g, s) == c,
    ensures
        s.remaining_cards.0 != 0,
{
    let suit = match s.current_suit {
        None => 0u32,
        Some(mask) => mask.0,
    };
    lemma_card_left(
        c,
        legal_moves(g, s),
        g.hand(s.current_player),
        s.remaining_cards.0,
        suit,
    );
}


/// Two games with the same hands, the same player alone and the same kind
/// of game are one game, whatever lies in the skat: the same moves lead to
/// the same states, and every state has the same value.
pub proof fn lemma_same_game(g1: GlobalState, g2: GlobalState, s: LState)
    requires
        g1.player_cards == g2.player_cards,
        g1.alone_player == g2.alone_player,
        g1.variant == g2.variant,
    ensures
        game_value(g1, s) == game_value(g2, s),
        legal_moves(g1, s) == legal_moves(g2, s),
    decreases s.remaining_cards.0, 1int, 0int,
{
    if s.remaining_cards.0 != 0 {
        lemma_same_moves(g1, g2, s, legal_moves(g1, s));
    }
}

proof fn lemma_same_moves(g1: GlobalState, g2: GlobalState, s: LState, moves: u32)
    requires
        g1.player_cards == g2.player_cards,
        g1.alone_player == g2.alone_player,
        g1.variant == g2.variant,
    ensures
        best_of(g1, s, moves) == best_of(g2, s, moves),
    decreases s.remaining_cards.0, 0int, moves,
{
    if moves != 0 && moves & s.remaining_cards.0 == moves {
        let c = lowest(moves);
        lemma_lowest(moves);
        lemma_move_shrinks(s.remaining_cards.0, moves, c);
        assert(next_state(g1, s, c) == next_state(g2, s, c));
        lemma_same_game(g1, g2, next_state(g1, s, c));
        if moves & !c != 0 {
            lemma_same_moves(g1, g2, s, moves & !c);
        }
    }
}

/// A state that can occur in a game can occur in the game with marks in
/// the skat, and has the same value there.
pub proof fn lemma_marks_keep_game(g: GlobalState, s: LState)
    requires
        valid_state(g, s),
    ensures
        valid_state(g.with_marks(), s),
        g.with_marks().has_marks(),
        game_value(g.with_marks(), s) == game_value(g, s),
{
    lemma_same_game(g, g.with_marks(), s);
    if g.skat.0 == 0 {
        let hands = g.hands();
        let free = !hands;
        lemma_points_bound(0);
        lemma_count_complement(hands);
        lemma_count_zero(free);
        lemma_lowest(free);
        let first = lowest(free);
        lemma_count_remove(free, first);
        lemma_count_zero(free & !first);
        crate::bits::lemma_remove(free, first);
        lemma_lowest(free & !first);
        let second = lowest(free & !first);
        crate::solver::lemma_spare(hands, first, second);
        lemma_count_split(first, second);
        crate::bits::lemma_count_card(first);
        crate::bits::lemma_count_card(second);
    } else {
        lemma_count_zero(g.skat.0);
    }
}

} // verus!
