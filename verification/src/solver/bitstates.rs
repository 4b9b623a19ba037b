//! The game and its states packed into single words. The player who
//! plays alone is always the first player; the player to move is marked
//! in the state by cards of the skat, which are never played.
use crate::bitboard::{
    BitCard, BitCards, GRAND_MASK, HEARTS_MASK, KARO_MASK, KREUZ_MASK, lemma_no_points,
    lemma_points_bound, lemma_value_of_none, PIQUS_MASK, points, SEVEN_OR_EIGHT_OR_NINE, Variant,
};
use crate::bits::{
    count, count_cards, is_card, is_highest, lemma_count_card, lemma_count_complement,
    lemma_count_remove, lemma_count_split, lemma_count_zero, lemma_lowest, lemma_remove, lowest,
    lowest_card,
};
use crate::bitboard::{
    calculate_who_won_better, HEARTS_TRUMPF_MASK, KARO_TRUMPF_MASK, KREUZ_TRUMPF_MASK,
    lemma_trump_masks, PIQUS_TRUMPF_MASK, trump_mask,
};
use crate::bits::lemma_count_subset;
use crate::solver::buffer::{
    bit_buffer_new, bit_buffer_push, bit_successor_items, BitSuccessor, ColorAmount, sort_cells,
};
use crate::solver::rules::{
    game_value, holding, legal_moves, lemma_hand_sizes, lemma_hands, lemma_next_valid,
    lemma_value_bounds, next_state, step_points, valid_state,
};
use crate::solver::led_suit;
use arrayvec::ArrayVec;
use crate::solver::synchronus::local_state::LState;
use crate::solver::{DealError, GlobalState, Player, owner, spare_cards};
use vstd::prelude::*;

verus! {

/// What is fixed for one game, with the first player playing alone.
#[derive(Clone, Copy, Debug)]
pub struct BitGlobal {
    pub player_one: BitCards,
    pub player_two: BitCards,
    pub player_three: BitCards,
    pub skat: BitCards,
    pub first_card_skat: u32,
    pub second_card_skat: u32,
    pub color_masks: [u32; 5],
    pub skat_points: u8,
    pub variant: Variant,
}

/// The suits of a game as the cards that follow each other: the trumps
/// first in Grand, and in a suit game the trumps in the place of their suit.
pub open spec fn color_cells(variant: Variant) -> Seq<u32> {
    match variant {
        Variant::Clubs => seq![KREUZ_MASK | GRAND_MASK, PIQUS_MASK, HEARTS_MASK, KARO_MASK, 0u32],
        Variant::Spades => seq![KREUZ_MASK, PIQUS_MASK | GRAND_MASK, HEARTS_MASK, KARO_MASK, 0u32],
        Variant::Hearts => seq![KREUZ_MASK, PIQUS_MASK, HEARTS_MASK | GRAND_MASK, KARO_MASK, 0u32],
        Variant::Diamonds => seq![
            KREUZ_MASK,
            PIQUS_MASK,
            HEARTS_MASK,
            KARO_MASK | GRAND_MASK,
            0u32,
        ],
        _ => seq![GRAND_MASK, KREUZ_MASK, PIQUS_MASK, HEARTS_MASK, KARO_MASK],
    }
}

/// The suits of a game; see `color_cells`.
pub fn generate_color_mask(variant: Variant) -> (masks: [u32; 5])
    requires
        variant.has_trump(),
    ensures
        masks@ == color_cells(variant),
{
    let masks = match variant {
        Variant::Clubs => [KREUZ_MASK | GRAND_MASK, PIQUS_MASK, HEARTS_MASK, KARO_MASK, 0],
        Variant::Spades => [KREUZ_MASK, PIQUS_MASK | GRAND_MASK, HEARTS_MASK, KARO_MASK, 0],
        Variant::Hearts => [KREUZ_MASK, PIQUS_MASK, HEARTS_MASK | GRAND_MASK, KARO_MASK, 0],
        Variant::Diamonds => [KREUZ_MASK, PIQUS_MASK, HEARTS_MASK, KARO_MASK | GRAND_MASK, 0],
        _ => [GRAND_MASK, KREUZ_MASK, PIQUS_MASK, HEARTS_MASK, KARO_MASK],
    };
    assert(masks@ =~= color_cells(variant));
    masks
}

/// The reason for which hands are refused, if there is one.
pub open spec fn hands_error(pl_one: BitCards, pl_two: BitCards, pl_three: BitCards, variant: Variant) -> Option<DealError> {
    if !variant.has_trump() {
        Some(DealError::NotImplemented)
    } else if pl_one.0 & pl_two.0 != 0 || pl_one.0 & pl_three.0 != 0 || pl_two.0 & pl_three.0 != 0 {
        Some(DealError::OverlappingHands)
    } else if count(pl_one.0 | pl_two.0 | pl_three.0) > 30 {
        Some(DealError::CardCount)
    } else {
        None
    }
}

impl View for BitGlobal {
    type V = GlobalState;

    open spec fn view(&self) -> GlobalState {
        GlobalState {
            player_cards: (self.player_one, self.player_two, self.player_three),
            skat: self.skat,
            alone_player: Player::One,
            variant: self.variant,
            skat_points: self.skat_points,
        }
    }
}

impl BitGlobal {
    /// The game is in order, the two marks are the two cards of the skat,
    /// and the suits are those of the game.
    pub open spec fn wf(&self) -> bool {
        &&& self@.wf()
        &&& count(self.skat.0) == 2
        &&& self.first_card_skat == lowest(self.skat.0)
        &&& self.second_card_skat == self.skat.0 & !lowest(self.skat.0)
        &&& self.color_masks@ == color_cells(self.variant)
    }

    /// The mark of a player: none for the first, the lower card of the
    /// skat for the second, both cards for the third.
    pub open spec fn mark(&self, player: Player) -> u32 {
        match player {
            Player::One => 0,
            Player::Two => self.first_card_skat,
            Player::Three => self.skat.0,
        }
    }

    /// The player whom the marks in a state name.
    pub open spec fn player_at(&self, state: u32) -> Player {
        if state & self.skat.0 == 0 {
            Player::One
        } else if (state & self.skat.0) & self.second_card_skat == 0 {
            Player::Two
        } else {
            Player::Three
        }
    }

    /// Checks the hands and keeps them. The hands must not overlap and
    /// must leave two cards free. The two lowest free cards are the skat;
    /// its points count only where no other card is free.
    pub fn new(
        pl_one: BitCards,
        pl_two: BitCards,
        pl_three: BitCards,
        variant: Variant,
    ) -> (r: Result<BitGlobal, DealError>)
        ensures
            match r {
                Ok(g) => {
                    &&& hands_error(pl_one, pl_two, pl_three, variant).is_none()
                    &&& g.wf()
                    &&& g.player_one == pl_one
                    &&& g.player_two == pl_two
                    &&& g.player_three == pl_three
                    &&& g.variant == variant
                    &&& g.skat.0 == spare_cards(pl_one.0 | pl_two.0 | pl_three.0)
                    &&& g.skat_points == (if count(pl_one.0 | pl_two.0 | pl_three.0) == 30 {
                        points(g.skat.0)
                    } else {
                        0
                    })
                },
                Err(e) => hands_error(pl_one, pl_two, pl_three, variant) == Some(e),
            },
    {
        if !variant.is_trump_game() {
            return Err(DealError::NotImplemented);
        }
        if pl_one.0 & pl_two.0 != 0 || pl_one.0 & pl_three.0 != 0 || pl_two.0 & pl_three.0 != 0 {
            return Err(DealError::OverlappingHands);
        }
        let hands: u32 = pl_one.0 | pl_two.0 | pl_three.0;
        let dealt = count_cards(hands);
        if dealt > 30 {
            return Err(DealError::CardCount);
        }
        let free: u32 = !hands;
        proof {
            lemma_count_complement(hands);
            lemma_count_zero(free);
        }
        let first_card = lowest_card(free);
        proof {
            lemma_lowest(free);
            lemma_count_remove(free, first_card);
            lemma_count_zero(free & !first_card);
            lemma_remove(free, first_card);
        }
        let second_card = lowest_card(free & !first_card);
        proof {
            lemma_lowest(free & !first_card);
            lemma_two_marks(free, first_card, second_card, hands);
            lemma_count_split(first_card, second_card);
            lemma_count_card(first_card);
            lemma_count_card(second_card);
            lemma_lowest(first_card | second_card);
            lemma_points_bound(first_card | second_card);
        }
        let skat = BitCards(first_card | second_card);
        let skat_points = if dealt != 30 {
            0
        } else {
            skat.get_cards_points()
        };
        let color_masks = generate_color_mask(variant);
        Ok(
            BitGlobal {
                player_one: pl_one,
                player_two: pl_two,
                player_three: pl_three,
                skat,
                first_card_skat: first_card,
                second_card_skat: second_card,
                color_masks,
                skat_points,
                variant,
            },
        )
    }

    /// The state after a trick without its marks, with the mark of the
    /// player who took the trick; and the points of the trick where that is
    /// the first player, none otherwise.
    pub fn calculate_winner_state(&self, winner_move: BitCard, points: u8, old_state: u32) -> (r: (
        u32,
        u8,
    ))
        ensures
            r.0 == (old_state & !self.skat.0) | self.mark(owner(self@, winner_move.0)),
            r.1 == (if owner(self@, winner_move.0) == Player::One {
                points
            } else {
                0
            }),
    {
        let new_state = old_state & !self.skat.0;
        if winner_move.0 & self.player_one.0 != 0 {
            proof {
                crate::bits::lemma_word(new_state);
            }
            return (new_state, points);
        }
        if winner_move.0 & self.player_two.0 != 0 {
            return (new_state | self.first_card_skat, 0);
        }
        (new_state | self.skat.0, 0)
    }
}

/// The two lowest cards outside the hands are two different cards
/// outside the hands, the lower of them first.
proof fn lemma_two_marks(free: u32, first: u32, second: u32, hands: u32)
    by (bit_vector)
    requires
        free != 0,
        first == lowest(free),
        free & !first != 0,
        second == lowest(free & !first),
        free == !hands,
    ensures
        (first | second) & hands == 0,
        first & second == 0,
        (first | second) & free == first | second,
        (first | second) & !first == second,
        lowest(first | second) == first,
        first | second != 0,
{
}

/// A set of two cards is its lower card and one other.
proof fn lemma_pair(skat: u32, low: u32, other: u32)
    by (bit_vector)
    requires
        low & skat == low,
        other & (skat & !low) == other,
        (skat & !low) & !other == 0,
    ensures
        skat & !low == other,
        low & (skat & !low) == 0,
        skat == low | (skat & !low),
{
}

/// What the marks of a state mean, for a skat of two cards `first` and
/// `second`: how they name the player, and how the next player is marked.
pub proof fn lemma_marks_of(state: u32, skat: u32, first: u32, second: u32, hand: u32)
    by (bit_vector)
    requires
        first != 0,
        second != 0,
        first & second == 0,
        skat == first | second,
    ensures
        state & skat == 0 ==> state | first == (state & !skat) | first,
        state & skat == first ==> state | second == (state & !skat) | skat,
        (state & !skat) | 0 == state & !skat,
        hand & skat == 0 ==> hand & state == hand & (state & !skat),
        first & skat != 0 && (first & skat) & second == 0,
        skat & skat != 0 && (skat & skat) & second != 0,
        0u32 & skat == 0,
        ((state & !skat) | first) & skat == first,
        ((state & !skat) | skat) & skat == skat,
        ((state & !skat) | first) & !skat == state & !skat,
        ((state & !skat) | skat) & !skat == state & !skat,
        (state & !skat) & !skat == state & !skat,
        (state & !skat) & skat == 0,
        state & skat == first ==> (state & skat) & second == 0,
{
}

/// A state of a game, packed: the cards not yet played together with the
/// mark of the player to move, the cards on the table, and the cards that
/// follow the card led (none at the start of a trick).
#[derive(Copy, Clone, Debug)]
pub struct BitLocal {
    pub state: u32,
    pub current_played_cards: (BitCard, BitCard),
    pub current_suit: u32,
}

impl BitLocal {
    /// The state that the packed state stands for.
    pub open spec fn view_in(self, g: BitGlobal) -> LState {
        LState {
            remaining_cards: BitCards(self.state & !g.skat.0),
            current_player: g.player_at(self.state),
            current_played_cards: self.current_played_cards,
            current_suit: if self.current_suit == 0 {
                None
            } else {
                Some(BitCards(self.current_suit))
            },
        }
    }

    /// The packed state stands for a state that can occur in the game `g`,
    /// and its marks are those of a player.
    pub open spec fn wf_in(self, g: BitGlobal) -> bool {
        &&& g.wf()
        &&& valid_state(g@, self.view_in(g))
        &&& self.state & g.skat.0 == g.mark(g.player_at(self.state))
    }

    /// The state at the start of a trick with the cards `all_cards` left
    /// and `current_player` to move, marked with the cards of `skat`.
    pub fn new(all_cards: u32, current_player: Player, skat: BitCards) -> (s: BitLocal)
        ensures
            s.state == all_cards | (match current_player {
                Player::One => 0u32,
                Player::Two => lowest(skat.0),
                Player::Three => skat.0,
            }),
            s.current_played_cards == (BitCard(0), BitCard(0)),
            s.current_suit == 0,
    {
        let next = skat.get_next_card_in_binary();
        match current_player {
            Player::One => {
                proof {
                    crate::bits::lemma_word(all_cards);
                }
                BitLocal {
                    state: all_cards,
                    current_played_cards: (BitCard(0), BitCard(0)),
                    current_suit: 0,
                }
            },
            Player::Two => {
                BitLocal {
                    state: all_cards | next.0,
                    current_played_cards: (BitCard(0), BitCard(0)),
                    current_suit: 0,
                }
            },
            Player::Three => {
                BitLocal {
                    state: all_cards | skat.0,
                    current_played_cards: (BitCard(0), BitCard(0)),
                    current_suit: 0,
                }
            },
        }
    }

    /// The points of the cards not yet played.
    pub fn get_remaining_points(&self, global_state: &BitGlobal) -> (total: u8)
        ensures
            total == points(self.state & !global_state.skat.0),
    {
        BitCards(self.state & !global_state.skat.0).get_cards_points()
    }

    /// The first player, who plays alone, is to move.
    pub fn is_max_node(&self, global_state: &BitGlobal) -> (b: bool)
        ensures
            b == (global_state.player_at(self.state) == Player::One),
    {
        self.state & global_state.skat.0 == 0
    }

    /// The key of the state: the cards not yet played with the mark of
    /// the player to move.
    pub fn get_hash(&self) -> (key: u32)
        ensures
            key == self.state,
    {
        self.state
    }

    /// No card has been led.
    pub fn is_full_node(&self) -> (b: bool)
        ensures
            b == (self.current_suit == 0),
    {
        self.current_suit == 0
    }

    /// Nothing is left to be won: no card is left, or at the start of a
    /// trick only sevens, eights and nines.
    pub open spec fn nothing_left(self, skat: BitCards) -> bool {
        if self.current_suit == 0 {
            (self.state & !skat.0) & !SEVEN_OR_EIGHT_OR_NINE == 0
        } else {
            self.state & !skat.0 == 0
        }
    }

    /// Whether nothing is left to be won.
    pub fn is_terminal(&self, skat: BitCards) -> (b: bool)
        ensures
            b == self.nothing_left(skat),
    {
        let mut cards = self.state & !skat.0;
        if self.is_full_node() {
            cards = cards & !SEVEN_OR_EIGHT_OR_NINE;
        }
        cards == 0
    }

    /// The cards not yet played with the mark of the player after the one
    /// to move.
    pub fn get_next_player_full_state(&self, global_state: &BitGlobal) -> (next: u32)
        requires
            self.wf_in(*global_state),
        ensures
            next == (self.state & !global_state.skat.0) | global_state.mark(
                global_state.player_at(self.state).next(),
            ),
    {
        proof {
            global_state.lemma_skat();
            lemma_marks_of(
                self.state,
                global_state.skat.0,
                global_state.first_card_skat,
                global_state.second_card_skat,
                0,
            );
        }
        let player = self.state & global_state.skat.0;
        if player == 0 {
            return self.state | global_state.first_card_skat;
        }
        if player & global_state.second_card_skat == 0 {
            return self.state | global_state.second_card_skat;
        }
        self.state & (!global_state.skat.0)
    }

    /// The cards that the player to move still holds.
    pub fn get_current_cards(&self, global_state: &BitGlobal) -> (cards: BitCards)
        requires
            global_state.wf(),
        ensures
            cards.0 == holding(
                global_state@,
                self.view_in(*global_state),
                global_state.player_at(self.state),
            ),
    {
        proof {
            global_state.lemma_skat();
            global_state.lemma_hand_marks(self.state);
        }
        let player = self.state & global_state.skat.0;
        if player == 0 {
            return BitCards(global_state.player_one.0 & self.state);
        }
        if player & global_state.second_card_skat == 0 {
            return BitCards(global_state.player_two.0 & self.state);
        }
        BitCards(global_state.player_three.0 & self.state)
    }

    /// The cards that the three players still hold: first those of the
    /// player to move, then those of the players after.
    pub fn get_all_cards(&self, global_state: &BitGlobal) -> (cards: (u32, u32, u32))
        requires
            global_state.wf(),
        ensures
            cards.0 == holding(
                global_state@,
                self.view_in(*global_state),
                global_state.player_at(self.state),
            ),
            cards.1 == holding(
                global_state@,
                self.view_in(*global_state),
                global_state.player_at(self.state).next(),
            ),
            cards.2 == holding(
                global_state@,
                self.view_in(*global_state),
                global_state.player_at(self.state).next().next(),
            ),
    {
        proof {
            global_state.lemma_skat();
            global_state.lemma_hand_marks(self.state);
        }
        let current = self.state & global_state.skat.0;
        let player_one_av = global_state.player_one.0 & self.state;
        let player_two_av = global_state.player_two.0 & self.state;
        let player_three_av = global_state.player_three.0 & self.state;
        if current == 0 {
            return (player_one_av, player_two_av, player_three_av);
        }
        if current & global_state.second_card_skat == 0 {
            return (player_two_av, player_three_av, player_one_av);
        }
        (player_three_av, player_one_av, player_two_av)
    }

    /// Where nothing is left to be won the player who plays alone is sure
    /// of nothing more.
    pub proof fn lemma_terminal(self, g: BitGlobal)
        requires
            self.wf_in(g),
            self.nothing_left(g.skat),
        ensures
            game_value(g@, self.view_in(g)) == 0,
    {
        let v = self.view_in(g);
        lemma_value_bounds(g@, v);
        if self.current_suit == 0 {
            lemma_no_points(self.state & !g.skat.0);
            lemma_value_of_none();
        }
    }
}

impl BitGlobal {
    /// The skat of a game in order is made of its two marks.
    pub proof fn lemma_skat(&self)
        requires
            self.wf(),
        ensures
            self.first_card_skat != 0,
            self.second_card_skat != 0,
            self.first_card_skat & self.second_card_skat == 0,
            self.skat.0 == self.first_card_skat | self.second_card_skat,
            is_card(self.first_card_skat),
            is_card(self.second_card_skat),
            self.skat.0 & self@.hands() == 0,
    {
        let skat = self.skat.0;
        let low = lowest(skat);
        lemma_count_zero(skat);
        lemma_lowest(skat);
        lemma_count_remove(skat, low);
        lemma_count_zero(skat & !low);
        lemma_remove(skat, low);
        lemma_lowest(skat & !low);
        lemma_count_remove(skat & !low, lowest(skat & !low));
        lemma_count_zero((skat & !low) & !lowest(skat & !low));
        lemma_pair(skat, low, lowest(skat & !low));
    }

    /// The hands hold no marks, so a hand meets a state where it meets
    /// the cards not yet played.
    pub proof fn lemma_hand_marks(&self, state: u32)
        requires
            self.wf(),
        ensures
            self.player_one.0 & state == self.player_one.0 & (state & !self.skat.0),
            self.player_two.0 & state == self.player_two.0 & (state & !self.skat.0),
            self.player_three.0 & state == self.player_three.0 & (state & !self.skat.0),
    {
        self.lemma_skat();
        lemma_skat_free(self.player_one.0, self.player_two.0, self.player_three.0, self.skat.0, state);
    }
}

/// Hands that hold no card of the skat meet a state where they meet it
/// without the skat.
proof fn lemma_skat_free(h0: u32, h1: u32, h2: u32, skat: u32, state: u32)
    by (bit_vector)
    requires
        skat & (h0 | h1 | h2) == 0,
    ensures
        h0 & state == h0 & (state & !skat),
        h1 & state == h1 & (state & !skat),
        h2 & state == h2 & (state & !skat),
{
}

/// The highest card of a set that is not empty.
pub fn get_msb_mask(num: u32) -> (mask: u32)
    requires
        num != 0,
    ensures
        is_highest(num, mask),
{
    1u32 << crate::bits::leading_bit(num)
}

/// The packed state after the player to move has played the card `c`.
pub open spec fn bit_next(g: BitGlobal, s: BitLocal, c: u32) -> BitLocal {
    let n = next_state(g@, s.view_in(g), c);
    BitLocal {
        state: n.remaining_cards.0 | g.mark(n.current_player),
        current_played_cards: n.current_played_cards,
        current_suit: match n.current_suit {
            None => 0u32,
            Some(mask) => mask.0,
        },
    }
}

/// The move `c` from a packed state as the search sees it.
pub open spec fn bit_successor(g: BitGlobal, s: BitLocal, c: u32) -> BitSuccessor {
    (bit_next(g, s, c), step_points(g@, s.view_in(g), c) as u8)
}

/// The moves with the cards of `moves`, from the lowest card up.
pub open spec fn bit_successors(g: BitGlobal, s: BitLocal, moves: u32) -> Seq<BitSuccessor>
    decreases moves,
{
    if moves == 0 {
        Seq::empty()
    } else {
        proof {
            lemma_lowest(moves);
        }
        seq![bit_successor(g, s, lowest(moves))] + bit_successors(g, s, moves & !lowest(moves))
    }
}

/// The number by which a suit is put in order at the start of a trick:
/// the answers that the next player has to a card of the suit, times those
/// of the player after. A player who cannot follow has as many answers as
/// the player to move holds cards.
pub open spec fn answers(first: u32, second: u32, third: u32, suit: u32) -> nat {
    (if second & suit != 0 {
        count(second & suit)
    } else {
        count(first)
    }) * (if third & suit != 0 {
        count(third & suit)
    } else {
        count(first)
    })
}

/// The moves of `items`, all of which open a trick, come suit by suit in
/// rising order of `answers`, and those of one suit from the highest card
/// down.
pub open spec fn in_suit_order(
    first: u32,
    second: u32,
    third: u32,
    items: Seq<BitSuccessor>,
) -> bool {
    forall|i: int, j: int|
        0 <= i < j < items.len() ==> {
            &&& answers(first, second, third, (#[trigger] items[i]).0.current_suit) <= answers(
                first,
                second,
                third,
                (#[trigger] items[j]).0.current_suit,
            )
            &&& items[i].0.current_suit == items[j].0.current_suit
                ==> items[i].0.current_played_cards.0.0 > items[j].0.current_played_cards.0.0
        }
}

/// `e` is the move with some card of `moves`.
pub open spec fn is_bit_successor(g: BitGlobal, s: BitLocal, e: BitSuccessor, moves: u32) -> bool {
    exists|c: u32| is_card(c) && c & moves == c && e == #[trigger] bit_successor(g, s, c)
}

/// `items` holds the moves with the cards of `done`, each once.
pub open spec fn holds_moves(g: BitGlobal, s: BitLocal, items: Seq<BitSuccessor>, done: u32) -> bool {
    &&& items.len() == count(done)
    &&& forall|k: int| 0 <= k < items.len() ==> is_bit_successor(g, s, #[trigger] items[k], done)
    &&& forall|c: u32|
        is_card(c) && c & done == c ==> items.contains(#[trigger] bit_successor(g, s, c))
}

/// `items` holds the moves that are allowed in `s`, each once.
pub open spec fn lists_bit_moves(g: BitGlobal, s: BitLocal, items: Seq<BitSuccessor>) -> bool {
    holds_moves(g, s, items, legal_moves(g@, s.view_in(g)))
}

/// A set with one more card: what lies in either lies in the union, and
/// a card of the union is the new card or lies in the set.
proof fn lemma_union_card(done: u32, c: u32, x: u32)
    by (bit_vector)
    requires
        c & done == 0,
    ensures
        done & c == 0,
        c & (done | c) == c,
        x & done == x ==> x & (done | c) == x,
        is_card(x) && is_card(c) && x & (done | c) == x ==> x == c || x & done == x,
{
}

/// A list of the moves of some cards, with the move of one more card at
/// its end, is a list of the moves of all of them.
pub proof fn lemma_bit_push(g: BitGlobal, s: BitLocal, items: Seq<BitSuccessor>, done: u32, c: u32)
    requires
        holds_moves(g, s, items, done),
        is_card(c),
        c & done == 0,
    ensures
        holds_moves(g, s, items.push(bit_successor(g, s, c)), done | c),
{
    let after = items.push(bit_successor(g, s, c));
    lemma_union_card(done, c, c);
    lemma_count_split(done, c);
    lemma_count_card(c);
    assert forall|k: int| 0 <= k < after.len() implies is_bit_successor(
        g,
        s,
        #[trigger] after[k],
        done | c,
    ) by {
        if k < items.len() {
            assert(after[k] == items[k]);
            let x = choose|x: u32|
                is_card(x) && x & done == x && items[k] == #[trigger] bit_successor(g, s, x);
            lemma_union_card(done, c, x);
        } else {
            assert(after[k] == bit_successor(g, s, c));
        }
    }
    assert forall|x: u32| is_card(x) && x & (done | c) == x implies after.contains(
        #[trigger] bit_successor(g, s, x),
    ) by {
        lemma_union_card(done, c, x);
        if x == c {
            assert(after[items.len() as int] == bit_successor(g, s, x));
        } else {
            let k = choose|k: int| 0 <= k < items.len() && items[k] == bit_successor(g, s, x);
            assert(after[k] == bit_successor(g, s, x));
        }
    }
}

/// The empty list holds the moves of no cards.
pub proof fn lemma_bit_none(g: BitGlobal, s: BitLocal)
    ensures
        holds_moves(g, s, Seq::<BitSuccessor>::empty(), 0),
{
    lemma_count_zero(0);
    assert forall|c: u32| is_card(c) && c & 0 == c implies false by {
        crate::bits::lemma_word(c);
    }
}

/// Cards with a mark: the mark can be read off and taken away again,
/// and playing a card leaves it.
proof fn lemma_marked(rem: u32, skat: u32, first: u32, second: u32, c: u32, m: u32)
    by (bit_vector)
    requires
        rem & skat == 0,
        first != 0,
        second != 0,
        first & second == 0,
        skat == first | second,
    ensures
        (rem | 0) & !skat == rem,
        (rem | first) & !skat == rem,
        (rem | skat) & !skat == rem,
        (rem | 0) & skat == 0,
        (rem | first) & skat == first,
        (rem | skat) & skat == skat,
        first & second == 0 && skat & second != 0 && first != 0 && skat != 0,
        (m == 0 || m == first || m == skat) && c & rem == c ==> ((rem | m) & !c) == ((rem & !c)
            | m),
        (rem & !c) & skat == 0,
{
}

/// The cards that follow a card led are never none.
proof fn lemma_suits_not_empty(c: u32, trump: u32)
    by (bit_vector)
    requires
        trump & GRAND_MASK == GRAND_MASK,
    ensures
        led_suit(c, trump) != 0,
{
}

/// The packed state after an allowed move stands for the state after
/// that move.
pub proof fn lemma_bit_next(g: BitGlobal, s: BitLocal, c: u32)
    requires
        s.wf_in(g),
        is_card(c),
        c & legal_moves(g@, s.view_in(g)) == c,
        s.state & !g.skat.0 != 0,
    ensures
        bit_next(g, s, c).wf_in(g),
        bit_next(g, s, c).view_in(g) == next_state(g@, s.view_in(g), c),
        (bit_next(g, s, c).state & !g.skat.0) < (s.state & !g.skat.0),
{
    let v = s.view_in(g);
    let n = next_state(g@, v, c);
    let b = bit_next(g, s, c);
    lemma_next_valid(g@, v, c);
    g.lemma_skat();
    lemma_hands(
        g.player_one.0,
        g.player_two.0,
        g.player_three.0,
        n.remaining_cards.0,
        g.skat.0,
    );
    lemma_marked(n.remaining_cards.0, g.skat.0, g.first_card_skat, g.second_card_skat, 0, 0);
    lemma_trump_masks();
    assert(b.state & !g.skat.0 == n.remaining_cards.0);
    assert(g.player_at(b.state) == n.current_player);
    match n.current_suit {
        None => {},
        Some(mask) => {
            if v.current_played_cards.0.0 == 0 {
                lemma_suits_not_empty(c, trump_mask(g.variant));
            }
            assert(mask.0 != 0);
            assert(BitCards(mask.0) == mask);
        },
    }
    assert(b.view_in(g).remaining_cards == n.remaining_cards);
    assert(b.view_in(g).current_suit == n.current_suit);
    assert(b.view_in(g) == n);
}

/// One of the suits of a game with the trumps `trump`.
pub open spec fn cell_of(trump: u32, cell: u32) -> bool {
    ||| (trump == GRAND_MASK && (cell == GRAND_MASK || cell == KREUZ_MASK || cell == PIQUS_MASK
        || cell == HEARTS_MASK || cell == KARO_MASK))
    ||| (trump == KREUZ_TRUMPF_MASK && (cell == KREUZ_TRUMPF_MASK || cell == PIQUS_MASK || cell
        == HEARTS_MASK || cell == KARO_MASK))
    ||| (trump == PIQUS_TRUMPF_MASK && (cell == KREUZ_MASK || cell == PIQUS_TRUMPF_MASK || cell
        == HEARTS_MASK || cell == KARO_MASK))
    ||| (trump == HEARTS_TRUMPF_MASK && (cell == KREUZ_MASK || cell == PIQUS_MASK || cell
        == HEARTS_TRUMPF_MASK || cell == KARO_MASK))
    ||| (trump == KARO_TRUMPF_MASK && (cell == KREUZ_MASK || cell == PIQUS_MASK || cell
        == HEARTS_MASK || cell == KARO_TRUMPF_MASK))
}

/// A card of a suit of the game asks for that suit when it is led.
proof fn lemma_cell_suit(c: u32, cell: u32, trump: u32)
    by (bit_vector)
    requires
        is_card(c),
        cell_of(trump, cell),
        c & cell == c,
    ensures
        led_suit(c, trump) == cell,
{
}

/// The suit that a card asks for is a suit of the game and holds the
/// card.
proof fn lemma_own_cell(c: u32, trump: u32)
    by (bit_vector)
    requires
        is_card(c),
        trump == GRAND_MASK || trump == KREUZ_TRUMPF_MASK || trump == PIQUS_TRUMPF_MASK || trump
            == HEARTS_TRUMPF_MASK || trump == KARO_TRUMPF_MASK,
    ensures
        cell_of(trump, led_suit(c, trump)),
        c & led_suit(c, trump) == c,
{
}

/// The suits of a game are the suits of its trumps, and each of these
/// is among them.
pub proof fn lemma_cells(variant: Variant)
    requires
        variant.has_trump(),
    ensures
        forall|j: int|
            0 <= j < 5 ==> #[trigger] color_cells(variant)[j] == 0 || cell_of(
                trump_mask(variant),
                color_cells(variant)[j],
            ),
        forall|cell: u32|
            cell_of(trump_mask(variant), cell) ==> exists|j: int|
                0 <= j < 5 && #[trigger] color_cells(variant)[j] == cell,
{
    lemma_trump_masks();
    let cells = color_cells(variant);
    assert forall|cell: u32| cell_of(trump_mask(variant), cell) implies exists|j: int|
        0 <= j < 5 && #[trigger] cells[j] == cell by {
        if cell == cells[0] {
        } else if cell == cells[1] {
        } else if cell == cells[2] {
        } else if cell == cells[3] {
        } else {
            assert(cell == cells[4]);
        }
    }
}

/// Moving a card from the cards still to be listed to those listed.
proof fn lemma_step(legal: u32, rest: u32, c: u32)
    by (bit_vector)
    requires
        rest & legal == rest,
        c & rest == c,
    ensures
        c & (legal & !rest) == 0,
        (legal & !rest) | c == legal & !(rest & !c),
        (rest & !c) & legal == rest & !c,
        c & legal == c,
        ((legal & !rest) | c) & legal == (legal & !rest) | c,
{
}

/// Listing the highest card of a suit: it is an unlisted card of the
/// suit, and the suits done stay done.
proof fn lemma_cell_step(unplayed: u32, color: u32, avail: u32, msb: u32, other: u32)
    by (bit_vector)
    requires
        avail == unplayed & color,
        msb & avail == msb,
    ensures
        msb & unplayed == msb,
        msb & color == msb,
        avail & !msb == (unplayed & !msb) & color,
        unplayed & other == 0 ==> (unplayed & !msb) & other == 0,
        (unplayed & !msb) & other <= unplayed & other,
        msb <= avail,
        avail & !msb == 0 ==> (unplayed & !msb) & color == 0,
{
}

/// The cards of a hand that follow a suit lie in the hand.
proof fn lemma_follow(cards: u32, suit: u32)
    by (bit_vector)
    ensures
        suit & cards == cards & suit,
        (cards & suit) & cards == cards & suit,
{
}

/// A suit that holds an unlisted card of the hand meets the hand.
proof fn lemma_in_both(x: u32, unplayed: u32, first: u32, cell: u32)
    by (bit_vector)
    requires
        x != 0,
        x & unplayed == x,
        unplayed & first == unplayed,
        x & cell == x,
    ensures
        first & cell != 0,
        unplayed & cell != 0,
{
}

impl BitLocal {
    /// The packed state after the card `c`, which may be played, where
    /// `next_full` is this state with the mark of the next player and
    /// `color` the suit of `c` at the start of a trick.
    fn play(&self, global_state: &BitGlobal, next_full: u32, c: u32, color: u32) -> (entry:
        BitSuccessor)
        requires
            self.wf_in(*global_state),
            is_card(c),
            c & legal_moves(global_state@, self.view_in(*global_state)) == c,
            next_full == (self.state & !global_state.skat.0) | global_state.mark(
                global_state.player_at(self.state).next(),
            ),
            self.current_suit == 0 ==> color == led_suit(c, trump_mask(global_state.variant)),
        ensures
            entry == bit_successor(*global_state, *self, c),
            entry.0.wf_in(*global_state),
    {
        let ghost g = *global_state;
        let ghost v = self.view_in(g);
        proof {
            crate::solver::rules::lemma_has_cards(g@, v, c);
            lemma_next_valid(g@, v, c);
            lemma_bit_next(g, *self, c);
            g.lemma_skat();
            lemma_hands(
                g.player_one.0,
                g.player_two.0,
                g.player_three.0,
                v.remaining_cards.0,
                g.skat.0,
            );
            lemma_marked(
                v.remaining_cards.0,
                g.skat.0,
                g.first_card_skat,
                g.second_card_skat,
                c,
                g.mark(next_state(g@, v, c).current_player),
            );
            lemma_value_of_none();
        }
        if self.current_suit == 0 {
            (
                BitLocal {
                    state: next_full & !c,
                    current_played_cards: (BitCard(c), BitCard(0)),
                    current_suit: color,
                },
                0,
            )
        } else if self.current_played_cards.1.0 == 0 {
            (
                BitLocal {
                    state: next_full & !c,
                    current_played_cards: (self.current_played_cards.0, BitCard(c)),
                    current_suit: self.current_suit,
                },
                0,
            )
        } else {
            let winner_card = calculate_who_won_better(
                self.current_played_cards.0,
                self.current_played_cards.1,
                BitCard(c),
                &global_state.variant,
            );
            let new_state = global_state.calculate_winner_state(
                winner_card.0,
                winner_card.1,
                self.state,
            );
            (
                BitLocal {
                    state: new_state.0 & !c,
                    current_played_cards: (BitCard(0), BitCard(0)),
                    current_suit: 0,
                },
                new_state.1,
            )
        }
    }

    /// The moves that are allowed in this state. At the start of a trick
    /// the suits are tried in order of how few answers the others have, and
    /// the cards of a suit from the highest down; elsewhere the cards are
    /// tried from the lowest up.
    pub fn get_next_states(&self, global_state: &BitGlobal) -> (next: ArrayVec<BitSuccessor, 10>)
        requires
            self.wf_in(*global_state),
        ensures
            lists_bit_moves(*global_state, *self, bit_successor_items(next)),
            self.current_suit != 0 ==> bit_successor_items(next) == bit_successors(
                *global_state,
                *self,
                legal_moves(global_state@, self.view_in(*global_state)),
            ),
            self.current_suit == 0 ==> in_suit_order(
                holding(
                    global_state@,
                    self.view_in(*global_state),
                    global_state.player_at(self.state),
                ),
                holding(
                    global_state@,
                    self.view_in(*global_state),
                    global_state.player_at(self.state).next(),
                ),
                holding(
                    global_state@,
                    self.view_in(*global_state),
                    global_state.player_at(self.state).next().next(),
                ),
                bit_successor_items(next),
            ),
    {
        let ghost g = *global_state;
        let ghost v = self.view_in(g);
        let ghost legal = legal_moves(g@, v);
        let mut next_states = bit_buffer_new();
        proof {
            lemma_bit_none(g, *self);
            lemma_hand_sizes(g@, v);
            crate::bits::lemma_word(legal);
        }
        if self.is_full_node() {
            self.next_full_cards(global_state, &mut next_states);
            return next_states;
        }
        let possible = self.get_current_cards(global_state);
        let available = if (possible.0 & self.current_suit) == 0 {
            possible
        } else {
            BitCards(possible.0 & self.current_suit)
        };
        proof {
            lemma_follow(possible.0, self.current_suit);
            assert(available.0 == legal);
        }
        let next_full = self.get_next_player_full_state(global_state);
        let mut rest: u32 = available.0;
        proof {
            assert(bit_successor_items(next_states) + bit_successors(g, *self, rest)
                =~= bit_successors(g, *self, rest));
        }
        while rest != 0
            invariant
                g == *global_state,
                v == self.view_in(g),
                legal == legal_moves(g@, v),
                self.wf_in(g),
                self.current_suit != 0,
                bit_successor_items(next_states) + bit_successors(g, *self, rest)
                    == bit_successors(g, *self, legal),
                next_full == (self.state & !g.skat.0) | g.mark(g.player_at(self.state).next()),
                rest & legal == rest,
                holds_moves(g, *self, bit_successor_items(next_states), legal & !rest),
                count(legal) <= 10,
            decreases rest,
        {
            let c = lowest_card(rest);
            proof {
                lemma_lowest(rest);
                lemma_step(legal, rest, c);
                lemma_bit_push(g, *self, bit_successor_items(next_states), legal & !rest, c);
                lemma_count_subset((legal & !rest) | c, legal);
            }
            let entry = self.play(global_state, next_full, c, 0);
            let ghost before = bit_successor_items(next_states);
            bit_buffer_push(&mut next_states, entry);
            proof {
                let tail = bit_successors(g, *self, rest & !c);
                assert(bit_successors(g, *self, rest) == seq![entry] + tail);
                assert(before.push(entry) + tail =~= before + (seq![entry] + tail));
            }
            rest = rest & !c;
        }
        proof {
            crate::bits::lemma_word(legal);
            assert(bit_successor_items(next_states) + Seq::<BitSuccessor>::empty()
                =~= bit_successor_items(next_states));
        }
        next_states
    }

    /// Lists the moves at the start of a trick: the suits in rising order of
    /// the answers that the two others have between them, and the cards of a
    /// suit from the highest down.
    fn next_full_cards(
        &self,
        global_state: &BitGlobal,
        next_states: &mut ArrayVec<BitSuccessor, 10>,
    )
        requires
            self.wf_in(*global_state),
            self.current_suit == 0,
            bit_successor_items(*old(next_states)) == Seq::<BitSuccessor>::empty(),
        ensures
            lists_bit_moves(*global_state, *self, bit_successor_items(*final(next_states))),
            in_suit_order(
                holding(
                    global_state@,
                    self.view_in(*global_state),
                    global_state.player_at(self.state),
                ),
                holding(
                    global_state@,
                    self.view_in(*global_state),
                    global_state.player_at(self.state).next(),
                ),
                holding(
                    global_state@,
                    self.view_in(*global_state),
                    global_state.player_at(self.state).next().next(),
                ),
                bit_successor_items(*final(next_states)),
            ),
    {
        let ghost g = *global_state;
        let ghost v = self.view_in(g);
        let ghost legal = legal_moves(g@, v);
        let all_cards = self.get_all_cards(global_state);
        let first: u32 = all_cards.0;
        let second: u32 = all_cards.1;
        let third: u32 = all_cards.2;
        proof {
            lemma_bit_none(g, *self);
            lemma_hand_sizes(g@, v);
            lemma_cells(g.variant);
            crate::bits::lemma_word(legal);
            assert(first == legal);
        }
        let amount_cards = count_cards(first) as u8;
        let mut color_amount: [ColorAmount; 5] = [(u8::MAX, 0), (u8::MAX, 0), (u8::MAX, 0), (
            u8::MAX,
            0,
        ), (u8::MAX, 0)];
        let mut i: usize = 0;
        while i < 5
            invariant
                i <= 5,
                g == *global_state,
                g.wf(),
                amount_cards <= 10,
                count(second) <= 10,
                count(third) <= 10,
                amount_cards == count(first),
                forall|j: int|
                    0 <= j < 5 ==> if j < i && first & g.color_masks@[j] != 0 {
                        (#[trigger] color_amount@[j]).1 == g.color_masks@[j] && color_amount@[j].0
                            <= 100 && color_amount@[j].0 == answers(
                            first,
                            second,
                            third,
                            g.color_masks@[j],
                        )
                    } else {
                        color_amount@[j] == (255u8, 0u32)
                    },
            decreases 5 - i,
        {
            let color_mask = global_state.color_masks[i];
            if first & color_mask != 0 {
                let second_available = second & color_mask;
                let third_available = third & color_mask;
                proof {
                    lemma_follow(second, color_mask);
                    lemma_follow(third, color_mask);
                    lemma_count_subset(second_available, second);
                    lemma_count_subset(third_available, third);
                }
                let answers_second: u8 = if second_available != 0 {
                    count_cards(second_available) as u8
                } else {
                    amount_cards
                };
                let answers_third: u8 = if third_available != 0 {
                    count_cards(third_available) as u8
                } else {
                    amount_cards
                };
                assert(answers_second * answers_third <= 100) by (nonlinear_arith)
                    requires
                        answers_second <= 10,
                        answers_third <= 10,
                ;
                let c: u8 = answers_second * answers_third;
                color_amount[i] = (c, color_mask);
            }
            i = i + 1;
        }
        let ghost unsorted = color_amount@;
        sort_cells(&mut color_amount);
        let next_full = self.get_next_player_full_state(global_state);
        let mut unplayed: u32 = first;
        let mut idx: usize = 0;
        while idx < 5 && color_amount[idx].0 != u8::MAX
            invariant
                idx <= 5,
                g == *global_state,
                v == self.view_in(g),
                legal == legal_moves(g@, v),
                first == legal,
                self.wf_in(g),
                self.current_suit == 0,
                next_full == (self.state & !g.skat.0) | g.mark(g.player_at(self.state).next()),
                unplayed & legal == unplayed,
                holds_moves(g, *self, bit_successor_items(*next_states), legal & !unplayed),
                count(legal) <= 10,
                color_amount@.to_multiset() == unsorted.to_multiset(),
                forall|j: int|
                    0 <= j < 5 ==> if first & g.color_masks@[j] != 0 {
                        (#[trigger] unsorted[j]).1 == g.color_masks@[j] && unsorted[j].0 <= 100
                            && unsorted[j].0 == answers(first, second, third, g.color_masks@[j])
                    } else {
                        unsorted[j] == (255u8, 0u32)
                    },
                unsorted.len() == 5,
                in_suit_order(first, second, third, bit_successor_items(*next_states)),
                idx < 5 ==> forall|k: int|
                    0 <= k < bit_successor_items(*next_states).len() ==> answers(
                        first,
                        second,
                        third,
                        (#[trigger] bit_successor_items(*next_states)[k]).0.current_suit,
                    ) <= color_amount@[idx as int].0,
                forall|k: int|
                    0 <= k < bit_successor_items(*next_states).len() ==> (
                    #[trigger] bit_successor_items(
                        *next_states,
                    )[k]).0.current_played_cards.0.0 > unplayed & bit_successor_items(
                        *next_states,
                    )[k].0.current_suit,
                forall|j: int| 0 <= j < idx ==> unplayed & (#[trigger] color_amount@[j]).1 == 0,
                forall|a: int, b: int|
                    0 <= a < b < 5 ==> (#[trigger] color_amount@[a]).0 <= (
                    #[trigger] color_amount@[b]).0,
            decreases 5 - idx,
        {
            let color = color_amount[idx].1;
            proof {
                let e = color_amount@[idx as int];
                unsorted.to_multiset_ensures();
                color_amount@.to_multiset_ensures();
                assert(color_amount@.contains(e));
                assert(color_amount@.to_multiset().count(e) > 0);
                assert(unsorted.to_multiset().count(e) > 0);
                assert(unsorted.contains(e));
                let j = choose|j: int| 0 <= j < unsorted.len() && unsorted[j] == e;
                assert(color == g.color_masks@[j]);
                assert(color == color_cells(g.variant)[j]);
                crate::bits::lemma_word(first);
                lemma_cells(g.variant);
                assert(cell_of(trump_mask(g.variant), color));
                assert(color_amount@[idx as int].0 == answers(first, second, third, color));
            }
            let mut avail: u32 = unplayed & color;
            while avail != 0
                invariant
                    g == *global_state,
                    v == self.view_in(g),
                    legal == legal_moves(g@, v),
                    self.wf_in(g),
                    self.current_suit == 0,
                    idx < 5,
                    next_full == (self.state & !g.skat.0) | g.mark(
                        g.player_at(self.state).next(),
                    ),
                    cell_of(trump_mask(g.variant), color),
                    color == color_amount@[idx as int].1,
                    unplayed & legal == unplayed,
                    avail == unplayed & color,
                    holds_moves(g, *self, bit_successor_items(*next_states), legal & !unplayed),
                    count(legal) <= 10,
                    forall|j: int|
                        0 <= j < idx ==> unplayed & (#[trigger] color_amount@[j]).1 == 0,
                    color_amount@[idx as int].0 == answers(first, second, third, color),
                    in_suit_order(first, second, third, bit_successor_items(*next_states)),
                    forall|k: int|
                        0 <= k < bit_successor_items(*next_states).len() ==> answers(
                            first,
                            second,
                            third,
                            (#[trigger] bit_successor_items(*next_states)[k]).0.current_suit,
                        ) <= color_amount@[idx as int].0,
                    forall|k: int|
                        0 <= k < bit_successor_items(*next_states).len() ==> (
                        #[trigger] bit_successor_items(
                            *next_states,
                        )[k]).0.current_played_cards.0.0 > unplayed & bit_successor_items(
                            *next_states,
                        )[k].0.current_suit,
                decreases avail,
            {
                let msb = get_msb_mask(avail);
                proof {
                    lemma_cell_step(unplayed, color, avail, msb, 0);
                    lemma_step(legal, unplayed, msb);
                    lemma_cell_suit(msb, color, trump_mask(g.variant));
                    lemma_bit_push(
                        g,
                        *self,
                        bit_successor_items(*next_states),
                        legal & !unplayed,
                        msb,
                    );
                    lemma_count_subset((legal & !unplayed) | msb, legal);
                    lemma_remove(avail, msb);
                    assert forall|j: int| 0 <= j < idx implies (unplayed & !msb) & (
                    #[trigger] color_amount@[j]).1 == 0 by {
                        lemma_cell_step(unplayed, color, avail, msb, color_amount@[j].1);
                    }
                }
                let entry = self.play(global_state, next_full, msb, color);
                let ghost before = bit_successor_items(*next_states);
                bit_buffer_push(next_states, entry);
                proof {
                    let after = bit_successor_items(*next_states);
                    assert(entry.0.current_suit == color);
                    assert(entry.0.current_played_cards.0.0 == msb);
                    assert forall|k: int| 0 <= k < after.len() implies (
                    #[trigger] after[k]).0.current_played_cards.0.0 > (unplayed & !msb)
                        & after[k].0.current_suit by {
                        if k < before.len() {
                            assert(after[k] == before[k]);
                            lemma_cell_step(unplayed, color, avail, msb, before[k].0.current_suit);
                        }
                    }
                    assert forall|i: int, j: int| 0 <= i < j < after.len() implies {
                        &&& answers(first, second, third, (#[trigger] after[i]).0.current_suit)
                            <= answers(first, second, third, (#[trigger] after[j]).0.current_suit)
                        &&& after[i].0.current_suit == after[j].0.current_suit
                            ==> after[i].0.current_played_cards.0.0
                            > after[j].0.current_played_cards.0.0
                    } by {
                        assert(after[i] == before[i]);
                        if j < before.len() {
                            assert(after[j] == before[j]);
                        }
                    }
                }
                avail = avail & !msb;
                unplayed = unplayed & !msb;
            }
            idx = idx + 1;
        }
        proof {
            if unplayed != 0 {
                let x = lowest(unplayed);
                lemma_lowest(unplayed);
                lemma_trump_masks();
                lemma_own_cell(x, trump_mask(g.variant));
                lemma_cells(g.variant);
                let cell = led_suit(x, trump_mask(g.variant));
                let j = choose|j: int| 0 <= j < 5 && #[trigger] color_cells(g.variant)[j] == cell;
                lemma_in_both(x, unplayed, first, cell);
                let e = unsorted[j];
                unsorted.to_multiset_ensures();
                color_amount@.to_multiset_ensures();
                assert(unsorted.contains(e));
                assert(unsorted.to_multiset().count(e) > 0);
                assert(color_amount@.to_multiset().count(e) > 0);
                assert(color_amount@.contains(e));
                let k = choose|k: int| 0 <= k < color_amount@.len() && color_amount@[k] == e;
                assert(k < idx);
                assert(false);
            }
            crate::bits::lemma_word(legal);
        }
    }
}


impl BitGlobal {
    /// The game with its facts unpacked.
    pub fn to_global(&self) -> (g: GlobalState)
        ensures
            g == self@,
    {
        GlobalState {
            player_cards: (self.player_one, self.player_two, self.player_three),
            skat: self.skat,
            alone_player: Player::One,
            variant: self.variant,
            skat_points: self.skat_points,
        }
    }

    /// Whether the facts of the game fit together.
    pub fn is_valid(&self) -> (b: bool)
        ensures
            b == self.wf(),
    {
        if !self.to_global().is_valid() {
            return false;
        }
        if count_cards(self.skat.0) != 2 {
            return false;
        }
        let low = lowest_card(self.skat.0);
        let masks = generate_color_mask(self.variant);
        let same = self.color_masks[0] == masks[0] && self.color_masks[1] == masks[1]
            && self.color_masks[2] == masks[2] && self.color_masks[3] == masks[3]
            && self.color_masks[4] == masks[4];
        proof {
            if same {
                assert(self.color_masks@ =~= masks@);
            }
        }
        self.first_card_skat == low && self.second_card_skat == self.skat.0 & !low && same
    }
}

impl BitLocal {
    /// The state that the packed state stands for.
    pub fn to_state(&self, global_state: &BitGlobal) -> (s: LState)
        ensures
            s == self.view_in(*global_state),
    {
        let tag = self.state & global_state.skat.0;
        let current_player = if tag == 0 {
            Player::One
        } else if tag & global_state.second_card_skat == 0 {
            Player::Two
        } else {
            Player::Three
        };
        LState {
            remaining_cards: BitCards(self.state & !global_state.skat.0),
            current_player,
            current_played_cards: self.current_played_cards,
            current_suit: if self.current_suit == 0 {
                None
            } else {
                Some(BitCards(self.current_suit))
            },
        }
    }

    /// Whether the packed state stands for a state that can occur in the
    /// game, with the marks of a player.
    pub fn is_valid(&self, global_state: &BitGlobal) -> (b: bool)
        ensures
            b == self.wf_in(*global_state),
    {
        if !global_state.is_valid() {
            return false;
        }
        let state = self.to_state(global_state);
        let mark = match state.current_player {
            Player::One => 0,
            Player::Two => global_state.first_card_skat,
            Player::Three => global_state.skat.0,
        };
        state.is_valid(&global_state.to_global()) && self.state & global_state.skat.0 == mark
    }
}

} // verus!
