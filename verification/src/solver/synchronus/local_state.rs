//! The state of a game between two moves, and the moves that lead on
//! from it.
use crate::bitboard::{BitCard, BitCards, calculate_who_won_better, lemma_value_of_none};
use crate::bits::{
    count, count_cards, is_card, lemma_count_remove, lemma_lowest, lowest, lowest_card,
};
use crate::solver::buffer::{buffer_new, buffer_push, buffer_sort, successor_items};
use crate::solver::rules::{
    hash_key, holding, legal_moves, lemma_hand_sizes, lemma_next_valid, lemma_part,
    lists_successors, Successor, successor_entry, successors, valid_state,
};
use crate::solver::{
    calculate_current_suit_mask, calculate_next_moves, calculate_winner, GlobalState, Player,
};
use arrayvec::ArrayVec;
use vstd::prelude::*;

verus! {

/// A state packed into one word of 64 bits.
pub struct LStateAdvanced {
    pub pos: u64,
}

/// What changes while a game is played: the cards not yet played, the
/// cards of the trick on the table (the empty card where none lies), the
/// player to move and the cards that follow the card led.
#[derive(Clone, Copy, Debug, PartialEq, Eq, Hash)]
pub struct LState {
    pub remaining_cards: BitCards,
    pub current_player: Player,
    pub current_played_cards: (BitCard, BitCard),
    pub current_suit: Option<BitCards>,
}

impl LState {
    /// The state at the start of a trick.
    pub fn new(remaining_cards: BitCards, current_player: Player) -> (s: LState)
        ensures
            s.remaining_cards == remaining_cards,
            s.current_player == current_player,
            s.current_played_cards == (BitCard(0), BitCard(0)),
            s.current_suit.is_none(),
    {
        LState {
            remaining_cards,
            current_played_cards: (BitCard(0), BitCard(0)),
            current_player,
            current_suit: None,
        }
    }

    /// The cards not yet played and the player to move.
    pub fn get_hash(&self) -> (key: (u32, Player))
        ensures
            key == (self.remaining_cards.0, self.current_player),
    {
        (self.remaining_cards.0, self.current_player)
    }

    /// The cards not yet played, with the mark of the player to move.
    pub fn get_hash_better(&self, global_state: &GlobalState) -> (key: u32)
        ensures
            key == hash_key(*global_state, *self),
    {
        let low = lowest_card(global_state.skat.0);
        match self.current_player {
            Player::One => {
                proof {
                    crate::bits::lemma_word(self.remaining_cards.0);
                }
                self.remaining_cards.0
            },
            Player::Two => self.remaining_cards.0 | low,
            Player::Three => self.remaining_cards.0 | (global_state.skat.0 & !low),
        }
    }

    /// No card has been led.
    pub fn is_full_node(&self) -> (b: bool)
        ensures
            b == self.current_suit.is_none(),
    {
        self.current_suit.is_none()
    }

    /// All cards have been played.
    pub fn is_terminal(&self) -> (b: bool)
        ensures
            b == (self.remaining_cards.0 == 0),
    {
        self.remaining_cards.0 == 0
    }

    /// The player who plays alone is to move.
    pub fn is_max_node(&self, global_state: &GlobalState) -> (b: bool)
        ensures
            b == (self.current_player == global_state.alone_player),
    {
        self.current_player == global_state.alone_player
    }

    /// The cards that a player still holds.
    pub fn get_available(
        &self,
        current_player: Player,
        global_state: &GlobalState,
    ) -> (cards: BitCards)
        ensures
            cards.0 == holding(*global_state, *self, current_player),
    {
        match current_player {
            Player::One => BitCards(global_state.player_cards.0.0 & self.remaining_cards.0),
            Player::Two => BitCards(global_state.player_cards.1.0 & self.remaining_cards.0),
            Player::Three => BitCards(global_state.player_cards.2.0 & self.remaining_cards.0),
        }
    }

    /// The move with the card `next_move`, which the player to move may play.
    pub fn get_next_state(&self, next_move: BitCard, global_state: &GlobalState) -> (e: Successor)
        requires
            valid_state(*global_state, *self),
            is_card(next_move.0),
            next_move.0 & legal_moves(*global_state, *self) == next_move.0,
        ensures
            e == successor_entry(*global_state, *self, next_move.0),
            valid_state(*global_state, e.0),
    {
        proof {
            lemma_value_of_none();
            crate::solver::rules::lemma_has_cards(*global_state, *self, next_move.0);
            lemma_next_valid(*global_state, *self, next_move.0);
        }
        let next_player = self.current_player.get_next_player();
        let remaining_cards = BitCards(self.remaining_cards.0 & !next_move.0);
        if self.current_played_cards.0.0 == 0 && self.current_played_cards.1.0 == 0 {
            (
                LState {
                    remaining_cards,
                    current_played_cards: (next_move, BitCard(0)),
                    current_player: next_player,
                    current_suit: Some(
                        calculate_current_suit_mask(next_move, &global_state.variant),
                    ),
                },
                next_move.get_point(),
                0,
            )
        } else if self.current_played_cards.1.0 == 0 {
            (
                LState {
                    remaining_cards,
                    current_played_cards: (self.current_played_cards.0, next_move),
                    current_player: next_player,
                    current_suit: self.current_suit,
                },
                self.current_played_cards.0.get_point() + next_move.get_point(),
                0,
            )
        } else {
            let winner_card = calculate_who_won_better(
                self.current_played_cards.0,
                self.current_played_cards.1,
                next_move,
                &global_state.variant,
            );
            let winner_player = calculate_winner(winner_card.0, global_state);
            let winner_points = if winner_player == global_state.alone_player {
                winner_card.1
            } else {
                0
            };
            (
                LState {
                    remaining_cards,
                    current_played_cards: (BitCard(0), BitCard(0)),
                    current_player: winner_player,
                    current_suit: None,
                },
                winner_points,
                winner_points,
            )
        }
    }

    /// The moves that are allowed in this state, from the lowest card up.
    pub fn list_moves(&self, global_state: &GlobalState) -> (next: ArrayVec<Successor, 10>)
        requires
            valid_state(*global_state, *self),
        ensures
            successor_items(next) == successors(
                *global_state,
                *self,
                legal_moves(*global_state, *self),
            ),
            forall|k: int|
                0 <= k < successor_items(next).len() ==> valid_state(
                    *global_state,
                    (#[trigger] successor_items(next)[k]).0,
                ),
    {
        let mut move_sorter = MoveSorter::new();
        let available = self.get_available(self.current_player, global_state);
        let possible_moves: BitCards = calculate_next_moves(available, self.current_suit);
        let mut rest: u32 = possible_moves.0;
        proof {
            lemma_hand_sizes(*global_state, *self);
            crate::bits::lemma_word(rest);
            assert(move_sorter@ + successors(*global_state, *self, rest) =~= successors(
                *global_state,
                *self,
                rest,
            ));
        }
        while rest != 0
            invariant
                valid_state(*global_state, *self),
                possible_moves.0 == legal_moves(*global_state, *self),
                rest & possible_moves.0 == rest,
                move_sorter@ + successors(*global_state, *self, rest) == successors(
                    *global_state,
                    *self,
                    possible_moves.0,
                ),
                move_sorter@.len() + count(rest) == count(possible_moves.0),
                count(possible_moves.0) <= 10,
                forall|k: int|
                    0 <= k < move_sorter@.len() ==> valid_state(
                        *global_state,
                        (#[trigger] move_sorter@[k]).0,
                    ),
            decreases rest,
        {
            let next_move = BitCard(lowest_card(rest));
            proof {
                lemma_lowest(rest);
                lemma_count_remove(rest, next_move.0);
                lemma_part(rest, next_move.0, possible_moves.0, next_move.0);
            }
            let entry = self.get_next_state(next_move, global_state);
            let ghost before = move_sorter@;
            move_sorter.add(entry.0, entry.1, entry.2);
            proof {
                let tail = successors(*global_state, *self, rest & !next_move.0);
                assert(successors(*global_state, *self, rest) == seq![entry] + tail);
                assert(before.push(entry) + tail =~= before + (seq![entry] + tail));
            }
            rest = rest & !next_move.0;
        }
        proof {
            assert(move_sorter@ + Seq::<Successor>::empty() =~= move_sorter@);
        }
        move_sorter.entries
    }

    /// The moves that are allowed in this state, those that promise the
    /// most points first.
    pub fn get_next_states(&self, global_state: &GlobalState) -> (next: ArrayVec<Successor, 10>)
        requires
            valid_state(*global_state, *self),
        ensures
            lists_successors(*global_state, *self, successor_items(next)),
    {
        let mut move_sorter = MoveSorter { entries: self.list_moves(global_state) };
        move_sorter.sort();
        move_sorter.entries
    }

    /// Whether the state can occur in the game.
    pub fn is_valid(&self, global_state: &GlobalState) -> (b: bool)
        ensures
            b == valid_state(*global_state, *self),
    {
        if !global_state.is_valid() {
            return false;
        }
        let rem = self.remaining_cards.0;
        let hands = global_state.player_cards.0.0 | global_state.player_cards.1.0
            | global_state.player_cards.2.0;
        if rem & hands != rem {
            return false;
        }
        let p = self.current_player;
        let q = p.get_next_player();
        let r = q.get_next_player();
        let mine = count_cards(self.get_available(p, global_state).0);
        let second_count = count_cards(self.get_available(q, global_state).0);
        let third_count = count_cards(self.get_available(r, global_state).0);
        let first = self.current_played_cards.0.0;
        let second = self.current_played_cards.1.0;
        let suit_led = if first == 0 {
            BitCards(0)
        } else {
            calculate_current_suit_mask(self.current_played_cards.0, &global_state.variant)
        };
        if first == 0 {
            second == 0 && self.current_suit.is_none() && second_count == mine && third_count
                == mine
        } else if !single_card(first) || first & rem != 0 || !same_suit(self.current_suit, suit_led) {
            false
        } else if second == 0 {
            first & hand_of(global_state, r) == first && second_count == mine && third_count + 1
                == mine
        } else {
            single_card(second) && second & rem == 0 && first & hand_of(global_state, q) == first
                && second & hand_of(global_state, r) == second && second_count + 1 == mine
                && third_count + 1 == mine
        }
    }
}

/// Whether a word holds exactly one card.
pub fn single_card(c: u32) -> (b: bool)
    ensures
        b == is_card(c),
{
    c != 0 && c & (c - 1) == 0
}

fn same_suit(suit: Option<BitCards>, led: BitCards) -> (b: bool)
    ensures
        b == (suit == Some(led)),
{
    match suit {
        None => false,
        Some(mask) => mask.0 == led.0,
    }
}

/// The hand that was dealt to a player.
pub fn hand_of(global_state: &GlobalState, player: Player) -> (cards: u32)
    ensures
        cards == global_state.hand(player),
{
    match player {
        Player::One => global_state.player_cards.0.0,
        Player::Two => global_state.player_cards.1.0,
        Player::Three => global_state.player_cards.2.0,
    }
}

/// Collects the moves of a state and puts them in the order in which
/// they are tried.
pub struct MoveSorter {
    pub entries: ArrayVec<Successor, 10>,
}

impl View for MoveSorter {
    type V = Seq<Successor>;

    open spec fn view(&self) -> Seq<Successor> {
        successor_items(self.entries)
    }
}

impl MoveSorter {
    pub fn new() -> (sorter: MoveSorter)
        ensures
            sorter@ == Seq::<Successor>::empty(),
    {
        MoveSorter { entries: buffer_new() }
    }

    /// Adds a move: the state it leads to, the points expected of it and
    /// the points it brings. There must be room for it.
    pub fn add(&mut self, move_: LState, score: u8, gained: u8)
        requires
            old(self)@.len() < 10,
        ensures
            final(self)@ == old(self)@.push((move_, score, gained)),
    {
        buffer_push(&mut self.entries, (move_, score, gained))
    }

    /// Puts the moves in order: those with the most points first, moves of
    /// equal points as they were added.
    pub fn sort(&mut self)
        ensures
            final(self)@.to_multiset() == old(self)@.to_multiset(),
            forall|i: int, j: int|
                0 <= i < j < final(self)@.len() ==> crate::solver::rules::sort_key(
                    #[trigger] final(self)@[i],
                ) >= crate::solver::rules::sort_key(#[trigger] final(self)@[j]),
            forall|k: u8| #[trigger]
                crate::solver::rules::with_key(final(self)@, k) == crate::solver::rules::with_key(
                    old(self)@,
                    k,
                ),
    {
        buffer_sort(&mut self.entries)
    }
}

} // verus!
