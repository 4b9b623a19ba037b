#![allow(dead_code, unused_variables)]
use skat_solver::bitboard;
use skat_solver::bitboard::{BitCard, BitCards, Variant};
use skat_solver::solver::{GlobalState, Player};
use skat_solver::solver::calculate_current_suit_mask;
use skat_solver::solver::synchronus::alpha_beta::{minimax, LocalState};

const KREUZ_JACK: BitCard = BitCard(bitboard::KREUZ_JACK);
const PIQUS_JACK: BitCard = BitCard(bitboard::PIQUS_JACK);
const HEARTS_JACK: BitCard = BitCard(bitboard::HEARTS_JACK);
const KARO_JACK: BitCard = BitCard(bitboard::KARO_JACK);
const KREUZ_ASS: BitCard = BitCard(bitboard::KREUZ_ASS);
const KREUZ_TEN: BitCard = BitCard(bitboard::KREUZ_TEN);
const KREUZ_KING: BitCard = BitCard(bitboard::KREUZ_KING);
const KREUZ_QUEEN: BitCard = BitCard(bitboard::KREUZ_QUEEN);
const KREUZ_NINE: BitCard = BitCard(bitboard::KREUZ_NINE);
const KREUZ_EIGHT: BitCard = BitCard(bitboard::KREUZ_EIGHT);
const KREUZ_SEVEN: BitCard = BitCard(bitboard::KREUZ_SEVEN);
const PIQUS_ASS: BitCard = BitCard(bitboard::PIQUS_ASS);
const PIQUS_TEN: BitCard = BitCard(bitboard::PIQUS_TEN);
const PIQUS_KING: BitCard = BitCard(bitboard::PIQUS_KING);
const PIQUS_QUEEN: BitCard = BitCard(bitboard::PIQUS_QUEEN);
const PIQUS_NINE: BitCard = BitCard(bitboard::PIQUS_NINE);
const PIQUS_EIGHT: BitCard = BitCard(bitboard::PIQUS_EIGHT);
const PIQUS_SEVEN: BitCard = BitCard(bitboard::PIQUS_SEVEN);
const HEARTS_ASS: BitCard = BitCard(bitboard::HEARTS_ASS);
const HEARTS_TEN: BitCard = BitCard(bitboard::HEARTS_TEN);
const HEARTS_KING: BitCard = BitCard(bitboard::HEARTS_KING);
const HEARTS_QUEEN: BitCard = BitCard(bitboard::HEARTS_QUEEN);
const HEARTS_NINE: BitCard = BitCard(bitboard::HEARTS_NINE);
const HEARTS_EIGHT: BitCard = BitCard(bitboard::HEARTS_EIGHT);
const HEARTS_SEVEN: BitCard = BitCard(bitboard::HEARTS_SEVEN);
const KARO_ASS: BitCard = BitCard(bitboard::KARO_ASS);
const KARO_TEN: BitCard = BitCard(bitboard::KARO_TEN);
const KARO_KING: BitCard = BitCard(bitboard::KARO_KING);
const KARO_QUEEN: BitCard = BitCard(bitboard::KARO_QUEEN);
const KARO_NINE: BitCard = BitCard(bitboard::KARO_NINE);
const KARO_EIGHT: BitCard = BitCard(bitboard::KARO_EIGHT);
const KARO_SEVEN: BitCard = BitCard(bitboard::KARO_SEVEN);

const EMPTY_CARD: BitCard = BitCard(0);

fn paper_one_hands() -> (BitCards, BitCards, BitCards) {
    let player_one = KREUZ_JACK | KREUZ_TEN | HEARTS_TEN | HEARTS_KING | HEARTS_EIGHT | PIQUS_KING | PIQUS_SEVEN;
    let player_two = PIQUS_JACK | HEARTS_JACK | KREUZ_EIGHT | KARO_ASS | KARO_TEN | KARO_QUEEN | KARO_NINE;
    let player_three = KREUZ_QUEEN | KREUZ_SEVEN | HEARTS_ASS | HEARTS_SEVEN | PIQUS_NINE | PIQUS_EIGHT | KARO_SEVEN;
    (player_one, player_two, player_three)
}

fn paper_two_hands() -> (BitCards, BitCards, BitCards) {
    let player_1 =
        BitCards(
            KREUZ_SEVEN.0 | KREUZ_EIGHT.0 | KREUZ_QUEEN.0 | KREUZ_KING.0 | KREUZ_ASS.0 |
                KARO_SEVEN.0 | KARO_TEN.0 | KARO_ASS.0 | PIQUS_ASS.0);
    let player_2 =
        BitCards(
            HEARTS_JACK.0 | KARO_EIGHT.0 | KARO_NINE.0 | KARO_QUEEN.0 | PIQUS_NINE.0 |
                HEARTS_SEVEN.0 | HEARTS_EIGHT.0 | HEARTS_NINE.0 | HEARTS_QUEEN.0);
    let player_3 =
        BitCards(
            KARO_JACK.0 | KREUZ_NINE.0 | HEARTS_ASS.0 | PIQUS_SEVEN.0 | PIQUS_EIGHT.0 |
                PIQUS_QUEEN.0 | PIQUS_KING.0 | PIQUS_TEN.0 | KARO_KING.0);
    (player_1, player_2, player_3)
}

#[test]
fn minmax_paper_one() {
    let global_state = GlobalState::new(
        (BitCards(0b10000100000001000101100100000000), BitCards(0b01100000010000000000000001101100), BitCards(0b00000001001000011010000010000001)),
        BitCards(0),
        Player::One,
        Variant::Clubs,
    ).unwrap();

    let local_state = LocalState {
        remaining_cards: BitCards(global_state.player_cards.0.0 | global_state.player_cards.1.0 | global_state.player_cards.2.0),
        current_played_cards: (BitCard(0), BitCard(0)),
        current_player: Player::One,
        current_suit: None,
        current_points_alone: 0,
    };
    assert!(local_state.to_state().is_valid(&global_state));
    let res_1 = minimax(local_state, &global_state, 0, 120);
    let local_state_2 = LocalState {
        remaining_cards: BitCards(global_state.player_cards.0.0 | global_state.player_cards.1.0 | global_state.player_cards.2.0) & BitCards(!PIQUS_KING.0),
        current_played_cards: (PIQUS_KING, BitCard(0)),
        current_player: Player::Two,
        current_suit: Some(calculate_current_suit_mask(PIQUS_KING, &Variant::Clubs)),
        current_points_alone: 0,
    };
    assert_eq!(res_1.1.unwrap(), local_state_2);
    let res_2 = minimax(local_state_2, &global_state, 0, 120);
    let local_state_3 = LocalState {
        remaining_cards: BitCards(global_state.player_cards.0.0 | global_state.player_cards.1.0 | global_state.player_cards.2.0) & BitCards(!PIQUS_KING.0) & BitCards(!KREUZ_EIGHT.0),
        current_played_cards: (PIQUS_KING, KREUZ_EIGHT),
        current_player: Player::Three,
        current_suit: Some(calculate_current_suit_mask(PIQUS_KING, &Variant::Clubs)),
        current_points_alone: 0,
    };
    assert_eq!(res_2.1.unwrap(), local_state_3);
    let res_3 = minimax(local_state_3, &global_state, 0, 120);
    let local_state_4 = LocalState {
        remaining_cards: BitCards(global_state.player_cards.0.0 | global_state.player_cards.1.0 | global_state.player_cards.2.0) & BitCards(!PIQUS_KING.0) & BitCards(!KREUZ_EIGHT.0) & BitCards(!PIQUS_EIGHT.0),
        current_played_cards: (BitCard(0), BitCard(0)),
        current_player: Player::Two,
        current_suit: None,
        current_points_alone: 0,
    };
    assert_eq!(res_3.1.unwrap(), local_state_4);
    let res_4 = minimax(local_state_4, &global_state, 0, 120);
    let local_state_5 = LocalState {
        remaining_cards: BitCards(global_state.player_cards.0.0 | global_state.player_cards.1.0 | global_state.player_cards.2.0) & BitCards(!PIQUS_KING.0) & BitCards(!KREUZ_EIGHT.0) & BitCards(!PIQUS_EIGHT.0) & BitCards(!HEARTS_JACK.0),
        current_played_cards: (HEARTS_JACK, BitCard(0)),
        current_player: Player::Three,
        current_suit: Some(calculate_current_suit_mask(HEARTS_JACK, &Variant::Clubs)),
        current_points_alone: 0,
    };
    assert_eq!(res_4.1.unwrap(), local_state_5);
    let res_5 = minimax(local_state_5, &global_state, 0, 120);
    let local_state_6 = LocalState {
        remaining_cards: BitCards(global_state.player_cards.0.0 | global_state.player_cards.1.0 | global_state.player_cards.2.0)
            & BitCards(!PIQUS_KING.0)
            & BitCards(!KREUZ_EIGHT.0)
            & BitCards(!PIQUS_EIGHT.0)
            & BitCards(!HEARTS_JACK.0)
            & BitCards(!KREUZ_SEVEN.0),
        current_played_cards: (HEARTS_JACK, KREUZ_SEVEN),
        current_player: Player::One,
        current_suit: Some(calculate_current_suit_mask(HEARTS_JACK, &Variant::Clubs)),
        current_points_alone: 0,
    };
    assert_eq!(res_5.1.unwrap(), local_state_6);
    let res_6 = minimax(local_state_6, &global_state, 0, 120);
    let local_state_7 = LocalState {
        remaining_cards: BitCards(global_state.player_cards.0.0 | global_state.player_cards.1.0 | global_state.player_cards.2.0)
            & BitCards(!PIQUS_KING.0)
            & BitCards(!KREUZ_EIGHT.0)
            & BitCards(!PIQUS_EIGHT.0)
            & BitCards(!HEARTS_JACK.0)
            & BitCards(!KREUZ_SEVEN.0)
            & BitCards(!KREUZ_TEN.0)
        ,
        current_played_cards: (BitCard(0), BitCard(0)),
        current_player: Player::Two,
        current_suit: None,
        current_points_alone: 0,
    };
    assert_eq!(res_6.1.unwrap(), local_state_7);
    let res_7 = minimax(local_state_7, &global_state, 0, 120);
    let local_state_8 = LocalState {
        remaining_cards: BitCards(global_state.player_cards.0.0 | global_state.player_cards.1.0 | global_state.player_cards.2.0)
            & BitCards(!PIQUS_KING.0)
            & BitCards(!KREUZ_EIGHT.0)
            & BitCards(!PIQUS_EIGHT.0)
            & BitCards(!HEARTS_JACK.0)
            & BitCards(!KREUZ_SEVEN.0)
            & BitCards(!KREUZ_TEN.0)
            & BitCards(!KARO_NINE.0)
        ,
        current_played_cards: (KARO_NINE, BitCard(0)),
        current_player: Player::Three,
        current_suit: Some(calculate_current_suit_mask(KARO_NINE, &Variant::Clubs)),
        current_points_alone: 0,
    };
    assert_eq!(res_7.1.unwrap(), local_state_8);
    let res_8 = minimax(local_state_8, &global_state, 0, 120);
    let local_state_9 = LocalState {
        remaining_cards: BitCards(global_state.player_cards.0.0 | global_state.player_cards.1.0 | global_state.player_cards.2.0)
            & BitCards(!PIQUS_KING.0)
            & BitCards(!KREUZ_EIGHT.0)
            & BitCards(!PIQUS_EIGHT.0)
            & BitCards(!HEARTS_JACK.0)
            & BitCards(!KREUZ_SEVEN.0)
            & BitCards(!KREUZ_TEN.0)
            & BitCards(!KARO_NINE.0)
            & BitCards(!KARO_SEVEN.0)
        ,
        current_played_cards: (KARO_NINE, KARO_SEVEN),
        current_player: Player::One,
        current_suit: Some(calculate_current_suit_mask(KARO_NINE, &Variant::Clubs)),
        current_points_alone: 0,
    };
    assert_eq!(res_8.1.unwrap(), local_state_9);
    let res_9 = minimax(local_state_9, &global_state, 0, 120);
}

#[test]
fn minmax_paper_two() {
    let (player_1, player_2, player_3) = paper_two_hands();

    let all_cards = player_1 | player_2 | player_3;
    assert_eq!(all_cards.0.count_ones(), 27);
    assert_eq!(all_cards.get_cards_points(), 92);

    let global_state = GlobalState::new(
        (player_1, player_2, player_3),
        BitCards(0),
        Player::One,
        Variant::Clubs,
    ).unwrap();
    let local_state = LocalState {
        remaining_cards: all_cards,
        current_played_cards: (BitCard(0), BitCard(0)),
        current_player: Player::One,
        current_suit: None,
        current_points_alone: 0,
    };
    let result = minimax(local_state, &global_state, 0, 120);
    assert_eq!(result.0, 78)
}

#[test]
fn minmax_reversed_paper_example_two() {
    let (player_1, player_2, player_3) = paper_two_hands();
    let global_state = GlobalState::new(
        (player_1, player_2, player_3),
        BitCards(0),
        Player::One,
        Variant::Clubs,
    ).unwrap();

    let final_state = LocalState {
        remaining_cards: BitCards(0),
        current_played_cards: (BitCard(0), BitCard(0)),
        current_player: Player::One,
        current_suit: None,
        current_points_alone: 0,
    };
}

#[test]
fn alpha_beta_paper_one() {
    let (player_one, player_two, player_three) = paper_one_hands();
    let all_cards = player_one | player_two | player_three;

    let local_state = LocalState::new(all_cards, Player::One);
    let global_state = GlobalState::new((player_one, player_two, player_three), BitCards(0), Player::One, Variant::Clubs).unwrap();
    let result_alpha_beta = minimax(local_state, &global_state, 0, 120);
    assert_eq!(result_alpha_beta.0, 7)
}

#[test]
fn alpha_beta_paper_two() {
    let (player_1, player_2, player_3) = paper_two_hands();

    let all_cards = player_1 | player_2 | player_3;
    assert_eq!(all_cards.0.count_ones(), 27);
    assert_eq!(all_cards.get_cards_points(), 92);

    let global_state = GlobalState::new(
        (player_1, player_2, player_3),
        BitCards(0),
        Player::One,
        Variant::Clubs,
    ).unwrap();
    let local_state = LocalState::new(all_cards, Player::One);
    let result = minimax(local_state, &global_state, 0, 120);
    assert_eq!(result.0, 78)
}
