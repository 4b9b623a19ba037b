#![allow(dead_code, unused_variables)]
use skat_solver::bitboard;
use skat_solver::bitboard::{BitCard, BitCards, Variant};
use skat_solver::solver::{GlobalState, Player};
use skat_solver::solverv2::{minimax, minimax_v2, minimax_with_alpha_beta, LState};

const KREUZ_JACK: BitCard = BitCard(bitboard::KREUZ_JACK);
const PIQUS_JACK: BitCard = BitCard(bitboard::PIQUS_JACK);
const HEARTS_JACK: BitCard = BitCard(bitboard::HEARTS_JACK);
const KARO_JACK: BitCard = BitCard(bitboard::KARO_JACK);
const KREUZ_ASS: BitCard = BitCard(bitboard::KREUZ_ASS);
const KREUZ_TEN: BitCard = BitCard(bitboard::KREUZ_TEN);
const KREUZ_KING: BitCard = BitCard(bitboard::KREUZ_KING);
const KREUZ_QUEEN: BitCard = BitCard(bitboard::KREUZ_QUEEN);
const KREUZ_NINE: BitCard = BitCard(bitboard::KREUZ_NINE);
const KREUZ_EIGHT: BitCard = BitCard(bitboard::KREUZ_EIGHT);
const KREUZ_SEVEN: BitCard = BitCard(bitboard::KREUZ_SEVEN);
const PIQUS_ASS: BitCard = BitCard(bitboard::PIQUS_ASS);
const PIQUS_TEN: BitCard = BitCard(bitboard::PIQUS_TEN);
const PIQUS_KING: BitCard = BitCard(bitboard::PIQUS_KING);
const PIQUS_QUEEN: BitCard = BitCard(bitboard::PIQUS_QUEEN);
const PIQUS_NINE: BitCard = BitCard(bitboard::PIQUS_NINE);
const PIQUS_EIGHT: BitCard = BitCard(bitboard::PIQUS_EIGHT);
const PIQUS_SEVEN: BitCard = BitCard(bitboard::PIQUS_SEVEN);
const HEARTS_ASS: BitCard = BitCard(bitboard::HEARTS_ASS);
const HEARTS_TEN: BitCard = BitCard(bitboard::HEARTS_TEN);
const HEARTS_KING: BitCard = BitCard(bitboard::HEARTS_KING);
const HEARTS_QUEEN: BitCard = BitCard(bitboard::HEARTS_QUEEN);
const HEARTS_NINE: BitCard = BitCard(bitboard::HEARTS_NINE);
const HEARTS_EIGHT: BitCard = BitCard(bitboard::HEARTS_EIGHT);
const HEARTS_SEVEN: BitCard = BitCard(bitboard::HEARTS_SEVEN);
const KARO_ASS: BitCard = BitCard(bitboard::KARO_ASS);
const KARO_TEN: BitCard = BitCard(bitboard::KARO_TEN);
const KARO_KING: BitCard = BitCard(bitboard::KARO_KING);
const KARO_QUEEN: BitCard = BitCard(bitboard::KARO_QUEEN);
const KARO_NINE: BitCard = BitCard(bitboard::KARO_NINE);
const KARO_EIGHT: BitCard = BitCard(bitboard::KARO_EIGHT);
const KARO_SEVEN: BitCard = BitCard(bitboard::KARO_SEVEN);

const EMPTY_CARD: BitCard = BitCard(0);

fn paper_one_hands() -> (BitCards, BitCards, BitCards) {
    let player_one = KREUZ_JACK | KREUZ_TEN | HEARTS_TEN | HEARTS_KING | HEARTS_EIGHT | PIQUS_KING | PIQUS_SEVEN;
    let player_two = PIQUS_JACK | HEARTS_JACK | KREUZ_EIGHT | KARO_ASS | KARO_TEN | KARO_QUEEN | KARO_NINE;
    let player_three = KREUZ_QUEEN | KREUZ_SEVEN | HEARTS_ASS | HEARTS_SEVEN | PIQUS_NINE | PIQUS_EIGHT | KARO_SEVEN;
    (player_one, player_two, player_three)
}

fn paper_two_hands() -> (BitCards, BitCards, BitCards) {
    let player_1 =
        BitCards(
            KREUZ_SEVEN.0 | KREUZ_EIGHT.0 | KREUZ_QUEEN.0 | KREUZ_KING.0 | KREUZ_ASS.0 |
                KARO_SEVEN.0 | KARO_TEN.0 | KARO_ASS.0 | PIQUS_ASS.0);
    let player_2 =
        BitCards(
            HEARTS_JACK.0 | KARO_EIGHT.0 | KARO_NINE.0 | KARO_QUEEN.0 | PIQUS_NINE.0 |
                HEARTS_SEVEN.0 | HEARTS_EIGHT.0 | HEARTS_NINE.0 | HEARTS_QUEEN.0);
    let player_3 =
        BitCards(
            KARO_JACK.0 | KREUZ_NINE.0 | HEARTS_ASS.0 | PIQUS_SEVEN.0 | PIQUS_EIGHT.0 |
                PIQUS_QUEEN.0 | PIQUS_KING.0 | PIQUS_TEN.0 | KARO_KING.0);
    (player_1, player_2, player_3)
}

#[test]
fn minmax_v2_paper_one() {
    let player_one = KREUZ_JACK | KREUZ_TEN
        | HEARTS_TEN | HEARTS_KING | HEARTS_EIGHT | PIQUS_KING | PIQUS_SEVEN;
    let player_two = PIQUS_JACK | HEARTS_JACK | KREUZ_EIGHT | KARO_ASS | KARO_TEN | KARO_QUEEN | KARO_NINE;
    let player_three = KREUZ_QUEEN | KREUZ_SEVEN | HEARTS_ASS | HEARTS_SEVEN | PIQUS_NINE | PIQUS_EIGHT | KARO_SEVEN;
    let all_cards = player_one | player_two | player_three;
    assert_eq!(all_cards.0.count_ones(), 21);
    assert_eq!(player_one & player_two & player_three, BitCards(0));

    let global_state = GlobalState::new(
        (player_one, player_two, player_three),
        BitCards(0),
        Player::One,
        Variant::Clubs,
    ).unwrap();

    let local_state = LState {
        remaining_cards: all_cards,
        current_played_cards: (EMPTY_CARD, EMPTY_CARD),
        current_player: Player::One,
        current_suit: None,
        achieved_points: 0,
    };

    let result = minimax_with_alpha_beta(local_state, &global_state, 0, 120);
    assert_eq!(result.0, 7);
}

#[test]
fn minmax_v2_paper_two() {
    let (player_1, player_2, player_3) = paper_two_hands();

    let all_cards = player_1 | player_2 | player_3;
    assert_eq!(all_cards.0.count_ones(), 27);
    assert_eq!(all_cards.get_cards_points(), 92);

    let global_state = GlobalState::new(
        (player_1, player_2, player_3),
        BitCards(0),
        Player::One,
        Variant::Clubs,
    ).unwrap();
    let local_state = LState {
        remaining_cards: all_cards,
        current_played_cards: (EMPTY_CARD, EMPTY_CARD),
        current_player: Player::One,
        current_suit: None,
        achieved_points: 0,
    };
    let result = minimax_with_alpha_beta(local_state, &global_state, 0, 120);
    assert_eq!(result.0, 78)
}

#[test]
fn minmax_v2_very_small() {
    let player1 = BitCards(KREUZ_JACK.0);
    let player2 = BitCards(HEARTS_EIGHT.0);
    let player3 = BitCards(HEARTS_QUEEN.0);

    let all = player1 | player2 | player3;
    let global_state = GlobalState::new(
        (player1, player2, player3),
        BitCards(0),
        Player::One,
        Variant::Clubs,
    ).unwrap();
    let local_state = LState {
        remaining_cards: all,
        current_played_cards: (EMPTY_CARD, EMPTY_CARD),
        current_player: Player::One,
        current_suit: None,
        achieved_points: 0,
    };

    let player1 = KREUZ_JACK | KREUZ_TEN;
    let player2 = HEARTS_JACK | PIQUS_JACK;
    let player3 = KREUZ_QUEEN | KREUZ_SEVEN;

    let global_state = GlobalState::new(
        (player1, player2, player3),
        BitCards(0),
        Player::One,
        Variant::Clubs,
    ).unwrap();

    let local_state = LState {
        remaining_cards: player1 | player2 | player3,
        current_played_cards: (EMPTY_CARD, EMPTY_CARD),
        current_player: Player::One,
        current_suit: None,
        achieved_points: 0,
    };

    let result_normal = minimax(local_state, &global_state);
    let result = minimax_with_alpha_beta(local_state, &global_state, 0, 120);
    assert_eq!(result_normal.0, 4);
    assert_eq!(result.0, 4);
}

#[test]
fn all_three_searches_agree() {
    let hands = (
        KREUZ_JACK | KREUZ_TEN | HEARTS_ASS,
        PIQUS_JACK | HEARTS_JACK | HEARTS_TEN,
        KREUZ_QUEEN | KREUZ_SEVEN | KARO_ASS,
    );
    for alone in [Player::One, Player::Two, Player::Three] {
        for to_move in [Player::One, Player::Two, Player::Three] {
            for variant in [Variant::Grand, Variant::Clubs, Variant::Hearts] {
                let global_state = GlobalState::new(hands, BitCards(0), alone, variant).unwrap();
                let local_state = LState {
                    remaining_cards: hands.0 | hands.1 | hands.2,
                    current_played_cards: (EMPTY_CARD, EMPTY_CARD),
                    current_player: to_move,
                    current_suit: None,
                    achieved_points: 0,
                };
                let plain = minimax(local_state, &global_state);
                let with_window = minimax_with_alpha_beta(local_state, &global_state, 0, 120);
                let soft = minimax_v2(local_state, &global_state, 0, 120);
                assert_eq!(with_window.0, plain.0 as i8);
                assert_eq!(soft.0, plain.0 as i8);
                // from the lowest card up, both name the same first best move
                match (plain.1, soft.1) {
                    (Some(a), Some(b)) => {
                        assert_eq!(a.remaining_cards, b.remaining_cards);
                        assert_eq!(a.achieved_points, b.achieved_points);
                    }
                    (None, None) => {}
                    _ => panic!("one search names a move and the other none"),
                }
            }
        }
    }
}

#[test]
fn points_of_the_move_before_are_counted_by_the_plain_search() {
    let hands = (KREUZ_JACK | KREUZ_TEN, PIQUS_JACK | HEARTS_JACK, KREUZ_QUEEN | KREUZ_SEVEN);
    let global_state = GlobalState::new(hands, BitCards(0), Player::One, Variant::Clubs).unwrap();
    let local_state = LState {
        remaining_cards: hands.0 | hands.1 | hands.2,
        current_played_cards: (EMPTY_CARD, EMPTY_CARD),
        current_player: Player::One,
        current_suit: None,
        achieved_points: 10,
    };
    assert_eq!(minimax(local_state, &global_state).0, 14);
    assert_eq!(minimax_v2(local_state, &global_state, 0, 120).0, 4);
    // windows that miss the value
    assert!(minimax_v2(local_state, &global_state, 5, 9).0 <= 5);
    assert!(minimax_v2(local_state, &global_state, 0, 3).0 >= 3);
    let done = LState { remaining_cards: BitCards(0), ..local_state };
    assert_eq!(minimax(done, &global_state).0, 10);
    assert!(minimax(done, &global_state).1.is_none());
    assert_eq!(minimax_v2(done, &global_state, 0, 120).0, 0);
}
