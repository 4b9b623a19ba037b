#![allow(dead_code, unused_variables, unused_mut)]
use skat_solver::bitboard::Variant;
use skat_solver::cards::{can_be_placed, determine_who_won_round, Card, Rank, Suit};

#[test]
fn determine_winner_hearts() {
    let variant: Variant = Variant::Hearts;
    let mut checksum = 0_u32;
    // game 1
    let card1 = Card { suit: Suit::Karo, rank: Rank::Ace };
    let card2 = Card { suit: Suit::Karo, rank: Rank::Seven };
    let card3 = Card { suit: Suit::Heart, rank: Rank::Ten };
    let (winner, points) = determine_who_won_round(&card1, &card2, &card3, &variant);
    checksum += points;
    assert_eq!(checksum, 21);
    assert_eq!(winner, 2);
    // game 2
    let card4 = Card { suit: Suit::Piqus, rank: Rank::Ace };
    let card5 = Card { suit: Suit::Piqus, rank: Rank::Seven };
    let card6 = Card { suit: Suit::Piqus, rank: Rank::Ten };
    let (winner, points) = determine_who_won_round(&card4, &card5, &card6, &variant);
    checksum += points;
    assert_eq!(checksum, 42);
    assert_eq!(winner, 0);
    // game 3
    let card7 = Card { suit: Suit::Piqus, rank: Rank::Jack };
    let card8 = Card { suit: Suit::Heart, rank: Rank::Ace };
    let card9 = Card { suit: Suit::Kreuz, rank: Rank::Jack };
    let (winner, points) = determine_who_won_round(&card7, &card8, &card9, &variant);
    checksum += points;
    assert_eq!(winner, 2);
    assert_eq!(checksum, 57);
    // game 4
    let card10 = Card { suit: Suit::Karo, rank: Rank::Nine };
    let card11 = Card { suit: Suit::Heart, rank: Rank::Eight };
    let card12 = Card { suit: Suit::Karo, rank: Rank::Queen };
    let (winner, points) = determine_who_won_round(&card10, &card11, &card12, &variant);
    checksum += points;
    assert_eq!(checksum, 60);
    assert_eq!(winner, 1);
    // game 5
    let card13 = Card { suit: Suit::Piqus, rank: Rank::Queen };
    let card14 = Card { suit: Suit::Piqus, rank: Rank::Nine };
    let card15 = Card { suit: Suit::Heart, rank: Rank::Nine };
    let (winner, points) = determine_who_won_round(&card13, &card14, &card15, &variant);
    checksum += points;
    assert_eq!(checksum, 63);
    assert_eq!(winner, 2);
    // game 6
    let card16 = Card { suit: Suit::Karo, rank: Rank::King };
    let card17 = Card { suit: Suit::Heart, rank: Rank::Queen };
    let card18 = Card { suit: Suit::Karo, rank: Rank::Ten };
    let (winner, points) = determine_who_won_round(&card16, &card17, &card18, &variant);
    checksum += points;
    assert_eq!(checksum, 80);
    assert_eq!(winner, 1);
    // game 7
    let card19 = Card { suit: Suit::Piqus, rank: Rank::King };
    let card20 = Card { suit: Suit::Kreuz, rank: Rank::Ace };
    let card21 = Card { suit: Suit::Heart, rank: Rank::Seven };
    let (winner, points) = determine_who_won_round(&card19, &card20, &card21, &variant);
    checksum += points;
    assert_eq!(checksum, 95);
    assert_eq!(winner, 2);
    // game 8
    let card22 = Card { suit: Suit::Kreuz, rank: Rank::Queen };
    let card23 = Card { suit: Suit::Heart, rank: Rank::King };
    let card24 = Card { suit: Suit::Kreuz, rank: Rank::Nine };
    let (winner, points) = determine_who_won_round(&card22, &card23, &card24, &variant);
    checksum += points;
    assert_eq!(checksum, 102);
    assert_eq!(winner, 1);
    // game 9
    let card25 = Card { suit: Suit::Piqus, rank: Rank::Eight };
    let card26 = Card { suit: Suit::Kreuz, rank: Rank::Ten };
    let card27 = Card { suit: Suit::Kreuz, rank: Rank::Seven };
    let (winner, points) = determine_who_won_round(&card25, &card26, &card27, &variant);
    checksum += points;
    assert_eq!(checksum, 112);
    assert_eq!(winner, 0);

    // game 10
    let card28 = Card { suit: Suit::Karo, rank: Rank::Jack };
    let card29 = Card { suit: Suit::Heart, rank: Rank::Jack };
    let card30 = Card { suit: Suit::Kreuz, rank: Rank::King };
    let (winner, points) = determine_who_won_round(&card28, &card29, &card30, &variant);
    checksum += points;
    assert_eq!(checksum, 120);
    assert_eq!(winner, 1);

    let card31 = Card { suit: Suit::Karo, rank: Rank::Eight };
    let card32 = Card { suit: Suit::Kreuz, rank: Rank::Eight };
    checksum += card31.rank.value() + card32.rank.value();
    assert_eq!(checksum, 120);
}

#[test]
fn determine_winner_null() {
    let variant: Variant = Variant::Null;
    // game 1
    let card1 = Card { suit: Suit::Karo, rank: Rank::Jack };
    let card2 = Card { suit: Suit::Karo, rank: Rank::Ace  };
    let card3 = Card { suit: Suit::Heart, rank: Rank::Nine };
    let (winner, _) = determine_who_won_round(&card1, &card2, &card3, &variant);
    assert_eq!(winner, 1);

    // game 2
    let card4 = Card { suit: Suit::Piqus, rank: Rank::Seven };
    let card5 = Card { suit: Suit::Piqus, rank: Rank::Eight };
    let card6 = Card { suit: Suit::Piqus, rank: Rank::Ace };
    let (winner, _) = determine_who_won_round(&card4, &card5, &card6, &variant);
    assert_eq!(winner, 2);

    // game 3
    let card7 = Card { suit: Suit::Kreuz, rank: Rank::Jack };
    let card8 = Card { suit: Suit::Kreuz, rank: Rank::King };
    let card9 = Card { suit: Suit::Kreuz, rank: Rank::Seven };
    let (winner, _) = determine_who_won_round(&card7, &card8, &card9, &variant);
    assert_eq!(winner, 1);

    // game 4
    let card10 = Card { suit: Suit::Kreuz, rank: Rank::Nine };
    let card11 = Card { suit: Suit::Heart, rank: Rank::Jack };
    let card12 = Card { suit: Suit::Kreuz, rank: Rank::Eight };
    let (winner, _) = determine_who_won_round(&card10, &card11, &card12, &variant);
    assert_eq!(winner, 0);

    // game 5
    let card13 = Card { suit: Suit::Piqus, rank: Rank::Nine };
    let card14 = Card { suit: Suit::Heart, rank: Rank::Ten };
    let card15 = Card { suit: Suit::Piqus, rank: Rank::Queen };
    let (winner, _) = determine_who_won_round(&card13, &card14, &card15, &variant);
    assert_eq!(winner, 2);

    // game 6
    let card16 = Card { suit: Suit::Heart, rank: Rank::Queen };
    let card17 = Card { suit: Suit::Heart, rank: Rank::Seven };
    let card18 = Card { suit: Suit::Heart, rank: Rank::Eight };
    let (winner, _) = determine_who_won_round(&card16, &card17, &card18, &variant);
    assert_eq!(winner, 0);

}

#[test]
fn determine_winner_grand() {
    let variant: Variant = Variant::Grand;
    let mut checksum = 0_u32;
    // game 1
    let card1 = Card { suit: Suit::Piqus, rank: Rank::Seven };
    let card2 = Card { suit: Suit::Piqus, rank: Rank::Queen };
    let card3 = Card { suit: Suit::Piqus, rank: Rank::Ace };
    let (winner, points) = determine_who_won_round(&card1, &card2, &card3, &variant);
    checksum += points;
    assert_eq!(checksum, 14);
    assert_eq!(winner, 2);
    // game 2
    let card4 = Card { suit: Suit::Kreuz, rank: Rank::Ace };
    let card5 = Card { suit: Suit::Kreuz, rank: Rank::Seven };
    let card6 = Card { suit: Suit::Kreuz, rank: Rank::King };
    let (winner, points) = determine_who_won_round(&card4, &card5, &card6, &variant);
    checksum += points;
    assert_eq!(checksum, 29);
    assert_eq!(winner, 0);
    // game 3
    let card7 = Card { suit: Suit::Heart, rank: Rank::Ace };
    let card8 = Card { suit: Suit::Heart, rank: Rank::Queen };
    let card9 = Card { suit: Suit::Heart, rank: Rank::Eight };
    let (winner, points) = determine_who_won_round(&card7, &card8, &card9, &variant);
    checksum += points;
    assert_eq!(winner, 0);
    assert_eq!(checksum, 43);
    // game 4
    let card10 = Card { suit: Suit::Karo, rank: Rank::Ace };
    let card11 = Card { suit: Suit::Karo, rank: Rank::Eight };
    let card12 = Card { suit: Suit::Karo, rank: Rank::Seven };
    let (winner, points) = determine_who_won_round(&card10, &card11, &card12, &variant);
    checksum += points;
    assert_eq!(checksum, 54);
    assert_eq!(winner, 0);
    // game 5
    let card13 = Card { suit: Suit::Piqus, rank: Rank::Ten };
    let card14 = Card { suit: Suit::Piqus, rank: Rank::Jack };
    let card15 = Card { suit: Suit::Piqus, rank: Rank::Eight };
    let (winner, points) = determine_who_won_round(&card13, &card14, &card15, &variant);
    checksum += points;
    assert_eq!(checksum, 66);
    assert_eq!(winner, 1);
    // game 6
    let card16 = Card { suit: Suit::Kreuz, rank: Rank::Eight };
    let card17 = Card { suit: Suit::Heart, rank: Rank::Jack };
    let card18 = Card { suit: Suit::Kreuz, rank: Rank::Queen };
    let (winner, points) = determine_who_won_round(&card16, &card17, &card18, &variant);
    checksum += points;
    assert_eq!(checksum, 71);
    assert_eq!(winner, 1);
    // game 7
    let card19 = Card { suit: Suit::Piqus, rank: Rank::King };
    let card20 = Card { suit: Suit::Karo, rank: Rank::Jack };
    let card21 = Card { suit: Suit::Karo, rank: Rank::Nine };
    let (winner, points) = determine_who_won_round(&card19, &card20, &card21, &variant);
    checksum += points;
    assert_eq!(checksum, 77);
    assert_eq!(winner, 1);
    // game 8
    let card22 = Card { suit: Suit::Kreuz, rank: Rank::Ten };
    let card23 = Card { suit: Suit::Kreuz, rank: Rank::Nine };
    let card24 = Card { suit: Suit::Heart, rank: Rank::Nine };
    let (winner, points) = determine_who_won_round(&card22, &card23, &card24, &variant);
    checksum += points;
    assert_eq!(checksum, 87);
    assert_eq!(winner, 0);
    // game 9
    let card25 = Card { suit: Suit::Karo, rank: Rank::Queen };
    let card26 = Card { suit: Suit::Kreuz, rank: Rank::Jack };
    let card27 = Card { suit: Suit::Karo, rank: Rank::King };
    let (winner, points) = determine_who_won_round(&card25, &card26, &card27, &variant);
    checksum += points;
    assert_eq!(checksum, 96);
    assert_eq!(winner, 1);

    // game 10
    let card28 = Card { suit: Suit::Heart, rank: Rank::King };
    let card29 = Card { suit: Suit::Piqus, rank: Rank::Nine };
    let card30 = Card { suit: Suit::Heart, rank: Rank::Seven };
    let (winner, points) = determine_who_won_round(&card28, &card29, &card30, &variant);
    checksum += points;
    assert_eq!(checksum, 100);
    assert_eq!(winner, 0);

    let card31 = Card { suit: Suit::Karo, rank: Rank::Ten };
    let card32 = Card { suit: Suit::Heart, rank: Rank::Ten };
    checksum += card31.rank.value() + card32.rank.value();
    assert_eq!(checksum, 120);

}

#[test]
fn can_be_placed_hearts() {
    let variant: Variant = Variant::Hearts;
    let mut cards1 = vec![
        Card { suit: Suit::Heart, rank: Rank::Jack },
        Card { suit: Suit::Heart, rank: Rank::Ace },
        Card { suit: Suit::Kreuz, rank: Rank::Ace },
        Card { suit: Suit::Kreuz, rank: Rank::Ten  },
        Card { suit: Suit::Kreuz, rank: Rank::Nine },
        Card { suit: Suit::Piqus, rank: Rank::Nine },
        Card { suit: Suit::Piqus, rank: Rank::Seven },
        Card { suit: Suit::Karo, rank: Rank::Ace },
        Card { suit: Suit::Karo, rank: Rank::Ten },
        Card { suit: Suit::Karo, rank: Rank::Queen },
    ];
    let mut cards2 = vec![
        Card { suit: Suit::Kreuz, rank: Rank::Jack },
        Card { suit: Suit::Heart, rank: Rank::Nine },
        Card { suit: Suit::Heart, rank: Rank::Seven },
        Card { suit: Suit::Kreuz, rank: Rank::King  },
        Card { suit: Suit::Kreuz, rank: Rank::Queen },
        Card { suit: Suit::Kreuz, rank: Rank::Seven },
        Card { suit: Suit::Piqus, rank: Rank::Ten },
        Card { suit: Suit::Karo, rank: Rank::King },
        Card { suit: Suit::Karo, rank: Rank::Nine },
        Card { suit: Suit::Karo, rank: Rank::Seven },
    ];
    let mut cards3 = vec![
        Card { suit: Suit::Piqus, rank: Rank::Jack },
        Card { suit: Suit::Karo, rank: Rank::Jack },
        Card { suit: Suit::Heart, rank: Rank::Ten },
        Card { suit: Suit::Heart, rank: Rank::King },
        Card { suit: Suit::Heart, rank: Rank::Queen },
        Card { suit: Suit::Heart, rank: Rank::Eight },
        Card { suit: Suit::Piqus, rank: Rank::Ace },
        Card { suit: Suit::Piqus, rank: Rank::King },
        Card { suit: Suit::Piqus, rank: Rank::Queen },
        Card { suit: Suit::Piqus, rank: Rank::Eight },
    ];
    let playable = can_be_placed(&cards1[7], &cards2, &variant);
    assert_eq!(playable.len(), 3);
    let playable = can_be_placed(&cards1[7], &cards3, &variant);
    assert_eq!(playable.len(), 10);
    cards1.remove(7);
    cards2.remove(9);
    cards3.remove(2);
    let playable = can_be_placed(&cards3[5], &cards1, &variant);
    assert_eq!(playable.len(), 2);
    let playable = can_be_placed(&cards3[5], &cards2, &variant);
    assert_eq!(playable.len(), 1);

}

#[test]
fn simulate_game() {

}

#[test]
fn jack_follows_no_plain_suit_in_grand() {
    let grand = Variant::Grand;
    let led = Card { suit: Suit::Kreuz, rank: Rank::Ace };
    let hand = vec![
        Card { suit: Suit::Kreuz, rank: Rank::Jack },
        Card { suit: Suit::Piqus, rank: Rank::Seven },
    ];
    // the jack is a trump: nothing follows, both cards may be played
    let playable = can_be_placed(&led, &hand, &grand);
    assert_eq!(playable.len(), 2);
    let hand = vec![
        Card { suit: Suit::Kreuz, rank: Rank::Jack },
        Card { suit: Suit::Kreuz, rank: Rank::Seven },
        Card { suit: Suit::Piqus, rank: Rank::Seven },
    ];
    let playable = can_be_placed(&led, &hand, &grand);
    assert_eq!(playable.len(), 1);
    assert_eq!(*playable[0], Card { suit: Suit::Kreuz, rank: Rank::Seven });
    // a jack led asks for jacks
    let jack = Card { suit: Suit::Heart, rank: Rank::Jack };
    let playable = can_be_placed(&jack, &hand, &grand);
    assert_eq!(playable.len(), 1);
    assert_eq!(*playable[0], Card { suit: Suit::Kreuz, rank: Rank::Jack });
    // in a Null game the jack is a card of its suit
    let playable = can_be_placed(&led, &hand, &Variant::Null);
    assert_eq!(playable.len(), 2);
    // nothing to play from an empty hand
    assert!(can_be_placed(&led, &[], &grand).is_empty());
}
