use war::card::{build_deck, card_new, display_card, face_of_rank, face_rank, Face, Suit};
use war::deck::{distribute, initial_cards, GameError};

#[test]
fn deck_has_52_distinct_cards() {
    let deck = build_deck();
    assert_eq!(deck.len(), 52);
    for i in 0..deck.len() {
        for j in 0..deck.len() {
            if i != j {
                let a = &deck[i];
                let b = &deck[j];
                assert!(a.suit != b.suit || a.face != b.face);
            }
        }
    }
}

#[test]
fn deck_ranks_are_derived_from_faces() {
    let deck = build_deck();
    for card in &deck {
        assert_eq!(card.rank, face_rank(card.face));
    }
    assert_eq!(face_rank(Face::Ace), 14);
    assert_eq!(face_rank(Face::Ten), 10);
    assert_eq!(face_rank(Face::Two), 2);
    assert_eq!(face_rank(Face::Jack), 11);
    assert_eq!(face_rank(Face::Queen), 12);
    assert_eq!(face_rank(Face::King), 13);
}

#[test]
fn face_of_rank_inverts_face_rank() {
    for r in 2u8..=14u8 {
        let f = face_of_rank(r).unwrap();
        assert_eq!(face_rank(f), r);
    }
    assert!(face_of_rank(0).is_none());
    assert!(face_of_rank(1).is_none());
    assert!(face_of_rank(15).is_none());
}

#[test]
fn display_names() {
    assert_eq!(
        display_card(&card_new(Suit::Hearts, Face::Jack)),
        "Jack of Hearts"
    );
    assert_eq!(display_card(&card_new(Suit::Clubs, Face::Ten)), "10 of Clubs");
    assert_eq!(display_card(&card_new(Suit::Spades, Face::Ace)), "Ace of Spades");
    assert_eq!(
        display_card(&card_new(Suit::Diamonds, Face::Two)),
        "2 of Diamonds"
    );
    assert_eq!(
        display_card(&card_new(Suit::Clubs, Face::Queen)),
        "Queen of Clubs"
    );
    assert_eq!(
        display_card(&card_new(Suit::Hearts, Face::King)),
        "King of Hearts"
    );
}

#[test]
fn shuffle_is_deterministic_for_a_fixed_seed() {
    let a = initial_cards(42);
    let b = initial_cards(42);
    assert_eq!(a, b);
    let ha = distribute(&a, 2).unwrap();
    let hb = distribute(&b, 2).unwrap();
    assert_eq!(ha, hb);
}

#[test]
fn shuffle_depends_on_the_seed() {
    // Statistical check: among a handful of seeds, at least one ordering
    // must differ from another, and from the unshuffled deck.
    let unshuffled = build_deck();
    let mut some_differ = false;
    let mut differs_from_unshuffled = false;
    for seed in 0u64..6u64 {
        let s = initial_cards(seed);
        if s != initial_cards(seed + 1) {
            some_differ = true;
        }
        if s != unshuffled {
            differs_from_unshuffled = true;
        }
    }
    assert!(some_differ);
    assert!(differs_from_unshuffled);
}

#[test]
fn distribute_deals_round_robin() {
    let deck = build_deck();
    let hands = distribute(&deck, 2).unwrap();
    assert_eq!(hands.len(), 2);
    assert_eq!(hands[0].len(), 26);
    assert_eq!(hands[1].len(), 26);
    for (j, card) in hands[0].iter().enumerate() {
        assert_eq!(*card, deck[2 * j]);
    }
    for (j, card) in hands[1].iter().enumerate() {
        assert_eq!(*card, deck[2 * j + 1]);
    }
}

#[test]
fn distribute_uneven_hands_are_expected() {
    let deck = build_deck();
    let hands = distribute(&deck, 3).unwrap();
    assert_eq!(hands.len(), 3);
    assert_eq!(hands[0].len(), 18);
    assert_eq!(hands[1].len(), 17);
    assert_eq!(hands[2].len(), 17);
    for (j, card) in hands[2].iter().enumerate() {
        assert_eq!(*card, deck[3 * j + 2]);
    }
}

#[test]
fn distribute_rejects_fewer_than_two_players() {
    let deck = build_deck();
    assert_eq!(distribute(&deck, 0).unwrap_err(), GameError::InvalidPlayerCount);
    assert_eq!(distribute(&deck, 1).unwrap_err(), GameError::InvalidPlayerCount);
}
