use war::card::{card_new, Face, Suit};
use war::deck::GameError;
use war::game::{status_string, Game, PlayerState, RoundState, Status};

fn player(hand: Vec<war::card::Card>, in_play: Vec<war::card::Card>) -> PlayerState {
    PlayerState { hand, in_play }
}

#[test]
fn new_game_starts_at_begin() {
    let g = Game::new(2).unwrap();
    assert_eq!(g.current_state(), RoundState::Begin);
    assert_eq!(g.num_players(), 2);
    assert_eq!(g.hand_size(0), 0);
    assert_eq!(g.hand_size(1), 0);
    assert_eq!(g.pot_size(), 0);
    assert_eq!(g.current_status_text(), "");
}

#[test]
fn new_game_rejects_fewer_than_two_players() {
    match Game::new(0) {
        Err(e) => assert_eq!(e, GameError::InvalidPlayerCount),
        Ok(_) => panic!("a game of zero players was accepted"),
    }
    match Game::new(1) {
        Err(e) => assert_eq!(e, GameError::InvalidPlayerCount),
        Ok(_) => panic!("a game of one player was accepted"),
    }
}

#[test]
fn first_advance_deals_the_deck() {
    let mut g = Game::new(2).unwrap();
    let s = g.advance(7);
    assert_eq!(s, RoundState::GameStart);
    assert_eq!(g.hand_size(0), 26);
    assert_eq!(g.hand_size(1), 26);
    assert_eq!(g.pot_size(), 0);
    assert!(g.revealed_card(0).is_none());
    assert!(g.revealed_card(1).is_none());
}

#[test]
fn resolution_two_players() {
    // In-play cards of rank 10 for player 1 and rank 13 for player 2:
    // resolution must crown player 2, empty the pot, and grow player 2's
    // hand by exactly the two revealed cards.
    let mut g = Game {
        players: vec![
            player(vec![], vec![card_new(Suit::Hearts, Face::Ten)]),
            player(vec![], vec![card_new(Suit::Spades, Face::King)]),
        ],
        pot: vec![],
        state: RoundState::Draw,
        status: Status::Empty,
    };
    let s = g.advance(3);
    assert_eq!(s, RoundState::Outcome);
    assert_eq!(g.current_status_text(), "Player 2 win!");
    assert_eq!(g.pot_size(), 0);
    assert_eq!(g.hand_size(0), 0);
    assert_eq!(g.hand_size(1), 2);
    assert!(g.revealed_card(0).is_none());
    assert!(g.revealed_card(1).is_none());
}

#[test]
fn tied_round_is_a_draw() {
    let mut g = Game {
        players: vec![
            player(vec![], vec![card_new(Suit::Hearts, Face::Nine)]),
            player(vec![], vec![card_new(Suit::Clubs, Face::Nine)]),
        ],
        pot: vec![],
        state: RoundState::Draw,
        status: Status::Empty,
    };
    g.advance(3);
    assert_eq!(g.current_status_text(), "Draw!");
    assert_eq!(g.pot_size(), 2);
    assert_eq!(g.hand_size(0), 0);
    assert_eq!(g.hand_size(1), 0);
}

#[test]
fn later_higher_card_beats_an_earlier_tie() {
    // Two players tie at nine while a third reveals a queen: the round is
    // decisive for the third player.
    let mut g = Game {
        players: vec![
            player(vec![], vec![card_new(Suit::Hearts, Face::Nine)]),
            player(vec![], vec![card_new(Suit::Clubs, Face::Nine)]),
            player(vec![], vec![card_new(Suit::Spades, Face::Queen)]),
        ],
        pot: vec![],
        state: RoundState::Draw,
        status: Status::Empty,
    };
    g.advance(11);
    assert_eq!(g.current_status_text(), "Player 3 win!");
    assert_eq!(g.pot_size(), 0);
    assert_eq!(g.hand_size(2), 3);
}

#[test]
fn draw_accumulation() {
    // Three consecutive tied rounds: the pot must grow and lose nothing,
    // then transfer in full to the first decisive winner.
    let mut g = Game {
        players: vec![
            player(
                vec![
                    card_new(Suit::Hearts, Face::Jack),
                    card_new(Suit::Hearts, Face::Nine),
                    card_new(Suit::Hearts, Face::Ace),
                ],
                vec![card_new(Suit::Hearts, Face::Ten)],
            ),
            player(
                vec![
                    card_new(Suit::Diamonds, Face::Jack),
                    card_new(Suit::Diamonds, Face::Nine),
                    card_new(Suit::Diamonds, Face::King),
                ],
                vec![card_new(Suit::Diamonds, Face::Ten)],
            ),
        ],
        pot: vec![],
        state: RoundState::Draw,
        status: Status::Empty,
    };
    g.advance(1); // tie at ten
    assert_eq!(g.current_status_text(), "Draw!");
    assert_eq!(g.pot_size(), 2);
    g.advance(2); // reveal jacks
    g.advance(3); // tie at jack
    assert_eq!(g.current_status_text(), "Draw!");
    assert_eq!(g.pot_size(), 4);
    g.advance(4); // reveal nines
    g.advance(5); // tie at nine
    assert_eq!(g.current_status_text(), "Draw!");
    assert_eq!(g.pot_size(), 6);
    g.advance(6); // reveal ace and king
    g.advance(7); // decisive: player 1 claims the whole pot
    assert_eq!(g.current_status_text(), "Player 1 win!");
    assert_eq!(g.pot_size(), 0);
    assert_eq!(g.hand_size(0), 8);
    assert_eq!(g.hand_size(1), 0);
}

#[test]
fn end_detection_two_players() {
    // The game goes to GameOver exactly when one hand becomes empty, not
    // before.
    let mut g = Game {
        players: vec![
            player(vec![card_new(Suit::Spades, Face::Ace)], vec![]),
            player(vec![card_new(Suit::Spades, Face::King)], vec![]),
        ],
        pot: vec![],
        state: RoundState::GameStart,
        status: Status::Empty,
    };
    assert_eq!(g.advance(1), RoundState::Draw);
    assert_eq!(g.advance(2), RoundState::Outcome);
    assert_eq!(g.current_status_text(), "Player 1 win!");
    // Player 2's hand is now empty, so the next advance must end the game.
    assert_eq!(g.advance(3), RoundState::GameOver);
    assert_eq!(g.current_status_text(), "Player 1 wins! Play again?");
    assert_eq!(g.ranking(), vec![0]);
}

#[test]
fn ranking_is_empty_when_every_hand_is_empty() {
    // A degenerate finished game: the last cards went to the pot on a final
    // draw, no hand holds anything, and no winner is announced.
    let g = Game {
        players: vec![player(vec![], vec![]), player(vec![], vec![])],
        pot: vec![card_new(Suit::Hearts, Face::Two), card_new(Suit::Clubs, Face::Two)],
        state: RoundState::GameOver,
        status: Status::Draw,
    };
    assert_eq!(g.ranking(), Vec::<usize>::new());
}

#[test]
fn no_game_over_while_both_players_hold_cards() {
    let mut g = Game {
        players: vec![
            player(
                vec![card_new(Suit::Spades, Face::Ace), card_new(Suit::Hearts, Face::Two)],
                vec![],
            ),
            player(
                vec![card_new(Suit::Spades, Face::King), card_new(Suit::Clubs, Face::Three)],
                vec![],
            ),
        ],
        pot: vec![],
        state: RoundState::GameStart,
        status: Status::Empty,
    };
    g.advance(1); // reveal ace and king
    g.advance(2); // player 1 wins the round; both hands still non-empty
    assert_eq!(g.advance(3), RoundState::Draw); // not GameOver
}

#[test]
fn restart_after_game_over_deals_again() {
    let mut g = Game {
        players: vec![
            player(vec![card_new(Suit::Spades, Face::Ace)], vec![]),
            player(vec![], vec![]),
        ],
        pot: vec![],
        state: RoundState::GameOver,
        status: Status::Empty,
    };
    assert_eq!(g.advance(9), RoundState::GameStart);
    assert_eq!(g.hand_size(0) + g.hand_size(1), 52);
    assert_eq!(g.pot_size(), 0);
}

#[test]
fn reveal_top_moves_the_top_card() {
    let mut p = player(
        vec![card_new(Suit::Hearts, Face::Ace), card_new(Suit::Hearts, Face::Two)],
        vec![],
    );
    let c = p.reveal_top().unwrap();
    assert_eq!(c, card_new(Suit::Hearts, Face::Ace));
    assert_eq!(p.hand, vec![card_new(Suit::Hearts, Face::Two)]);
    assert_eq!(p.in_play, vec![card_new(Suit::Hearts, Face::Ace)]);
}

#[test]
fn reveal_top_of_an_empty_hand_is_a_no_op() {
    let mut p = player(vec![], vec![]);
    assert!(p.reveal_top().is_none());
    assert!(p.hand.is_empty());
    assert!(p.in_play.is_empty());
}

#[test]
fn clear_and_append_to_hand() {
    let mut p = player(vec![card_new(Suit::Clubs, Face::Five)], vec![]);
    p.clear_hand();
    assert!(p.hand.is_empty());
    let mut won = vec![
        card_new(Suit::Clubs, Face::Six),
        card_new(Suit::Spades, Face::Seven),
    ];
    p.append_to_hand(&mut won);
    assert!(won.is_empty());
    assert_eq!(p.hand.len(), 2);
    assert_eq!(p.hand[0], card_new(Suit::Clubs, Face::Six));
}

#[test]
fn status_text_values() {
    assert_eq!(status_string(&Status::Empty), "");
    assert_eq!(status_string(&Status::Draw), "Draw!");
    assert_eq!(status_string(&Status::RoundWin(2)), "Player 2 win!");
    assert_eq!(status_string(&Status::RoundWin(12)), "Player 12 win!");
    assert_eq!(status_string(&Status::GameWin(3)), "Player 3 wins! Play again?");
    assert_eq!(
        status_string(&Status::GameWin(107)),
        "Player 107 wins! Play again?"
    );
}

fn total_cards_on_table(g: &Game) -> usize {
    let mut total = g.pot_size();
    for p in 0..g.num_players() {
        total += g.hand_size(p);
        if g.revealed_card(p).is_some() {
            total += 1;
        }
    }
    total
}

#[test]
fn simulated_games_conserve_cards_and_terminate() {
    // Soak test: from a fresh deal the game always reaches GameOver in a
    // finite number of rounds, and the 52-card population is conserved at
    // every step.
    for base in [1u64, 99u64, 424242u64] {
        let mut g = Game::new(2).unwrap();
        let mut seed = base;
        assert_eq!(g.advance(seed), RoundState::GameStart);
        assert_eq!(total_cards_on_table(&g), 52);
        let mut reached_game_over = false;
        for _ in 0..200_000u64 {
            seed = seed.wrapping_mul(6364136223846793005).wrapping_add(1442695040888963407);
            let s = g.advance(seed);
            assert_eq!(total_cards_on_table(&g), 52);
            if s == RoundState::GameOver {
                reached_game_over = true;
                break;
            }
        }
        assert!(reached_game_over);
    }
}

#[test]
fn three_player_game_terminates() {
    let mut g = Game::new(3).unwrap();
    let mut seed = 5u64;
    g.advance(seed);
    assert_eq!(total_cards_on_table(&g), 52);
    let mut reached_game_over = false;
    for _ in 0..200_000u64 {
        seed = seed.wrapping_mul(6364136223846793005).wrapping_add(1442695040888963407);
        let s = g.advance(seed);
        assert_eq!(total_cards_on_table(&g), 52);
        if s == RoundState::GameOver {
            reached_game_over = true;
            break;
        }
    }
    assert!(reached_game_over);
}
