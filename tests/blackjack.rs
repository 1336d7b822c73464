use cryptojack::{join_cards, score_hand, Card, Deck, Game, GameState, Suit};

fn card(suit: Suit, name: &str, value: u8) -> Card {
    Card::new(suit, name.to_string(), value)
}

/// A game whose deck deals `top` first (player, dealer, player, dealer, ...),
/// with a full unshuffled deck underneath.
fn game_dealing(top: Vec<Card>) -> Game {
    let mut deck = Deck::new(1);
    for c in top.into_iter().rev() {
        deck.cards.push(c);
    }
    Game {
        player_id: "p".to_string(),
        wager: 0,
        player_hand: Vec::new(),
        dealer_hand: Vec::new(),
        state: GameState::PlaceBet,
        deck,
        payout: 0,
    }
}

fn count_aces(cards: &[Card]) -> usize {
    cards.iter().filter(|c| c.name == "A").count()
}

#[test]
fn test_new_deck_size() {
    let mut d = Deck::new(2);
    d.shuffle();
    assert_eq!(d.cards.len(), 104);

    let mut d = Deck::new(1);
    d.shuffle();
    assert_eq!(d.cards.len(), 52);
}

#[test]
fn test_new_game() {
    let mut g = Game::new(&String::from("test"));
    g.bet(500);
    assert_eq!(g.player_hand.len(), 2);
    assert_eq!(g.dealer_hand.len(), 2);
}

#[test]
fn test_score_hand_blackjack() {
    let mut test_hand: Vec<Card> = Vec::new();
    test_hand.push(Card::new(Suit::Spades, "A".to_string(), 11));
    test_hand.push(Card::new(Suit::Spades, "K".to_string(), 10));

    assert_eq!(score_hand(&test_hand), 21);
}

#[test]
fn test_score_hand_bust() {
    let mut test_hand: Vec<Card> = Vec::new();
    test_hand.push(Card::new(Suit::Hearts, "K".to_string(), 10));
    test_hand.push(Card::new(Suit::Spades, "K".to_string(), 10));
    test_hand.push(Card::new(Suit::Spades, "Q".to_string(), 10));

    assert_eq!(score_hand(&test_hand), 30);
}

#[test]
fn test_score_hand_ace_reduced() {
    let mut test_hand: Vec<Card> = Vec::new();
    test_hand.push(Card::new(Suit::Hearts, "A".to_string(), 11));
    test_hand.push(Card::new(Suit::Spades, "5".to_string(), 5));
    test_hand.push(Card::new(Suit::Spades, "Q".to_string(), 10));
    test_hand.push(Card::new(Suit::Spades, "9".to_string(), 9));

    assert_eq!(score_hand(&test_hand), 25);
}

#[test]
fn test_score_hand_not_all_ace_reduced() {
    let mut test_hand: Vec<Card> = Vec::new();
    test_hand.push(Card::new(Suit::Hearts, "8".to_string(), 8));
    test_hand.push(Card::new(Suit::Spades, "A".to_string(), 11));
    test_hand.push(Card::new(Suit::Spades, "A".to_string(), 11));

    assert_eq!(score_hand(&test_hand), 20);
}

#[test]
fn score_of_empty_hand_is_zero() {
    assert_eq!(score_hand(&[]), 0);
}

#[test]
fn score_counts_two_aces_low_when_needed() {
    let hand = vec![
        card(Suit::Hearts, "A", 11),
        card(Suit::Spades, "A", 11),
        card(Suit::Clubs, "K", 10),
    ];
    assert_eq!(score_hand(&hand), 12);
}

#[test]
fn score_ignores_order_of_cards() {
    let hand = vec![
        card(Suit::Hearts, "A", 11),
        card(Suit::Spades, "5", 5),
        card(Suit::Spades, "Q", 10),
        card(Suit::Spades, "9", 9),
    ];
    let mut reversed = hand.clone();
    reversed.reverse();
    let rotated = vec![hand[2].clone(), hand[0].clone(), hand[3].clone(), hand[1].clone()];
    assert_eq!(score_hand(&hand), 25);
    assert_eq!(score_hand(&reversed), 25);
    assert_eq!(score_hand(&rotated), 25);
}

#[test]
fn unshuffled_deck_is_in_suit_and_rank_order() {
    let d = Deck::new(1);
    assert_eq!(d.cards[0].suit, Suit::Hearts);
    assert_eq!(d.cards[0].name, "2");
    assert_eq!(d.cards[0].value, 2);
    assert_eq!(d.cards[8].name, "10");
    assert_eq!(d.cards[8].value, 10);
    assert_eq!(d.cards[9].name, "J");
    assert_eq!(d.cards[11].value, 10);
    assert_eq!(d.cards[12].name, "A");
    assert_eq!(d.cards[12].value, 11);
    assert_eq!(d.cards[13].suit, Suit::Diamonds);
    assert_eq!(d.cards[26].suit, Suit::Clubs);
    assert_eq!(d.cards[51].suit, Suit::Spades);
    assert_eq!(d.cards[51].name, "A");
}

#[test]
fn deck_sizes_follow_the_multiplier() {
    assert_eq!(Deck::new(3).len(), 156);
    assert_eq!(Deck::new(0).len(), 0);
}

#[test]
fn dealing_takes_the_last_card_until_empty() {
    let mut d = Deck::new(1);
    let first = d.deal_card().unwrap();
    assert_eq!(first.name, "A");
    assert_eq!(first.suit, Suit::Spades);
    assert_eq!(d.len(), 51);
    let mut dealt = 1;
    while d.deal_card().is_some() {
        dealt += 1;
    }
    assert_eq!(dealt, 52);
    assert_eq!(d.len(), 0);
    assert!(d.deal_card().is_none());
}

#[test]
fn shuffle_keeps_the_cards_and_changes_the_order() {
    let mut d = Deck::new(2);
    d.shuffle();
    assert_eq!(d.len(), 104);
    assert_eq!(count_aces(&d.cards), 8);
    let total: u32 = d.cards.iter().map(|c| c.value as u32).sum();
    assert_eq!(total, 2 * 4 * (2 + 3 + 4 + 5 + 6 + 7 + 8 + 9 + 10 + 10 + 10 + 10 + 11));
    let order: Vec<String> = d.cards.iter().map(|c| c.label()).collect();
    let plain: Vec<String> = Deck::new(2).cards.iter().map(|c| c.label()).collect();
    assert_ne!(order, plain);
}

#[test]
fn new_game_waits_for_a_bet() {
    let g = Game::new("alice");
    assert_eq!(g.player_id, "alice");
    assert_eq!(g.state, GameState::PlaceBet);
    assert!(g.player_hand.is_empty());
    assert!(g.dealer_hand.is_empty());
    assert_eq!(g.deck.len(), 104);
    assert_eq!(g.wager, 0);
    assert_eq!(g.payout, 0);
    assert!(!g.is_over());
    assert_eq!(g.hand_in_words(), "Bet [amount]");
}

#[test]
fn bet_deals_two_cards_each() {
    let mut g = Game::new("alice");
    g.bet(500);
    assert_eq!(g.player_hand.len(), 2);
    assert_eq!(g.dealer_hand.len(), 2);
    assert_eq!(g.deck.len(), 100);
    assert_eq!(g.wager, 500);
    assert_ne!(g.state, GameState::PlaceBet);
}

#[test]
fn second_bet_is_ignored() {
    let mut g = game_dealing(vec![
        card(Suit::Hearts, "9", 9),
        card(Suit::Clubs, "8", 8),
        card(Suit::Hearts, "7", 7),
        card(Suit::Clubs, "K", 10),
    ]);
    let first = g.bet(100);
    let again = g.bet(900);
    assert_eq!(first, again);
    assert_eq!(g.wager, 100);
    assert_eq!(g.player_hand.len(), 2);
}

#[test]
fn player_natural_pays_one_and_a_half() {
    let mut g = game_dealing(vec![
        card(Suit::Spades, "A", 11),
        card(Suit::Spades, "K", 10),
        card(Suit::Spades, "Q", 10),
        card(Suit::Spades, "J", 10),
    ]);
    let text = g.bet(500);
    assert_eq!(g.state, GameState::Blackjack);
    assert_eq!(g.payout, 1250);
    assert!(g.is_over());
    assert_eq!(
        text,
        "*You've got Blackjack!*\nDealer: K\u{2660}, J\u{2660}\nPlayer: A\u{2660}, Q\u{2660}\n_Payout_: 1,250"
    );
}

#[test]
fn blackjack_payout_rounds_down() {
    let mut g = game_dealing(vec![
        card(Suit::Spades, "A", 11),
        card(Suit::Hearts, "5", 5),
        card(Suit::Spades, "Q", 10),
        card(Suit::Hearts, "6", 6),
    ]);
    g.bet(5);
    assert_eq!(g.state, GameState::Blackjack);
    assert_eq!(g.payout, 12);
}

#[test]
fn both_naturals_push() {
    let mut g = game_dealing(vec![
        card(Suit::Spades, "A", 11),
        card(Suit::Hearts, "A", 11),
        card(Suit::Spades, "K", 10),
        card(Suit::Hearts, "Q", 10),
    ]);
    let text = g.bet(500);
    assert_eq!(g.state, GameState::Push);
    assert_eq!(g.payout, 500);
    assert!(text.starts_with("*It's a Push!*\n"));
    assert!(text.ends_with("_Payout_: 500"));
}

#[test]
fn dealer_natural_alone_does_not_end_the_round() {
    let mut g = game_dealing(vec![
        card(Suit::Spades, "9", 9),
        card(Suit::Hearts, "A", 11),
        card(Suit::Spades, "7", 7),
        card(Suit::Hearts, "K", 10),
    ]);
    let text = g.bet(10);
    assert_eq!(g.state, GameState::PlayerTurn);
    assert_eq!(
        text,
        "Dealer: Face Down, K\u{2665}\nPlayer: 9\u{2660}, 7\u{2660}\n\nHit or Stay?"
    );
}

#[test]
fn hit_and_stay_before_a_bet_change_nothing() {
    let mut g = Game::new("bob");
    let before: Vec<String> = g.deck.cards.iter().map(|c| c.label()).collect();
    assert_eq!(g.hit(), "Bet [amount]");
    assert_eq!(g.stay(), "Bet [amount]");
    assert_eq!(g.state, GameState::PlaceBet);
    assert!(g.player_hand.is_empty());
    assert!(g.dealer_hand.is_empty());
    let after: Vec<String> = g.deck.cards.iter().map(|c| c.label()).collect();
    assert_eq!(before, after);
}

#[test]
fn hit_over_twenty_one_busts() {
    let mut g = game_dealing(vec![
        card(Suit::Spades, "10", 10),
        card(Suit::Hearts, "9", 9),
        card(Suit::Spades, "6", 6),
        card(Suit::Hearts, "8", 8),
        card(Suit::Clubs, "K", 10),
    ]);
    g.bet(50);
    assert_eq!(g.state, GameState::PlayerTurn);
    let text = g.hit();
    assert_eq!(g.state, GameState::Busted);
    assert_eq!(g.payout, 0);
    assert_eq!(g.player_hand.len(), 3);
    assert_eq!(
        text,
        "*You Busted!*\nDealer: 9\u{2665}, 8\u{2665}\nPlayer: 10\u{2660}, 6\u{2660}, K\u{2663}"
    );
    assert_eq!(g.hit(), text);
    assert_eq!(g.player_hand.len(), 3);
}

#[test]
fn hit_at_or_under_twenty_one_continues() {
    let mut g = game_dealing(vec![
        card(Suit::Spades, "2", 2),
        card(Suit::Hearts, "9", 9),
        card(Suit::Spades, "3", 3),
        card(Suit::Hearts, "8", 8),
        card(Suit::Clubs, "A", 11),
    ]);
    g.bet(50);
    g.hit();
    assert_eq!(g.state, GameState::PlayerTurn);
    assert_eq!(score_hand(&g.player_hand), 16);
}

#[test]
fn stay_dealer_draws_to_seventeen_and_player_wins() {
    let mut g = game_dealing(vec![
        card(Suit::Spades, "10", 10),
        card(Suit::Hearts, "6", 6),
        card(Suit::Spades, "9", 9),
        card(Suit::Hearts, "4", 4),
        card(Suit::Clubs, "2", 2),
        card(Suit::Clubs, "5", 5),
    ]);
    g.bet(1000);
    let text = g.stay();
    assert_eq!(g.dealer_hand.len(), 4);
    assert_eq!(score_hand(&g.dealer_hand), 17);
    assert_eq!(g.state, GameState::Won);
    assert_eq!(g.payout, 2000);
    assert_eq!(
        text,
        "*You Won!*\nDealer: 6\u{2665}, 4\u{2665}, 2\u{2663}, 5\u{2663}\nPlayer: 10\u{2660}, 9\u{2660}\n_Payout_: 2,000"
    );
}

#[test]
fn stay_equal_scores_push() {
    let mut g = game_dealing(vec![
        card(Suit::Spades, "10", 10),
        card(Suit::Hearts, "K", 10),
        card(Suit::Spades, "8", 8),
        card(Suit::Hearts, "8", 8),
    ]);
    g.bet(70);
    g.stay();
    assert_eq!(g.dealer_hand.len(), 2);
    assert_eq!(g.state, GameState::Push);
    assert_eq!(g.payout, 70);
}

#[test]
fn stay_lower_score_loses() {
    let mut g = game_dealing(vec![
        card(Suit::Spades, "10", 10),
        card(Suit::Hearts, "K", 10),
        card(Suit::Spades, "7", 7),
        card(Suit::Hearts, "9", 9),
    ]);
    g.bet(70);
    let text = g.stay();
    assert_eq!(g.state, GameState::Lost);
    assert_eq!(g.payout, 0);
    assert_eq!(text, "*You Lost!*\nDealer: K\u{2665}, 9\u{2665}\nPlayer: 10\u{2660}, 7\u{2660}");
}

#[test]
fn stay_on_shuffled_shoe_always_settles() {
    for _ in 0..50 {
        let mut g = Game::new("carol");
        g.bet(10);
        if g.state == GameState::PlayerTurn {
            g.stay();
            assert!(score_hand(&g.dealer_hand) >= 17);
            assert!(matches!(g.state, GameState::Won | GameState::Push | GameState::Lost));
        }
        assert!(g.is_over());
    }
}

#[test]
fn card_labels_and_joined_hands() {
    assert_eq!(card(Suit::Hearts, "10", 10).label(), "10\u{2665}");
    assert_eq!(card(Suit::Diamonds, "Q", 10).label(), "Q\u{2666}");
    let hand = vec![card(Suit::Clubs, "A", 11), card(Suit::Spades, "2", 2)];
    assert_eq!(join_cards(&hand), "A\u{2663}, 2\u{2660}");
    assert_eq!(join_cards(&[]), "");
}

#[test]
fn large_payout_has_thousands_separators() {
    let mut g = game_dealing(vec![
        card(Suit::Spades, "A", 11),
        card(Suit::Hearts, "5", 5),
        card(Suit::Spades, "Q", 10),
        card(Suit::Hearts, "6", 6),
    ]);
    let text = g.bet(1_000_000);
    assert_eq!(g.payout, 2_500_000);
    assert!(text.ends_with("_Payout_: 2,500,000"));
}
