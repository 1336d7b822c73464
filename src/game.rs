//! One player's round of blackjack: betting, the opening deal, hits, the
//! dealer's automatic play, and the payout.

use vstd::prelude::*;
use crate::cards::{Card, Deck, all_standard, is_shoe, is_shuffled_shoe, lemma_shuffled_shoe_standard};
use crate::scoring::{score, score_hand, hand_total, lemma_score_bounds, lemma_two_cards_not_bust};
use crate::render::{card_text, cards_text, grouped_decimal, join_cards, separated};

verus! {

/// Where a round stands. The last five are final.
#[derive(Debug, Clone, Copy, PartialEq, Eq, Structural)]
pub enum GameState {
    PlaceBet,
    PlayerTurn,
    DealerTurn,
    Busted,
    Blackjack,
    Push,
    Won,
    Lost,
}

/// Whether a round in state `s` is over.
pub open spec fn is_final(s: GameState) -> bool {
    !(s == GameState::PlaceBet || s == GameState::PlayerTurn || s == GameState::DealerTurn)
}

/// Number of standard decks shuffled into the shoe of a new round.
pub const DECKS_PER_GAME: u8 = 2;

/// The largest wager whose blackjack payout (two and a half times the wager,
/// rounded down) fits in a `u64`.
pub const MAX_WAGER: u64 = 7378697629483820646;

/// What a natural pays: the wager back plus one and a half times the wager,
/// rounded down.
pub open spec fn blackjack_payout(wager: int) -> int {
    wager + (3 * wager) / 2
}

/// One player's round.
#[derive(Debug, Clone)]
pub struct Game {
    pub player_id: String,
    pub wager: u64,
    pub player_hand: Vec<Card>,
    pub dealer_hand: Vec<Card>,
    pub state: GameState,
    pub deck: Deck,
    pub payout: u64,
}

/// A round as values: the hands and the deck as sequences of cards.
pub struct GameView {
    pub player_id: Seq<char>,
    pub wager: u64,
    pub player: Seq<Card>,
    pub dealer: Seq<Card>,
    pub state: GameState,
    pub deck: Seq<Card>,
    pub payout: u64,
}

impl View for Game {
    type V = GameView;

    open spec fn view(&self) -> GameView {
        GameView {
            player_id: self.player_id@,
            wager: self.wager,
            player: self.player_hand@,
            dealer: self.dealer_hand@,
            state: self.state,
            deck: self.deck@,
            payout: self.payout,
        }
    }
}

impl GameView {
    /// What every round keeps true. All cards are standard; at least one
    /// deck's worth of cards is in play, more than the player and the dealer
    /// can draw in one round; a round waiting for a bet has empty hands; and
    /// while the player is to move, the dealer holds two cards and the
    /// player's score is at most twenty-one.
    pub open spec fn wf(self) -> bool {
        &&& all_standard(self.player)
        &&& all_standard(self.dealer)
        &&& all_standard(self.deck)
        &&& self.player.len() + self.dealer.len() + self.deck.len() >= 52
        &&& self.wager <= MAX_WAGER
        &&& (self.state == GameState::PlaceBet ==> self.player.len() == 0 && self.dealer.len()
            == 0)
        &&& (self.state == GameState::PlayerTurn ==> self.dealer.len() == 2 && self.player.len()
            >= 2 && score(self.player) <= 21)
    }

    /// A round as `Game::new` starts it for `id`.
    pub open spec fn is_fresh(self, id: Seq<char>) -> bool {
        &&& self.player_id == id
        &&& self.wager == 0
        &&& self.payout == 0
        &&& self.player.len() == 0
        &&& self.dealer.len() == 0
        &&& self.state == GameState::PlaceBet
        &&& is_shuffled_shoe(self.deck, DECKS_PER_GAME as nat)
    }

    /// The last card of the deck goes to the player.
    pub open spec fn deal_player(self) -> GameView {
        GameView { player: self.player.push(self.deck.last()), deck: self.deck.drop_last(), ..self }
    }

    /// The last card of the deck goes to the dealer.
    pub open spec fn deal_dealer(self) -> GameView {
        GameView { dealer: self.dealer.push(self.deck.last()), deck: self.deck.drop_last(), ..self }
    }

    /// The opening deal, player and dealer in turn, then the check for
    /// naturals.
    pub open spec fn after_flop(self) -> GameView {
        let g = self.deal_player().deal_dealer().deal_player().deal_dealer();
        if score(g.player) == 21 && score(g.dealer) == 21 {
            GameView { state: GameState::Push, payout: g.wager, ..g }
        } else if score(g.player) == 21 {
            GameView {
                state: GameState::Blackjack,
                payout: blackjack_payout(g.wager as int) as u64,
                ..g
            }
        } else {
            g
        }
    }

    /// A bet of `wager`; it counts only while the round waits for one.
    pub open spec fn after_bet(self, wager: u64) -> GameView {
        if self.state == GameState::PlaceBet {
            GameView { wager, state: GameState::PlayerTurn, ..self }.after_flop()
        } else {
            self
        }
    }

    /// A hit; it counts only on the player's turn.
    pub open spec fn after_hit(self) -> GameView {
        if self.state == GameState::PlayerTurn {
            let g = self.deal_player();
            if score(g.player) > 21 {
                GameView { state: GameState::Busted, ..g }
            } else {
                g
            }
        } else {
            self
        }
    }

    /// The dealer draws while under seventeen.
    pub open spec fn dealer_drawn(self) -> GameView
        decreases self.deck.len(),
    {
        if score(self.dealer) < 17 && self.deck.len() > 0 {
            self.deal_dealer().dealer_drawn()
        } else {
            self
        }
    }

    /// The higher score wins twice the wager; equal scores get the wager back.
    pub open spec fn settled(self) -> GameView {
        if score(self.player) > score(self.dealer) {
            GameView { state: GameState::Won, payout: (2 * self.wager) as u64, ..self }
        } else if score(self.player) == score(self.dealer) {
            GameView { state: GameState::Push, payout: self.wager, ..self }
        } else {
            GameView { state: GameState::Lost, payout: 0, ..self }
        }
    }

    /// The player stays; it counts only on the player's turn.
    pub open spec fn after_stay(self) -> GameView {
        if self.state == GameState::PlayerTurn {
            GameView { state: GameState::DealerTurn, ..self }.dealer_drawn().settled()
        } else {
            self
        }
    }

    /// Both hands in full under a heading.
    pub open spec fn both_hands_text(self, heading: Seq<char>) -> Seq<char> {
        heading + "Dealer: "@ + cards_text(self.dealer) + "\nPlayer: "@ + cards_text(self.player)
    }

    /// The text shown for the round.
    pub open spec fn render(self) -> Seq<char> {
        let payout_line = "\n_Payout_: "@ + grouped_decimal(self.payout as nat);
        match self.state {
            GameState::PlaceBet => "Bet [amount]"@,
            GameState::PlayerTurn => "Dealer: Face Down, "@ + card_text(self.dealer[1])
                + "\nPlayer: "@ + cards_text(self.player) + "\n\nHit or Stay?"@,
            GameState::DealerTurn => self.both_hands_text(""@),
            GameState::Blackjack => self.both_hands_text("*You've got Blackjack!*\n"@)
                + payout_line,
            GameState::Push => self.both_hands_text("*It's a Push!*\n"@) + payout_line,
            GameState::Busted => self.both_hands_text("*You Busted!*\n"@),
            GameState::Lost => self.both_hands_text("*You Lost!*\n"@),
            GameState::Won => self.both_hands_text("*You Won!*\n"@) + payout_line,
        }
    }
}

proof fn lemma_standard_push(s: Seq<Card>, c: Card)
    requires
        all_standard(s),
        crate::cards::is_standard(c),
    ensures
        all_standard(s.push(c)),
{
    assert forall|i: int| 0 <= i < s.push(c).len() implies crate::cards::is_standard(
        #[trigger] s.push(c)[i],
    ) by {
        if i < s.len() {
            assert(s.push(c)[i] == s[i]);
        }
    }
}

proof fn lemma_standard_drop_last(s: Seq<Card>)
    requires
        all_standard(s),
        s.len() > 0,
    ensures
        all_standard(s.drop_last()),
        crate::cards::is_standard(s.last()),
{
    assert forall|i: int| 0 <= i < s.drop_last().len() implies crate::cards::is_standard(
        #[trigger] s.drop_last()[i],
    ) by {
        assert(s.drop_last()[i] == s[i]);
    }
}

impl Game {
    /// A new round for `player_id`, waiting for a bet, with a freshly
    /// shuffled shoe of two decks.
    pub fn new(player_id: &str) -> (g: Game)
        ensures
            g@.is_fresh(player_id@),
            g@.wf(),
    {
        let mut deck = Deck::new(DECKS_PER_GAME);
        let ghost unshuffled = deck@;
        deck.shuffle();
        assert(is_shoe(unshuffled, 2) && unshuffled.to_multiset() == deck@.to_multiset());
        proof {
            lemma_shuffled_shoe_standard(deck@, 2);
        }
        Game {
            player_id: String::from_str(player_id),
            wager: 0,
            player_hand: Vec::new(),
            dealer_hand: Vec::new(),
            state: GameState::PlaceBet,
            deck,
            payout: 0,
        }
    }

    fn deal_to_player(&mut self)
        requires
            old(self)@.deck.len() > 0,
            all_standard(old(self)@.player),
            all_standard(old(self)@.deck),
        ensures
            final(self)@ == old(self)@.deal_player(),
            all_standard(final(self)@.player),
            all_standard(final(self)@.deck),
    {
        proof {
            lemma_standard_drop_last(self.deck@);
            lemma_standard_push(self.player_hand@, self.deck@.last());
        }
        let c = self.deck.deal_card().unwrap();
        self.player_hand.push(c);
    }

    fn deal_to_dealer(&mut self)
        requires
            old(self)@.deck.len() > 0,
            all_standard(old(self)@.dealer),
            all_standard(old(self)@.deck),
        ensures
            final(self)@ == old(self)@.deal_dealer(),
            all_standard(final(self)@.dealer),
            all_standard(final(self)@.deck),
    {
        proof {
            lemma_standard_drop_last(self.deck@);
            lemma_standard_push(self.dealer_hand@, self.deck@.last());
        }
        let c = self.deck.deal_card().unwrap();
        self.dealer_hand.push(c);
    }

    /// Places a bet of `wager` and deals the opening hands; does nothing once
    /// the round has left `PlaceBet`. Returns the text of the round.
    pub fn bet(&mut self, wager: u64) -> (r: String)
        requires
            old(self)@.wf(),
            wager <= MAX_WAGER,
        ensures
            final(self)@ == old(self)@.after_bet(wager),
            final(self)@.wf(),
            r@ == final(self)@.render(),
            old(self)@.state == GameState::PlaceBet ==> {
                &&& final(self)@.player.len() == 2
                &&& final(self)@.dealer.len() == 2
                &&& final(self)@.state != GameState::PlaceBet
                &&& final(self)@.wager == wager
            },
            old(self)@.state == GameState::PlaceBet && score(final(self)@.player) == 21 ==> {
                if score(final(self)@.dealer) == 21 {
                    final(self)@.state == GameState::Push && final(self)@.payout == wager
                } else {
                    final(self)@.state == GameState::Blackjack && final(self)@.payout
                        == blackjack_payout(wager as int)
                }
            },
    {
        if self.state == GameState::PlaceBet {
            self.wager = wager;
            self.state = GameState::PlayerTurn;
            self.flop();
        }
        self.hand_in_words()
    }

    fn flop(&mut self)
        requires
            old(self)@.state == GameState::PlayerTurn,
            old(self)@.player.len() == 0,
            old(self)@.dealer.len() == 0,
            all_standard(old(self)@.player),
            all_standard(old(self)@.dealer),
            all_standard(old(self)@.deck),
            old(self)@.deck.len() >= 52,
            old(self)@.wager <= MAX_WAGER,
        ensures
            final(self)@ == old(self)@.after_flop(),
            final(self)@.wf(),
    {
        self.deal_to_player();
        self.deal_to_dealer();
        self.deal_to_player();
        self.deal_to_dealer();
        proof {
            lemma_score_bounds(self.player_hand@);
            lemma_score_bounds(self.dealer_hand@);
            lemma_two_cards_not_bust(self.player_hand@);
        }
        let ps = score_hand(self.player_hand.as_slice());
        let ds = score_hand(self.dealer_hand.as_slice());
        if ps == 21 && ds == 21 {
            self.state = GameState::Push;
            self.payout = self.wager;
        } else if ps == 21 {
            self.state = GameState::Blackjack;
            self.payout = self.wager + self.wager + self.wager / 2;
        }
    }

    /// Deals the player one more card on the player's turn; over twenty-one
    /// the player is busted. Does nothing in any other state. Returns the text
    /// of the round.
    pub fn hit(&mut self) -> (r: String)
        requires
            old(self)@.wf(),
        ensures
            final(self)@ == old(self)@.after_hit(),
            final(self)@.wf(),
            r@ == final(self)@.render(),
            old(self)@.state != GameState::PlayerTurn ==> final(self)@ == old(self)@,
    {
        if self.state == GameState::PlayerTurn {
            proof {
                lemma_score_bounds(self.player_hand@);
            }
            self.deal_to_player();
            proof {
                lemma_score_bounds(self.player_hand@);
            }
            if score_hand(self.player_hand.as_slice()) > 21 {
                self.state = GameState::Busted;
            }
        }
        self.hand_in_words()
    }

    /// Ends the player's turn: the dealer draws to seventeen or more and the
    /// round is settled. Does nothing in any other state. Returns the text of
    /// the round.
    pub fn stay(&mut self) -> (r: String)
        requires
            old(self)@.wf(),
        ensures
            final(self)@ == old(self)@.after_stay(),
            final(self)@.wf(),
            r@ == final(self)@.render(),
            old(self)@.state == GameState::PlayerTurn ==> {
                &&& score(final(self)@.dealer) >= 17
                &&& (final(self)@.state == GameState::Won || final(self)@.state == GameState::Push
                    || final(self)@.state == GameState::Lost)
            },
            old(self)@.state != GameState::PlayerTurn ==> final(self)@ == old(self)@,
    {
        if self.state == GameState::PlayerTurn {
            self.state = GameState::DealerTurn;
            return self.dealer_play();
        }
        self.hand_in_words()
    }

    fn dealer_play(&mut self) -> (r: String)
        requires
            old(self)@.state == GameState::DealerTurn,
            all_standard(old(self)@.player),
            all_standard(old(self)@.dealer),
            all_standard(old(self)@.deck),
            old(self)@.player.len() + old(self)@.dealer.len() + old(self)@.deck.len() >= 52,
            old(self)@.wager <= MAX_WAGER,
            old(self)@.dealer.len() == 2,
            score(old(self)@.player) <= 21,
        ensures
            final(self)@ == old(self)@.dealer_drawn().settled(),
            score(final(self)@.dealer) >= 17,
            final(self)@.wf(),
            r@ == final(self)@.render(),
    {
        proof {
            lemma_score_bounds(self.player_hand@);
            lemma_score_bounds(self.dealer_hand@);
        }
        let ghost start = self@;
        while score_hand(self.dealer_hand.as_slice()) < 17
            invariant
                self@.dealer_drawn() == start.dealer_drawn(),
                self@.state == GameState::DealerTurn,
                self@.player == start.player,
                self@.wager == start.wager,
                all_standard(self@.dealer),
                all_standard(self@.deck),
                self@.player.len() <= 21,
                2 <= self@.dealer.len() <= 17,
                hand_total(self@.dealer) <= 11 * self@.dealer.len(),
                self@.player.len() + self@.dealer.len() + self@.deck.len() >= 52,
            decreases self@.deck.len(),
        {
            proof {
                lemma_score_bounds(self.dealer_hand@);
            }
            self.deal_to_dealer();
            proof {
                lemma_score_bounds(self.dealer_hand@);
            }
        }
        let ps = score_hand(self.player_hand.as_slice());
        let ds = score_hand(self.dealer_hand.as_slice());
        if ps > ds {
            self.state = GameState::Won;
            self.payout = self.wager * 2;
        } else if ps == ds {
            self.state = GameState::Push;
            self.payout = self.wager;
        } else {
            self.state = GameState::Lost;
            self.payout = 0;
        }
        self.hand_in_words()
    }

    /// Whether the round is over.
    pub fn is_over(&self) -> (r: bool)
        ensures
            r == is_final(self.state),
    {
        self.state != GameState::PlaceBet && self.state != GameState::PlayerTurn && self.state
            != GameState::DealerTurn
    }

    fn both_hands_in_words(&self, heading: &str) -> (r: String)
        ensures
            r@ == self@.both_hands_text(heading@),
    {
        let mut r = String::from_str(heading);
        r.append("Dealer: ");
        r.append(join_cards(self.dealer_hand.as_slice()).as_str());
        r.append("\nPlayer: ");
        r.append(join_cards(self.player_hand.as_slice()).as_str());
        r
    }

    /// The text of the round: a prompt for a bet; on the player's turn one
    /// dealer card, the player's hand and a prompt; afterwards both hands,
    /// the outcome, and the payout where there is one.
    pub fn hand_in_words(&self) -> (r: String)
        requires
            self@.state == GameState::PlayerTurn ==> self@.dealer.len() >= 2,
        ensures
            r@ == self@.render(),
    {
        match self.state {
            GameState::PlaceBet => String::from_str("Bet [amount]"),
            GameState::PlayerTurn => {
                let mut r = String::from_str("Dealer: Face Down, ");
                r.append(self.dealer_hand[1].label().as_str());
                r.append("\nPlayer: ");
                r.append(join_cards(self.player_hand.as_slice()).as_str());
                r.append("\n\nHit or Stay?");
                r
            },
            GameState::DealerTurn => self.both_hands_in_words(""),
            GameState::Blackjack => {
                let mut r = self.both_hands_in_words("*You've got Blackjack!*\n");
                r.append("\n_Payout_: ");
                r.append(separated(self.payout).as_str());
                r
            },
            GameState::Push => {
                let mut r = self.both_hands_in_words("*It's a Push!*\n");
                r.append("\n_Payout_: ");
                r.append(separated(self.payout).as_str());
                r
            },
            GameState::Busted => self.both_hands_in_words("*You Busted!*\n"),
            GameState::Lost => self.both_hands_in_words("*You Lost!*\n"),
            GameState::Won => {
                let mut r = self.both_hands_in_words("*You Won!*\n");
                r.append("\n_Payout_: ");
                r.append(separated(self.payout).as_str());
                r
            },
        }
    }
}

} // verus!
