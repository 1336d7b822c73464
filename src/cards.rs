//! Cards, the standard French deck, and shoes made of several decks.

use vstd::prelude::*;
use rand::seq::SliceRandom;
use vstd::multiset::Multiset;

verus! {

/// The four French suits.
#[derive(Debug, Clone, Copy, PartialEq, Eq, Structural)]
pub enum Suit {
    Hearts,
    Diamonds,
    Clubs,
    Spades,
}

/// One playing card: its suit, its rank label ("2".."10", "J", "Q", "K", "A")
/// and its face value in points.
#[derive(Debug, Clone)]
pub struct Card {
    pub suit: Suit,
    pub name: String,
    pub value: u8,
}

/// Number of cards in one standard deck.
pub const DECK_SIZE: usize = 52;

/// The suit of the `k`-th run of thirteen cards in a standard deck.
pub open spec fn suit_at(k: int) -> Suit {
    if k == 0 {
        Suit::Hearts
    } else if k == 1 {
        Suit::Diamonds
    } else if k == 2 {
        Suit::Clubs
    } else {
        Suit::Spades
    }
}

/// The label of the `r`-th rank, in the order 2, 3, ..., 10, J, Q, K, A.
pub open spec fn rank_name(r: int) -> Seq<char> {
    if r == 0 {
        seq!['2']
    } else if r == 1 {
        seq!['3']
    } else if r == 2 {
        seq!['4']
    } else if r == 3 {
        seq!['5']
    } else if r == 4 {
        seq!['6']
    } else if r == 5 {
        seq!['7']
    } else if r == 6 {
        seq!['8']
    } else if r == 7 {
        seq!['9']
    } else if r == 8 {
        seq!['1', '0']
    } else if r == 9 {
        seq!['J']
    } else if r == 10 {
        seq!['Q']
    } else if r == 11 {
        seq!['K']
    } else {
        seq!['A']
    }
}

/// The face value of the `r`-th rank: number cards count their number,
/// faces count ten, the ace eleven.
pub open spec fn rank_value(r: int) -> int {
    if r < 9 {
        r + 2
    } else if r < 12 {
        10
    } else {
        11
    }
}

/// An ace is recognised by its label alone.
pub open spec fn is_ace(c: Card) -> bool {
    c.name@ == seq!['A']
}

/// A card as a standard deck holds it: an ace worth eleven, or another card
/// worth two to ten.
pub open spec fn is_standard(c: Card) -> bool {
    if is_ace(c) {
        c.value == 11
    } else {
        2 <= c.value <= 10
    }
}

pub open spec fn all_standard(s: Seq<Card>) -> bool {
    forall|i: int| 0 <= i < s.len() ==> is_standard(#[trigger] s[i])
}

/// `c` is the card at position `k` (0 <= k < 52) of an unshuffled deck:
/// suits in the order hearts, diamonds, clubs, spades, and within a suit the
/// ranks from 2 up to the ace.
pub open spec fn is_card_at(c: Card, k: int) -> bool {
    &&& c.suit == suit_at(k / 13)
    &&& c.name@ == rank_name(k % 13)
    &&& c.value == rank_value(k % 13)
}

/// `s` is `n` unshuffled standard decks laid one after the other.
pub open spec fn is_shoe(s: Seq<Card>, n: nat) -> bool {
    &&& s.len() == 52 * n
    &&& forall|j: int| 0 <= j < s.len() ==> is_card_at(#[trigger] s[j], j % 52)
}

/// `s` holds the cards of `n` standard decks, in any order.
pub open spec fn is_shuffled_shoe(s: Seq<Card>, n: nat) -> bool {
    exists|t: Seq<Card>| is_shoe(t, n) && #[trigger] t.to_multiset() == s.to_multiset()
}

/// Every card of a standard deck is standard.
pub proof fn lemma_card_at_standard(c: Card, k: int)
    requires
        0 <= k < 52,
        is_card_at(c, k),
    ensures
        is_standard(c),
{
    let r = k % 13;
    assert(0 <= r < 13);
    if r != 12 {
        assert(rank_name(r)[0] != 'A' || rank_name(r).len() != 1);
    }
}

/// A shoe holds standard cards only, and so does any reordering of it.
pub proof fn lemma_shuffled_shoe_standard(s: Seq<Card>, n: nat)
    requires
        is_shuffled_shoe(s, n),
    ensures
        s.len() == 52 * n,
        all_standard(s),
{
    broadcast use vstd::seq_lib::group_to_multiset_ensures;

    let t = choose|t: Seq<Card>| is_shoe(t, n) && #[trigger] t.to_multiset() == s.to_multiset();
    assert(s.len() == t.len()) by {
        assert(s.len() == s.to_multiset().len());
        assert(t.len() == t.to_multiset().len());
    }
    assert forall|i: int| 0 <= i < s.len() implies is_standard(#[trigger] s[i]) by {
        assert(s.contains(s[i]));
        assert(s.to_multiset().count(s[i]) > 0);
        assert(t.contains(s[i]));
        let j = choose|j: int| 0 <= j < t.len() && t[j] == s[i];
        lemma_card_at_standard(t[j], j % 52);
    }
}

/// The label of the `r`-th rank.
fn rank_label(r: usize) -> (s: String)
    requires
        r < 13,
    ensures
        s@ == rank_name(r as int),
{
    let lit: &str = if r == 0 {
        "2"
    } else if r == 1 {
        "3"
    } else if r == 2 {
        "4"
    } else if r == 3 {
        "5"
    } else if r == 4 {
        "6"
    } else if r == 5 {
        "7"
    } else if r == 6 {
        "8"
    } else if r == 7 {
        "9"
    } else if r == 8 {
        "10"
    } else if r == 9 {
        "J"
    } else if r == 10 {
        "Q"
    } else if r == 11 {
        "K"
    } else {
        "A"
    };
    proof {
        reveal_strlit("2");
        reveal_strlit("3");
        reveal_strlit("4");
        reveal_strlit("5");
        reveal_strlit("6");
        reveal_strlit("7");
        reveal_strlit("8");
        reveal_strlit("9");
        reveal_strlit("10");
        reveal_strlit("J");
        reveal_strlit("Q");
        reveal_strlit("K");
        reveal_strlit("A");
    }
    assert(lit@ =~= rank_name(r as int));
    String::from_str(lit)
}

/// The card at position `k` of an unshuffled deck.
fn card_at(k: usize) -> (c: Card)
    requires
        k < 52,
    ensures
        is_card_at(c, k as int),
{
    let s = k / 13;
    let r = k % 13;
    let suit = if s == 0 {
        Suit::Hearts
    } else if s == 1 {
        Suit::Diamonds
    } else if s == 2 {
        Suit::Clubs
    } else {
        Suit::Spades
    };
    let value: u8 = if r < 9 {
        (r + 2) as u8
    } else if r < 12 {
        10
    } else {
        11
    };
    Card::new(suit, rank_label(r), value)
}

impl Card {
    pub fn new(suit: Suit, name: String, value: u8) -> (c: Card)
        ensures
            c.suit == suit,
            c.name == name,
            c.value == value,
    {
        Card { suit, name, value }
    }
}

/// The cards of a shoe, in the order in which they would be dealt from the
/// end.
#[derive(Debug, Clone)]
pub struct Deck {
    pub cards: Vec<Card>,
}

impl View for Deck {
    type V = Seq<Card>;

    open spec fn view(&self) -> Seq<Card> {
        self.cards@
    }
}

/// Relies on rand's `SliceRandom::shuffle`, driven by `thread_rng`: it
/// reorders the slice in place, so the same cards come back, each as often as
/// before.
#[verifier::external_body]
fn shuffle_cards(cards: &mut Vec<Card>)
    ensures
        final(cards)@.to_multiset() == old(cards)@.to_multiset(),
{
    cards.shuffle(&mut rand::thread_rng());
}

impl Deck {
    /// `size` standard decks, unshuffled, one after the other.
    pub fn new(size: u8) -> (d: Deck)
        ensures
            is_shoe(d@, size as nat),
    {
        let total: usize = DECK_SIZE * (size as usize);
        let mut cards: Vec<Card> = Vec::new();
        let mut j: usize = 0;
        while j < total
            invariant
                total == 52 * size,
                j <= total,
                cards@.len() == j,
                forall|i: int| 0 <= i < j ==> is_card_at(#[trigger] cards@[i], i % 52),
            decreases total - j,
        {
            let c = card_at(j % DECK_SIZE);
            cards.push(c);
            j += 1;
        }
        Deck { cards }
    }

    /// Puts the remaining cards in a random order.
    pub fn shuffle(&mut self)
        ensures
            final(self)@.to_multiset() == old(self)@.to_multiset(),
    {
        shuffle_cards(&mut self.cards);
    }

    /// Takes the last card off the deck, or `None` once the deck is empty.
    pub fn deal_card(&mut self) -> (r: Option<Card>)
        ensures
            old(self)@.len() == 0 ==> r is None && final(self)@ == old(self)@,
            old(self)@.len() > 0 ==> r == Some(old(self)@.last()) && final(self)@
                == old(self)@.drop_last(),
    {
        self.cards.pop()
    }

    /// Number of cards left in the deck.
    pub fn len(&self) -> (n: usize)
        ensures
            n == self@.len(),
    {
        self.cards.len()
    }
}

/// What is left of `cards`, and what was dealt in turn, after `k` deals.
pub open spec fn deal_many(cards: Seq<Card>, k: nat) -> (Seq<Card>, Seq<Card>)
    decreases k,
{
    if k == 0 {
        (cards, Seq::empty())
    } else {
        let (rest, dealt) = deal_many(cards, (k - 1) as nat);
        (rest.drop_last(), dealt.push(rest.last()))
    }
}

/// Dealing `k` cards in turn from a deck of `n` leaves `n - k` cards, and the
/// cards dealt together with those left are exactly the cards the deck held:
/// none is dealt twice, and none stays in the deck after being dealt.
pub proof fn lemma_deals_conserve_cards(cards: Seq<Card>, k: nat)
    requires
        k <= cards.len(),
    ensures
        deal_many(cards, k).0.len() == cards.len() - k,
        deal_many(cards, k).1.len() == k,
        deal_many(cards, k).0.to_multiset().add(deal_many(cards, k).1.to_multiset())
            == cards.to_multiset(),
    decreases k,
{
    broadcast use vstd::seq_lib::group_to_multiset_ensures;
    broadcast use vstd::multiset::group_multiset_axioms;

    if k == 0 {
        assert(deal_many(cards, 0).1.to_multiset() =~= Multiset::empty());
        assert(cards.to_multiset().add(Multiset::empty()) =~= cards.to_multiset());
    } else {
        lemma_deals_conserve_cards(cards, (k - 1) as nat);
        let (rest, dealt) = deal_many(cards, (k - 1) as nat);
        let x = rest.last();
        assert(rest.drop_last().push(x) =~= rest);
        assert(rest.to_multiset() =~= rest.drop_last().to_multiset().insert(x));
        assert(dealt.push(x).to_multiset() =~= dealt.to_multiset().insert(x));
        assert(rest.drop_last().to_multiset().add(dealt.push(x).to_multiset())
            =~= rest.to_multiset().add(dealt.to_multiset()));
    }
}

} // verus!
