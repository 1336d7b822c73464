//! Text for cards, hands and amounts, as the chat shows them.

use vstd::prelude::*;
use separator::Separatable;
use crate::cards::{Card, Suit};

verus! {

/// The symbol printed after a card's label.
pub open spec fn suit_symbol(s: Suit) -> Seq<char> {
    match s {
        Suit::Spades => "\u{2660}"@,
        Suit::Hearts => "\u{2665}"@,
        Suit::Diamonds => "\u{2666}"@,
        Suit::Clubs => "\u{2663}"@,
    }
}

/// A card as text: its label followed by its suit symbol.
pub open spec fn card_text(c: Card) -> Seq<char> {
    c.name@ + suit_symbol(c.suit)
}

/// Cards as text, separated by a comma and a space.
pub open spec fn cards_text(s: Seq<Card>) -> Seq<char>
    decreases s.len(),
{
    if s.len() == 0 {
        Seq::empty()
    } else if s.len() == 1 {
        card_text(s[0])
    } else {
        cards_text(s.drop_last()) + ", "@ + card_text(s.last())
    }
}

/// The decimal digit `d` (0 <= d < 10).
pub open spec fn digit_char(d: int) -> char {
    seq!['0', '1', '2', '3', '4', '5', '6', '7', '8', '9'][d]
}

/// Decimal digits of `n`, without leading zeros.
pub open spec fn decimal(n: nat) -> Seq<char>
    decreases n,
{
    if n < 10 {
        seq![digit_char(n as int)]
    } else {
        decimal(n / 10).push(digit_char((n % 10) as int))
    }
}

/// Decimal digits of `n` with a comma between groups of three, counted from
/// the right ("1,250").
pub open spec fn grouped_decimal(n: nat) -> Seq<char>
    decreases n,
{
    if n < 1000 {
        decimal(n)
    } else {
        grouped_decimal(n / 1000) + seq![
            ',',
            digit_char(((n % 1000) / 100) as int),
            digit_char(((n % 100) / 10) as int),
            digit_char((n % 10) as int),
        ]
    }
}

/// Relies on separator's `Separatable::separated_string` for `u64`: it
/// formats the number in decimal and puts a comma before every digit, but the
/// first, that has a multiple of three digits from it to the end.
#[verifier::external_body]
pub(crate) fn separated(n: u64) -> (r: String)
    ensures
        r@ == grouped_decimal(n as nat),
{
    n.separated_string()
}

fn suit_str(s: Suit) -> (r: &'static str)
    ensures
        r@ == suit_symbol(s),
{
    match s {
        Suit::Spades => "\u{2660}",
        Suit::Hearts => "\u{2665}",
        Suit::Diamonds => "\u{2666}",
        Suit::Clubs => "\u{2663}",
    }
}

impl Card {
    /// The card as text, such as "10♥".
    pub fn label(&self) -> (r: String)
        ensures
            r@ == card_text(*self),
    {
        let mut r = self.name.clone();
        r.append(suit_str(self.suit));
        r
    }
}

/// The cards as text, separated by ", ".
pub fn join_cards(cards: &[Card]) -> (r: String)
    ensures
        r@ == cards_text(cards@),
{
    let mut r = String::new();
    let n = cards.len();
    let mut i: usize = 0;
    while i < n
        invariant
            n == cards@.len(),
            i <= n,
            r@ == cards_text(cards@.take(i as int)),
        decreases n - i,
    {
        let t = cards[i].label();
        assert(cards@.take(i + 1).drop_last() =~= cards@.take(i as int));
        if i > 0 {
            r.append(", ");
        } else {
            assert(r@ =~= Seq::<char>::empty());
        }
        r.append(t.as_str());
        proof {
            if i == 0 {
                assert(r@ =~= cards_text(cards@.take(1)));
            } else {
                assert(r@ =~= cards_text(cards@.take(i + 1)));
            }
        }
        i = i + 1;
    }
    assert(cards@.take(n as int) =~= cards@);
    r
}

} // verus!
