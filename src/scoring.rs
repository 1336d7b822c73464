//! Blackjack totals: card values summed, aces dropped from eleven to one as
//! far as needed to stay at or under twenty-one.

use vstd::prelude::*;
use crate::cards::{Card, is_ace, is_standard, all_standard};

verus! {

/// Sum of the face values of a hand.
pub open spec fn hand_total(h: Seq<Card>) -> int
    decreases h.len(),
{
    if h.len() == 0 {
        0
    } else {
        hand_total(h.drop_last()) + h.last().value
    }
}

/// Number of aces in a hand.
pub open spec fn ace_count(h: Seq<Card>) -> nat
    decreases h.len(),
{
    if h.len() == 0 {
        0
    } else {
        ace_count(h.drop_last()) + if is_ace(h.last()) { 1nat } else { 0nat }
    }
}

/// Counts aces as one instead of eleven, one at a time, while the total is
/// over twenty-one and an ace is left to count low.
pub open spec fn soften(total: int, aces: nat) -> int
    decreases aces,
{
    if aces > 0 && total > 21 {
        soften(total - 10, (aces - 1) as nat)
    } else {
        total
    }
}

/// The blackjack score of a hand.
pub open spec fn score(h: Seq<Card>) -> int {
    soften(hand_total(h), ace_count(h))
}

/// The score of `hand`.
pub fn score_hand(hand: &[Card]) -> (r: u8)
    requires
        hand_total(hand@) <= 255,
    ensures
        r == score(hand@),
{
    let n = hand.len();
    let mut total: u8 = 0;
    let mut aces: usize = 0;
    let mut i: usize = 0;
    while i < n
        invariant
            n == hand@.len(),
            i <= n,
            hand_total(hand@) <= 255,
            total == hand_total(hand@.take(i as int)),
            aces == ace_count(hand@.take(i as int)),
            aces <= i,
        decreases n - i,
    {
        assert(hand@.take(i + 1).drop_last() =~= hand@.take(i as int));
        proof {
            lemma_total_prefix(hand@, i + 1);
        }
        let c = &hand[i];
        total = total + c.value;
        if is_ace_card(c) {
            aces = aces + 1;
        }
        i = i + 1;
    }
    assert(hand@.take(n as int) =~= hand@);
    while aces > 0 && total > 21
        invariant
            soften(total as int, aces as nat) == score(hand@),
        decreases aces,
    {
        total = total - 10;
        aces = aces - 1;
    }
    total
}

/// Whether `c` is an ace.
fn is_ace_card(c: &Card) -> (r: bool)
    ensures
        r == is_ace(*c),
{
    let s = c.name.as_str();
    let r = s.unicode_len() == 1 && s.get_char(0) == 'A';
    assert(r ==> s@ =~= seq!['A']);
    r
}

/// A prefix of a hand has no larger total.
proof fn lemma_total_prefix(h: Seq<Card>, i: int)
    requires
        0 <= i <= h.len(),
    ensures
        hand_total(h.take(i)) <= hand_total(h),
    decreases h.len(),
{
    if i < h.len() {
        assert(h.drop_last().take(i) =~= h.take(i));
        lemma_total_prefix(h.drop_last(), i);
    } else {
        assert(h.take(i) =~= h);
    }
}

/// Taking one card out of a hand lowers its total by that card's value and
/// its ace count by one if the card is an ace.
proof fn lemma_remove_card(h: Seq<Card>, i: int)
    requires
        0 <= i < h.len(),
    ensures
        hand_total(h) == hand_total(h.remove(i)) + h[i].value,
        ace_count(h) == ace_count(h.remove(i)) + if is_ace(h[i]) { 1nat } else { 0nat },
    decreases h.len(),
{
    if i == h.len() - 1 {
        assert(h.remove(i) =~= h.drop_last());
    } else {
        lemma_remove_card(h.drop_last(), i);
        assert(h.remove(i).drop_last() =~= h.drop_last().remove(i));
        assert(h.remove(i).last() == h.last());
    }
}

/// The score of a hand does not depend on the order of its cards.
pub proof fn lemma_score_any_order(a: Seq<Card>, b: Seq<Card>)
    requires
        a.to_multiset() == b.to_multiset(),
    ensures
        score(a) == score(b),
{
    lemma_counts_any_order(a, b);
}

/// Total and ace count depend only on which cards a hand holds.
proof fn lemma_counts_any_order(a: Seq<Card>, b: Seq<Card>)
    requires
        a.to_multiset() == b.to_multiset(),
    ensures
        hand_total(a) == hand_total(b),
        ace_count(a) == ace_count(b),
    decreases a.len(),
{
    broadcast use vstd::seq_lib::group_to_multiset_ensures;

    if a.len() == 0 {
        assert(b.len() == b.to_multiset().len());
        assert(a.len() == a.to_multiset().len());
        assert(b =~= Seq::<Card>::empty());
    } else {
        let x = a.last();
        assert(a.drop_last().push(x) =~= a);
        assert(a.to_multiset().count(x) > 0);
        assert(b.contains(x));
        let i = choose|i: int| 0 <= i < b.len() && b[i] == x;
        assert(b.remove(i).to_multiset() == b.to_multiset().remove(x));
        assert(a.drop_last().to_multiset().insert(x) == a.to_multiset());
        assert(a.drop_last().to_multiset() =~= a.to_multiset().remove(x));
        lemma_counts_any_order(a.drop_last(), b.remove(i));
        lemma_remove_card(b, i);
    }
}

/// Counting an ace low never takes a total below the total with every ace
/// counted low.
proof fn lemma_soften_floor(total: int, aces: nat)
    ensures
        soften(total, aces) >= total - 10 * aces,
        soften(total, aces) <= total,
        total > 21 ==> soften(total, aces) >= 12 || soften(total, aces) == total - 10 * aces,
    decreases aces,
{
    if aces > 0 && total > 21 {
        lemma_soften_floor(total - 10, (aces - 1) as nat);
    }
}

/// In a hand of standard cards, each card adds at least one point to the
/// score and at most eleven to the total.
pub proof fn lemma_score_bounds(h: Seq<Card>)
    requires
        all_standard(h),
    ensures
        h.len() <= score(h),
        hand_total(h) <= 11 * h.len(),
        hand_total(h) >= 11 * ace_count(h) + 2 * (h.len() - ace_count(h)),
    decreases h.len(),
{
    if h.len() > 0 {
        assert(is_standard(h[h.len() - 1]));
        assert(all_standard(h.drop_last())) by {
            assert forall|i: int| 0 <= i < h.drop_last().len() implies is_standard(
                #[trigger] h.drop_last()[i],
            ) by {
                assert(h.drop_last()[i] == h[i]);
            }
        }
        lemma_score_bounds(h.drop_last());
    }
    lemma_soften_floor(hand_total(h), ace_count(h));
}

/// Two standard cards never score over twenty-one.
pub proof fn lemma_two_cards_not_bust(h: Seq<Card>)
    requires
        all_standard(h),
        h.len() == 2,
    ensures
        score(h) <= 21,
{
    let h1 = h.drop_last();
    assert(h1.drop_last() =~= Seq::<Card>::empty());
    assert(is_standard(h[0]));
    assert(is_standard(h[1]));
    assert(h1.last() == h[0]);
    assert(hand_total(h1.drop_last()) == 0);
    assert(ace_count(h1.drop_last()) == 0);
    assert(hand_total(h1) == h[0].value);
    assert(hand_total(h) == h[0].value + h[1].value);
    assert(ace_count(h1) == if is_ace(h[0]) { 1nat } else { 0nat });
    assert(ace_count(h) == ace_count(h1) + if is_ace(h[1]) { 1nat } else { 0nat });
    let t = hand_total(h);
    let a = ace_count(h);
    if t > 21 {
        assert(a == 2);
        assert(soften(t, a) == soften(t - 10, 1));
    }
}

} // verus!
