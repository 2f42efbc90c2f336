use vstd::prelude::*;

use crate::cards::{rank_order, Card, Suit};

verus! {

/// `g` is a card of `cards` in `suit`, and no card of `cards` in `suit` outranks it.
pub open spec fn is_greatest_in_suit(cards: Seq<Card>, suit: Suit, g: Card) -> bool {
    &&& cards.contains(g)
    &&& g.suit == suit
    &&& forall|i: int|
        0 <= i < cards.len() && #[trigger] cards[i].suit == suit ==> rank_order(cards[i].rank)
            <= rank_order(g.rank)
}

/// The highest card of `suit` among `cards`, if `cards` has one of that suit.
pub open spec fn greatest_in_suit(cards: Seq<Card>, suit: Suit) -> Option<Card> {
    if exists|g: Card| is_greatest_in_suit(cards, suit, g) {
        Some(choose|g: Card| is_greatest_in_suit(cards, suit, g))
    } else {
        None
    }
}

/// There is at most one greatest card of a suit: rank and suit make the card.
pub proof fn lemma_greatest_unique(cards: Seq<Card>, suit: Suit, g: Card, h: Card)
    requires
        is_greatest_in_suit(cards, suit, g),
        is_greatest_in_suit(cards, suit, h),
    ensures
        g == h,
{
    let i = choose|i: int| 0 <= i < cards.len() && cards[i] == g;
    let j = choose|j: int| 0 <= j < cards.len() && cards[j] == h;
    assert(cards[i].suit == suit);
    assert(cards[j].suit == suit);
    assert(rank_order(g.rank) == rank_order(h.rank));
}

/// The highest card of `suit` among `cards`.
pub fn greatest_card_in_suit(cards: &Vec<Card>, suit: &Suit) -> (r: Option<Card>)
    ensures
        r == greatest_in_suit(cards@, *suit),
        r is None <==> forall|i: int| 0 <= i < cards@.len() ==> cards@[i].suit != *suit,
{
    let mut best: Option<Card> = None;
    let mut i: usize = 0;
    while i < cards.len()
        invariant
            i <= cards@.len(),
            match best {
                None => forall|k: int| 0 <= k < i ==> cards@[k].suit != *suit,
                Some(g) => is_greatest_in_suit(cards@.take(i as int), *suit, g),
            },
        decreases cards@.len() - i,
    {
        let c = cards[i];
        let ghost prefix = cards@.take(i as int);
        if c.suit == *suit {
            let better = match best {
                None => true,
                Some(g) => g.rank.strength() <= c.rank.strength(),
            };
            if better {
                best = Some(c);
            }
        }
        proof {
            let next = cards@.take(i + 1);
            assert(next =~= prefix.push(c));
            if let Some(g) = best {
                assert(next.contains(g)) by {
                    if g == c {
                        assert(next[i as int] == c);
                    } else {
                        let k = choose|k: int| 0 <= k < prefix.len() && prefix[k] == g;
                        assert(next[k] == g);
                    }
                }
                assert forall|k: int| 0 <= k < next.len() && #[trigger] next[k].suit == *suit implies
                    rank_order(next[k].rank) <= rank_order(g.rank) by {
                    if k < i {
                        assert(prefix[k] == next[k]);
                    }
                }
            }
        }
        i += 1;
    }
    assert(cards@.take(cards@.len() as int) =~= cards@);
    proof {
        match best {
            None => {
                if exists|g: Card| is_greatest_in_suit(cards@, *suit, g) {
                    let g = choose|g: Card| is_greatest_in_suit(cards@, *suit, g);
                    let k = choose|k: int| 0 <= k < cards@.len() && cards@[k] == g;
                    assert(cards@[k].suit == *suit);
                }
            },
            Some(g) => {
                let h = choose|h: Card| is_greatest_in_suit(cards@, *suit, h);
                lemma_greatest_unique(cards@, *suit, g, h);
                let k = choose|k: int| 0 <= k < cards@.len() && cards@[k] == g;
                assert(cards@[k].suit == *suit);
            },
        }
    }
    best
}


/// A sequence with a card of `suit` has a greatest card of that suit.
pub proof fn lemma_greatest_exists(cards: Seq<Card>, suit: Suit, k: int)
    requires
        0 <= k < cards.len(),
        cards[k].suit == suit,
    ensures
        exists|g: Card| is_greatest_in_suit(cards, suit, g),
    decreases cards.len(),
{
    let init = cards.drop_last();
    let last = cards.last();
    if exists|j: int| 0 <= j < init.len() && init[j].suit == suit {
        let j = choose|j: int| 0 <= j < init.len() && init[j].suit == suit;
        lemma_greatest_exists(init, suit, j);
        let g = choose|g: Card| is_greatest_in_suit(init, suit, g);
        let gi = choose|gi: int| 0 <= gi < init.len() && init[gi] == g;
        if last.suit == suit && rank_order(last.rank) > rank_order(g.rank) {
            assert(cards[cards.len() - 1] == last);
            assert forall|i: int| 0 <= i < cards.len() && #[trigger] cards[i].suit == suit implies
                rank_order(cards[i].rank) <= rank_order(last.rank) by {
                if i < cards.len() - 1 {
                    assert(init[i] == cards[i]);
                }
            }
            assert(is_greatest_in_suit(cards, suit, last));
        } else {
            assert(cards[gi] == g);
            assert forall|i: int| 0 <= i < cards.len() && #[trigger] cards[i].suit == suit implies
                rank_order(cards[i].rank) <= rank_order(g.rank) by {
                if i < cards.len() - 1 {
                    assert(init[i] == cards[i]);
                }
            }
            assert(is_greatest_in_suit(cards, suit, g));
        }
    } else {
        if k < cards.len() - 1 {
            assert(init[k] == cards[k]);
        }
        assert(cards[cards.len() - 1] == last);
        assert forall|i: int| 0 <= i < cards.len() && #[trigger] cards[i].suit == suit implies
            rank_order(cards[i].rank) <= rank_order(last.rank) by {
            if i < cards.len() - 1 {
                assert(init[i] == cards[i]);
            }
        }
        assert(is_greatest_in_suit(cards, suit, last));
    }
}

} // verus!
