use vstd::prelude::*;

use crate::cards::{cards_points, Card, Suit};
use crate::contract::Party;
use crate::error::{SechsUndSechzigError, SusResult};

verus! {

/// What a party has won in a round: trick cards and declared marriages.
#[derive(Debug)]
pub struct Stash {
    cards: Vec<Card>,
    declarations: Vec<Suit>,
}

impl Clone for Stash {
    fn clone(&self) -> (r: Stash)
        ensures
            r@ == self@,
    {
        let r = Stash { cards: self.cards.clone(), declarations: self.declarations.clone() };
        assert(r.cards@ =~= self.cards@);
        assert(r.declarations@ =~= self.declarations@);
        r
    }
}

pub struct StashView {
    pub cards: Seq<Card>,
    pub declarations: Seq<Suit>,
}

/// Points of a marriage in a plain suit.
pub const DECLARATION_POINTS: i32 = 20;

/// Points of a marriage in the trump suit.
pub const TRIUMPH_DECLARATION_POINTS: i32 = 40;

/// Points of one declaration.
pub open spec fn declaration_points(suit: Suit, triumph: Option<Suit>) -> int {
    if triumph == Some(suit) {
        TRIUMPH_DECLARATION_POINTS as int
    } else {
        DECLARATION_POINTS as int
    }
}

/// Points of a sequence of declarations.
pub open spec fn declarations_points(decls: Seq<Suit>, triumph: Option<Suit>) -> int
    decreases decls.len(),
{
    if decls.len() == 0 {
        0
    } else {
        declarations_points(decls.drop_last(), triumph) + declaration_points(decls.last(), triumph)
    }
}

impl StashView {
    pub open spec fn spec_points(self, triumph: Option<Suit>) -> int {
        cards_points(self.cards) + declarations_points(self.declarations, triumph)
    }
}

impl View for Stash {
    type V = StashView;

    closed spec fn view(&self) -> StashView {
        StashView { cards: self.cards@, declarations: self.declarations@ }
    }
}

/// Card points only grow along a sequence, and are never negative.
pub proof fn lemma_cards_points_prefix(s: Seq<Card>, i: int)
    requires
        0 <= i <= s.len(),
    ensures
        0 <= cards_points(s.take(i)) <= cards_points(s),
        cards_points(s) <= 11 * s.len(),
    decreases s.len(),
{
    if s.len() > 0 {
        assert(s.drop_last() =~= s.take(s.len() - 1));
        if i < s.len() {
            lemma_cards_points_prefix(s.drop_last(), i);
            assert(s.drop_last().take(i) =~= s.take(i));
        } else {
            lemma_cards_points_prefix(s.drop_last(), 0);
            assert(s.take(i) =~= s);
        }
    }
}

/// Declaration points only grow along a sequence, and are never negative.
pub proof fn lemma_declarations_points_prefix(s: Seq<Suit>, triumph: Option<Suit>, i: int)
    requires
        0 <= i <= s.len(),
    ensures
        0 <= declarations_points(s.take(i), triumph) <= declarations_points(s, triumph),
        declarations_points(s, triumph) <= 40 * s.len(),
    decreases s.len(),
{
    if s.len() > 0 {
        if i < s.len() {
            lemma_declarations_points_prefix(s.drop_last(), triumph, i);
            assert(s.drop_last().take(i) =~= s.take(i));
        } else {
            lemma_declarations_points_prefix(s.drop_last(), triumph, 0);
            assert(s.take(i) =~= s);
        }
    }
}

impl Stash {
    pub fn empty() -> (r: Stash)
        ensures
            r@.cards == Seq::<Card>::empty(),
            r@.declarations == Seq::<Suit>::empty(),
    {
        Stash { cards: Vec::new(), declarations: Vec::new() }
    }

    /// Card points plus 20 for each declaration, 40 for one in the trump suit.
    pub fn points(&self, triumph: Option<Suit>) -> (r: i32)
        requires
            self@.spec_points(triumph) <= i32::MAX,
        ensures
            r == self@.spec_points(triumph),
    {
        proof {
            lemma_cards_points_prefix(self.cards@, self.cards@.len() as int);
            lemma_declarations_points_prefix(self.declarations@, triumph, self.declarations@.len() as int);
        }
        let mut cards_sum: i32 = 0;
        let mut i: usize = 0;
        while i < self.cards.len()
            invariant
                i <= self.cards@.len(),
                cards_sum == cards_points(self.cards@.take(i as int)),
                cards_points(self.cards@) + declarations_points(self.declarations@, triumph) <= i32::MAX,
                0 <= declarations_points(self.declarations@, triumph),
            decreases self.cards@.len() - i,
        {
            proof {
                assert(self.cards@.take(i + 1).drop_last() =~= self.cards@.take(i as int));
                lemma_cards_points_prefix(self.cards@, i + 1);
            }
            cards_sum = cards_sum + self.cards[i].points();
            i += 1;
        }
        assert(self.cards@.take(self.cards@.len() as int) =~= self.cards@);
        let mut declaration_sum: i32 = 0;
        let mut j: usize = 0;
        while j < self.declarations.len()
            invariant
                j <= self.declarations@.len(),
                declaration_sum == declarations_points(self.declarations@.take(j as int), triumph),
                cards_sum == cards_points(self.cards@),
                0 <= cards_sum,
                cards_points(self.cards@) + declarations_points(self.declarations@, triumph) <= i32::MAX,
            decreases self.declarations@.len() - j,
        {
            proof {
                assert(self.declarations@.take(j + 1).drop_last() =~= self.declarations@.take(j as int));
                lemma_declarations_points_prefix(self.declarations@, triumph, j + 1);
            }
            let suit = self.declarations[j];
            let p = if Some(suit) == triumph {
                TRIUMPH_DECLARATION_POINTS
            } else {
                DECLARATION_POINTS
            };
            declaration_sum = declaration_sum + p;
            j += 1;
        }
        assert(self.declarations@.take(self.declarations@.len() as int) =~= self.declarations@);
        declaration_sum + cards_sum
    }

    /// Records a marriage declared in `suit`.
    pub fn declare(&mut self, suit: Suit)
        ensures
            final(self)@.cards == old(self)@.cards,
            final(self)@.declarations == old(self)@.declarations.push(suit),
    {
        self.declarations.push(suit);
    }

    /// Adds won cards.
    pub fn add_cards(&mut self, cards: &Vec<Card>)
        ensures
            final(self)@.cards == old(self)@.cards + cards@,
            final(self)@.declarations == old(self)@.declarations,
    {
        let mut i: usize = 0;
        while i < cards.len()
            invariant
                i <= cards@.len(),
                self@.cards == old(self)@.cards + cards@.take(i as int),
                self@.declarations == old(self)@.declarations,
            decreases cards@.len() - i,
        {
            self.cards.push(cards[i]);
            proof {
                assert(old(self)@.cards + cards@.take(i + 1) =~= (old(self)@.cards + cards@.take(
                    i as int,
                )).push(cards@[i as int]));
            }
            i += 1;
        }
        assert(cards@.take(cards@.len() as int) =~= cards@);
    }
}


/// The stashes of all parties of a round, one per party.
#[derive(Debug)]
pub struct Stashes(Vec<(Party, Stash)>);

impl Clone for Stashes {
    fn clone(&self) -> (r: Stashes)
        ensures
            r@ == self@,
    {
        let mut entries: Vec<(Party, Stash)> = Vec::new();
        let mut i: usize = 0;
        while i < self.0.len()
            invariant
                i <= self.0@.len(),
                entries@.len() == i,
                forall|k: int| 0 <= k < i ==> (#[trigger] entries@[k]).0 == self.0@[k].0 && entries@[k].1@ == self.0@[k].1@,
            decreases self.0@.len() - i,
        {
            entries.push((self.0[i].0, self.0[i].1.clone()));
            i += 1;
        }
        let r = Stashes(entries);
        assert(r@ =~= self@);
        r
    }
}

/// The index of the first entry of `party`, or the length if there is none.
pub open spec fn party_index(entries: Seq<(Party, StashView)>, party: Party) -> int
    decreases entries.len(),
{
    if entries.len() == 0 {
        0
    } else if entries[0].0 == party {
        0
    } else {
        1 + party_index(entries.drop_first(), party)
    }
}

pub proof fn lemma_party_index(entries: Seq<(Party, StashView)>, party: Party)
    ensures
        0 <= party_index(entries, party) <= entries.len(),
        party_index(entries, party) < entries.len() ==> entries[party_index(entries, party)].0
            == party,
        forall|j: int| 0 <= j < party_index(entries, party) ==> entries[j].0 != party,
    decreases entries.len(),
{
    if entries.len() > 0 && entries[0].0 != party {
        lemma_party_index(entries.drop_first(), party);
        assert forall|j: int| 0 <= j < party_index(entries, party) implies entries[j].0 != party by {
            if j > 0 {
                assert(entries[j] == entries.drop_first()[j - 1]);
            }
        }
    }
}

impl View for Stashes {
    type V = Seq<(Party, StashView)>;

    closed spec fn view(&self) -> Seq<(Party, StashView)> {
        self.0@.map_values(|e: (Party, Stash)| (e.0, e.1@))
    }
}

fn entry_mut(v: &mut Vec<(Party, Stash)>, i: usize) -> (r: &mut Stash)
    requires
        i < old(v)@.len(),
    ensures
        *r == old(v)@[i as int].1,
        final(v)@ == old(v)@.update(i as int, (old(v)@[i as int].0, *final(r))),
{
    &mut v[i].1
}

/// `s` after it wins `cards`, with a marriage in `declaration` if there is one.
pub open spec fn awarded(s: StashView, cards: Seq<Card>, declaration: Option<Suit>) -> StashView {
    StashView {
        cards: s.cards + cards,
        declarations: match declaration {
            Some(d) => s.declarations.push(d),
            None => s.declarations,
        },
    }
}

proof fn lemma_entries_update(entries: Seq<(Party, Stash)>, i: int, s: Stash)
    requires
        0 <= i < entries.len(),
    ensures
        entries.update(i, (entries[i].0, s)).map_values(|e: (Party, Stash)| (e.0, e.1@))
            == entries.map_values(|e: (Party, Stash)| (e.0, e.1@)).update(i, (entries[i].0, s@)),
{
    assert(entries.update(i, (entries[i].0, s)).map_values(|e: (Party, Stash)| (e.0, e.1@))
        =~= entries.map_values(|e: (Party, Stash)| (e.0, e.1@)).update(i, (entries[i].0, s@)));
}

impl Stashes {
    /// An empty stash for each of `parties`.
    pub fn empty(parties: &Vec<Party>) -> (r: Stashes)
        ensures
            r@.len() == parties@.len(),
            forall|i: int|
                0 <= i < parties@.len() ==> (#[trigger] r@[i]).0 == parties@[i] && r@[i].1.cards
                    == Seq::<Card>::empty() && r@[i].1.declarations == Seq::<Suit>::empty(),
    {
        let mut entries: Vec<(Party, Stash)> = Vec::new();
        let mut i: usize = 0;
        while i < parties.len()
            invariant
                i <= parties@.len(),
                entries@.len() == i,
                forall|k: int|
                    0 <= k < i ==> (#[trigger] entries@[k]).0 == parties@[k] && entries@[k].1@.cards
                        == Seq::<Card>::empty() && entries@[k].1@.declarations == Seq::<
                        Suit,
                    >::empty(),
            decreases parties@.len() - i,
        {
            entries.push((parties[i], Stash::empty()));
            i += 1;
        }
        Stashes(entries)
    }

    fn find(&self, party: &Party) -> (r: usize)
        ensures
            r == party_index(self@, *party),
    {
        proof {
            lemma_party_index(self@, *party);
        }
        let mut i: usize = 0;
        while i < self.0.len()
            invariant
                i <= self@.len(),
                self@.len() == self.0@.len(),
                forall|k: int| 0 <= k < i ==> self@[k].0 != *party,
                0 <= party_index(self@, *party) <= self@.len(),
                party_index(self@, *party) < self@.len() ==> self@[party_index(self@, *party)].0
                    == *party,
                forall|j: int| 0 <= j < party_index(self@, *party) ==> self@[j].0 != *party,
            decreases self@.len() - i,
        {
            assert(self@[i as int].0 == self.0@[i as int].0);
            if self.0[i].0 == *party {
                return i;
            }
            i += 1;
        }
        i
    }

    /// The stash of `party`.
    pub fn stash(&self, party: &Party) -> (r: SusResult<&Stash>)
        ensures
            party_index(self@, *party) < self@.len() ==> (r matches Ok(s) && s@ == self@[party_index(
                self@,
                *party,
            )].1),
            party_index(self@, *party) == self@.len() ==> r == Err::<&Stash, SechsUndSechzigError>(
                SechsUndSechzigError::InvaildParty,
            ),
    {
        let i = self.find(party);
        if i < self.0.len() {
            Ok(&self.0[i].1)
        } else {
            Err(SechsUndSechzigError::InvaildParty)
        }
    }

    /// Mutable access to the stash of `party`.
    pub fn stash_mut(&mut self, party: &Party) -> (r: SusResult<&mut Stash>)
        ensures
            party_index(old(self)@, *party) == old(self)@.len() ==> r is Err && final(self)@ == old(self)@,
            party_index(old(self)@, *party) < old(self)@.len() ==> (r matches Ok(s) && s@ == old(
                self,
            )@[party_index(old(self)@, *party)].1 && final(self)@ == old(self)@.update(
                party_index(old(self)@, *party),
                (*party, final(s)@),
            )),
    {
        let i = self.find(party);
        if i < self.0.len() {
            proof {
                lemma_party_index(self@, *party);
            }
            let ghost entries = self.0@;
            let s = entry_mut(&mut self.0, i);
            proof {
                lemma_entries_update(entries, i as int, *final(s));
            }
            Ok(s)
        } else {
            Err(SechsUndSechzigError::InvaildParty)
        }
    }

    /// Gives `party` the cards of a trick it took, and the marriage declared
    /// on it if there is one.
    pub fn award(&mut self, party: &Party, cards: &Vec<Card>, declaration: Option<Suit>) -> (r:
        SusResult<()>)
        ensures
            party_index(old(self)@, *party) == old(self)@.len() ==> r == Err::<(), SechsUndSechzigError>(
                SechsUndSechzigError::InvaildParty,
            ) && final(self)@ == old(self)@,
            party_index(old(self)@, *party) < old(self)@.len() ==> r is Ok && final(self)@ == old(
                self,
            )@.update(
                party_index(old(self)@, *party),
                (*party, awarded(old(self)@[party_index(old(self)@, *party)].1, cards@, declaration)),
            ),
    {
        let i = self.find(party);
        if i == self.0.len() {
            return Err(SechsUndSechzigError::InvaildParty);
        }
        proof {
            lemma_party_index(self@, *party);
        }
        let s = entry_mut(&mut self.0, i);
        if let Some(suit) = declaration {
            s.declare(suit);
        }
        s.add_cards(cards);
        proof {
            assert(self@ =~= old(self)@.update(
                i as int,
                (*party, awarded(old(self)@[i as int].1, cards@, declaration)),
            ));
        }
        Ok(())
    }

    /// The points of every party, in the order of the stashes.
    pub fn points(&self, triumph: Option<Suit>) -> (r: Vec<(Party, i32)>)
        requires
            forall|i: int| 0 <= i < self@.len() ==> (#[trigger] self@[i]).1.spec_points(triumph) <= i32::MAX,
        ensures
            r@.len() == self@.len(),
            forall|i: int|
                0 <= i < self@.len() ==> (#[trigger] r@[i]).0 == self@[i].0 && r@[i].1
                    == self@[i].1.spec_points(triumph),
    {
        let mut r: Vec<(Party, i32)> = Vec::new();
        let mut i: usize = 0;
        while i < self.0.len()
            invariant
                i <= self@.len(),
                self@.len() == self.0@.len(),
                forall|k: int| 0 <= k < self@.len() ==> (#[trigger] self@[k]).1.spec_points(triumph) <= i32::MAX,
                r@.len() == i,
                forall|k: int|
                    0 <= k < i ==> (#[trigger] r@[k]).0 == self@[k].0 && r@[k].1
                        == self@[k].1.spec_points(triumph),
            decreases self@.len() - i,
        {
            assert(self@[i as int] == (self.0@[i as int].0, self.0@[i as int].1@));
            let p = self.0[i].1.points(triumph);
            r.push((self.0[i].0, p));
            i += 1;
        }
        r
    }
}

} // verus!
