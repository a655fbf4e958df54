//! Player zones, the shared supply and trash, and the primitive moves between
//! them. Every move keeps the number of copies of each card constant, counting
//! the player's four zones, the supply piles and the trash.

use crate::card::{Card, NUM_CARDS, spec_cost, spec_index};
use crate::error::Error;
use rand::seq::SliceRandom;
use vstd::multiset::Multiset;
use vstd::prelude::*;

verus! {

broadcast use vstd::seq_lib::group_to_multiset_ensures;

/// The state shared by all players: the supply piles and the trash.
///
/// `supply[i]` is the pile of the card whose index is `i`: `None` when that
/// card is not part of this game, `Some(n)` with `n` copies left otherwise.
#[derive(Debug)]
pub struct GameState {
    pub supply: Vec<Option<u64>>,
    pub trash: Vec<Card>,
}

/// One player's zones and per-turn counters. The top of the deck is index 0.
#[derive(Debug)]
pub struct PlayerState {
    pub deck: Vec<Card>,
    pub hand: Vec<Card>,
    pub discard: Vec<Card>,
    pub in_play: Vec<Card>,
    pub actions: u64,
    pub buys: u64,
    pub buying_power: u64,
}

/// What a player holds and its counters, as mathematical values.
pub struct PlayerView {
    pub deck: Seq<Card>,
    pub hand: Seq<Card>,
    pub discard: Seq<Card>,
    pub in_play: Seq<Card>,
    pub actions: u64,
    pub buys: u64,
    pub buying_power: u64,
}

impl PlayerView {
    /// All of the player's cards: deck, hand, discard and in play.
    pub open spec fn zones(self) -> Multiset<Card> {
        self.deck.to_multiset().add(self.hand.to_multiset()).add(self.discard.to_multiset()).add(
            self.in_play.to_multiset(),
        )
    }

    /// The number of cards that can still be drawn.
    pub open spec fn drawable(self) -> int {
        (self.deck.len() + self.discard.len()) as int
    }
}

impl View for PlayerState {
    type V = PlayerView;

    open spec fn view(&self) -> PlayerView {
        PlayerView {
            deck: self.deck@,
            hand: self.hand@,
            discard: self.discard@,
            in_play: self.in_play@,
            actions: self.actions,
            buys: self.buys,
            buying_power: self.buying_power,
        }
    }
}

/// `v1` is `v0` after drawing up to `n` cards into the hand: exactly
/// `min(n, drawable)` cards arrive at the end of the hand; when the deck holds
/// at least `n` cards they are its top `n`, in order. Counters stay.
pub open spec fn drew(v0: PlayerView, v1: PlayerView, n: int) -> bool {
    let k = min(n, v0.drawable());
    &&& v1.hand.len() == v0.hand.len() + k
    &&& v1.hand.subrange(0, v0.hand.len() as int) == v0.hand
    &&& v1.drawable() == v0.drawable() - k
    &&& n <= v0.deck.len() ==> v1.hand == v0.hand + v0.deck.subrange(0, n) && v1.deck
        == v0.deck.subrange(n, v0.deck.len() as int) && v1.discard == v0.discard
    &&& v1.zones() == v0.zones()
    &&& v1.in_play == v0.in_play
    &&& v1.actions == v0.actions
    &&& v1.buys == v0.buys
    &&& v1.buying_power == v0.buying_power
}

/// `s` without its first occurrence of `c` (unchanged if `c` is absent).
pub open spec fn remove_first(s: Seq<Card>, c: Card) -> Seq<Card>
    decreases s.len(),
{
    if s.len() == 0 {
        s
    } else if s[0] == c {
        s.drop_first()
    } else {
        seq![s[0]] + remove_first(s.drop_first(), c)
    }
}

/// `a + b`, capped at `u64::MAX`.
pub open spec fn sat_add(a: u64, b: u64) -> u64 {
    if a + b > u64::MAX {
        u64::MAX
    } else {
        (a + b) as u64
    }
}

pub open spec fn min(a: int, b: int) -> int {
    if a <= b {
        a
    } else {
        b
    }
}

/// The effect of taking one copy of `c` from the supply: the result and the
/// new state `s1`, given the state `s0` before.
pub open spec fn took(s0: GameState, s1: GameState, c: Card, r: Result<(), Error>) -> bool {
    &&& s1.wf()
    &&& s1.trash == s0.trash
    &&& s0.pile(c) is None ==> r == Err::<(), Error>(Error::NotInSupply(c))
    &&& s0.pile(c) == Some(0u64) ==> r == Err::<(), Error>(Error::EmptyPile(c))
    &&& r is Ok <==> (s0.pile(c) is Some && s0.pile(c) != Some(0u64))
    &&& r is Err ==> s1.supply@ == s0.supply@
    &&& r is Ok ==> s1.pile(c) == Some((s0.pile(c)->0 - 1) as u64)
    &&& forall|d: Card| d != c ==> #[trigger] s1.pile(d) == s0.pile(d)
}

/// The effect of buying `c`, player `v0` and state `s0` becoming `v1` and
/// `s1`, with result `r`. The checks come in this order: the card's pile, a
/// buy left, enough buying power.
pub open spec fn bought(c: Card, v0: PlayerView, s0: GameState, v1: PlayerView, s1: GameState, r: Result<(), Error>) -> bool {
    let open = s0.pile(c) is Some && s0.pile(c) != Some(0u64);
    &&& s0.pile(c) is None ==> r == Err::<(), Error>(Error::NotInSupply(c))
    &&& s0.pile(c) == Some(0u64) ==> r == Err::<(), Error>(Error::EmptyPile(c))
    &&& open && v0.buys == 0 ==> r == Err::<(), Error>(Error::NoBuys)
    &&& open && v0.buys > 0 && v0.buying_power < spec_cost(c) ==> r == Err::<(), Error>(
        Error::NotEnoughMoney { need: spec_cost(c), have: v0.buying_power },
    )
    &&& r is Ok <==> (open && v0.buys > 0 && v0.buying_power >= spec_cost(c))
    &&& r is Err ==> v1 == v0 && s1 == s0
    &&& r is Ok ==> took(s0, s1, c, r) && v1 == PlayerView {
        discard: v0.discard.push(c),
        buying_power: (v0.buying_power - spec_cost(c)) as u64,
        buys: (v0.buys - 1) as u64,
        actions: 0,
        ..v0
    }
}

/// Every card is conserved between (`p0`, `s0`) and (`p1`, `s1`): a copy that
/// left the player's zones went to the supply or the trash, and back.
pub open spec fn conserves(p0: PlayerState, s0: GameState, p1: PlayerState, s1: GameState) -> bool {
    forall|d: Card| #[trigger] p1.held(d) + s1.shared(d) == p0.held(d) + s0.shared(d)
}

pub proof fn lemma_contains_push(s: Seq<Card>, x: Card, c: Card)
    ensures
        s.push(x).contains(c) <==> (s.contains(c) || x == c),
{
    if s.push(x).contains(c) && x != c {
        let k = choose|k: int| 0 <= k < s.push(x).len() && s.push(x)[k] == c;
        assert(s[k] == c);
    }
    if s.contains(c) {
        let k = choose|k: int| 0 <= k < s.len() && s[k] == c;
        assert(s.push(x)[k] == c);
    }
    if x == c {
        assert(s.push(x)[s.len() as int] == c);
    }
}

pub proof fn lemma_remove_first_at(s: Seq<Card>, c: Card, i: int)
    requires
        0 <= i < s.len(),
        s[i] == c,
        forall|j: int| 0 <= j < i ==> s[j] != c,
    ensures
        remove_first(s, c) == s.remove(i),
    decreases i,
{
    if i == 0 {
        assert(s.drop_first() =~= s.remove(0));
    } else {
        lemma_remove_first_at(s.drop_first(), c, i - 1);
        assert(seq![s[0]] + s.drop_first().remove(i - 1) =~= s.remove(i));
    }
}

pub proof fn lemma_remove_first_absent(s: Seq<Card>, c: Card)
    requires
        !s.contains(c),
    ensures
        remove_first(s, c) == s,
    decreases s.len(),
{
    if s.len() > 0 {
        assert(s[0] != c);
        assert forall|x: Card| s.drop_first().contains(x) implies s.contains(x) by {
            let k = choose|k: int| 0 <= k < s.drop_first().len() && s.drop_first()[k] == x;
            assert(s[k + 1] == x);
        }
        lemma_remove_first_absent(s.drop_first(), c);
        assert(seq![s[0]] + s.drop_first() =~= s);
    }
}

/// Relies on rand's `SliceRandom::shuffle` (with the thread-local generator):
/// it permutes the cards in place, so the multiset of cards is kept.
#[verifier::external_body]
pub(crate) fn shuffle_cards(v: &mut Vec<Card>)
    ensures
        final(v)@.to_multiset() == old(v)@.to_multiset(),
{
    v.as_mut_slice().shuffle(&mut rand::thread_rng());
}

/// Whether `v` holds `c`.
pub fn contains_card(v: &Vec<Card>, c: Card) -> (r: bool)
    ensures
        r == v@.contains(c),
{
    let mut i: usize = 0;
    while i < v.len()
        invariant
            i <= v@.len(),
            forall|j: int| 0 <= j < i ==> v@[j] != c,
        decreases v@.len() - i,
    {
        if v[i] == c {
            return true;
        }
        i = i + 1;
    }
    false
}

impl GameState {
    pub open spec fn wf(&self) -> bool {
        self.supply@.len() == NUM_CARDS
    }

    /// The pile of card `c` in this game, if it has one.
    pub open spec fn pile(&self, c: Card) -> Option<u64> {
        self.supply@[spec_index(c) as int]
    }

    pub open spec fn supply_count(&self, c: Card) -> int {
        match self.pile(c) {
            Some(n) => n as int,
            None => 0,
        }
    }

    /// Copies of `c` in the supply and in the trash.
    pub open spec fn shared(&self, c: Card) -> int {
        self.supply_count(c) + self.trash@.to_multiset().count(c)
    }

    /// A game state with no piles and an empty trash.
    pub fn new() -> (r: GameState)
        ensures
            r.wf(),
            forall|c: Card| #[trigger] r.pile(c) is None,
            r.trash@.len() == 0,
    {
        let mut supply: Vec<Option<u64>> = Vec::new();
        let mut i: usize = 0;
        while i < NUM_CARDS
            invariant
                i <= NUM_CARDS,
                supply@.len() == i,
                forall|j: int| 0 <= j < i ==> supply@[j] is None,
            decreases NUM_CARDS - i,
        {
            supply.push(None);
            i = i + 1;
        }
        GameState { supply, trash: Vec::new() }
    }

    /// Copies of `c` left in the supply, or `None` if it is not part of this game.
    pub fn count(&self, c: Card) -> (r: Option<u64>)
        requires
            self.wf(),
        ensures
            r == self.pile(c),
    {
        self.supply[c.index()]
    }

    /// Gives card `c` a pile of `n` copies.
    pub fn set_pile(&mut self, c: Card, n: u64)
        requires
            old(self).wf(),
        ensures
            final(self).wf(),
            final(self).pile(c) == Some(n),
            forall|d: Card| d != c ==> #[trigger] final(self).pile(d) == old(self).pile(d),
            final(self).trash == old(self).trash,
    {
        let i = c.index();
        self.supply.set(i, Some(n));
    }

    /// Takes one copy of `c` off its pile.
    pub fn take(&mut self, c: Card) -> (r: Result<(), Error>)
        requires
            old(self).wf(),
        ensures
            took(*old(self), *final(self), c, r),
    {
        let i = c.index();
        match self.supply[i] {
            None => Err(Error::NotInSupply(c)),
            Some(0) => Err(Error::EmptyPile(c)),
            Some(n) => {
                self.supply.set(i, Some(n - 1));
                Ok(())
            },
        }
    }
}

impl PlayerState {
    /// All of the player's cards: deck, hand, discard and in play.
    pub open spec fn zones(&self) -> Multiset<Card> {
        self@.zones()
    }

    pub open spec fn held(&self, c: Card) -> int {
        self.zones().count(c) as int
    }

    /// The number of cards that can still be drawn.
    pub open spec fn drawable(&self) -> int {
        self@.drawable()
    }

    /// A player holding `deck` (top first) and nothing else, with zero counters.
    pub fn new(deck: Vec<Card>) -> (r: PlayerState)
        ensures
            r.deck@ == deck@,
            r.hand@.len() == 0,
            r.discard@.len() == 0,
            r.in_play@.len() == 0,
            r.actions == 0 && r.buys == 0 && r.buying_power == 0,
    {
        PlayerState {
            deck,
            hand: Vec::new(),
            discard: Vec::new(),
            in_play: Vec::new(),
            actions: 0,
            buys: 0,
            buying_power: 0,
        }
    }

    pub fn hand_contains(&self, c: Card) -> (r: bool)
        ensures
            r == self.hand@.contains(c),
    {
        contains_card(&self.hand, c)
    }

    /// Removes the first copy of `c` from the hand; false if there is none.
    pub fn remove_from_hand(&mut self, c: Card) -> (r: bool)
        ensures
            r == old(self).hand@.contains(c),
            final(self).hand@ == remove_first(old(self).hand@, c),
            r ==> final(self).hand@.to_multiset() == old(self).hand@.to_multiset().remove(c),
            final(self).deck == old(self).deck,
            final(self).discard == old(self).discard,
            final(self).in_play == old(self).in_play,
            final(self).actions == old(self).actions,
            final(self).buys == old(self).buys,
            final(self).buying_power == old(self).buying_power,
    {
        let mut i: usize = 0;
        while i < self.hand.len()
            invariant
                i <= self.hand@.len(),
                *self == *old(self),
                forall|j: int| 0 <= j < i ==> self.hand@[j] != c,
            decreases self.hand@.len() - i,
        {
            if self.hand[i] == c {
                proof {
                    lemma_remove_first_at(self.hand@, c, i as int);
                    assert(self.hand@[i as int] == c);
                }
                self.hand.remove(i);
                return true;
            }
            i = i + 1;
        }
        proof {
            assert(!self.hand@.contains(c));
            lemma_remove_first_absent(self.hand@, c);
        }
        false
    }

    /// Moves the first copy of `c` from the hand to the discard pile.
    pub fn discard(&mut self, c: Card) -> (r: Result<(), Error>)
        ensures
            r is Ok <==> old(self).hand@.contains(c),
            r is Err ==> r == Err::<(), Error>(Error::NotInHand(c)) && *final(self) == *old(self),
            r is Ok ==> final(self).hand@ == remove_first(old(self).hand@, c),
            r is Ok ==> final(self).discard@ == old(self).discard@.push(c),
            r is Ok ==> final(self).hand@.len() == old(self).hand@.len() - 1,
            r is Ok ==> final(self).zones() == old(self).zones(),
            final(self).deck == old(self).deck,
            final(self).in_play == old(self).in_play,
            final(self).actions == old(self).actions,
            final(self).buys == old(self).buys,
            final(self).buying_power == old(self).buying_power,
    {
        if !self.hand_contains(c) {
            return Err(Error::NotInHand(c));
        }
        if self.remove_from_hand(c) {
            self.discard.push(c);
            proof {
                assert(old(self).hand@.to_multiset() =~= final(self).hand@.to_multiset().insert(c));
                assert(old(self).hand@.to_multiset().len() == final(self).hand@.to_multiset().len() + 1);
                assert(final(self).zones() =~= old(self).zones());
            }
            Ok(())
        } else {
            Err(Error::NotInHand(c))
        }
    }

    /// Moves the first copy of `c` from the hand into play.
    pub fn put_in_play(&mut self, c: Card) -> (r: Result<(), Error>)
        ensures
            r is Ok <==> old(self).hand@.contains(c),
            r is Err ==> r == Err::<(), Error>(Error::NotInHand(c)) && *final(self) == *old(self),
            r is Ok ==> final(self).hand@ == remove_first(old(self).hand@, c),
            r is Ok ==> final(self).in_play@ == old(self).in_play@.push(c),
            r is Ok ==> final(self).zones() == old(self).zones(),
            final(self).deck == old(self).deck,
            final(self).discard == old(self).discard,
            final(self).actions == old(self).actions,
            final(self).buys == old(self).buys,
            final(self).buying_power == old(self).buying_power,
    {
        if !self.hand_contains(c) {
            return Err(Error::NotInHand(c));
        }
        if self.remove_from_hand(c) {
            self.in_play.push(c);
            proof {
                assert(old(self).hand@.to_multiset() =~= final(self).hand@.to_multiset().insert(c));
                assert(final(self).zones() =~= old(self).zones());
            }
            Ok(())
        } else {
            Err(Error::NotInHand(c))
        }
    }

    /// Moves the first copy of `c` from the hand to the trash.
    pub fn trash(&mut self, state: &mut GameState, c: Card) -> (r: Result<(), Error>)
        ensures
            r is Ok <==> old(self).hand@.contains(c),
            r is Err ==> r == Err::<(), Error>(Error::NotInHand(c)) && *final(self) == *old(self)
                && *final(state) == *old(state),
            r is Ok ==> final(self).hand@ == remove_first(old(self).hand@, c),
            r is Ok ==> final(state).trash@ == old(state).trash@.push(c),
            r is Ok ==> final(self).zones() == old(self).zones().remove(c),
            final(state).supply == old(state).supply,
            forall|d: Card| #[trigger] final(self).held(d) + final(state).shared(d) == old(self).held(d) + old(state).shared(d),
            final(self).deck == old(self).deck,
            final(self).discard == old(self).discard,
            final(self).in_play == old(self).in_play,
            final(self).actions == old(self).actions,
            final(self).buys == old(self).buys,
            final(self).buying_power == old(self).buying_power,
    {
        if !self.hand_contains(c) {
            return Err(Error::NotInHand(c));
        }
        if self.remove_from_hand(c) {
            state.trash.push(c);
            proof {
                assert(old(self).hand@.to_multiset() =~= final(self).hand@.to_multiset().insert(c));
                assert(final(self).zones() =~= old(self).zones().remove(c));
                assert forall|d: Card| #[trigger] final(self).held(d) + final(state).shared(d)
                    == old(self).held(d) + old(state).shared(d) by {
                    assert(final(state).supply_count(d) == old(state).supply_count(d));
                }
            }
            Ok(())
        } else {
            Err(Error::NotInHand(c))
        }
    }

    /// Takes `c` from the supply into the discard pile.
    pub fn gain(&mut self, state: &mut GameState, c: Card) -> (r: Result<(), Error>)
        requires
            old(state).wf(),
        ensures
            took(*old(state), *final(state), c, r),
            r is Err ==> *final(self) == *old(self),
            r is Ok ==> final(self).discard@ == old(self).discard@.push(c),
            conserves(*old(self), *old(state), *final(self), *final(state)),
            final(self).deck == old(self).deck,
            final(self).hand == old(self).hand,
            final(self).in_play == old(self).in_play,
            final(self).actions == old(self).actions,
            final(self).buys == old(self).buys,
            final(self).buying_power == old(self).buying_power,
    {
        let r = state.take(c);
        if r.is_ok() {
            self.discard.push(c);
        }
        proof {
            assert forall|d: Card| #[trigger] final(self).held(d) + final(state).shared(d)
                == old(self).held(d) + old(state).shared(d) by {
                if r is Ok {
                    assert(final(self).zones() =~= old(self).zones().insert(c));
                }
            }
        }
        r
    }

    /// Takes `c` from the supply onto the top of the deck.
    pub fn gain_to_deck(&mut self, state: &mut GameState, c: Card) -> (r: Result<(), Error>)
        requires
            old(state).wf(),
        ensures
            took(*old(state), *final(state), c, r),
            r is Err ==> *final(self) == *old(self),
            r is Ok ==> final(self).deck@ == seq![c] + old(self).deck@,
            conserves(*old(self), *old(state), *final(self), *final(state)),
            final(self).discard == old(self).discard,
            final(self).hand == old(self).hand,
            final(self).in_play == old(self).in_play,
            final(self).actions == old(self).actions,
            final(self).buys == old(self).buys,
            final(self).buying_power == old(self).buying_power,
    {
        let r = state.take(c);
        if r.is_ok() {
            self.deck.insert(0, c);
            assert(self.deck@ =~= seq![c] + old(self).deck@);
        }
        proof {
            assert forall|d: Card| #[trigger] final(self).held(d) + final(state).shared(d)
                == old(self).held(d) + old(state).shared(d) by {
                if r is Ok {
                    assert(final(self).zones() =~= old(self).zones().insert(c));
                }
            }
        }
        r
    }

    /// Takes `c` from the supply into the hand, at its front.
    pub fn gain_to_hand(&mut self, state: &mut GameState, c: Card) -> (r: Result<(), Error>)
        requires
            old(state).wf(),
        ensures
            took(*old(state), *final(state), c, r),
            r is Err ==> *final(self) == *old(self),
            r is Ok ==> final(self).hand@ == seq![c] + old(self).hand@,
            conserves(*old(self), *old(state), *final(self), *final(state)),
            final(self).deck == old(self).deck,
            final(self).discard == old(self).discard,
            final(self).in_play == old(self).in_play,
            final(self).actions == old(self).actions,
            final(self).buys == old(self).buys,
            final(self).buying_power == old(self).buying_power,
    {
        let r = state.take(c);
        if r.is_ok() {
            self.hand.insert(0, c);
            assert(self.hand@ =~= seq![c] + old(self).hand@);
        }
        proof {
            assert forall|d: Card| #[trigger] final(self).held(d) + final(state).shared(d)
                == old(self).held(d) + old(state).shared(d) by {
                if r is Ok {
                    assert(final(self).zones() =~= old(self).zones().insert(c));
                }
            }
        }
        r
    }

    /// Buys `c`: checks its pile, a buy and the buying power, in that order;
    /// on success pays its cost, uses a buy, ends the action phase
    /// (`actions = 0`) and puts the card in the discard pile.
    pub fn buy(&mut self, state: &mut GameState, c: Card) -> (r: Result<(), Error>)
        requires
            old(state).wf(),
        ensures
            final(state).wf(),
            bought(c, old(self)@, *old(state), final(self)@, *final(state), r),
            conserves(*old(self), *old(state), *final(self), *final(state)),
    {
        match state.count(c) {
            None => {
                return Err(Error::NotInSupply(c));
            },
            Some(0) => {
                return Err(Error::EmptyPile(c));
            },
            Some(_) => {},
        }
        if self.buys == 0 {
            return Err(Error::NoBuys);
        }
        let cost = c.cost();
        if self.buying_power < cost {
            return Err(Error::NotEnoughMoney { need: cost, have: self.buying_power });
        }
        let r = self.gain(state, c);
        self.buying_power = self.buying_power - cost;
        self.buys = self.buys - 1;
        self.actions = 0;
        r
    }

    /// Moves the first copy of `c` from play to the trash.
    pub fn trash_from_play(&mut self, state: &mut GameState, c: Card) -> (r: Result<(), Error>)
        ensures
            r is Ok <==> old(self).in_play@.contains(c),
            r is Err ==> r == Err::<(), Error>(Error::NotInHand(c)) && *final(self) == *old(self)
                && *final(state) == *old(state),
            r is Ok ==> final(self).in_play@ == remove_first(old(self).in_play@, c),
            r is Ok ==> final(state).trash@ == old(state).trash@.push(c),
            final(state).supply == old(state).supply,
            conserves(*old(self), *old(state), *final(self), *final(state)),
            final(self).deck == old(self).deck,
            final(self).hand == old(self).hand,
            final(self).discard == old(self).discard,
            final(self).actions == old(self).actions,
            final(self).buys == old(self).buys,
            final(self).buying_power == old(self).buying_power,
    {
        let mut i: usize = 0;
        while i < self.in_play.len() && self.in_play[i] != c
            invariant
                i <= self.in_play@.len(),
                forall|j: int| 0 <= j < i ==> self.in_play@[j] != c,
            decreases self.in_play@.len() - i,
        {
            i = i + 1;
        }
        if i == self.in_play.len() {
            assert(!self.in_play@.contains(c));
            return Err(Error::NotInHand(c));
        }
        proof {
            lemma_remove_first_at(self.in_play@, c, i as int);
            assert(self.in_play@[i as int] == c);
        }
        self.in_play.remove(i);
        state.trash.push(c);
        proof {
            assert(old(self).in_play@.to_multiset() =~= final(self).in_play@.to_multiset().insert(c));
            assert(final(self).zones() =~= old(self).zones().remove(c));
            assert forall|d: Card| #[trigger] final(self).held(d) + final(state).shared(d)
                == old(self).held(d) + old(state).shared(d) by {
                assert(final(state).supply_count(d) == old(state).supply_count(d));
            }
        }
        Ok(())
    }

    /// Removes and returns the top card of the deck. An empty deck is first
    /// refilled with the shuffled discard pile; `None` when both are empty.
    pub fn next_card(&mut self) -> (r: Option<Card>)
        ensures
            r is None <==> old(self).drawable() == 0,
            r is None ==> *final(self) == *old(self),
            r is Some ==> final(self).drawable() == old(self).drawable() - 1,
            old(self).deck@.len() > 0 ==> r == Some(old(self).deck@[0]) && final(self).deck@
                == old(self).deck@.drop_first() && final(self).discard == old(self).discard,
            old(self).deck@.len() == 0 && r is Some ==> final(self).discard@.len() == 0
                && final(self).deck@.to_multiset().insert(r->0) == old(self).discard@.to_multiset(),
            r is Some ==> final(self).zones().insert(r->0) == old(self).zones(),
            final(self).hand == old(self).hand,
            final(self).in_play == old(self).in_play,
            final(self).actions == old(self).actions,
            final(self).buys == old(self).buys,
            final(self).buying_power == old(self).buying_power,
    {
        if self.deck.len() == 0 {
            if self.discard.len() == 0 {
                return None;
            }
            self.deck.append(&mut self.discard);
            shuffle_cards(&mut self.deck);
            assert(self.deck@.to_multiset() == old(self).discard@.to_multiset());
            assert(self.deck@.len() == old(self).discard@.len()) by {
                assert(self.deck@.to_multiset().len() == old(self).discard@.to_multiset().len());
            }
        }
        let c = self.deck.remove(0);
        proof {
            assert(old(self).deck@.len() > 0 ==> old(self).deck@.drop_first() =~= self.deck@);
            let pre = if old(self).deck@.len() > 0 { old(self).deck@ } else { old(self).discard@ };
            assert(pre.to_multiset() =~= self.deck@.to_multiset().insert(c)) by {
                if old(self).deck@.len() > 0 {
                    assert(old(self).deck@.remove(0) =~= self.deck@);
                }
            }
            assert(final(self).zones().insert(c) =~= old(self).zones());
        }
        Some(c)
    }

    /// Draws the top card of the deck into the hand (see `next_card`).
    pub fn draw(&mut self) -> (r: Option<Card>)
        ensures
            r is None <==> old(self).drawable() == 0,
            r is None ==> *final(self) == *old(self),
            r is Some ==> final(self).hand@ == old(self).hand@.push(r->0),
            r is Some ==> final(self).drawable() == old(self).drawable() - 1,
            old(self).deck@.len() == 0 && r is Some ==> final(self).discard@.len() == 0
                && final(self).deck@.to_multiset().insert(r->0) == old(self).discard@.to_multiset(),
            old(self).deck@.len() > 0 ==> r == Some(old(self).deck@[0]) && final(self).deck@
                == old(self).deck@.drop_first() && final(self).discard == old(self).discard,
            final(self).zones() == old(self).zones(),
            final(self).in_play == old(self).in_play,
            final(self).actions == old(self).actions,
            final(self).buys == old(self).buys,
            final(self).buying_power == old(self).buying_power,
    {
        match self.next_card() {
            Some(c) => {
                self.hand.push(c);
                proof {
                    assert(final(self).zones() =~= old(self).zones());
                }
                Some(c)
            },
            None => None,
        }
    }

    /// Draws up to `n` cards into the hand, fewer if deck and discard run out.
    pub fn draw_n(&mut self, n: usize) -> (r: usize)
        ensures
            drew(old(self)@, final(self)@, n as int),
            r == min(n as int, old(self).drawable()),
            final(self).hand@.len() == old(self).hand@.len() + r,
            final(self).hand@.subrange(0, old(self).hand@.len() as int) == old(self).hand@,
            final(self).drawable() == old(self).drawable() - r,
            n <= old(self).deck@.len() ==> final(self).hand@ == old(self).hand@
                + old(self).deck@.subrange(0, n as int) && final(self).deck@ == old(
                self,
            ).deck@.subrange(n as int, old(self).deck@.len() as int) && final(self).discard
                == old(self).discard,
            final(self).zones() == old(self).zones(),
            final(self).in_play == old(self).in_play,
            final(self).actions == old(self).actions,
            final(self).buys == old(self).buys,
            final(self).buying_power == old(self).buying_power,
    {
        let mut drawn: usize = 0;
        let ghost h0 = self.hand@;
        let ghost d0 = self.deck@;
        while drawn < n
            invariant
                drawn <= n,
                drawn <= old(self).drawable(),
                self.hand@.len() == h0.len() + drawn,
                self.hand@.subrange(0, h0.len() as int) == h0,
                self.drawable() == old(self).drawable() - drawn,
                n <= d0.len() ==> self.hand@ == h0 + d0.subrange(0, drawn as int) && self.deck@
                    == d0.subrange(drawn as int, d0.len() as int) && self.discard
                    == old(self).discard,
                h0 == old(self).hand@,
                d0 == old(self).deck@,
                self.zones() == old(self).zones(),
                self.in_play == old(self).in_play,
                self.actions == old(self).actions,
                self.buys == old(self).buys,
                self.buying_power == old(self).buying_power,
            decreases n - drawn,
        {
            let ghost before = self.hand@;
            match self.draw() {
                Some(_) => {
                    proof {
                        assert(self.hand@.subrange(0, h0.len() as int) =~= before.subrange(
                            0,
                            h0.len() as int,
                        ));
                        if n <= d0.len() {
                            assert(self.hand@ =~= h0 + d0.subrange(0, drawn + 1));
                            assert(self.deck@ =~= d0.subrange(drawn + 1, d0.len() as int));
                        }
                    }
                    drawn = drawn + 1;
                },
                None => {
                    return drawn;
                },
            }
        }
        drawn
    }

    /// Moves the whole hand and everything in play to the discard pile.
    pub fn discard_hand(&mut self)
        ensures
            final(self).discard@ == old(self).discard@ + old(self).hand@ + old(self).in_play@,
            final(self).hand@.len() == 0,
            final(self).in_play@.len() == 0,
            final(self).zones() == old(self).zones(),
            final(self).deck == old(self).deck,
            final(self).actions == old(self).actions,
            final(self).buys == old(self).buys,
            final(self).buying_power == old(self).buying_power,
    {
        self.discard.append(&mut self.hand);
        self.discard.append(&mut self.in_play);
        proof {
            vstd::seq_lib::lemma_multiset_commutative(old(self).discard@, old(self).hand@);
            vstd::seq_lib::lemma_multiset_commutative(
                old(self).discard@ + old(self).hand@,
                old(self).in_play@,
            );
            assert(final(self).zones() =~= old(self).zones());
        }
    }

    /// Moves the whole deck to the discard pile.
    pub fn discard_deck(&mut self)
        ensures
            final(self).discard@ == old(self).discard@ + old(self).deck@,
            final(self).deck@.len() == 0,
            final(self).zones() == old(self).zones(),
            final(self).hand == old(self).hand,
            final(self).in_play == old(self).in_play,
            final(self).actions == old(self).actions,
            final(self).buys == old(self).buys,
            final(self).buying_power == old(self).buying_power,
    {
        self.discard.append(&mut self.deck);
        proof {
            vstd::seq_lib::lemma_multiset_commutative(old(self).discard@, old(self).deck@);
            assert(final(self).zones() =~= old(self).zones());
        }
    }
}

} // verus!
