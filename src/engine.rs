//! Decision payloads handed to effects, the game as a whole, and the count of
//! every card in it, which no operation changes.

use crate::card::Card;
use crate::error::Error;
use crate::zones::{GameState, PlayerState, PlayerView, conserves, lemma_remove_first_at, remove_first};
use vstd::prelude::*;

verus! {

broadcast use vstd::seq_lib::group_to_multiset_ensures;

/// A decision payload handed to an effect alongside the play command.
#[derive(Clone, Copy, Debug, PartialEq, Eq, Structural)]
pub enum ActionInput {
    /// Discard a card.
    Discard(Card),
    /// Trash a card.
    Trash(Card),
    /// Gain a card.
    Gain(Card),
    /// Confirm an optional effect, such as discarding the deck with Chancellor.
    Confirm,
    /// Repeat an effect with the given card.
    Repeat(Card),
}

/// Which kind of card payload to collect from a list of inputs.
#[derive(Clone, Copy, Debug, PartialEq, Eq, Structural)]
pub enum InputKind {
    Discard,
    Trash,
    Gain,
    Repeat,
}

/// The card that input `i` carries for payload kind `k`, if any.
pub open spec fn payload(i: ActionInput, k: InputKind) -> Option<Card> {
    match (i, k) {
        (ActionInput::Discard(c), InputKind::Discard) => Some(c),
        (ActionInput::Trash(c), InputKind::Trash) => Some(c),
        (ActionInput::Gain(c), InputKind::Gain) => Some(c),
        (ActionInput::Repeat(c), InputKind::Repeat) => Some(c),
        _ => None,
    }
}

/// The cards of kind `k` among `ins`, in order.
pub open spec fn cards_of(ins: Seq<ActionInput>, k: InputKind) -> Seq<Card>
    decreases ins.len(),
{
    if ins.len() == 0 {
        Seq::empty()
    } else {
        let rest = cards_of(ins.drop_last(), k);
        match payload(ins.last(), k) {
            Some(c) => rest.push(c),
            None => rest,
        }
    }
}

pub open spec fn confirmed(ins: Seq<ActionInput>) -> bool {
    exists|i: int| 0 <= i < ins.len() && ins[i] is Confirm
}

/// `s` after removing the first occurrence of each of `ds`, one after another.
pub open spec fn remove_each(s: Seq<Card>, ds: Seq<Card>) -> Seq<Card>
    decreases ds.len(),
{
    if ds.len() == 0 {
        s
    } else {
        remove_first(remove_each(s, ds.drop_last()), ds.last())
    }
}

/// Each of `ds` is still present when its turn to be removed from `s` comes.
pub open spec fn removable(s: Seq<Card>, ds: Seq<Card>) -> bool
    decreases ds.len(),
{
    ds.len() == 0 || (removable(s, ds.drop_last()) && remove_each(s, ds.drop_last()).contains(
        ds.last(),
    ))
}

impl ActionInput {
    pub fn is_discard(&self) -> (r: bool)
        ensures
            r == (*self is Discard),
    {
        match self {
            ActionInput::Discard(_) => true,
            _ => false,
        }
    }

    pub fn is_trash(&self) -> (r: bool)
        ensures
            r == (*self is Trash),
    {
        match self {
            ActionInput::Trash(_) => true,
            _ => false,
        }
    }

    pub fn is_gain(&self) -> (r: bool)
        ensures
            r == (*self is Gain),
    {
        match self {
            ActionInput::Gain(_) => true,
            _ => false,
        }
    }

    pub fn is_confirm(&self) -> (r: bool)
        ensures
            r == (*self is Confirm),
    {
        match self {
            ActionInput::Confirm => true,
            _ => false,
        }
    }

    pub fn is_repeat(&self) -> (r: bool)
        ensures
            r == (*self is Repeat),
    {
        match self {
            ActionInput::Repeat(_) => true,
            _ => false,
        }
    }

    /// The card that the input names; `None` for `Confirm`.
    pub fn get_card(&self) -> (r: Option<Card>)
        ensures
            r == match *self {
                ActionInput::Discard(c) => Some(c),
                ActionInput::Trash(c) => Some(c),
                ActionInput::Gain(c) => Some(c),
                ActionInput::Repeat(c) => Some(c),
                ActionInput::Confirm => None::<Card>,
            },
    {
        match self {
            ActionInput::Discard(c) => Some(*c),
            ActionInput::Trash(c) => Some(*c),
            ActionInput::Gain(c) => Some(*c),
            ActionInput::Repeat(c) => Some(*c),
            ActionInput::Confirm => None,
        }
    }
}

/// The cards of kind `k` among `ins`, in order.
pub fn collect_cards(ins: &Vec<ActionInput>, k: InputKind) -> (r: Vec<Card>)
    ensures
        r@ == cards_of(ins@, k),
{
    let mut out: Vec<Card> = Vec::new();
    let mut i: usize = 0;
    while i < ins.len()
        invariant
            i <= ins@.len(),
            out@ == cards_of(ins@.subrange(0, i as int), k),
        decreases ins@.len() - i,
    {
        assert(ins@.subrange(0, i + 1).drop_last() =~= ins@.subrange(0, i as int));
        let p = match (ins[i], k) {
            (ActionInput::Discard(c), InputKind::Discard) => Some(c),
            (ActionInput::Trash(c), InputKind::Trash) => Some(c),
            (ActionInput::Gain(c), InputKind::Gain) => Some(c),
            (ActionInput::Repeat(c), InputKind::Repeat) => Some(c),
            _ => None,
        };
        if let Some(c) = p {
            out.push(c);
        }
        i = i + 1;
    }
    assert(ins@.subrange(0, ins@.len() as int) =~= ins@);
    out
}

/// Whether any input is `Confirm`.
pub fn has_confirm(ins: &Vec<ActionInput>) -> (r: bool)
    ensures
        r == confirmed(ins@),
{
    let mut i: usize = 0;
    while i < ins.len()
        invariant
            i <= ins@.len(),
            forall|j: int| 0 <= j < i ==> !(ins@[j] is Confirm),
        decreases ins@.len() - i,
    {
        if ins[i].is_confirm() {
            return true;
        }
        i = i + 1;
    }
    false
}

/// A copy of `v`.
pub fn copy_cards(v: &Vec<Card>) -> (r: Vec<Card>)
    ensures
        r@ == v@,
{
    let mut out: Vec<Card> = Vec::new();
    let mut i: usize = 0;
    while i < v.len()
        invariant
            i <= v@.len(),
            out@ == v@.subrange(0, i as int),
        decreases v@.len() - i,
    {
        out.push(v[i]);
        assert(out@ =~= v@.subrange(0, i + 1));
        i = i + 1;
    }
    assert(v@.subrange(0, v@.len() as int) =~= v@);
    out
}

/// `s` with the first occurrence of each of `ds` removed in turn, or the first
/// card of `ds` that is no longer there.
pub fn try_remove_each(s: &Vec<Card>, ds: &Vec<Card>) -> (r: Result<Vec<Card>, Error>)
    ensures
        r is Ok <==> removable(s@, ds@),
        r is Ok ==> r->Ok_0@ == remove_each(s@, ds@),
        r is Ok ==> r->Ok_0@.to_multiset().add(ds@.to_multiset()) == s@.to_multiset(),
        r is Err ==> r->Err_0 is NotInHand,
{
    let mut cur = copy_cards(s);
    let mut i: usize = 0;
    while i < ds.len()
        invariant
            i <= ds@.len(),
            removable(s@, ds@.subrange(0, i as int)),
            cur@ == remove_each(s@, ds@.subrange(0, i as int)),
            cur@.to_multiset().add(ds@.subrange(0, i as int).to_multiset()) == s@.to_multiset(),
        decreases ds@.len() - i,
    {
        let d = ds[i];
        let ghost pre = ds@.subrange(0, i + 1);
        assert(pre.drop_last() =~= ds@.subrange(0, i as int));
        let mut j: usize = 0;
        while j < cur.len() && cur[j] != d
            invariant
                j <= cur@.len(),
                forall|k: int| 0 <= k < j ==> cur@[k] != d,
            decreases cur@.len() - j,
        {
            j = j + 1;
        }
        if j == cur.len() {
            proof {
                assert(!cur@.contains(d));
                assert(ds@.subrange(0, ds@.len() as int) =~= ds@);
                if removable(s@, ds@) {
                    lemma_removable_prefix(s@, ds@, i as int + 1);
                    assert(pre.last() == d);
                }
            }
            return Err(Error::NotInHand(d));
        }
        proof {
            assert(cur@[j as int] == d);
            lemma_remove_first_at(cur@, d, j as int);
        }
        let ghost before = cur@;
        cur.remove(j);
        proof {
            assert(ds@.subrange(0, i + 1).to_multiset() =~= ds@.subrange(0, i as int).to_multiset().insert(d)) by {
                assert(ds@.subrange(0, i as int).push(d) =~= ds@.subrange(0, i + 1));
            }
            assert(before.to_multiset() =~= cur@.to_multiset().insert(d));
            assert(cur@.to_multiset().add(ds@.subrange(0, i + 1).to_multiset()) =~= s@.to_multiset());
        }
        i = i + 1;
    }
    assert(ds@.subrange(0, ds@.len() as int) =~= ds@);
    Ok(cur)
}

/// Removing the first copy of a card that `s` holds removes one copy from
/// its multiset.
pub proof fn lemma_remove_first_multiset(s: Seq<Card>, x: Card)
    requires
        s.contains(x),
    ensures
        remove_first(s, x).to_multiset() == s.to_multiset().remove(x),
    decreases s.len(),
{
    assert(s.drop_first() =~= s.remove(0));
    assert(s.to_multiset().remove(s[0]) == s.drop_first().to_multiset());
    if s[0] != x {
        let k = choose|k: int| 0 <= k < s.len() && s[k] == x;
        assert(s.drop_first()[k - 1] == x);
        lemma_remove_first_multiset(s.drop_first(), x);
        let t = remove_first(s.drop_first(), x);
        vstd::seq_lib::lemma_multiset_commutative(seq![s[0]], t);
        assert(seq![s[0]].to_multiset() =~= vstd::multiset::Multiset::<Card>::empty().insert(s[0])) by {
            assert(seq![s[0]] =~= Seq::<Card>::empty().push(s[0]));
            assert(Seq::<Card>::empty().to_multiset() =~= vstd::multiset::Multiset::<Card>::empty());
        }
        assert(s.to_multiset() =~= s.drop_first().to_multiset().insert(s[0]));
        assert(remove_first(s, x).to_multiset() =~= s.to_multiset().remove(x));
    }
}

/// When `s` holds every card of `ds` (counting copies), they can all be
/// removed from it one after another, and what remains together with `ds` is
/// `s` again.
pub proof fn lemma_removable_when_held(s: Seq<Card>, ds: Seq<Card>)
    requires
        ds.to_multiset().subset_of(s.to_multiset()),
    ensures
        removable(s, ds),
        remove_each(s, ds).to_multiset().add(ds.to_multiset()) == s.to_multiset(),
    decreases ds.len(),
{
    if ds.len() == 0 {
        assert(ds.to_multiset() =~= vstd::multiset::Multiset::<Card>::empty());
        assert(remove_each(s, ds).to_multiset().add(ds.to_multiset()) =~= s.to_multiset());
    } else {
        let d2 = ds.drop_last();
        let x = ds.last();
        assert(ds =~= d2.push(x));
        assert(ds.to_multiset() =~= d2.to_multiset().insert(x));
        assert(d2.to_multiset().subset_of(s.to_multiset()));
        lemma_removable_when_held(s, d2);
        let rem = remove_each(s, d2);
        assert(ds.to_multiset().count(x) == d2.to_multiset().count(x) + 1);
        assert(s.to_multiset().count(x) >= ds.to_multiset().count(x));
        assert(rem.to_multiset().add(d2.to_multiset()).count(x) == rem.to_multiset().count(x)
            + d2.to_multiset().count(x));
        assert(rem.to_multiset().count(x) > 0);
        assert(rem.contains(x));
        lemma_remove_first_multiset(rem, x);
        assert(remove_each(s, ds).to_multiset().add(ds.to_multiset()) =~= s.to_multiset());
    }
}

/// A prefix of a removable sequence is removable.
proof fn lemma_removable_prefix(s: Seq<Card>, ds: Seq<Card>, n: int)
    requires
        0 <= n <= ds.len(),
        removable(s, ds),
    ensures
        removable(s, ds.subrange(0, n)),
    decreases ds.len(),
{
    if n < ds.len() {
        lemma_removable_prefix(s, ds.drop_last(), n);
        assert(ds.drop_last().subrange(0, n) =~= ds.subrange(0, n));
    } else {
        assert(ds.subrange(0, n) =~= ds);
    }
}

/// The copies of `c` held by all of `ps`.
pub open spec fn players_held(ps: Seq<PlayerState>, c: Card) -> int
    decreases ps.len(),
{
    if ps.len() == 0 {
        0
    } else {
        players_held(ps.drop_last(), c) + ps.last().held(c)
    }
}

pub proof fn lemma_players_held_update(ps: Seq<PlayerState>, i: int, p: PlayerState, c: Card)
    requires
        0 <= i < ps.len(),
    ensures
        players_held(ps.update(i, p), c) == players_held(ps, c) - ps[i].held(c) + p.held(c),
    decreases ps.len(),
{
    if i == ps.len() - 1 {
        assert(ps.update(i, p).drop_last() =~= ps.drop_last());
    } else {
        lemma_players_held_update(ps.drop_last(), i, p, c);
        assert(ps.update(i, p).drop_last() =~= ps.drop_last().update(i, p));
    }
}

/// A game in progress: every player's zones and counters, the shared state,
/// and whose turn it is.
#[derive(Debug)]
pub struct Game {
    pub players: Vec<PlayerState>,
    pub state: GameState,
    pub active: usize,
}

impl Game {
    pub open spec fn wf(&self) -> bool {
        &&& self.state.wf()
        &&& self.active < self.players@.len()
    }

    pub open spec fn active_view(&self) -> PlayerView {
        self.players@[self.active as int]@
    }

    /// The copies of `c` anywhere in the game: in some player's zones, in the
    /// supply or in the trash.
    pub open spec fn total(&self, c: Card) -> int {
        players_held(self.players@, c) + self.state.shared(c)
    }

    /// A game whose first player is active.
    pub fn new(players: Vec<PlayerState>, state: GameState) -> (r: Game)
        requires
            players@.len() > 0,
            state.wf(),
        ensures
            r.wf(),
            r.players == players,
            r.state == state,
            r.active == 0,
    {
        Game { players, state, active: 0 }
    }
}

impl Game {
    /// Seats one more player, holding `deck` (top first) and nothing else;
    /// returns its seat.
    pub fn add_player(&mut self, deck: Vec<Card>) -> (r: usize)
        requires
            old(self).wf(),
            old(self).players@.len() < usize::MAX,
        ensures
            final(self).wf(),
            r == old(self).players@.len(),
            final(self).players@.len() == old(self).players@.len() + 1,
            forall|j: int| 0 <= j < r ==> #[trigger] final(self).players@[j] == old(self).players@[j],
            final(self).players@[r as int]@ == (PlayerView {
                deck: deck@,
                hand: Seq::empty(),
                discard: Seq::empty(),
                in_play: Seq::empty(),
                actions: 0,
                buys: 0,
                buying_power: 0,
            }),
            final(self).players@[r as int]@.zones() == deck@.to_multiset(),
            final(self).state == old(self).state,
            final(self).active == old(self).active,
    {
        let r = self.players.len();
        let p = PlayerState::new(deck);
        proof {
            assert(p.zones() =~= deck@.to_multiset());
            assert(p.hand@ =~= Seq::<Card>::empty());
            assert(p.discard@ =~= Seq::<Card>::empty());
            assert(p.in_play@ =~= Seq::<Card>::empty());
        }
        self.players.push(p);
        r
    }
}

/// No card was created or destroyed between `g0` and `g1`.
pub open spec fn conserved(g0: Game, g1: Game) -> bool {
    forall|c: Card| #[trigger] g1.total(c) == g0.total(c)
}

/// Conservation holds along any sequence of operations: what conserves every
/// card from `g0` to `g1` and from `g1` to `g2` conserves it from `g0` to `g2`.
pub proof fn conservation_chains(g0: Game, g1: Game, g2: Game)
    requires
        conserved(g0, g1),
        conserved(g1, g2),
    ensures
        conserved(g0, g2),
{
    assert forall|c: Card| #[trigger] g2.total(c) == g0.total(c) by {
        assert(g1.total(c) == g0.total(c));
    }
}

/// Replacing player `i` and the shared state by a pair that conserves every
/// card conserves every card in the whole game.
pub proof fn lemma_conserved_update(g0: Game, g1: Game, i: int)
    requires
        0 <= i < g0.players@.len(),
        g1.players@.len() == g0.players@.len(),
        forall|j: int| 0 <= j < g0.players@.len() && j != i ==> g1.players@[j] == g0.players@[j],
        conserves(g0.players@[i], g0.state, g1.players@[i], g1.state),
    ensures
        conserved(g0, g1),
{
    assert(g1.players@ =~= g0.players@.update(i, g1.players@[i]));
    assert forall|c: Card| #[trigger] g1.total(c) == g0.total(c) by {
        lemma_players_held_update(g0.players@, i, g1.players@[i], c);
    }
}

} // verus!
