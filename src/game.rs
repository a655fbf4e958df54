//! Resolving the effect of every Action card: the players' decision policies,
//! attacks and their Moat reactions, and effects that reach other players.
//! Every operation names the game it acts on; the active player is the one
//! whose turn it is.

use crate::card::{Card, is_action, is_money, is_victory, money_value};
use crate::effects::{is_solo, solo_effect, solo_effect_run};
use crate::engine::{
    ActionInput, Game, InputKind, cards_of, collect_cards, conserved, lemma_conserved_update,
    lemma_players_held_update,
};
use crate::error::Error;
use crate::zones::{
    GameState, PlayerState, PlayerView, conserves, contains_card, drew, lemma_contains_push, min,
    remove_first, sat_add,
};
use vstd::prelude::*;

verus! {

broadcast use vstd::seq_lib::group_to_multiset_ensures;

/// A player's decisions that the engine asks for while resolving effects.
/// Each method has a default policy.
pub trait Player {
    /// Whether to reveal Moat to block an attack by `attacker`. By default, always.
    fn moat_should_block(&self, attacker: Card) -> (r: bool) {
        true
    }

    /// Which card to discard while Militia forces the hand down to three
    /// cards. By default, the first card of the hand.
    fn militia_discard(&self, options: &Vec<Card>) -> (r: Card)
        requires
            options@.len() > 0,
    {
        options[0]
    }

    /// Whether to set aside an Action card drawn with Library. By default, always.
    fn library_should_discard(&self, drawn: Card) -> (r: bool) {
        true
    }

    /// Whether the card that Spy reveals from the top of a deck is discarded
    /// (otherwise it goes back on top); `is_self` when it is the player's own
    /// deck. By default, Victory and Curse cards are discarded from one's own
    /// deck and left on the others'.
    fn spy_should_discard(&self, revealed: Card, is_self: bool) -> (r: bool) {
        let worthless = revealed.is_victory() || revealed.is_curse();
        if is_self {
            worthless
        } else {
            !worthless
        }
    }

    /// Which Victory card to put on the deck when Bureaucrat attacks. By
    /// default, the first one.
    fn bureaucrat_use_victory(&self, options: &Vec<Card>) -> (r: Card)
        requires
            options@.len() > 0,
    {
        options[0]
    }

    /// When this player's Thief reveals treasures: which to trash, and
    /// whether to gain it. By default the most valuable one (the first of
    /// equals), gained unless it is a Copper.
    fn thief_trash_and_keep(&self, options: &Vec<Card>) -> (r: (Card, bool))
        requires
            options@.len() > 0,
    {
        let mut best = options[0];
        let mut i: usize = 1;
        while i < options.len()
            invariant
                1 <= i <= options@.len(),
            decreases options@.len() - i,
        {
            let c = options[i];
            if c.is_money() && (!best.is_money() || c.treasure_value() > best.treasure_value()) {
                best = c;
            }
            i = i + 1;
        }
        (best, best != Card::Copper)
    }
}

/// A player that always takes the default decisions.
#[derive(Clone, Copy, Debug)]
pub struct DefaultPlayer;

impl Player for DefaultPlayer {
}

/// The active player after putting `c` in play from the hand and paying for
/// it: a Money card adds its value to the buying power and ends the action
/// phase, an Action card uses one action.
pub open spec fn played(c: Card, v: PlayerView) -> PlayerView {
    PlayerView {
        deck: v.deck,
        hand: remove_first(v.hand, c),
        discard: v.discard,
        in_play: v.in_play.push(c),
        actions: if is_money(c) {
            0
        } else if is_action(c) {
            (v.actions - 1) as u64
        } else {
            v.actions
        },
        buys: v.buys,
        buying_power: if is_money(c) {
            sat_add(v.buying_power, money_value(c))
        } else {
            v.buying_power
        },
    }
}

/// Every player but the active one is as before.
pub open spec fn others_unchanged(g0: Game, g1: Game) -> bool {
    forall|j: int|
        0 <= j < g0.players@.len() && j != g0.active ==> #[trigger] g1.players@[j] == g0.players@[j]
}

/// The shape of the game is kept: same players, same active player, well formed.
pub open spec fn same_table(g0: Game, g1: Game) -> bool {
    &&& g1.wf()
    &&& g1.players@.len() == g0.players@.len()
    &&& g1.active == g0.active
}

/// Militia's attack on one opponent: the hand is discarded down to three
/// cards; nothing else of the player changes.
pub open spec fn discarded_down(v0: PlayerView, v1: PlayerView) -> bool {
    &&& v1.hand.len() == min(v0.hand.len() as int, 3)
    &&& v1.zones() == v0.zones()
    &&& v1.deck == v0.deck
    &&& v1.in_play == v0.in_play
    &&& v1.actions == v0.actions
    &&& v1.buys == v0.buys
    &&& v1.buying_power == v0.buying_power
}

/// Witch's attack on one opponent: a Curse arrives in the discard pile, or
/// nothing changes when the Curse pile cannot give one.
pub open spec fn cursed(v0: PlayerView, v1: PlayerView) -> bool {
    v1 == v0 || v1 == with_curse(v0)
}

/// `v` with a Curse on top of its discard pile.
pub open spec fn with_curse(v: PlayerView) -> PlayerView {
    PlayerView { discard: v.discard.push(Card::Curse), ..v }
}

/// Which players block an attack by `attacker`: a player other than the
/// attacker blocks only while holding Moat, and then as its policy decides.
pub fn attack_blocks<P: Player>(game: &Game, policies: &Vec<P>, attacker: Card) -> (r: Vec<bool>)
    requires
        game.wf(),
        policies@.len() == game.players@.len(),
    ensures
        r@.len() == game.players@.len(),
        !r@[game.active as int],
        forall|j: int| 0 <= j < r@.len() && #[trigger] r@[j] ==> game.players@[j].hand@.contains(Card::Moat),
{
    let mut r: Vec<bool> = Vec::new();
    let mut j: usize = 0;
    while j < game.players.len()
        invariant
            j <= game.players@.len(),
            r@.len() == j,
            policies@.len() == game.players@.len(),
            game.active < game.players@.len(),
            j > game.active ==> !r@[game.active as int],
            forall|k: int| 0 <= k < j && #[trigger] r@[k] ==> game.players@[k].hand@.contains(Card::Moat),
        decreases game.players@.len() - j,
    {
        let b = if j == game.active {
            false
        } else if game.players[j].hand_contains(Card::Moat) {
            policies[j].moat_should_block(attacker)
        } else {
            false
        };
        r.push(b);
        j = j + 1;
    }
    r
}

/// Militia on one player: ask its policy for a card to discard until three remain.
fn militia_discard_down<P: Player>(p: &mut PlayerState, policy: &P) -> (r: Result<(), Error>)
    ensures
        r is Ok ==> discarded_down(old(p)@, final(p)@),
        r is Err ==> r->Err_0 is InvalidChoice,
        old(p).hand@.len() <= 3 ==> r is Ok && *final(p) == *old(p),
        final(p).zones() == old(p).zones(),
        final(p).deck == old(p).deck,
        final(p).in_play == old(p).in_play,
        final(p).actions == old(p).actions,
        final(p).buys == old(p).buys,
        final(p).buying_power == old(p).buying_power,
{
    if p.hand.len() <= 3 {
        return Ok(());
    }
    while p.hand.len() > 3
        invariant
            p.hand@.len() >= min(old(p).hand@.len() as int, 3),
            p.hand@.len() <= old(p).hand@.len(),
            p.zones() == old(p).zones(),
            p.deck == old(p).deck,
            p.in_play == old(p).in_play,
            p.actions == old(p).actions,
            p.buys == old(p).buys,
            p.buying_power == old(p).buying_power,
        decreases p.hand@.len(),
    {
        let choice = policy.militia_discard(&p.hand);
        match p.discard(choice) {
            Ok(()) => {},
            Err(_) => {
                return Err(Error::InvalidChoice(choice));
            },
        }
    }
    Ok(())
}

/// Library: draw until seven cards are in hand or no card is left; each
/// Action card drawn may be set aside, and the set-aside cards are discarded
/// at the end.
pub open spec fn drew_to_seven(v0: PlayerView, v1: PlayerView) -> bool {
    &&& v1.hand.len() >= v0.hand.len()
    &&& v1.hand.subrange(0, v0.hand.len() as int) == v0.hand
    &&& v0.hand.len() >= 7 ==> v1 == v0
    &&& v0.hand.len() < 7 ==> v1.hand.len() <= 7
    &&& v1.hand.len() < 7 ==> v1.deck.len() == 0
    &&& v1.zones() == v0.zones()
    &&& v1.in_play == v0.in_play
    &&& v1.actions == v0.actions
    &&& v1.buys == v0.buys
    &&& v1.buying_power == v0.buying_power
}

/// `v1` is `v0` with Victory card `c` moved from the hand onto the deck.
pub open spec fn topped_with(v0: PlayerView, v1: PlayerView, c: Card) -> bool {
    &&& is_victory(c)
    &&& v0.hand.contains(c)
    &&& v1 == PlayerView { hand: remove_first(v0.hand, c), deck: seq![c] + v0.deck, ..v0 }
}

/// Bureaucrat's attack on one opponent: a Victory card from the hand goes on
/// top of the deck; a hand without one is revealed and nothing changes.
pub open spec fn victory_topped(v0: PlayerView, v1: PlayerView) -> bool {
    &&& (forall|i: int| 0 <= i < v0.hand.len() ==> !is_victory(#[trigger] v0.hand[i])) ==> v1 == v0
    &&& (exists|i: int| 0 <= i < v0.hand.len() && is_victory(#[trigger] v0.hand[i])) ==> exists|c: Card|
        #[trigger] topped_with(v0, v1, c)
}

/// Spy on one player: the top card of the deck is revealed, then discarded
/// or put back; nothing else changes.
pub open spec fn spied(v0: PlayerView, v1: PlayerView) -> bool {
    &&& v1.zones() == v0.zones()
    &&& v1.hand == v0.hand
    &&& v1.in_play == v0.in_play
    &&& v1.actions == v0.actions
    &&& v1.buys == v0.buys
    &&& v1.buying_power == v0.buying_power
    &&& v0.deck.len() > 0 ==> v1.deck == v0.deck || (v1.deck == v0.deck.drop_first() && v1.discard
        == v0.discard.push(v0.deck[0]))
}

/// Thief on one opponent: its top two cards are revealed; treasures among
/// them may leave (to the trash or the attacker), the rest are discarded.
/// Its hand, cards in play and counters stay.
pub open spec fn robbed(v0: PlayerView, v1: PlayerView) -> bool {
    &&& v0.deck.len() >= 2 ==> v1.deck == v0.deck.subrange(2, v0.deck.len() as int)
    &&& v1.hand == v0.hand
    &&& v1.in_play == v0.in_play
    &&& v1.actions == v0.actions
    &&& v1.buys == v0.buys
    &&& v1.buying_power == v0.buying_power
}

/// The player's hand holds no Victory card.
pub open spec fn no_victory(v: PlayerView) -> bool {
    forall|i: int| 0 <= i < v.hand.len() ==> !is_victory(#[trigger] v.hand[i])
}

/// The top two cards of the player's deck hold no treasure.
pub open spec fn no_treasure_on_top(v: PlayerView) -> bool {
    v.deck.len() >= 2 && !is_money(v.deck[0]) && !is_money(v.deck[1])
}

/// The attacker after Thief: the treasures it kept are added to its
/// discard pile; nothing else changes.
pub open spec fn kept_treasures(v0: PlayerView, v1: PlayerView) -> bool {
    &&& v1.discard.len() >= v0.discard.len()
    &&& v1.discard.subrange(0, v0.discard.len() as int) == v0.discard
    &&& forall|i: int| v0.discard.len() <= i < v1.discard.len() ==> is_money(#[trigger] v1.discard[i])
    &&& v1.deck == v0.deck
    &&& v1.hand == v0.hand
    &&& v1.in_play == v0.in_play
    &&& v1.actions == v0.actions
    &&& v1.buys == v0.buys
    &&& v1.buying_power == v0.buying_power
}

/// `v` with the first copy of `c` moved from the hand into play.
pub open spec fn put_in_play_view(v: PlayerView, c: Card) -> PlayerView {
    PlayerView { hand: remove_first(v.hand, c), in_play: v.in_play.push(c), ..v }
}

/// An attack on the opponents of player `a`, in seat order, stopped at seat
/// `f`: every later opponent is as before.
pub open spec fn stopped_at(ps0: Seq<PlayerView>, ps1: Seq<PlayerView>, a: int, f: int) -> bool {
    forall|j: int| f < j < ps0.len() && j != a ==> #[trigger] ps1[j] == ps0[j]
}

/// Every player's view, in seat order.
pub open spec fn views(g: Game) -> Seq<PlayerView> {
    g.players@.map_values(|p: PlayerState| p@)
}

/// `v` with `k` more buying power.
pub open spec fn plus_power(v: PlayerView, k: u64) -> PlayerView {
    PlayerView { buying_power: sat_add(v.buying_power, k), ..v }
}

/// What the effect of Action card `c` other than Throne Room, played by
/// player `a` with inputs `ins`, does to the players (`ps0` to `ps1`) and the
/// shared state (`s0` to `s1`), with result `r`.
pub open spec fn base_effect_post(
    c: Card,
    ins: Seq<ActionInput>,
    a: int,
    ps0: Seq<PlayerView>,
    s0: GameState,
    ps1: Seq<PlayerView>,
    s1: GameState,
    r: Result<(), Error>,
) -> bool {
    if is_solo(c) {
        &&& solo_effect(c, ins, ps0[a], s0, ps1[a], s1, r)
        &&& forall|j: int| 0 <= j < ps0.len() && j != a ==> #[trigger] ps1[j] == ps0[j]
    } else {
        match c {
            Card::Militia => {
                &&& s1 == s0
                &&& ps1[a] == plus_power(ps0[a], 2)
                &&& r is Err ==> r->Err_0 is InvalidChoice
                &&& r is Err ==> exists|f: int| 0 <= f < ps0.len() && f != a && #[trigger] stopped_at(ps0, ps1, a, f)
                &&& (forall|j: int| 0 <= j < ps0.len() && j != a ==> #[trigger] ps0[j].hand.len() <= 3) ==> r is Ok
                &&& forall|j: int| 0 <= j < ps0.len() ==> (#[trigger] ps1[j]).zones() == ps0[j].zones()
                &&& r is Ok ==> forall|j: int|
                    0 <= j < ps0.len() && j != a && !ps0[j].hand.contains(Card::Moat)
                        ==> discarded_down(ps0[j], #[trigger] ps1[j])
                &&& r is Ok ==> forall|j: int|
                    0 <= j < ps0.len() && j != a ==> #[trigger] ps1[j] == ps0[j] || discarded_down(ps0[j], ps1[j])
            },
            Card::Witch => {
                &&& r is Ok
                &&& s1.trash == s0.trash
                &&& drew(ps0[a], ps1[a], 2)
                &&& forall|j: int| 0 <= j < ps0.len() && j != a ==> cursed(ps0[j], #[trigger] ps1[j])
                &&& s0.supply_count(Card::Curse) >= ps0.len() ==> forall|j: int|
                    0 <= j < ps0.len() && j != a && !ps0[j].hand.contains(Card::Curse)
                        && !ps0[j].hand.contains(Card::Moat) ==> #[trigger] ps1[j] == with_curse(ps0[j])
            },
            Card::Bureaucrat => {
                &&& s1.trash == s0.trash
                &&& forall|d: Card| d != Card::Silver ==> #[trigger] s1.pile(d) == s0.pile(d)
                &&& s0.pile(Card::Silver) is Some && s0.pile(Card::Silver) != Some(0u64) ==> ps1[a]
                    == (PlayerView { deck: seq![Card::Silver] + ps0[a].deck, ..ps0[a] }) && s1.pile(
                    Card::Silver,
                ) == Some((s0.pile(Card::Silver)->0 - 1) as u64)
                &&& !(s0.pile(Card::Silver) is Some && s0.pile(Card::Silver) != Some(0u64)) ==> ps1[a]
                    == ps0[a] && s1.supply@ == s0.supply@
                &&& r is Err ==> r->Err_0 is InvalidChoice
                &&& r is Err ==> exists|f: int| 0 <= f < ps0.len() && f != a && #[trigger] stopped_at(ps0, ps1, a, f)
                &&& (forall|j: int| 0 <= j < ps0.len() && j != a ==> no_victory(#[trigger] ps0[j])) ==> r is Ok
                &&& forall|j: int| 0 <= j < ps0.len() ==> (#[trigger] ps1[j]).zones() == ps0[j].zones()
                    || j == a
                &&& r is Ok ==> forall|j: int|
                    0 <= j < ps0.len() && j != a && !ps0[j].hand.contains(Card::Moat) ==> victory_topped(
                        ps0[j],
                        #[trigger] ps1[j],
                    )
                &&& r is Ok ==> forall|j: int|
                    0 <= j < ps0.len() && j != a ==> #[trigger] ps1[j] == ps0[j] || victory_topped(ps0[j], ps1[j])
            },
            Card::Thief => {
                &&& s1.supply == s0.supply
                &&& r is Err ==> r->Err_0 is InvalidChoice
                &&& r is Err ==> exists|f: int| 0 <= f < ps0.len() && f != a && #[trigger] stopped_at(ps0, ps1, a, f)
                &&& (forall|j: int| 0 <= j < ps0.len() && j != a ==> no_treasure_on_top(#[trigger] ps0[j])) ==> r is Ok
                &&& kept_treasures(ps0[a], ps1[a])
                &&& forall|j: int| 0 <= j < ps0.len() && j != a ==> #[trigger] ps1[j] == ps0[j] || robbed(ps0[j], ps1[j])
            },
            Card::Spy => {
                &&& r is Ok
                &&& s1 == s0
                &&& forall|j: int| 0 <= j < ps0.len() && j != a ==> spied(ps0[j], #[trigger] ps1[j])
                &&& ps1[a].hand.len() == ps0[a].hand.len() + min(1, ps0[a].drawable())
                &&& ps1[a].hand.subrange(0, ps0[a].hand.len() as int) == ps0[a].hand
                &&& ps1[a].zones() == ps0[a].zones()
                &&& ps1[a].in_play == ps0[a].in_play
                &&& ps1[a].actions == sat_add(ps0[a].actions, 1)
                &&& ps1[a].buys == ps0[a].buys
                &&& ps1[a].buying_power == ps0[a].buying_power
            },
            Card::Library => {
                &&& r is Ok
                &&& s1 == s0
                &&& drew_to_seven(ps0[a], ps1[a])
                &&& forall|j: int| 0 <= j < ps0.len() && j != a ==> #[trigger] ps1[j] == ps0[j]
            },
            Card::CouncilRoom => {
                &&& r is Ok
                &&& s1 == s0
                &&& drew(PlayerView { buys: sat_add(ps0[a].buys, 1), ..ps0[a] }, ps1[a], 4)
                &&& forall|j: int| 0 <= j < ps0.len() && j != a ==> drew(ps0[j], #[trigger] ps1[j], 1)
            },
            _ => true,
        }
    }
}

/// What the effect of Action card `c`, played by player `a` with inputs
/// `ins`, does to the players (`ps0` to `ps1`) and the shared state (`s0` to
/// `s1`), with result `r`. Throne Room puts the Action card named by the
/// first Repeat payload in play from the hand and resolves its effect twice
/// with the same inputs, stopping at the first error.
pub open spec fn effect_post(
    c: Card,
    ins: Seq<ActionInput>,
    a: int,
    ps0: Seq<PlayerView>,
    s0: GameState,
    ps1: Seq<PlayerView>,
    s1: GameState,
    r: Result<(), Error>,
) -> bool {
    if c == Card::ThroneRoom {
        let rs = cards_of(ins, InputKind::Repeat);
        if rs.len() == 0 {
            r == Err::<(), Error>(Error::NothingToRepeat) && ps1 == ps0 && s1 == s0
        } else if !is_action(rs[0]) || rs[0] == Card::ThroneRoom {
            r == Err::<(), Error>(Error::InvalidChoice(rs[0])) && ps1 == ps0 && s1 == s0
        } else if !ps0[a].hand.contains(rs[0]) {
            r == Err::<(), Error>(Error::NotInHand(rs[0])) && ps1 == ps0 && s1 == s0
        } else {
            let t = rs[0];
            let ps_m = ps0.update(a, put_in_play_view(ps0[a], t));
            exists|ps_x: Seq<PlayerView>, s_x: GameState, r1: Result<(), Error>|
                #[trigger] base_effect_post(t, ins, a, ps_m, s0, ps_x, s_x, r1) && (r1 is Err ==> r == r1
                    && ps1 == ps_x && s1 == s_x) && (r1 is Ok ==> base_effect_post(t, ins, a, ps_x, s_x, ps1, s1, r))
        }
    } else {
        base_effect_post(c, ins, a, ps0, s0, ps1, s1, r)
    }
}

/// Militia's attack: every opponent that does not block discards down to
/// three cards. A blocking player is not touched.
pub fn militia_attack<P: Player>(game: &mut Game, policies: &Vec<P>, blocked: &Vec<bool>) -> (r: Result<(), Error>)
    requires
        old(game).wf(),
        policies@.len() == old(game).players@.len(),
        blocked@.len() == old(game).players@.len(),
    ensures
        same_table(*old(game), *final(game)),
        conserved(*old(game), *final(game)),
        final(game).state == old(game).state,
        final(game).players@[old(game).active as int] == old(game).players@[old(game).active as int],
        forall|j: int|
            0 <= j < blocked@.len() && blocked@[j] ==> #[trigger] final(game).players@[j] == old(
                game,
            ).players@[j],
        forall|j: int|
            0 <= j < blocked@.len() ==> (#[trigger] final(game).players@[j]).zones() == old(
                game,
            ).players@[j].zones(),
        r is Ok ==> forall|j: int|
            0 <= j < blocked@.len() && j != old(game).active && !blocked@[j] ==> discarded_down(
                old(game).players@[j]@,
                #[trigger] final(game).players@[j]@,
            ),
        r is Err ==> r->Err_0 is InvalidChoice,
        r is Err ==> exists|f: int|
            0 <= f < blocked@.len() && f != old(game).active && !blocked@[f] && #[trigger] stopped_at(
                views(*old(game)),
                views(*final(game)),
                old(game).active as int,
                f,
            ),
        (forall|j: int|
            0 <= j < blocked@.len() && j != old(game).active && !blocked@[j]
                ==> #[trigger] old(game).players@[j].hand@.len() <= 3) ==> r is Ok,
{
    let n = game.players.len();
    let mut j: usize = 0;
    while j < n
        invariant
            same_table(*old(game), *game),
            n == game.players@.len(),
            policies@.len() == n,
            blocked@.len() == n,
            j <= n,
            conserved(*old(game), *game),
            game.state == old(game).state,
            forall|k: int| j <= k < n ==> #[trigger] game.players@[k] == old(game).players@[k],
            forall|k: int| 0 <= k < n ==> (#[trigger] game.players@[k]).zones() == old(game).players@[k].zones(),
            forall|k: int|
                0 <= k < j && (k == old(game).active || blocked@[k]) ==> #[trigger] game.players@[k]
                    == old(game).players@[k],
            forall|k: int|
                0 <= k < j && k != old(game).active && !blocked@[k] ==> discarded_down(
                    old(game).players@[k]@,
                    #[trigger] game.players@[k]@,
                ),
        decreases n - j,
    {
        if j != game.active && !blocked[j] {
            let ghost g0 = *game;
            let r = militia_discard_down(&mut game.players[j], &policies[j]);
            proof {
                assert(conserves(g0.players@[j as int], g0.state, game.players@[j as int], game.state));
                lemma_conserved_update(g0, *game, j as int);
            }
            if r.is_err() {
                proof {
                    assert(stopped_at(views(*old(game)), views(*game), old(game).active as int, j as int));
                    assert(old(game).players@[j as int].hand@.len() > 3);
                }
                return r;
            }
        }
        j = j + 1;
    }
    Ok(())
}

/// Witch's attack: every opponent that does not block gains a Curse, while
/// the Curse pile lasts. A blocking player is not touched.
pub fn witch_attack(game: &mut Game, blocked: &Vec<bool>)
    requires
        old(game).wf(),
        blocked@.len() == old(game).players@.len(),
    ensures
        same_table(*old(game), *final(game)),
        conserved(*old(game), *final(game)),
        final(game).state.trash == old(game).state.trash,
        final(game).players@[old(game).active as int] == old(game).players@[old(game).active as int],
        forall|j: int|
            0 <= j < blocked@.len() && blocked@[j] ==> #[trigger] final(game).players@[j] == old(
                game,
            ).players@[j],
        forall|j: int|
            0 <= j < blocked@.len() && j != old(game).active ==> cursed(
                old(game).players@[j]@,
                #[trigger] final(game).players@[j]@,
            ),
        old(game).state.supply_count(Card::Curse) >= blocked@.len() ==> forall|j: int|
            0 <= j < blocked@.len() && j != old(game).active && !blocked@[j]
                ==> #[trigger] final(game).players@[j]@ == with_curse(old(game).players@[j]@),
{
    let n = game.players.len();
    let ghost many = old(game).state.supply_count(Card::Curse) >= n;
    let mut j: usize = 0;
    while j < n
        invariant
            same_table(*old(game), *game),
            n == game.players@.len(),
            blocked@.len() == n,
            j <= n,
            many == (old(game).state.supply_count(Card::Curse) >= n),
            many ==> game.state.supply_count(Card::Curse) >= n - j,
            conserved(*old(game), *game),
            game.state.trash == old(game).state.trash,
            forall|k: int| j <= k < n ==> #[trigger] game.players@[k] == old(game).players@[k],
            forall|k: int|
                0 <= k < j && (k == old(game).active || blocked@[k]) ==> #[trigger] game.players@[k]
                    == old(game).players@[k],
            forall|k: int|
                0 <= k < j && k != old(game).active ==> cursed(
                    old(game).players@[k]@,
                    #[trigger] game.players@[k]@,
                ),
            many ==> forall|k: int|
                0 <= k < j && k != old(game).active && !blocked@[k]
                    ==> #[trigger] game.players@[k]@ == with_curse(old(game).players@[k]@),
        decreases n - j,
    {
        if j != game.active && !blocked[j] {
            let ghost g0 = *game;
            let _ = game.players[j].gain(&mut game.state, Card::Curse);
            proof {
                lemma_conserved_update(g0, *game, j as int);
            }
        }
        j = j + 1;
    }
}

/// Every player but the active one draws `k` cards.
fn others_draw(game: &mut Game, k: usize)
    requires
        old(game).wf(),
    ensures
        same_table(*old(game), *final(game)),
        conserved(*old(game), *final(game)),
        final(game).state == old(game).state,
        final(game).players@[old(game).active as int] == old(game).players@[old(game).active as int],
        forall|j: int|
            0 <= j < old(game).players@.len() && j != old(game).active ==> drew(
                old(game).players@[j]@,
                #[trigger] final(game).players@[j]@,
                k as int,
            ),
{
    let n = game.players.len();
    let mut j: usize = 0;
    while j < n
        invariant
            same_table(*old(game), *game),
            n == game.players@.len(),
            j <= n,
            conserved(*old(game), *game),
            game.state == old(game).state,
            forall|i: int| j <= i < n ==> #[trigger] game.players@[i] == old(game).players@[i],
            j > old(game).active ==> game.players@[old(game).active as int] == old(game).players@[old(
                game,
            ).active as int],
            forall|i: int|
                0 <= i < j && i != old(game).active ==> drew(
                    old(game).players@[i]@,
                    #[trigger] game.players@[i]@,
                    k as int,
                ),
        decreases n - j,
    {
        if j != game.active {
            let ghost g0 = *game;
            game.players[j].draw_n(k);
            proof {
                assert(conserves(g0.players@[j as int], g0.state, game.players@[j as int], game.state));
                lemma_conserved_update(g0, *game, j as int);
            }
        }
        j = j + 1;
    }
}

/// The Victory cards of `hand`.
fn victory_cards(hand: &Vec<Card>) -> (r: Vec<Card>)
    ensures
        forall|c: Card| #[trigger] r@.contains(c) <==> (hand@.contains(c) && is_victory(c)),
        r@.len() > 0 <==> exists|i: int| 0 <= i < hand@.len() && is_victory(#[trigger] hand@[i]),
{
    let mut r: Vec<Card> = Vec::new();
    let mut i: usize = 0;
    while i < hand.len()
        invariant
            i <= hand@.len(),
            forall|c: Card| #[trigger] r@.contains(c) <==> (hand@.subrange(0, i as int).contains(c) && is_victory(c)),
            r@.len() > 0 <==> exists|k: int| 0 <= k < i && is_victory(#[trigger] hand@[k]),
        decreases hand@.len() - i,
    {
        let c = hand[i];
        let ghost r0 = r@;
        if c.is_victory() {
            r.push(c);
        }
        proof {
            assert(hand@.subrange(0, i + 1) =~= hand@.subrange(0, i as int).push(c));
            assert forall|d: Card| #[trigger] r@.contains(d) <==> (hand@.subrange(0, i + 1).contains(d) && is_victory(d)) by {
                lemma_contains_push(hand@.subrange(0, i as int), c, d);
                lemma_contains_push(r0, c, d);
            }
            if r@.len() > 0 && r0.len() == 0 {
                assert(is_victory(hand@[i as int]));
            }
        }
        i = i + 1;
    }
    assert(hand@.subrange(0, hand@.len() as int) =~= hand@);
    r
}

/// Bureaucrat on one player: its policy picks a Victory card from the hand,
/// which goes on top of the deck.
fn top_victory<P: Player>(p: &mut PlayerState, policy: &P) -> (r: Result<(), Error>)
    ensures
        r is Ok ==> victory_topped(old(p)@, final(p)@),
        r is Err ==> r->Err_0 is InvalidChoice && *final(p) == *old(p),
        no_victory(old(p)@) ==> r is Ok && *final(p) == *old(p),
        final(p).zones() == old(p).zones(),
{
    let options = victory_cards(&p.hand);
    if options.len() == 0 {
        return Ok(());
    }
    let c = policy.bureaucrat_use_victory(&options);
    if !contains_card(&options, c) {
        proof {
            let i = choose|i: int| 0 <= i < p.hand@.len() && is_victory(#[trigger] p.hand@[i]);
            assert(is_victory(old(p)@.hand[i]));
        }
        return Err(Error::InvalidChoice(c));
    }
    let ghost v0 = p@;
    let _ = p.remove_from_hand(c);
    p.deck.insert(0, c);
    proof {
        assert(p.deck@ =~= seq![c] + v0.deck);
        assert(p@ =~= (PlayerView { hand: remove_first(v0.hand, c), deck: seq![c] + v0.deck, ..v0 }));
        assert(topped_with(v0, p@, c));
        assert(v0.hand.to_multiset() =~= p.hand@.to_multiset().insert(c));
        assert(p.zones() =~= old(p).zones());
    }
    Ok(())
}

/// Bureaucrat's attack: every opponent that does not block puts a Victory
/// card from its hand on top of its deck. A blocking player is not touched.
pub fn bureaucrat_attack<P: Player>(game: &mut Game, policies: &Vec<P>, blocked: &Vec<bool>) -> (r: Result<(), Error>)
    requires
        old(game).wf(),
        policies@.len() == old(game).players@.len(),
        blocked@.len() == old(game).players@.len(),
    ensures
        same_table(*old(game), *final(game)),
        conserved(*old(game), *final(game)),
        final(game).state == old(game).state,
        final(game).players@[old(game).active as int] == old(game).players@[old(game).active as int],
        forall|j: int|
            0 <= j < blocked@.len() && blocked@[j] ==> #[trigger] final(game).players@[j] == old(
                game,
            ).players@[j],
        forall|j: int|
            0 <= j < blocked@.len() ==> (#[trigger] final(game).players@[j]).zones() == old(
                game,
            ).players@[j].zones(),
        r is Ok ==> forall|j: int|
            0 <= j < blocked@.len() && j != old(game).active && !blocked@[j] ==> victory_topped(
                old(game).players@[j]@,
                #[trigger] final(game).players@[j]@,
            ),
        r is Err ==> r->Err_0 is InvalidChoice,
        r is Err ==> exists|f: int|
            0 <= f < blocked@.len() && f != old(game).active && !blocked@[f] && #[trigger] stopped_at(
                views(*old(game)),
                views(*final(game)),
                old(game).active as int,
                f,
            ),
        (forall|j: int|
            0 <= j < blocked@.len() && j != old(game).active && !blocked@[j] ==> no_victory(
                #[trigger] old(game).players@[j]@,
            )) ==> r is Ok,
{
    let n = game.players.len();
    let mut j: usize = 0;
    while j < n
        invariant
            same_table(*old(game), *game),
            n == game.players@.len(),
            policies@.len() == n,
            blocked@.len() == n,
            j <= n,
            conserved(*old(game), *game),
            game.state == old(game).state,
            forall|k: int| j <= k < n ==> #[trigger] game.players@[k] == old(game).players@[k],
            forall|k: int| 0 <= k < n ==> (#[trigger] game.players@[k]).zones() == old(game).players@[k].zones(),
            forall|k: int|
                0 <= k < j && (k == old(game).active || blocked@[k]) ==> #[trigger] game.players@[k]
                    == old(game).players@[k],
            forall|k: int|
                0 <= k < j && k != old(game).active && !blocked@[k] ==> victory_topped(
                    old(game).players@[k]@,
                    #[trigger] game.players@[k]@,
                ),
        decreases n - j,
    {
        if j != game.active && !blocked[j] {
            let ghost g0 = *game;
            let r = top_victory(&mut game.players[j], &policies[j]);
            proof {
                assert(conserves(g0.players@[j as int], g0.state, game.players@[j as int], game.state));
                lemma_conserved_update(g0, *game, j as int);
            }
            if r.is_err() {
                proof {
                    assert(stopped_at(views(*old(game)), views(*game), old(game).active as int, j as int));
                    assert(!no_victory(old(game).players@[j as int]@));
                }
                return r;
            }
        }
        j = j + 1;
    }
    Ok(())
}

/// Spy on one player: its top card is revealed and, as `policy` decides,
/// discarded or put back.
fn spy_reveal<P: Player>(p: &mut PlayerState, policy: &P, is_self: bool)
    ensures
        spied(old(p)@, final(p)@),
{
    let ghost v0 = p@;
    match p.next_card() {
        Some(c) => {
            if policy.spy_should_discard(c, is_self) {
                p.discard.push(c);
                proof {
                    assert(p.zones() =~= old(p).zones());
                }
            } else {
                p.deck.insert(0, c);
                proof {
                    assert(p.zones() =~= old(p).zones());
                    if v0.deck.len() > 0 {
                        assert(p.deck@ =~= v0.deck);
                    }
                }
            }
        },
        None => {},
    }
}

/// Spy's attack: every opponent that does not block has its top card
/// revealed, and the attacker's policy has it discarded or put back.
pub fn spy_attack<P: Player>(game: &mut Game, policies: &Vec<P>, blocked: &Vec<bool>)
    requires
        old(game).wf(),
        policies@.len() == old(game).players@.len(),
        blocked@.len() == old(game).players@.len(),
    ensures
        same_table(*old(game), *final(game)),
        conserved(*old(game), *final(game)),
        final(game).state == old(game).state,
        final(game).players@[old(game).active as int] == old(game).players@[old(game).active as int],
        forall|j: int|
            0 <= j < blocked@.len() && blocked@[j] ==> #[trigger] final(game).players@[j] == old(
                game,
            ).players@[j],
        forall|j: int|
            0 <= j < blocked@.len() && j != old(game).active ==> spied(
                old(game).players@[j]@,
                #[trigger] final(game).players@[j]@,
            ),
{
    let n = game.players.len();
    let a = game.active;
    let mut j: usize = 0;
    while j < n
        invariant
            same_table(*old(game), *game),
            n == game.players@.len(),
            policies@.len() == n,
            blocked@.len() == n,
            j <= n,
            a == old(game).active,
            conserved(*old(game), *game),
            game.state == old(game).state,
            forall|k: int| j <= k < n ==> #[trigger] game.players@[k] == old(game).players@[k],
            forall|k: int|
                0 <= k < j && (k == old(game).active || blocked@[k]) ==> #[trigger] game.players@[k]
                    == old(game).players@[k],
            forall|k: int|
                0 <= k < j && k != old(game).active ==> spied(
                    old(game).players@[k]@,
                    #[trigger] game.players@[k]@,
                ),
        decreases n - j,
    {
        if j != a && !blocked[j] {
            let ghost g0 = *game;
            spy_reveal(&mut game.players[j], &policies[a], false);
            proof {
                assert(conserves(g0.players@[j as int], g0.state, game.players@[j as int], game.state));
                lemma_conserved_update(g0, *game, j as int);
            }
        }
        j = j + 1;
    }
}

/// Thief on one player: its top two cards are revealed; of the treasures
/// among them, the attacker's `policy` picks one to trash, or to take
/// (returned); the other revealed cards are discarded.
fn thief_reveal<P: Player>(p: &mut PlayerState, state: &mut GameState, policy: &P) -> (r: Result<Option<Card>, Error>)
    requires
        old(state).wf(),
    ensures
        final(state).wf(),
        final(state).supply == old(state).supply,
        forall|d: Card|
            #[trigger] final(p).held(d) + final(state).shared(d) + (if r == Ok::<Option<Card>, Error>(Some(d)) { 1int } else { 0int })
                == old(p).held(d) + old(state).shared(d),
        r matches Ok(Some(c)) ==> is_money(c),
        r is Err ==> r->Err_0 is InvalidChoice,
        robbed(old(p)@, final(p)@),
        no_treasure_on_top(old(p)@) ==> r == Ok::<Option<Card>, Error>(None) && *final(state) == *old(state)
            && final(p).discard@ == old(p).discard@ + old(p).deck@.subrange(0, 2),
{
    let mut money: Vec<Card> = Vec::new();
    let mut k: usize = 0;
    while k < 2
        invariant
            k <= 2,
            old(p).deck@.len() >= 2 ==> p.deck@ == old(p).deck@.subrange(k as int, old(p).deck@.len() as int),
            no_treasure_on_top(old(p)@) ==> money@.len() == 0 && p.discard@ == old(p).discard@
                + old(p).deck@.subrange(0, k as int),
            forall|i: int| 0 <= i < money@.len() ==> is_money(#[trigger] money@[i]),
            p.zones().add(money@.to_multiset()) == old(p).zones(),
            p.hand == old(p).hand,
            p.in_play == old(p).in_play,
            p.actions == old(p).actions,
            p.buys == old(p).buys,
            p.buying_power == old(p).buying_power,
        decreases 2 - k,
    {
        let ghost before = *p;
        let ghost m0 = money@;
        match p.next_card() {
            Some(c) => {
                if c.is_money() {
                    money.push(c);
                    proof {
                        assert(p.zones().add(money@.to_multiset()) =~= before.zones().add(m0.to_multiset()));
                    }
                } else {
                    p.discard.push(c);
                    proof {
                        assert(p.zones() =~= before.zones());
                    }
                }
            },
            None => {},
        }
        k = k + 1;
    }
    if money.len() == 0 {
        proof {
            assert(money@.to_multiset() =~= vstd::multiset::Multiset::<Card>::empty());
            assert(p.zones() =~= old(p).zones());
        }
        return Ok(None);
    }
    let (chosen, keep) = policy.thief_trash_and_keep(&money);
    let mut i: usize = 0;
    while i < money.len() && money[i] != chosen
        invariant
            i <= money@.len(),
            forall|j: int| 0 <= j < i ==> money@[j] != chosen,
        decreases money@.len() - i,
    {
        i = i + 1;
    }
    let ghost d0 = p.discard@;
    if i == money.len() {
        let ghost m = money@;
        p.discard.append(&mut money);
        proof {
            vstd::seq_lib::lemma_multiset_commutative(d0, m);
            assert(p.zones() =~= old(p).zones());
        }
        return Err(Error::InvalidChoice(chosen));
    }
    let ghost m = money@;
    let taken = money.remove(i);
    proof {
        assert(taken == chosen);
        assert(m.to_multiset() =~= money@.to_multiset().insert(chosen));
        assert(is_money(m[i as int]));
    }
    let ghost rest = money@;
    p.discard.append(&mut money);
    proof {
        vstd::seq_lib::lemma_multiset_commutative(d0, rest);
        assert(p.zones().insert(chosen) =~= old(p).zones());
    }
    if keep {
        Ok(Some(chosen))
    } else {
        state.trash.push(chosen);
        proof {
            assert forall|d: Card| #[trigger] final(p).held(d) + final(state).shared(d)
                == old(p).held(d) + old(state).shared(d) by {
                assert(final(state).supply_count(d) == old(state).supply_count(d));
            }
        }
        Ok(None)
    }
}

/// Thief's attack: every opponent that does not block reveals its top two
/// cards, and the attacker trashes or takes one of the treasures among them.
pub fn thief_attack<P: Player>(game: &mut Game, policies: &Vec<P>, blocked: &Vec<bool>) -> (r: Result<(), Error>)
    requires
        old(game).wf(),
        policies@.len() == old(game).players@.len(),
        blocked@.len() == old(game).players@.len(),
    ensures
        same_table(*old(game), *final(game)),
        conserved(*old(game), *final(game)),
        final(game).state.supply == old(game).state.supply,
        kept_treasures(old(game).players@[old(game).active as int]@, final(game).players@[old(game).active as int]@),
        forall|j: int|
            0 <= j < blocked@.len() && j != old(game).active && blocked@[j] ==> #[trigger] final(game).players@[j]
                == old(game).players@[j],
        forall|j: int|
            0 <= j < blocked@.len() && j != old(game).active ==> #[trigger] final(game).players@[j]
                == old(game).players@[j] || robbed(old(game).players@[j]@, final(game).players@[j]@),
        r is Err ==> r->Err_0 is InvalidChoice,
        r is Err ==> exists|f: int|
            0 <= f < blocked@.len() && f != old(game).active && !blocked@[f] && #[trigger] stopped_at(
                views(*old(game)),
                views(*final(game)),
                old(game).active as int,
                f,
            ),
        (forall|j: int|
            0 <= j < blocked@.len() && j != old(game).active && !blocked@[j] ==> no_treasure_on_top(
                #[trigger] old(game).players@[j]@,
            )) ==> r is Ok,
{
    let n = game.players.len();
    let a = game.active;
    assert(game.players@[a as int]@.discard.subrange(0, game.players@[a as int]@.discard.len() as int)
        =~= game.players@[a as int]@.discard);
    let mut j: usize = 0;
    while j < n
        invariant
            same_table(*old(game), *game),
            n == game.players@.len(),
            policies@.len() == n,
            blocked@.len() == n,
            j <= n,
            a == old(game).active,
            conserved(*old(game), *game),
            game.state.supply == old(game).state.supply,
            kept_treasures(old(game).players@[a as int]@, game.players@[a as int]@),
            forall|k: int| j <= k < n && k != a ==> #[trigger] game.players@[k] == old(game).players@[k],
            forall|k: int|
                0 <= k < j && k != a && blocked@[k] ==> #[trigger] game.players@[k] == old(game).players@[k],
            forall|k: int| 0 <= k < j && k != a ==> #[trigger] game.players@[k] == old(game).players@[k] || robbed(old(game).players@[k]@, game.players@[k]@),
        decreases n - j,
    {
        if j != a && !blocked[j] {
            let ghost g0 = *game;
            let r = thief_reveal(&mut game.players[j], &mut game.state, &policies[a]);
            let ghost g1 = *game;
            proof {
                assert forall|c: Card| #[trigger] g1.total(c) + (if r == Ok::<Option<Card>, Error>(Some(c)) { 1int } else { 0int }) == g0.total(c) by {
                    lemma_players_held_update(g0.players@, j as int, g1.players@[j as int], c);
                    assert(g1.players@ =~= g0.players@.update(j as int, g1.players@[j as int]));
                }
            }
            match r {
                Ok(Some(c)) => {
                    let ghost v0 = game.players@[a as int]@;
                    game.players[a].discard.push(c);
                    proof {
                        assert(game.players@[a as int].zones() =~= g1.players@[a as int].zones().insert(c));
                        assert(game.players@ =~= g1.players@.update(a as int, game.players@[a as int]));
                        assert forall|d: Card| #[trigger] game.total(d) == g0.total(d) by {
                            lemma_players_held_update(g1.players@, a as int, game.players@[a as int], d);
                            assert(g1.total(d) + (if r == Ok::<Option<Card>, Error>(Some(d)) { 1int } else { 0int }) == g0.total(d));
                            assert(game.players@[a as int].held(d) == g1.players@[a as int].held(d) + if c == d { 1int } else { 0int });
                            assert(game.state == g1.state);
                        }
                        let va = old(game).players@[a as int]@;
                        assert(game.players@[a as int]@.discard.subrange(0, va.discard.len() as int) =~= v0.discard.subrange(0, va.discard.len() as int));
                    }
                },
                Ok(None) => {},
                Err(e) => {
                    proof {
                        assert(stopped_at(views(*old(game)), views(*game), old(game).active as int, j as int));
                        assert(!no_treasure_on_top(old(game).players@[j as int]@));
                    }
                    return Err(e);
                },
            }
        }
        j = j + 1;
    }
    Ok(())
}

/// Library (see `drew_to_seven`), with `policy` deciding which Action cards
/// to set aside.
fn do_library<P: Player>(p: &mut PlayerState, policy: &P)
    ensures
        drew_to_seven(old(p)@, final(p)@),
{
    let ghost h0 = p.hand@;
    let mut aside: Vec<Card> = Vec::new();
    let mut exhausted = false;
    while p.hand.len() < 7 && !exhausted
        invariant
            h0 == old(p).hand@,
            p.hand@.len() >= h0.len(),
            h0.len() < 7 ==> p.hand@.len() <= 7,
            h0.len() >= 7 ==> *p == *old(p) && aside@.len() == 0,
            p.hand@.subrange(0, h0.len() as int) == h0,
            exhausted ==> p.deck@.len() == 0 && p.discard@.len() == 0,
            p.zones().add(aside@.to_multiset()) == old(p).zones(),
            p.in_play == old(p).in_play,
            p.actions == old(p).actions,
            p.buys == old(p).buys,
            p.buying_power == old(p).buying_power,
        decreases p.drawable() + if exhausted { 0int } else { 1int },
    {
        let ghost before = *p;
        let ghost aside0 = aside@;
        match p.draw() {
            Some(c) => {
                if c.is_action() && policy.library_should_discard(c) {
                    let top = p.hand.pop();
                    proof {
                        assert(top == Some(c));
                        assert(p.hand@ =~= before.hand@);
                    }
                    aside.push(c);
                    proof {
                        assert(p.zones().insert(c) =~= before.zones());
                        assert(p.zones().add(aside@.to_multiset()) =~= before.zones().add(aside0.to_multiset()));
                    }
                } else {
                    proof {
                        assert(p.hand@.subrange(0, h0.len() as int) =~= before.hand@.subrange(0, h0.len() as int));
                    }
                }
            },
            None => {
                exhausted = true;
            },
        }
    }
    let ghost a = aside@;
    let ghost d = p.discard@;
    p.discard.append(&mut aside);
    proof {
        vstd::seq_lib::lemma_multiset_commutative(d, a);
        assert(p.zones() =~= old(p).zones());
        if h0.len() >= 7 {
            assert(a.len() == 0);
            assert(p.discard@ =~= d);
        }
    }
}

/// Resolves the effect of Action card `c`, other than Throne Room, for the
/// active player.
fn resolve_base_effect<P: Player>(game: &mut Game, policies: &Vec<P>, c: Card, inputs: &Vec<ActionInput>) -> (r: Result<(), Error>)
    requires
        old(game).wf(),
        policies@.len() == old(game).players@.len(),
        c != Card::ThroneRoom,
    ensures
        same_table(*old(game), *final(game)),
        conserved(*old(game), *final(game)),
        base_effect_post(c, inputs@, old(game).active as int, views(*old(game)), old(game).state, views(*final(game)), final(game).state, r),
{
    let a = game.active;
    let ghost g0 = *game;
    let ghost a0 = a as int;
    match c {
        Card::Militia => {
            game.players[a].buying_power = game.players[a].buying_power.saturating_add(2);
            let ghost g1 = *game;
            proof {
                assert(conserves(g0.players@[a0], g0.state, g1.players@[a0], g1.state));
                lemma_conserved_update(g0, g1, a0);
            }
            let blocked = attack_blocks(game, policies, c);
            let r = militia_attack(game, policies, &blocked);
            proof {
                if r is Err {
                    let f = choose|f: int|
                        0 <= f < blocked@.len() && f != a0 && !blocked@[f] && #[trigger] stopped_at(
                            views(g1),
                            views(*game),
                            a0,
                            f,
                        );
                    assert forall|j: int| f < j < g0.players@.len() && j != a0 implies #[trigger] views(*game)[j]
                        == views(g0)[j] by {
                        assert(g1.players@[j] == g0.players@[j]);
                    }
                    assert(stopped_at(views(g0), views(*game), a0, f));
                }
                assert forall|j: int| r is Ok && 0 <= j < g0.players@.len() && j != a0 implies #[trigger] views(*game)[j]
                    == views(g0)[j] || discarded_down(views(g0)[j], views(*game)[j]) by {
                    assert(g1.players@[j] == g0.players@[j]);
                    if blocked@[j] {
                        assert(game.players@[j] == g1.players@[j]);
                    }
                }
                if forall|j: int| 0 <= j < g0.players@.len() && j != a0 ==> #[trigger] views(g0)[j].hand.len() <= 3 {
                    assert forall|j: int| 0 <= j < blocked@.len() && j != a0 && !blocked@[j]
                        implies #[trigger] g1.players@[j].hand@.len() <= 3 by {
                        assert(g1.players@[j] == g0.players@[j]);
                        assert(views(g0)[j].hand.len() <= 3);
                    }
                }
                assert forall|j: int| 0 <= j < g0.players@.len() && j != a0 && !views(g0)[j].hand.contains(Card::Moat)
                    implies !blocked@[j] by {
                    if blocked@[j] {
                        assert(g1.players@[j].hand@.contains(Card::Moat));
                    }
                }
                assert forall|j: int| 0 <= j < g0.players@.len() implies (#[trigger] views(*game)[j]).zones()
                    == views(g0)[j].zones() by {
                    assert(g1.players@[j].zones() == g0.players@[j].zones());
                }
            }
            r
        },
        Card::Witch => {
            game.players[a].draw_n(2);
            let ghost g1 = *game;
            proof {
                assert(conserves(g0.players@[a0], g0.state, g1.players@[a0], g1.state));
                lemma_conserved_update(g0, g1, a0);
            }
            let blocked = attack_blocks(game, policies, c);
            witch_attack(game, &blocked);
            proof {
                assert forall|j: int| 0 <= j < g0.players@.len() && j != a0 && !views(g0)[j].hand.contains(Card::Moat)
                    implies !blocked@[j] by {
                    if blocked@[j] {
                        assert(g1.players@[j].hand@.contains(Card::Moat));
                    }
                }
                assert forall|j: int| 0 <= j < g0.players@.len() && j != a0 implies cursed(views(g0)[j], #[trigger] views(*game)[j]) by {
                    assert(g1.players@[j] == g0.players@[j]);
                }
            }
            Ok(())
        },
        Card::Bureaucrat => {
            let _ = game.players[a].gain_to_deck(&mut game.state, Card::Silver);
            let ghost g1 = *game;
            proof {
                lemma_conserved_update(g0, g1, a0);
            }
            let blocked = attack_blocks(game, policies, c);
            let r = bureaucrat_attack(game, policies, &blocked);
            proof {
                assert forall|j: int| 0 <= j < g0.players@.len() && j != a0 && !views(g0)[j].hand.contains(Card::Moat)
                    implies !blocked@[j] by {
                    if blocked@[j] {
                        assert(g1.players@[j].hand@.contains(Card::Moat));
                    }
                }
                assert forall|j: int| 0 <= j < g0.players@.len() implies (#[trigger] views(*game)[j]).zones()
                    == views(g0)[j].zones() || j == a0 by {
                    if j != a0 {
                        assert(g1.players@[j] == g0.players@[j]);
                    }
                }
                assert forall|j: int| 0 <= j < g0.players@.len() && j != a0 && !views(g0)[j].hand.contains(Card::Moat)
                    && r is Ok implies victory_topped(views(g0)[j], #[trigger] views(*game)[j]) by {
                    assert(g1.players@[j] == g0.players@[j]);
                }
                if g0.state.pile(Card::Silver) is Some && g0.state.pile(Card::Silver) != Some(0u64) {
                    assert(g1.players@[a0]@ =~= (PlayerView { deck: seq![Card::Silver] + g0.players@[a0]@.deck, ..g0.players@[a0]@ }));
                }
                if r is Err {
                    let f = choose|f: int|
                        0 <= f < blocked@.len() && f != a0 && !blocked@[f] && #[trigger] stopped_at(
                            views(g1),
                            views(*game),
                            a0,
                            f,
                        );
                    assert forall|j: int| f < j < g0.players@.len() && j != a0 implies #[trigger] views(*game)[j]
                        == views(g0)[j] by {
                        assert(g1.players@[j] == g0.players@[j]);
                    }
                    assert(stopped_at(views(g0), views(*game), a0, f));
                }
                if forall|j: int| 0 <= j < g0.players@.len() && j != a0 ==> no_victory(#[trigger] views(g0)[j]) {
                    assert forall|j: int| 0 <= j < blocked@.len() && j != a0 && !blocked@[j]
                        implies no_victory(#[trigger] g1.players@[j]@) by {
                        assert(g1.players@[j] == g0.players@[j]);
                        assert(no_victory(views(g0)[j]));
                    }
                }
                assert forall|j: int| r is Ok && 0 <= j < g0.players@.len() && j != a0 implies #[trigger] views(*game)[j]
                    == views(g0)[j] || victory_topped(views(g0)[j], views(*game)[j]) by {
                    assert(g1.players@[j] == g0.players@[j]);
                    if blocked@[j] {
                        assert(game.players@[j] == g1.players@[j]);
                    }
                }
            }
            r
        },
        Card::Thief => {
            let blocked = attack_blocks(game, policies, c);
            let r = thief_attack(game, policies, &blocked);
            proof {
                assert forall|j: int| 0 <= j < g0.players@.len() && j != a0 implies #[trigger] views(*game)[j] == views(g0)[j] || robbed(views(g0)[j], views(*game)[j]) by {}
                if r is Err {
                    let f = choose|f: int|
                        0 <= f < blocked@.len() && f != a0 && !blocked@[f] && #[trigger] stopped_at(
                            views(g0),
                            views(*game),
                            a0,
                            f,
                        );
                    assert(stopped_at(views(g0), views(*game), a0, f));
                }
                if forall|j: int| 0 <= j < g0.players@.len() && j != a0 ==> no_treasure_on_top(#[trigger] views(g0)[j]) {
                    assert forall|j: int| 0 <= j < blocked@.len() && j != a0 && !blocked@[j]
                        implies no_treasure_on_top(#[trigger] g0.players@[j]@) by {
                        assert(no_treasure_on_top(views(g0)[j]));
                    }
                }
            }
            r
        },
        Card::Spy => {
            let blocked = attack_blocks(game, policies, c);
            spy_attack(game, policies, &blocked);
            let ghost g1 = *game;
            game.players[a].draw_n(1);
            game.players[a].actions = game.players[a].actions.saturating_add(1);
            spy_reveal(&mut game.players[a], &policies[a], true);
            proof {
                assert(conserves(g1.players@[a0], g1.state, game.players@[a0], game.state));
                lemma_conserved_update(g1, *game, a0);
                assert forall|j: int| 0 <= j < g0.players@.len() && j != a0 implies spied(views(g0)[j], #[trigger] views(*game)[j]) by {
                    assert(game.players@[j] == g1.players@[j]);
                }
            }
            Ok(())
        },
        Card::Library => {
            do_library(&mut game.players[a], &policies[a]);
            proof {
                assert(conserves(g0.players@[a0], g0.state, game.players@[a0], game.state));
                lemma_conserved_update(g0, *game, a0);
            }
            Ok(())
        },
        Card::CouncilRoom => {
            game.players[a].buys = game.players[a].buys.saturating_add(1);
            game.players[a].draw_n(4);
            let ghost g1 = *game;
            proof {
                assert(conserves(g0.players@[a0], g0.state, g1.players@[a0], g1.state));
                lemma_conserved_update(g0, g1, a0);
            }
            others_draw(game, 1);
            proof {
                assert forall|j: int| 0 <= j < g0.players@.len() && j != a0 implies drew(views(g0)[j], #[trigger] views(*game)[j], 1) by {
                    assert(g1.players@[j] == g0.players@[j]);
                }
            }
            Ok(())
        },
        _ => {
            if is_solo_card(c) {
                let r = solo_effect_run(&mut game.players[a], &mut game.state, c, inputs);
                proof {
                    lemma_conserved_update(g0, *game, a0);
                }
                r
            } else {
                Ok(())
            }
        },
    }
}

/// Resolves the effect of Action card `c` for the active player, who has
/// already put it in play and paid an action for it.
pub fn resolve_effect<P: Player>(game: &mut Game, policies: &Vec<P>, c: Card, inputs: &Vec<ActionInput>) -> (r: Result<(), Error>)
    requires
        old(game).wf(),
        policies@.len() == old(game).players@.len(),
    ensures
        same_table(*old(game), *final(game)),
        conserved(*old(game), *final(game)),
        effect_post(c, inputs@, old(game).active as int, views(*old(game)), old(game).state, views(*final(game)), final(game).state, r),
{
    if c != Card::ThroneRoom {
        return resolve_base_effect(game, policies, c, inputs);
    }
    let a = game.active;
    let ghost g0 = *game;
    let ghost a0 = a as int;
    let rs = collect_cards(inputs, InputKind::Repeat);
    if rs.len() == 0 {
        return Err(Error::NothingToRepeat);
    }
    let t = rs[0];
    if !t.is_action() || t == Card::ThroneRoom {
        return Err(Error::InvalidChoice(t));
    }
    if !game.players[a].hand_contains(t) {
        return Err(Error::NotInHand(t));
    }
    let _ = game.players[a].put_in_play(t);
    let ghost gm = *game;
    let ghost ps_m = views(g0).update(a0, put_in_play_view(views(g0)[a0], t));
    proof {
        assert(conserves(g0.players@[a0], g0.state, gm.players@[a0], gm.state));
        lemma_conserved_update(g0, gm, a0);
        assert(views(gm) =~= ps_m);
    }
    let r1 = resolve_base_effect(game, policies, t, inputs);
    if r1.is_err() {
        return r1;
    }
    resolve_base_effect(game, policies, t, inputs)
}

/// Whether `c`'s effect involves only the acting player and the shared state.
pub fn is_solo_card(c: Card) -> (r: bool)
    ensures
        r == is_solo(c),
{
    match c {
        Card::Cellar | Card::Chapel | Card::Moat | Card::Smithy | Card::Village
        | Card::Laboratory | Card::Market | Card::Festival | Card::Woodcutter | Card::Chancellor
        | Card::Moneylender | Card::Workshop | Card::Remodel | Card::Feast | Card::Mine
        | Card::Adventurer => true,
        _ => false,
    }
}

} // verus!
