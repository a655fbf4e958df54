//! Effects of the Action cards that touch only the acting player and the
//! shared state. Each validates its decision payloads before it changes
//! anything, so an error leaves the game as it was.

use crate::card::{Card, is_money, spec_cost};
use crate::engine::{
    ActionInput, InputKind, cards_of, collect_cards, confirmed, has_confirm,
    lemma_removable_when_held, remove_each, removable, try_remove_each,
};
use crate::error::Error;
use crate::zones::{
    GameState, PlayerState, PlayerView, conserves, drew, lemma_remove_first_absent, min, remove_first,
    sat_add, took,
};
use vstd::prelude::*;

verus! {

broadcast use vstd::seq_lib::group_to_multiset_ensures;

/// `v` with its three counters replaced.
pub open spec fn with_counters(v: PlayerView, actions: u64, buys: u64, buying_power: u64) -> PlayerView {
    PlayerView {
        deck: v.deck,
        hand: v.hand,
        discard: v.discard,
        in_play: v.in_play,
        actions,
        buys,
        buying_power,
    }
}

/// The Trash payloads that Chapel uses: the first four.
pub open spec fn chapel_trashes(ins: Seq<ActionInput>) -> Seq<Card> {
    let ts = cards_of(ins, InputKind::Trash);
    ts.subrange(0, min(4, ts.len() as int))
}

/// Chapel succeeds whenever the hand holds the cards it is asked to trash
/// (the first four Trash payloads, counting copies): they can all be
/// trashed, and the hand keeps exactly the rest.
pub proof fn chapel_trashes_what_is_held(ins: Seq<ActionInput>, v0: PlayerView)
    requires
        chapel_trashes(ins).to_multiset().subset_of(v0.hand.to_multiset()),
    ensures
        removable(v0.hand, chapel_trashes(ins)),
        remove_each(v0.hand, chapel_trashes(ins)).to_multiset().add(chapel_trashes(ins).to_multiset())
            == v0.hand.to_multiset(),
{
    lemma_removable_when_held(v0.hand, chapel_trashes(ins));
}

/// Cellar: +1 action, discard the Discard payloads, then draw as many cards.
pub open spec fn cellar_post(ins: Seq<ActionInput>, v0: PlayerView, v1: PlayerView, r: Result<(), Error>) -> bool {
    let ds = cards_of(ins, InputKind::Discard);
    &&& r is Ok <==> removable(v0.hand, ds)
    &&& r is Err ==> v1 == v0 && r->Err_0 is NotInHand
    &&& r is Ok ==> drew(
        PlayerView {
            deck: v0.deck,
            hand: remove_each(v0.hand, ds),
            discard: v0.discard + ds,
            in_play: v0.in_play,
            actions: sat_add(v0.actions, 1),
            buys: v0.buys,
            buying_power: v0.buying_power,
        },
        v1,
        ds.len() as int,
    )
}

/// What the effect of Action card `c`, played with inputs `ins`, does to the
/// acting player (`v0` to `v1`) and the shared state (`s0` to `s1`), with
/// result `r`. Cards whose effect reaches other players are not described here.
pub open spec fn solo_effect(
    c: Card,
    ins: Seq<ActionInput>,
    v0: PlayerView,
    s0: GameState,
    v1: PlayerView,
    s1: GameState,
    r: Result<(), Error>,
) -> bool {
    match c {
        Card::Cellar => s1 == s0 && cellar_post(ins, v0, v1, r),
        Card::Chapel => {
            let ts = chapel_trashes(ins);
            &&& s1.supply == s0.supply
            &&& r is Ok <==> removable(v0.hand, ts)
            &&& r is Err ==> v1 == v0 && s1 == s0 && r->Err_0 is NotInHand
            &&& r is Ok ==> v1 == PlayerView { hand: remove_each(v0.hand, ts), ..v0 }
            &&& r is Ok ==> s1.trash@ == s0.trash@ + ts
        },
        Card::Moat => s1 == s0 && r is Ok && drew(v0, v1, 2),
        Card::Smithy => s1 == s0 && r is Ok && drew(v0, v1, 3),
        Card::Village => s1 == s0 && r is Ok && drew(
            with_counters(v0, sat_add(v0.actions, 2), v0.buys, v0.buying_power),
            v1,
            1,
        ),
        Card::Laboratory => s1 == s0 && r is Ok && drew(
            with_counters(v0, sat_add(v0.actions, 1), v0.buys, v0.buying_power),
            v1,
            2,
        ),
        Card::Market => s1 == s0 && r is Ok && drew(
            with_counters(
                v0,
                sat_add(v0.actions, 1),
                sat_add(v0.buys, 1),
                sat_add(v0.buying_power, 1),
            ),
            v1,
            1,
        ),
        Card::Festival => s1 == s0 && r is Ok && v1 == with_counters(
            v0,
            sat_add(v0.actions, 2),
            sat_add(v0.buys, 1),
            sat_add(v0.buying_power, 2),
        ),
        Card::Woodcutter => s1 == s0 && r is Ok && v1 == with_counters(
            v0,
            v0.actions,
            sat_add(v0.buys, 1),
            sat_add(v0.buying_power, 2),
        ),
        Card::Chancellor => {
            let v = with_counters(v0, v0.actions, v0.buys, sat_add(v0.buying_power, 2));
            &&& s1 == s0
            &&& r is Ok
            &&& confirmed(ins) ==> v1 == PlayerView { deck: Seq::empty(), discard: v0.discard + v0.deck, ..v }
            &&& !confirmed(ins) ==> v1 == v
        },
        Card::Moneylender => {
            &&& r is Ok
            &&& s1.supply == s0.supply
            &&& v0.hand.contains(Card::Copper) ==> v1 == PlayerView {
                hand: remove_first(v0.hand, Card::Copper),
                buying_power: sat_add(v0.buying_power, 3),
                ..v0
            } && s1.trash@ == s0.trash@.push(Card::Copper)
            &&& !v0.hand.contains(Card::Copper) ==> v1 == v0 && s1 == s0
        },
        Card::Workshop => {
            let gs = cards_of(ins, InputKind::Gain);
            &&& gs.len() == 0 ==> r == Err::<(), Error>(Error::NothingToGain) && v1 == v0 && s1 == s0
            &&& gs.len() > 0 && spec_cost(gs[0]) > 4 ==> r == Err::<(), Error>(
                Error::InvalidChoice(gs[0]),
            ) && v1 == v0 && s1 == s0
            &&& gs.len() > 0 && spec_cost(gs[0]) <= 4 ==> took(s0, s1, gs[0], r) && (r is Ok ==> v1
                == PlayerView { discard: v0.discard.push(gs[0]), ..v0 }) && (r is Err ==> v1 == v0)
        },
        Card::Remodel => {
            let ts = cards_of(ins, InputKind::Trash);
            let gs = cards_of(ins, InputKind::Gain);
            &&& ts.len() == 0 ==> r == Err::<(), Error>(Error::NothingToTrash)
            &&& ts.len() > 0 && gs.len() == 0 ==> r == Err::<(), Error>(Error::NothingToGain)
            &&& ts.len() > 0 && gs.len() > 0 && spec_cost(gs[0]) > spec_cost(ts[0]) + 2 ==> r
                == Err::<(), Error>(Error::InvalidChoice(gs[0]))
            &&& ts.len() > 0 && gs.len() > 0 && spec_cost(gs[0]) <= spec_cost(ts[0]) + 2
                && !v0.hand.contains(ts[0]) ==> r == Err::<(), Error>(Error::NotInHand(ts[0]))
            &&& ts.len() > 0 && gs.len() > 0 && spec_cost(gs[0]) <= spec_cost(ts[0]) + 2
                && v0.hand.contains(ts[0]) && s0.pile(gs[0]) is None ==> r == Err::<(), Error>(
                Error::NotInSupply(gs[0]),
            )
            &&& ts.len() > 0 && gs.len() > 0 && spec_cost(gs[0]) <= spec_cost(ts[0]) + 2
                && v0.hand.contains(ts[0]) && s0.pile(gs[0]) == Some(0u64) ==> r == Err::<
                (),
                Error,
            >(Error::EmptyPile(gs[0]))
            &&& r is Err ==> v1 == v0 && s1 == s0
            &&& r is Ok ==> v1 == PlayerView {
                hand: remove_first(v0.hand, ts[0]),
                discard: v0.discard.push(gs[0]),
                ..v0
            } && s1.trash@ == s0.trash@.push(ts[0]) && s1.pile(gs[0]) == Some(
                (s0.pile(gs[0])->0 - 1) as u64,
            ) && (forall|d: Card| d != gs[0] ==> #[trigger] s1.pile(d) == s0.pile(d))
        },
        Card::Feast => {
            let gs = cards_of(ins, InputKind::Gain);
            &&& gs.len() == 0 ==> r == Err::<(), Error>(Error::NothingToGain)
            &&& gs.len() > 0 && spec_cost(gs[0]) > 5 ==> r == Err::<(), Error>(Error::InvalidChoice(gs[0]))
            &&& gs.len() > 0 && spec_cost(gs[0]) <= 5 && s0.pile(gs[0]) is None ==> r == Err::<(), Error>(
                Error::NotInSupply(gs[0]),
            )
            &&& gs.len() > 0 && spec_cost(gs[0]) <= 5 && s0.pile(gs[0]) == Some(0u64) ==> r == Err::<
                (),
                Error,
            >(Error::EmptyPile(gs[0]))
            &&& r is Err ==> v1 == v0 && s1 == s0
            &&& r is Ok ==> v1 == PlayerView {
                in_play: remove_first(v0.in_play, Card::Feast),
                discard: v0.discard.push(gs[0]),
                ..v0
            } && s1.pile(gs[0]) == Some((s0.pile(gs[0])->0 - 1) as u64) && (forall|d: Card|
                d != gs[0] ==> #[trigger] s1.pile(d) == s0.pile(d)) && s1.trash@ == if v0.in_play.contains(
                Card::Feast,
            ) {
                s0.trash@.push(Card::Feast)
            } else {
                s0.trash@
            }
        },
        Card::Mine => {
            let ts = cards_of(ins, InputKind::Trash);
            let gs = cards_of(ins, InputKind::Gain);
            &&& ts.len() == 0 ==> r == Err::<(), Error>(Error::NothingToTrash)
            &&& ts.len() > 0 && gs.len() == 0 ==> r == Err::<(), Error>(Error::NothingToGain)
            &&& ts.len() > 0 && gs.len() > 0 && !is_money(ts[0]) ==> r == Err::<(), Error>(
                Error::InvalidChoice(ts[0]),
            )
            &&& ts.len() > 0 && gs.len() > 0 && is_money(ts[0]) && (!is_money(gs[0]) || spec_cost(gs[0])
                > spec_cost(ts[0]) + 3) ==> r == Err::<(), Error>(Error::InvalidChoice(gs[0]))
            &&& ts.len() > 0 && gs.len() > 0 && is_money(ts[0]) && is_money(gs[0]) && spec_cost(gs[0])
                <= spec_cost(ts[0]) + 3 && !v0.hand.contains(ts[0]) ==> r == Err::<(), Error>(
                Error::NotInHand(ts[0]),
            )
            &&& ts.len() > 0 && gs.len() > 0 && is_money(ts[0]) && is_money(gs[0]) && spec_cost(gs[0])
                <= spec_cost(ts[0]) + 3 && v0.hand.contains(ts[0]) && s0.pile(gs[0]) is None ==> r
                == Err::<(), Error>(Error::NotInSupply(gs[0]))
            &&& ts.len() > 0 && gs.len() > 0 && is_money(ts[0]) && is_money(gs[0]) && spec_cost(gs[0])
                <= spec_cost(ts[0]) + 3 && v0.hand.contains(ts[0]) && s0.pile(gs[0]) == Some(0u64) ==> r
                == Err::<(), Error>(Error::EmptyPile(gs[0]))
            &&& r is Err ==> v1 == v0 && s1 == s0
            &&& r is Ok ==> v1 == PlayerView { hand: seq![gs[0]] + remove_first(v0.hand, ts[0]), ..v0 }
                && s1.trash@ == s0.trash@.push(ts[0]) && s1.pile(gs[0]) == Some(
                (s0.pile(gs[0])->0 - 1) as u64,
            ) && (forall|d: Card| d != gs[0] ==> #[trigger] s1.pile(d) == s0.pile(d))
        },
        Card::Adventurer => r is Ok && s1 == s0 && adventured(v0, v1),
        _ => true,
    }
}

/// Adventurer: cards are revealed from the deck until two treasures are
/// found or no card is left; the treasures go to the hand, the other revealed
/// cards to the discard pile.
pub open spec fn adventured(v0: PlayerView, v1: PlayerView) -> bool {
    let k = v1.hand.len() - v0.hand.len();
    &&& v1.hand.len() >= v0.hand.len()
    &&& k <= 2
    &&& v1.hand.subrange(0, v0.hand.len() as int) == v0.hand
    &&& forall|i: int| v0.hand.len() <= i < v1.hand.len() ==> is_money(#[trigger] v1.hand[i])
    &&& k < 2 ==> v1.deck.len() == 0
    &&& v1.zones() == v0.zones()
    &&& v1.in_play == v0.in_play
    &&& v1.actions == v0.actions
    &&& v1.buys == v0.buys
    &&& v1.buying_power == v0.buying_power
}

/// Whether `c`'s effect involves only the acting player and the shared state.
pub open spec fn is_solo(c: Card) -> bool {
    match c {
        Card::Cellar | Card::Chapel | Card::Moat | Card::Smithy | Card::Village
        | Card::Laboratory | Card::Market | Card::Festival | Card::Woodcutter | Card::Chancellor
        | Card::Moneylender | Card::Workshop | Card::Remodel | Card::Feast | Card::Mine
        | Card::Adventurer => true,
        _ => false,
    }
}

/// Runs the effect of `c`, which must involve only the acting player `p`.
pub fn solo_effect_run(p: &mut PlayerState, state: &mut GameState, c: Card, ins: &Vec<ActionInput>) -> (r: Result<(), Error>)
    requires
        is_solo(c),
        old(state).wf(),
    ensures
        final(state).wf(),
        solo_effect(c, ins@, old(p)@, *old(state), final(p)@, *final(state), r),
        conserves(*old(p), *old(state), *final(p), *final(state)),
{
    match c {
        Card::Cellar => do_cellar(p, ins),
        Card::Chapel => do_chapel(p, state, ins),
        Card::Moat => {
            p.draw_n(2);
            Ok(())
        },
        Card::Smithy => {
            p.draw_n(3);
            Ok(())
        },
        Card::Village => {
            p.actions = p.actions.saturating_add(2);
            p.draw_n(1);
            Ok(())
        },
        Card::Laboratory => {
            p.actions = p.actions.saturating_add(1);
            p.draw_n(2);
            Ok(())
        },
        Card::Market => {
            p.actions = p.actions.saturating_add(1);
            p.buys = p.buys.saturating_add(1);
            p.buying_power = p.buying_power.saturating_add(1);
            p.draw_n(1);
            Ok(())
        },
        Card::Festival => {
            p.actions = p.actions.saturating_add(2);
            p.buys = p.buys.saturating_add(1);
            p.buying_power = p.buying_power.saturating_add(2);
            Ok(())
        },
        Card::Woodcutter => {
            p.buys = p.buys.saturating_add(1);
            p.buying_power = p.buying_power.saturating_add(2);
            Ok(())
        },
        Card::Chancellor => {
            p.buying_power = p.buying_power.saturating_add(2);
            if has_confirm(ins) {
                p.discard_deck();
                assert(p.deck@ =~= Seq::<Card>::empty());
            }
            Ok(())
        },
        Card::Moneylender => do_moneylender(p, state),
        Card::Workshop => do_workshop(p, state, ins),
        Card::Feast => do_feast(p, state, ins),
        Card::Mine => do_mine(p, state, ins),
        Card::Adventurer => {
            do_adventurer(p);
            Ok(())
        },
        _ => do_remodel(p, state, ins),
    }
}

/// Cellar: +1 action, discard any number of cards, then draw as many.
fn do_cellar(p: &mut PlayerState, ins: &Vec<ActionInput>) -> (r: Result<(), Error>)
    ensures
        cellar_post(ins@, old(p)@, final(p)@, r),
        final(p).zones() == old(p).zones(),
{
    let ds = collect_cards(ins, InputKind::Discard);
    let rest = match try_remove_each(&p.hand, &ds) {
        Ok(rest) => rest,
        Err(e) => {
            return Err(e);
        },
    };
    let ghost v0 = p@;
    let n = ds.len();
    let mut ds = ds;
    p.actions = p.actions.saturating_add(1);
    p.hand = rest;
    p.discard.append(&mut ds);
    proof {
        vstd::seq_lib::lemma_multiset_commutative(v0.discard, cards_of(ins@, InputKind::Discard));
        assert(p.zones() =~= old(p).zones());
    }
    p.draw_n(n);
    Ok(())
}

/// Chapel: trash up to four cards from the hand.
fn do_chapel(p: &mut PlayerState, state: &mut GameState, ins: &Vec<ActionInput>) -> (r: Result<(), Error>)
    requires
        old(state).wf(),
    ensures
        final(state).wf(),
        solo_effect(Card::Chapel, ins@, old(p)@, *old(state), final(p)@, *final(state), r),
        conserves(*old(p), *old(state), *final(p), *final(state)),
{
    let all = collect_cards(ins, InputKind::Trash);
    let mut ts: Vec<Card> = Vec::new();
    let mut i: usize = 0;
    while i < all.len() && i < 4
        invariant
            i <= all@.len(),
            i <= 4,
            ts@ == all@.subrange(0, i as int),
        decreases all@.len() - i,
    {
        ts.push(all[i]);
        assert(ts@ =~= all@.subrange(0, i + 1));
        i = i + 1;
    }
    assert(ts@ == chapel_trashes(ins@));
    let rest = match try_remove_each(&p.hand, &ts) {
        Ok(rest) => rest,
        Err(e) => {
            return Err(e);
        },
    };
    let ghost t0 = state.trash@;
    let ghost ts0 = ts@;
    p.hand = rest;
    state.trash.append(&mut ts);
    proof {
        vstd::seq_lib::lemma_multiset_commutative(t0, ts0);
        assert forall|d: Card| #[trigger] final(p).held(d) + final(state).shared(d)
            == old(p).held(d) + old(state).shared(d) by {
            assert(final(state).supply_count(d) == old(state).supply_count(d));
        }
    }
    Ok(())
}

/// Moneylender: trash a Copper from the hand, if there is one, for +3 buying power.
fn do_moneylender(p: &mut PlayerState, state: &mut GameState) -> (r: Result<(), Error>)
    requires
        old(state).wf(),
    ensures
        final(state).wf(),
        solo_effect(Card::Moneylender, Seq::empty(), old(p)@, *old(state), final(p)@, *final(state), r),
        conserves(*old(p), *old(state), *final(p), *final(state)),
{
    if p.hand_contains(Card::Copper) {
        let _ = p.trash(state, Card::Copper);
        p.buying_power = p.buying_power.saturating_add(3);
    }
    Ok(())
}

/// Workshop: gain a card costing up to 4.
fn do_workshop(p: &mut PlayerState, state: &mut GameState, ins: &Vec<ActionInput>) -> (r: Result<(), Error>)
    requires
        old(state).wf(),
    ensures
        final(state).wf(),
        solo_effect(Card::Workshop, ins@, old(p)@, *old(state), final(p)@, *final(state), r),
        conserves(*old(p), *old(state), *final(p), *final(state)),
{
    let gs = collect_cards(ins, InputKind::Gain);
    if gs.len() == 0 {
        return Err(Error::NothingToGain);
    }
    let g = gs[0];
    if g.cost() > 4 {
        return Err(Error::InvalidChoice(g));
    }
    p.gain(state, g)
}

/// Remodel: trash a card from the hand and gain one costing up to 2 more.
fn do_remodel(p: &mut PlayerState, state: &mut GameState, ins: &Vec<ActionInput>) -> (r: Result<(), Error>)
    requires
        old(state).wf(),
    ensures
        final(state).wf(),
        solo_effect(Card::Remodel, ins@, old(p)@, *old(state), final(p)@, *final(state), r),
        conserves(*old(p), *old(state), *final(p), *final(state)),
{
    let ts = collect_cards(ins, InputKind::Trash);
    if ts.len() == 0 {
        return Err(Error::NothingToTrash);
    }
    let gs = collect_cards(ins, InputKind::Gain);
    if gs.len() == 0 {
        return Err(Error::NothingToGain);
    }
    let t = ts[0];
    let g = gs[0];
    if g.cost() > t.cost() + 2 {
        return Err(Error::InvalidChoice(g));
    }
    if !p.hand_contains(t) {
        return Err(Error::NotInHand(t));
    }
    match state.count(g) {
        None => {
            return Err(Error::NotInSupply(g));
        },
        Some(0) => {
            return Err(Error::EmptyPile(g));
        },
        Some(_) => {},
    }
    let ghost p0 = *p;
    let ghost s0 = *state;
    let _ = p.trash(state, t);
    let ghost p1 = *p;
    let ghost s1 = *state;
    let r = p.gain(state, g);
    proof {
        assert(r is Ok);
        assert forall|d: Card| #[trigger] final(p).held(d) + final(state).shared(d)
            == old(p).held(d) + old(state).shared(d) by {
            assert(p1.held(d) + s1.shared(d) == p0.held(d) + s0.shared(d));
        }
    }
    r
}

/// Feast: trash it from play and gain a card costing up to 5.
fn do_feast(p: &mut PlayerState, state: &mut GameState, ins: &Vec<ActionInput>) -> (r: Result<(), Error>)
    requires
        old(state).wf(),
    ensures
        final(state).wf(),
        solo_effect(Card::Feast, ins@, old(p)@, *old(state), final(p)@, *final(state), r),
        conserves(*old(p), *old(state), *final(p), *final(state)),
{
    let gs = collect_cards(ins, InputKind::Gain);
    if gs.len() == 0 {
        return Err(Error::NothingToGain);
    }
    let g = gs[0];
    if g.cost() > 5 {
        return Err(Error::InvalidChoice(g));
    }
    match state.count(g) {
        None => {
            return Err(Error::NotInSupply(g));
        },
        Some(0) => {
            return Err(Error::EmptyPile(g));
        },
        Some(_) => {},
    }
    let ghost p0 = *p;
    let ghost s0 = *state;
    let t = p.trash_from_play(state, Card::Feast);
    proof {
        if t is Err {
            lemma_remove_first_absent(p0.in_play@, Card::Feast);
        }
    }
    let ghost p1 = *p;
    let ghost s1 = *state;
    let r = p.gain(state, g);
    proof {
        assert(r is Ok);
        assert forall|d: Card| #[trigger] final(p).held(d) + final(state).shared(d)
            == old(p).held(d) + old(state).shared(d) by {
            assert(p1.held(d) + s1.shared(d) == p0.held(d) + s0.shared(d));
        }
    }
    r
}

/// Mine: trash a treasure from the hand and gain a treasure costing up to 3
/// more, into the hand.
fn do_mine(p: &mut PlayerState, state: &mut GameState, ins: &Vec<ActionInput>) -> (r: Result<(), Error>)
    requires
        old(state).wf(),
    ensures
        final(state).wf(),
        solo_effect(Card::Mine, ins@, old(p)@, *old(state), final(p)@, *final(state), r),
        conserves(*old(p), *old(state), *final(p), *final(state)),
{
    let ts = collect_cards(ins, InputKind::Trash);
    if ts.len() == 0 {
        return Err(Error::NothingToTrash);
    }
    let gs = collect_cards(ins, InputKind::Gain);
    if gs.len() == 0 {
        return Err(Error::NothingToGain);
    }
    let t = ts[0];
    let g = gs[0];
    if !t.is_money() {
        return Err(Error::InvalidChoice(t));
    }
    if !g.is_money() || g.cost() > t.cost() + 3 {
        return Err(Error::InvalidChoice(g));
    }
    if !p.hand_contains(t) {
        return Err(Error::NotInHand(t));
    }
    match state.count(g) {
        None => {
            return Err(Error::NotInSupply(g));
        },
        Some(0) => {
            return Err(Error::EmptyPile(g));
        },
        Some(_) => {},
    }
    let ghost p0 = *p;
    let ghost s0 = *state;
    let _ = p.trash(state, t);
    let ghost p1 = *p;
    let ghost s1 = *state;
    let r = p.gain_to_hand(state, g);
    proof {
        assert(r is Ok);
        assert forall|d: Card| #[trigger] final(p).held(d) + final(state).shared(d)
            == old(p).held(d) + old(state).shared(d) by {
            assert(p1.held(d) + s1.shared(d) == p0.held(d) + s0.shared(d));
        }
    }
    r
}

/// Adventurer (see `adventured`).
fn do_adventurer(p: &mut PlayerState)
    ensures
        adventured(old(p)@, final(p)@),
{
    let ghost h0 = p.hand@;
    let mut aside: Vec<Card> = Vec::new();
    let mut found: usize = 0;
    let mut exhausted = false;
    while found < 2 && !exhausted
        invariant
            found <= 2,
            h0 == old(p).hand@,
            p.hand@.len() == h0.len() + found,
            p.hand@.subrange(0, h0.len() as int) == h0,
            forall|i: int| h0.len() <= i < p.hand@.len() ==> is_money(#[trigger] p.hand@[i]),
            exhausted ==> p.deck@.len() == 0 && p.discard@.len() == 0,
            p.zones().add(aside@.to_multiset()) == old(p).zones(),
            p.in_play == old(p).in_play,
            p.actions == old(p).actions,
            p.buys == old(p).buys,
            p.buying_power == old(p).buying_power,
        decreases p.drawable() + if exhausted { 0int } else { 1int },
    {
        let ghost before = *p;
        let ghost aside0 = aside@;
        match p.next_card() {
            Some(c) => {
                if c.is_money() {
                    p.hand.push(c);
                    found = found + 1;
                    proof {
                        assert(p.hand@.subrange(0, h0.len() as int) =~= before.hand@.subrange(0, h0.len() as int));
                        assert(p.zones() =~= before.zones());
                    }
                } else {
                    aside.push(c);
                    proof {
                        assert(p.zones().add(aside@.to_multiset()) =~= before.zones().add(aside0.to_multiset()));
                    }
                }
            },
            None => {
                exhausted = true;
            },
        }
    }
    let ghost a = aside@;
    let ghost d = p.discard@;
    p.discard.append(&mut aside);
    proof {
        vstd::seq_lib::lemma_multiset_commutative(d, a);
        assert(p.zones() =~= old(p).zones());
    }
}

} // verus!
