//! The active player's commands (play a card, play all money, buy) and the
//! read-only queries about its state.

use crate::card::{Card, is_action, is_money, lemma_card_facts, money_value, points};
use crate::engine::{ActionInput, Game, conserved, copy_cards, lemma_conserved_update};
use crate::error::Error;
use crate::game::{Player, effect_post, played, resolve_effect, same_table, views};
use crate::zones::{PlayerState, PlayerView, bought, conserves};
use vstd::prelude::*;

verus! {

broadcast use vstd::seq_lib::group_to_multiset_ensures;

/// Whether the active player `v` may play `c`: a Money or Action card held
/// in hand, with an action left for an Action card.
pub open spec fn can_play(c: Card, v: PlayerView) -> bool {
    &&& is_money(c) || is_action(c)
    &&& v.hand.contains(c)
    &&& !(is_action(c) && v.actions == 0)
}

/// Puts `c` in play from the active player's hand and pays for it, without
/// resolving an Action card's effect: a Money card adds its value to the
/// buying power and ends the action phase, an Action card uses an action.
pub fn begin_play(game: &mut Game, c: Card) -> (r: Result<(), Error>)
    requires
        old(game).wf(),
    ensures
        same_table(*old(game), *final(game)),
        conserved(*old(game), *final(game)),
        !(is_money(c) || is_action(c)) || !old(game).active_view().hand.contains(c) ==> r
            == Err::<(), Error>(Error::InvalidPlay(c)) && *final(game) == *old(game),
        (is_money(c) || is_action(c)) && old(game).active_view().hand.contains(c) && is_action(c)
            && old(game).active_view().actions == 0 ==> r == Err::<(), Error>(Error::NoActions)
            && *final(game) == *old(game),
        r is Ok <==> can_play(c, old(game).active_view()),
        r is Ok ==> views(*final(game)) == views(*old(game)).update(
            old(game).active as int,
            played(c, old(game).active_view()),
        ) && final(game).state == old(game).state,
{
    if !(c.is_money() || c.is_action()) {
        return Err(Error::InvalidPlay(c));
    }
    let a = game.active;
    if !game.players[a].hand_contains(c) {
        return Err(Error::InvalidPlay(c));
    }
    if c.is_action() && game.players[a].actions == 0 {
        return Err(Error::NoActions);
    }
    let ghost g0 = *game;
    let _ = game.players[a].put_in_play(c);
    if c.is_money() {
        let v = c.treasure_value();
        game.players[a].buying_power = game.players[a].buying_power.saturating_add(v);
        game.players[a].actions = 0;
    } else {
        game.players[a].actions = game.players[a].actions - 1;
    }
    proof {
        assert(conserves(g0.players@[a as int], g0.state, game.players@[a as int], game.state));
        lemma_conserved_update(g0, *game, a as int);
        assert(views(*game) =~= views(g0).update(a as int, played(c, g0.active_view())));
    }
    Ok(())
}

/// Plays `c` from the active player's hand with decision payloads `inputs`:
/// `begin_play`, then, for an Action card, its effect.
pub fn play_card_and<P: Player>(game: &mut Game, policies: &Vec<P>, c: Card, inputs: &Vec<ActionInput>) -> (r: Result<(), Error>)
    requires
        old(game).wf(),
        policies@.len() == old(game).players@.len(),
    ensures
        same_table(*old(game), *final(game)),
        conserved(*old(game), *final(game)),
        !(is_money(c) || is_action(c)) || !old(game).active_view().hand.contains(c) ==> r
            == Err::<(), Error>(Error::InvalidPlay(c)) && *final(game) == *old(game),
        (is_money(c) || is_action(c)) && old(game).active_view().hand.contains(c) && is_action(c)
            && old(game).active_view().actions == 0 ==> r == Err::<(), Error>(Error::NoActions)
            && *final(game) == *old(game),
        can_play(c, old(game).active_view()) && !is_action(c) ==> r is Ok && views(*final(game))
            == views(*old(game)).update(old(game).active as int, played(c, old(game).active_view()))
            && final(game).state == old(game).state,
        can_play(c, old(game).active_view()) && is_action(c) ==> effect_post(
            c,
            inputs@,
            old(game).active as int,
            views(*old(game)).update(old(game).active as int, played(c, old(game).active_view())),
            old(game).state,
            views(*final(game)),
            final(game).state,
            r,
        ),
{
    let r = begin_play(game, c);
    if r.is_err() || !c.is_action() {
        return r;
    }
    resolve_effect(game, policies, c, inputs)
}

/// Plays `c` with no decision payloads.
pub fn play_card<P: Player>(game: &mut Game, policies: &Vec<P>, c: Card) -> (r: Result<(), Error>)
    requires
        old(game).wf(),
        policies@.len() == old(game).players@.len(),
    ensures
        same_table(*old(game), *final(game)),
        conserved(*old(game), *final(game)),
        !(is_money(c) || is_action(c)) || !old(game).active_view().hand.contains(c) ==> r
            == Err::<(), Error>(Error::InvalidPlay(c)) && *final(game) == *old(game),
        (is_money(c) || is_action(c)) && old(game).active_view().hand.contains(c) && is_action(c)
            && old(game).active_view().actions == 0 ==> r == Err::<(), Error>(Error::NoActions)
            && *final(game) == *old(game),
        can_play(c, old(game).active_view()) && !is_action(c) ==> r is Ok && views(*final(game))
            == views(*old(game)).update(old(game).active as int, played(c, old(game).active_view()))
            && final(game).state == old(game).state,
        can_play(c, old(game).active_view()) && is_action(c) ==> effect_post(
            c,
            Seq::empty(),
            old(game).active as int,
            views(*old(game)).update(old(game).active as int, played(c, old(game).active_view())),
            old(game).state,
            views(*final(game)),
            final(game).state,
            r,
        ),
{
    let inputs: Vec<ActionInput> = Vec::new();
    assert(inputs@ =~= Seq::<ActionInput>::empty());
    play_card_and(game, policies, c, &inputs)
}

/// The Money cards of `s`, in order.
pub open spec fn money_cards(s: Seq<Card>) -> Seq<Card>
    decreases s.len(),
{
    if s.len() == 0 {
        s
    } else if is_money(s.last()) {
        money_cards(s.drop_last()).push(s.last())
    } else {
        money_cards(s.drop_last())
    }
}

/// The cards of `s` that are not Money, in order.
pub open spec fn non_money_cards(s: Seq<Card>) -> Seq<Card>
    decreases s.len(),
{
    if s.len() == 0 {
        s
    } else if is_money(s.last()) {
        non_money_cards(s.drop_last())
    } else {
        non_money_cards(s.drop_last()).push(s.last())
    }
}

/// The total treasure value of the Money cards of `s`.
pub open spec fn money_total(s: Seq<Card>) -> int
    decreases s.len(),
{
    if s.len() == 0 {
        0
    } else {
        money_total(s.drop_last()) + money_value(s.last())
    }
}

/// `x`, capped at `u64::MAX`.
pub open spec fn capped(x: int) -> u64 {
    if x > u64::MAX {
        u64::MAX
    } else {
        x as u64
    }
}

/// Player `v` after playing every Money card of its hand, in hand order.
pub open spec fn all_money_played(v: PlayerView) -> PlayerView {
    PlayerView {
        hand: non_money_cards(v.hand),
        in_play: v.in_play + money_cards(v.hand),
        buying_power: capped(v.buying_power + money_total(v.hand)),
        actions: if money_cards(v.hand).len() > 0 {
            0
        } else {
            v.actions
        },
        ..v
    }
}

/// Plays every Money card in the active player's hand, in hand order.
pub fn play_all_money(game: &mut Game) -> (r: Result<(), Error>)
    requires
        old(game).wf(),
    ensures
        r is Ok,
        same_table(*old(game), *final(game)),
        conserved(*old(game), *final(game)),
        final(game).state == old(game).state,
        views(*final(game)) == views(*old(game)).update(
            old(game).active as int,
            all_money_played(old(game).active_view()),
        ),
{
    let a = game.active;
    let ghost g0 = *game;
    let ghost v0 = g0.active_view();
    let ghost h0 = v0.hand;
    let n = game.players[a].hand.len();
    let mut k: usize = 0;
    let mut pos: usize = 0;
    while k < n
        invariant
            same_table(g0, *game),
            a == g0.active,
            n == h0.len(),
            k <= n,
            h0 == v0.hand,
            v0 == g0.active_view(),
            pos == non_money_cards(h0.subrange(0, k as int)).len(),
            game.active_view().hand == non_money_cards(h0.subrange(0, k as int)) + h0.subrange(
                k as int,
                n as int,
            ),
            game.active_view().in_play == v0.in_play + money_cards(h0.subrange(0, k as int)),
            game.active_view().buying_power == capped(
                v0.buying_power + money_total(h0.subrange(0, k as int)),
            ),
            game.active_view().actions == if money_cards(h0.subrange(0, k as int)).len() > 0 {
                0
            } else {
                v0.actions
            },
            money_total(h0.subrange(0, k as int)) >= 0,
            game.active_view().deck == v0.deck,
            game.active_view().discard == v0.discard,
            game.active_view().buys == v0.buys,
            game.state == g0.state,
            forall|j: int| 0 <= j < g0.players@.len() && j != a ==> #[trigger] game.players@[j] == g0.players@[j],
            conserved(g0, *game),
        decreases n - k,
    {
        let ghost pre = h0.subrange(0, k as int);
        let ghost post = h0.subrange(0, k + 1);
        assert(post.drop_last() =~= pre);
        let hand_len = game.players[a].hand.len();
        assert(pos < hand_len);
        assert(game.active_view().hand[pos as int] == h0[k as int]);
        let c = game.players[a].hand[pos];
        if c.is_money() {
            let ghost gb = *game;
            let v = c.treasure_value();
            let removed = game.players[a].hand.remove(pos);
            game.players[a].in_play.push(removed);
            game.players[a].buying_power = game.players[a].buying_power.saturating_add(v);
            game.players[a].actions = 0;
            proof {
                assert(game.active_view().hand =~= non_money_cards(post) + h0.subrange(k + 1, n as int));
                assert(game.active_view().in_play =~= v0.in_play + money_cards(post));
                assert(gb.active_view().hand.to_multiset() =~= game.active_view().hand.to_multiset().insert(c));
                assert(game.players@[a as int].zones() =~= gb.players@[a as int].zones());
                assert(conserves(gb.players@[a as int], gb.state, game.players@[a as int], game.state));
                lemma_conserved_update(gb, *game, a as int);
            }
        } else {
            pos = pos + 1;
            proof {
                assert(game.active_view().hand =~= non_money_cards(post) + h0.subrange(k + 1, n as int));
            }
        }
        k = k + 1;
    }
    proof {
        assert(h0.subrange(0, n as int) =~= h0);
        assert(h0.subrange(n as int, n as int) =~= Seq::<Card>::empty());
        assert(game.active_view().hand =~= non_money_cards(h0));
        assert(views(*game) =~= views(g0).update(a as int, all_money_played(v0)));
    }
    Ok(())
}

/// Buys `c` for the active player (see `bought` for the checks and effects).
pub fn buy(game: &mut Game, c: Card) -> (r: Result<(), Error>)
    requires
        old(game).wf(),
    ensures
        same_table(*old(game), *final(game)),
        conserved(*old(game), *final(game)),
        bought(c, old(game).active_view(), old(game).state, final(game).active_view(), final(game).state, r),
        forall|j: int|
            0 <= j < old(game).players@.len() && j != old(game).active ==> #[trigger] final(game).players@[j]
                == old(game).players@[j],
{
    let a = game.active;
    let ghost g0 = *game;
    let r = game.players[a].buy(&mut game.state, c);
    proof {
        lemma_conserved_update(g0, *game, a as int);
    }
    r
}

/// The total points of the Victory and Curse cards of `s`.
pub open spec fn points_total(s: Seq<Card>) -> int
    decreases s.len(),
{
    if s.len() == 0 {
        0
    } else {
        points_total(s.drop_last()) + points(s.last())
    }
}

/// The number of cards a player has: deck, hand, discard and cards in play.
pub open spec fn card_count(v: PlayerView) -> int {
    (v.deck.len() + v.hand.len() + v.discard.len() + v.in_play.len()) as int
}

/// The points of a player's Gardens: each is worth one point per ten cards
/// the player has (rounded down).
pub open spec fn gardens_points(v: PlayerView) -> int {
    v.zones().count(Card::Gardens) * (card_count(v) / 10)
}

/// A player's victory points over deck, hand, discard and cards in play:
/// the fixed points of its Victory and Curse cards, plus its Gardens.
pub open spec fn score(v: PlayerView) -> int {
    points_total(v.deck) + points_total(v.hand) + points_total(v.discard) + points_total(v.in_play)
        + gardens_points(v)
}

/// The sum of the points of the cards of `s`.
pub fn sum_points(s: &Vec<Card>) -> (r: i128)
    ensures
        r == points_total(s@),
        -(usize::MAX as int) <= r <= 6 * usize::MAX,
{
    let mut total: i128 = 0;
    let mut i: usize = 0;
    while i < s.len()
        invariant
            i <= s@.len(),
            total == points_total(s@.subrange(0, i as int)),
            -(i as int) <= total <= 6 * i,
        decreases s@.len() - i,
    {
        assert(s@.subrange(0, i + 1).drop_last() =~= s@.subrange(0, i as int));
        let c = s[i];
        let p: i64 = if c.is_victory() || c.is_curse() {
            c.victory_points()
        } else {
            0
        };
        proof {
            lemma_card_facts(c);
        }
        total = total + p as i128;
        i = i + 1;
    }
    assert(s@.subrange(0, s@.len() as int) =~= s@);
    assert(i <= usize::MAX);
    total
}

/// The total treasure value of the Money cards of `s`.
pub fn sum_money(s: &Vec<Card>) -> (r: u128)
    ensures
        r == money_total(s@),
{
    let mut total: u128 = 0;
    let mut i: usize = 0;
    while i < s.len()
        invariant
            i <= s@.len(),
            total == money_total(s@.subrange(0, i as int)),
            total <= 3 * i,
        decreases s@.len() - i,
    {
        assert(s@.subrange(0, i + 1).drop_last() =~= s@.subrange(0, i as int));
        let c = s[i];
        let v: u64 = if c.is_money() {
            c.treasure_value()
        } else {
            0
        };
        proof {
            lemma_card_facts(c);
        }
        total = total + v as u128;
        i = i + 1;
    }
    assert(s@.subrange(0, s@.len() as int) =~= s@);
    total
}

/// The number of copies of `c` in `s`.
pub fn count_in(s: &Vec<Card>, c: Card) -> (r: usize)
    ensures
        r == s@.to_multiset().count(c),
        r <= s@.len(),
{
    let mut n: usize = 0;
    let mut i: usize = 0;
    while i < s.len()
        invariant
            i <= s@.len(),
            n <= i,
            n == s@.subrange(0, i as int).to_multiset().count(c),
        decreases s@.len() - i,
    {
        assert(s@.subrange(0, i as int).push(s@[i as int]) =~= s@.subrange(0, i + 1));
        if s[i] == c {
            n = n + 1;
        }
        i = i + 1;
    }
    assert(s@.subrange(0, s@.len() as int) =~= s@);
    n
}

/// Copies of `c` left in the supply, or `None` if it is not part of this game.
pub fn count(game: &Game, c: Card) -> (r: Option<u64>)
    requires
        game.wf(),
    ensures
        r == game.state.pile(c),
{
    game.state.count(c)
}

/// The active player's remaining actions.
pub fn get_action_count(game: &Game) -> (r: u64)
    requires
        game.wf(),
    ensures
        r == game.active_view().actions,
{
    game.players[game.active].actions
}

/// The active player's remaining buys.
pub fn get_buy_count(game: &Game) -> (r: u64)
    requires
        game.wf(),
    ensures
        r == game.active_view().buys,
{
    game.players[game.active].buys
}

/// The active player's current buying power.
pub fn get_buying_power(game: &Game) -> (r: u64)
    requires
        game.wf(),
    ensures
        r == game.active_view().buying_power,
{
    game.players[game.active].buying_power
}

/// The total value of the Money cards in the active player's hand.
pub fn get_available_money(game: &Game) -> (r: u128)
    requires
        game.wf(),
    ensures
        r == money_total(game.active_view().hand),
{
    sum_money(&game.players[game.active].hand)
}

/// A copy of the active player's hand.
pub fn get_hand(game: &Game) -> (r: Vec<Card>)
    requires
        game.wf(),
    ensures
        r@ == game.active_view().hand,
{
    copy_cards(&game.players[game.active].hand)
}

/// The number of cards in the active player's hand.
pub fn get_hand_size(game: &Game) -> (r: usize)
    requires
        game.wf(),
    ensures
        r == game.active_view().hand.len(),
{
    game.players[game.active].hand.len()
}

/// A copy of the active player's discard pile.
pub fn get_discard(game: &Game) -> (r: Vec<Card>)
    requires
        game.wf(),
    ensures
        r@ == game.active_view().discard,
{
    copy_cards(&game.players[game.active].discard)
}

/// A copy of the active player's cards in play.
pub fn get_in_play(game: &Game) -> (r: Vec<Card>)
    requires
        game.wf(),
    ensures
        r@ == game.active_view().in_play,
{
    copy_cards(&game.players[game.active].in_play)
}

/// A copy of the active player's deck, top first.
pub fn get_deck(game: &Game) -> (r: Vec<Card>)
    requires
        game.wf(),
    ensures
        r@ == game.active_view().deck,
{
    copy_cards(&game.players[game.active].deck)
}

/// A copy of the trash.
pub fn get_trash(game: &Game) -> (r: Vec<Card>)
    requires
        game.wf(),
    ensures
        r@ == game.state.trash@,
{
    copy_cards(&game.state.trash)
}

/// Whether the active player's hand holds `c`.
pub fn hand_contains(game: &Game, c: Card) -> (r: bool)
    requires
        game.wf(),
    ensures
        r == game.active_view().hand.contains(c),
{
    game.players[game.active].hand_contains(c)
}

/// The number of copies of `c` that the active player holds in hand, deck,
/// discard or in play.
pub fn number_of(game: &Game, c: Card) -> (r: u128)
    requires
        game.wf(),
    ensures
        r == game.active_view().zones().count(c),
{
    let p = &game.players[game.active];
    let n = count_in(&p.hand, c) as u128 + count_in(&p.deck, c) as u128 + count_in(&p.discard, c) as u128
        + count_in(&p.in_play, c) as u128;
    n
}

/// Whether the active player holds `c` in hand, deck, discard or in play.
pub fn has(game: &Game, c: Card) -> (r: bool)
    requires
        game.wf(),
    ensures
        r == (game.active_view().zones().count(c) > 0),
{
    number_of(game, c) > 0
}

/// The active player's victory points over all of its cards.
pub fn get_total_points(game: &Game) -> (r: i128)
    requires
        game.wf(),
        card_count(game.active_view()) <= u64::MAX,
    ensures
        r == score(game.active_view()),
{
    player_points(&game.players[game.active])
}

/// A player's victory points over all of its cards. The bound on its number
/// of cards keeps the Gardens points within `i128`.
pub fn player_points(p: &PlayerState) -> (r: i128)
    requires
        card_count(p@) <= u64::MAX,
    ensures
        r == score(p@),
{
    let fixed = sum_points(&p.deck) + sum_points(&p.hand) + sum_points(&p.discard) + sum_points(
        &p.in_play,
    );
    let gardens: u128 = count_in(&p.deck, Card::Gardens) as u128 + count_in(&p.hand, Card::Gardens) as u128
        + count_in(&p.discard, Card::Gardens) as u128 + count_in(&p.in_play, Card::Gardens) as u128;
    let cards: u128 = p.deck.len() as u128 + p.hand.len() as u128 + p.discard.len() as u128
        + p.in_play.len() as u128;
    let per = cards / 10;
    assert(gardens == p.zones().count(Card::Gardens));
    assert(gardens <= cards);
    assert(gardens * per * 10 <= cards * cards) by (nonlinear_arith)
        requires
            gardens <= cards,
            per * 10 <= cards,
    {
    }
    assert(cards * cards <= 0xffff_ffff_ffff_ffffu128 * 0xffff_ffff_ffff_ffffu128) by (nonlinear_arith)
        requires
            cards <= 0xffff_ffff_ffff_ffffu128,
    {
    }
    let bonus = (gardens * per) as i128;
    fixed + bonus
}

} // verus!
