//! Game setup, the turn state machine (start of turn, cleanup, rotation),
//! the end-of-game check and scoring.

use crate::card::{Card, NUM_CARDS, dominion_set, is_kingdom, spec_index};
use crate::engine::{Game, conserved, lemma_conserved_update};
use crate::game::same_table;
use crate::play::{card_count, player_points, score};
use crate::zones::{
    GameState, PlayerState, PlayerView, conserves, contains_card, drew, lemma_contains_push, shuffle_cards,
};
use rand::Rng;
use vstd::prelude::*;

verus! {

/// The number of cards in a full hand.
pub const HAND_SIZE: usize = 5;

/// The number of cards in each kingdom.
pub const KINGDOM_SIZE: usize = 10;

/// The pile size of each kingdom card.
pub const KINGDOM_PILE: u64 = 10;

/// Relies on rand's `Rng::gen_range` (with the thread-local generator): a
/// uniformly drawn index below `n`; it panics on an empty range, which
/// `requires` excludes.
#[verifier::external_body]
fn random_index(n: usize) -> (r: usize)
    requires
        n > 0,
    ensures
        r < n,
{
    rand::thread_rng().gen_range(0..n)
}

/// The supply's basic piles: 30 of each treasure and of Curse, 12 of each
/// Victory card. No other card has a pile yet.
pub fn build_supply() -> (r: GameState)
    ensures
        r.wf(),
        r.trash@.len() == 0,
        r.pile(Card::Copper) == Some(30u64),
        r.pile(Card::Silver) == Some(30u64),
        r.pile(Card::Gold) == Some(30u64),
        r.pile(Card::Estate) == Some(12u64),
        r.pile(Card::Duchy) == Some(12u64),
        r.pile(Card::Province) == Some(12u64),
        r.pile(Card::Curse) == Some(30u64),
        forall|c: Card| spec_index(c) >= 7 ==> #[trigger] r.pile(c) is None,
{
    let mut s = GameState::new();
    s.set_pile(Card::Copper, 30);
    s.set_pile(Card::Silver, 30);
    s.set_pile(Card::Gold, 30);
    s.set_pile(Card::Estate, 12);
    s.set_pile(Card::Duchy, 12);
    s.set_pile(Card::Province, 12);
    s.set_pile(Card::Curse, 30);
    s
}

/// Gives every card of `kingdom` a pile of ten.
pub fn set_kingdom(state: &mut GameState, kingdom: &Vec<Card>)
    requires
        old(state).wf(),
    ensures
        final(state).wf(),
        final(state).trash == old(state).trash,
        forall|c: Card| #[trigger] kingdom@.contains(c) ==> final(state).pile(c) == Some(KINGDOM_PILE),
        forall|c: Card| !kingdom@.contains(c) ==> #[trigger] final(state).pile(c) == old(state).pile(c),
{
    let mut i: usize = 0;
    while i < kingdom.len()
        invariant
            i <= kingdom@.len(),
            state.wf(),
            state.trash == old(state).trash,
            forall|k: int| 0 <= k < i ==> #[trigger] state.pile(kingdom@[k]) == Some(KINGDOM_PILE),
            forall|c: Card| !kingdom@.subrange(0, i as int).contains(c) ==> #[trigger] state.pile(c) == old(state).pile(c),
        decreases kingdom@.len() - i,
    {
        let c = kingdom[i];
        state.set_pile(c, KINGDOM_PILE);
        proof {
            assert forall|d: Card| !kingdom@.subrange(0, i + 1).contains(d) implies #[trigger] state.pile(d) == old(state).pile(d) by {
                assert(kingdom@.subrange(0, i + 1)[i as int] == c);
                if kingdom@.subrange(0, i as int).contains(d) {
                    let k = choose|k: int| 0 <= k < i && kingdom@.subrange(0, i as int)[k] == d;
                    assert(kingdom@.subrange(0, i + 1)[k] == d);
                }
            }
        }
        i = i + 1;
    }
    proof {
        assert(kingdom@.subrange(0, kingdom@.len() as int) =~= kingdom@);
        assert forall|c: Card| #[trigger] kingdom@.contains(c) implies state.pile(c) == Some(KINGDOM_PILE) by {
            let k = choose|k: int| 0 <= k < kingdom@.len() && kingdom@[k] == c;
            assert(state.pile(kingdom@[k]) == Some(KINGDOM_PILE));
        }
    }
}

/// Completes `chosen` to a kingdom of ten cards with kingdom cards picked at
/// random among those not chosen yet; it stops early only when every kingdom
/// card is in it.
pub fn build_kingdom(chosen: &Vec<Card>) -> (r: Vec<Card>)
    ensures
        r@.subrange(0, chosen@.len() as int) == chosen@,
        r@.len() >= chosen@.len(),
        r@.len() <= if chosen@.len() > KINGDOM_SIZE { chosen@.len() as int } else { KINGDOM_SIZE as int },
        forall|i: int|
            chosen@.len() <= i < r@.len() ==> is_kingdom(#[trigger] r@[i]) && !r@.subrange(0, i).contains(r@[i]),
        r@.len() < KINGDOM_SIZE ==> forall|c: Card| is_kingdom(c) ==> #[trigger] r@.contains(c),
{
    let all = dominion_set();
    let mut r: Vec<Card> = Vec::new();
    let mut i: usize = 0;
    while i < chosen.len()
        invariant
            i <= chosen@.len(),
            r@ == chosen@.subrange(0, i as int),
        decreases chosen@.len() - i,
    {
        r.push(chosen[i]);
        assert(r@ =~= chosen@.subrange(0, i + 1));
        i = i + 1;
    }
    assert(chosen@.subrange(0, chosen@.len() as int) =~= chosen@);
    let mut candidates: Vec<Card> = Vec::new();
    let mut j: usize = 0;
    while j < all.len()
        invariant
            j <= all@.len(),
            r@ == chosen@,
            forall|c: Card| is_kingdom(c) <==> #[trigger] all@.contains(c),
            forall|a: int, b: int| 0 <= a < b < all@.len() ==> all@[a] != all@[b],
            forall|c: Card| #[trigger] candidates@.contains(c) <==> (all@.subrange(0, j as int).contains(c) && !r@.contains(c)),
            forall|a: int, b: int| 0 <= a < b < candidates@.len() ==> candidates@[a] != candidates@[b],
        decreases all@.len() - j,
    {
        let c = all[j];
        let seen = contains_card(&r, c);
        let ghost before = candidates@;
        if !seen {
            candidates.push(c);
        }
        proof {
            assert(all@.subrange(0, j + 1) =~= all@.subrange(0, j as int).push(c));
            if before.contains(c) {
                assert(all@.subrange(0, j as int).contains(c));
                let k = choose|k: int| 0 <= k < j && all@.subrange(0, j as int)[k] == c;
                assert(all@[k] == all@[j as int]);
            }
            assert forall|d: Card| #[trigger] candidates@.contains(d) <==> (all@.subrange(0, j + 1).contains(d) && !r@.contains(d)) by {
                lemma_contains_push(all@.subrange(0, j as int), c, d);
                lemma_contains_push(before, c, d);
            }
        }
        j = j + 1;
    }
    assert(all@.subrange(0, all@.len() as int) =~= all@);
    let ghost base = chosen@.len();
    while r.len() < KINGDOM_SIZE && candidates.len() > 0
        invariant
            r@.len() >= base,
            base == chosen@.len(),
            r@.subrange(0, base as int) == chosen@,
            r@.len() <= if chosen@.len() > KINGDOM_SIZE { chosen@.len() as int } else { KINGDOM_SIZE as int },
            forall|c: Card| #[trigger] candidates@.contains(c) <==> (is_kingdom(c) && !r@.contains(c)),
            forall|a: int, b: int| 0 <= a < b < candidates@.len() ==> candidates@[a] != candidates@[b],
            forall|i: int| base <= i < r@.len() ==> is_kingdom(#[trigger] r@[i]) && !r@.subrange(0, i).contains(r@[i]),
        decreases candidates@.len(),
    {
        let idx = random_index(candidates.len());
        let ghost cands = candidates@;
        let c = candidates.remove(idx);
        let ghost before = r@;
        r.push(c);
        proof {
            assert(r@.subrange(0, base as int) =~= before.subrange(0, base as int));
            assert(r@.subrange(0, before.len() as int) =~= before);
            assert(cands.contains(c)) by {
                assert(cands[idx as int] == c);
            }
            assert forall|i: int| base <= i < r@.len() implies is_kingdom(#[trigger] r@[i]) && !r@.subrange(0, i).contains(r@[i]) by {
                if i < before.len() {
                    assert(r@.subrange(0, i) =~= before.subrange(0, i));
                } else {
                    assert(r@.subrange(0, i) =~= before);
                }
            }
            assert forall|d: Card| #[trigger] candidates@.contains(d) <==> (is_kingdom(d) && !r@.contains(d)) by {
                lemma_contains_push(before, c, d);
                assert(cands.remove(idx as int) == candidates@);
                if candidates@.contains(d) {
                    let k = choose|k: int| 0 <= k < candidates@.len() && candidates@[k] == d;
                    if k < idx {
                        assert(cands[k] == d);
                    } else {
                        assert(cands[k + 1] == d);
                    }
                    assert(cands.contains(d));
                    assert(d != c) by {
                        lemma_distinct_remove(cands, idx as int, k);
                    }
                }
                if is_kingdom(d) && !r@.contains(d) {
                    assert(cands.contains(d));
                    let k = choose|k: int| 0 <= k < cands.len() && cands[k] == d;
                    assert(k != idx);
                    if k < idx {
                        assert(candidates@[k] == d);
                    } else {
                        assert(candidates@[k - 1] == d);
                    }
                }
            }
        }
    }
    proof {
        if r@.len() < KINGDOM_SIZE {
            assert(candidates@.len() == 0);
            assert forall|c: Card| is_kingdom(c) implies #[trigger] r@.contains(c) by {
                if !r@.contains(c) {
                    assert(!candidates@.contains(c));
                }
            }
        }
    }
    r
}

/// A starting deck: seven Coppers and three Estates, shuffled.
pub fn starting_deck() -> (r: Vec<Card>)
    ensures
        r@.len() == 10,
        r@.to_multiset().count(Card::Copper) == 7,
        r@.to_multiset().count(Card::Estate) == 3,
        forall|c: Card| c != Card::Copper && c != Card::Estate ==> #[trigger] r@.to_multiset().count(c) == 0,
{
    let mut deck = Card::Copper.def().create_copies(7);
    let mut estates = Card::Estate.def().create_copies(3);
    let ghost a = deck@;
    let ghost b = estates@;
    deck.append(&mut estates);
    proof {
        vstd::seq_lib::lemma_multiset_commutative(a, b);
        broadcast use vstd::seq_lib::group_to_multiset_ensures;
        lemma_copies_count(a, Card::Copper);
        lemma_copies_count(b, Card::Estate);
    }
    shuffle_cards(&mut deck);
    proof {
        broadcast use vstd::seq_lib::group_to_multiset_ensures;
        assert(deck@.len() == deck@.to_multiset().len());
        assert(a.len() + b.len() == (a + b).to_multiset().len());
    }
    deck
}

proof fn lemma_distinct_remove(s: Seq<Card>, i: int, k: int)
    requires
        0 <= i < s.len(),
        0 <= k < s.len() - 1,
        forall|a: int, b: int| 0 <= a < b < s.len() ==> s[a] != s[b],
    ensures
        s.remove(i)[k] != s[i],
{
    if k < i {
        assert(s.remove(i)[k] == s[k]);
    } else {
        assert(s.remove(i)[k] == s[k + 1]);
    }
}

proof fn lemma_copies_count(s: Seq<Card>, c: Card)
    requires
        forall|i: int| 0 <= i < s.len() ==> s[i] == c,
    ensures
        s.to_multiset().count(c) == s.len(),
        forall|d: Card| d != c ==> #[trigger] s.to_multiset().count(d) == 0,
    decreases s.len(),
{
    broadcast use vstd::seq_lib::group_to_multiset_ensures;
    if s.len() > 0 {
        lemma_copies_count(s.drop_last(), c);
        assert(s =~= s.drop_last().push(c));
    } else {
        assert(s.to_multiset() =~= vstd::multiset::Multiset::<Card>::empty());
    }
}

/// A player at the start of a game: a shuffled starting deck of seven
/// Coppers and three Estates, nothing else, and zero counters.
pub open spec fn fresh_player(v: PlayerView) -> bool {
    &&& v.deck.len() == 10
    &&& v.deck.to_multiset().count(Card::Copper) == 7
    &&& v.deck.to_multiset().count(Card::Estate) == 3
    &&& forall|c: Card| c != Card::Copper && c != Card::Estate ==> #[trigger] v.deck.to_multiset().count(c) == 0
    &&& v.hand.len() == 0
    &&& v.discard.len() == 0
    &&& v.in_play.len() == 0
    &&& v.actions == 0
    &&& v.buys == 0
    &&& v.buying_power == 0
}

/// Sets up a game of `n` players with `kingdom`: the basic piles, a pile of
/// ten for each kingdom card, and a starting deck for each player; the first
/// player is active. A count outside two to six is refused with `None`,
/// since no empty-pile limit exists for it.
pub fn setup_game(kingdom: &Vec<Card>, n: usize) -> (r: Option<Game>)
    ensures
        r is None <==> empty_limit(n as int) is None,
        r matches Some(g) ==> {
            &&& g.wf()
            &&& g.players@.len() == n
            &&& g.active == 0
            &&& forall|k: int| 0 <= k < n ==> fresh_player(#[trigger] g.players@[k]@)
            &&& g.state.trash@.len() == 0
            &&& forall|c: Card| #[trigger] kingdom@.contains(c) ==> g.state.pile(c) == Some(KINGDOM_PILE)
            &&& forall|c: Card|
                !kingdom@.contains(c) && spec_index(c) >= 7 ==> #[trigger] g.state.pile(c) is None
            &&& !kingdom@.contains(Card::Province) ==> g.state.pile(Card::Province) == Some(12u64)
        },
{
    if get_empty_limit(n).is_none() {
        return None;
    }
    let mut state = build_supply();
    set_kingdom(&mut state, kingdom);
    let mut players: Vec<PlayerState> = Vec::new();
    let mut k: usize = 0;
    while k < n
        invariant
            k <= n,
            players@.len() == k,
            forall|i: int| 0 <= i < k ==> fresh_player(#[trigger] players@[i]@),
        decreases n - k,
    {
        let p = PlayerState::new(starting_deck());
        proof {
            assert(p.hand@.len() == 0);
        }
        players.push(p);
        k = k + 1;
    }
    Some(Game::new(players, state))
}

/// The number of distinct piles that this game has and that are empty.
pub open spec fn empty_piles(piles: Seq<Option<u64>>) -> nat
    decreases piles.len(),
{
    if piles.len() == 0 {
        0
    } else {
        empty_piles(piles.drop_last()) + if piles.last() == Some(0u64) {
            1nat
        } else {
            0nat
        }
    }
}

/// The number of empty piles that ends a game of `n` players: 3 for two to
/// four players, 4 for five or six; no game is set up for other counts.
pub open spec fn empty_limit(n: int) -> Option<u64> {
    if 2 <= n <= 4 {
        Some(3u64)
    } else if 5 <= n <= 6 {
        Some(4u64)
    } else {
        None
    }
}

/// Whether a game with this shared state is over: the Province pile is
/// empty, or at least `limit` piles are.
pub open spec fn finished(s: GameState, limit: u64) -> bool {
    s.pile(Card::Province) == Some(0u64) || empty_piles(s.supply@) >= limit
}

/// The empty-pile limit for a game of `n` players, or `None` when no game can
/// be set up with that many players.
pub fn get_empty_limit(n: usize) -> (r: Option<u64>)
    ensures
        r == empty_limit(n as int),
{
    if 2 <= n && n <= 4 {
        Some(3)
    } else if 5 <= n && n <= 6 {
        Some(4)
    } else {
        None
    }
}

/// Whether the game is over (see `finished`).
pub fn is_game_finished(state: &GameState, limit: u64) -> (r: bool)
    requires
        state.wf(),
    ensures
        r == finished(*state, limit),
{
    if state.count(Card::Province) == Some(0) {
        return true;
    }
    let mut n: u64 = 0;
    let mut i: usize = 0;
    while i < state.supply.len()
        invariant
            i <= state.supply@.len(),
            n == empty_piles(state.supply@.subrange(0, i as int)),
            n <= i,
            state.supply@.len() == NUM_CARDS,
        decreases state.supply@.len() - i,
    {
        assert(state.supply@.subrange(0, i + 1).drop_last() =~= state.supply@.subrange(0, i as int));
        if state.supply[i] == Some(0) {
            n = n + 1;
        }
        i = i + 1;
    }
    assert(state.supply@.subrange(0, state.supply@.len() as int) =~= state.supply@);
    n >= limit
}

/// In a two-player game, the game is over exactly when the Province pile is
/// empty or when three distinct piles are empty, whichever comes first.
pub proof fn two_player_game_end(s: GameState)
    ensures
        empty_limit(2) == Some(3u64),
        finished(s, 3) <==> (s.pile(Card::Province) == Some(0u64) || empty_piles(s.supply@) >= 3),
{
}

/// The active player `v` at the start of a turn: counters reset to one
/// action, one buy and no buying power.
pub open spec fn turn_started(v: PlayerView) -> PlayerView {
    PlayerView { actions: 1, buys: 1, buying_power: 0, ..v }
}

/// Starts the active player's turn: resets its counters and draws up to a
/// full hand (fewer when deck and discard run out).
pub fn start_turn(game: &mut Game)
    requires
        old(game).wf(),
    ensures
        same_table(*old(game), *final(game)),
        conserved(*old(game), *final(game)),
        final(game).state == old(game).state,
        drew(
            turn_started(old(game).active_view()),
            final(game).active_view(),
            if old(game).active_view().hand.len() < HAND_SIZE { HAND_SIZE - old(game).active_view().hand.len() } else { 0 },
        ),
        forall|j: int|
            0 <= j < old(game).players@.len() && j != old(game).active ==> #[trigger] final(game).players@[j]
                == old(game).players@[j],
{
    let a = game.active;
    let ghost g0 = *game;
    game.players[a].actions = 1;
    game.players[a].buys = 1;
    game.players[a].buying_power = 0;
    let held = game.players[a].hand.len();
    let missing = if held < HAND_SIZE { HAND_SIZE - held } else { 0 };
    game.players[a].draw_n(missing);
    proof {
        assert(conserves(g0.players@[a as int], g0.state, game.players@[a as int], game.state));
        lemma_conserved_update(g0, *game, a as int);
    }
}

/// The active player `v` after cleanup, before drawing: hand and cards in
/// play go to the discard pile.
pub open spec fn cleaned_up(v: PlayerView) -> PlayerView {
    PlayerView { discard: v.discard + v.hand + v.in_play, hand: Seq::empty(), in_play: Seq::empty(), ..v }
}

/// Ends the active player's turn: cleanup discards hand and cards in play,
/// a fresh hand is drawn, and the turn passes to the next player in seat
/// order, wrapping around.
pub fn end_turn(game: &mut Game)
    requires
        old(game).wf(),
    ensures
        final(game).wf(),
        final(game).players@.len() == old(game).players@.len(),
        final(game).active == (old(game).active + 1) % (old(game).players@.len() as int),
        conserved(*old(game), *final(game)),
        final(game).state == old(game).state,
        drew(cleaned_up(old(game).active_view()), final(game).players@[old(game).active as int]@, HAND_SIZE as int),
        forall|j: int|
            0 <= j < old(game).players@.len() && j != old(game).active ==> #[trigger] final(game).players@[j]
                == old(game).players@[j],
{
    let a = game.active;
    let ghost g0 = *game;
    let n = game.players.len();
    game.players[a].discard_hand();
    assert(game.players@[a as int].hand@ =~= Seq::<Card>::empty());
    assert(game.players@[a as int].in_play@ =~= Seq::<Card>::empty());
    assert(game.players@[a as int]@ =~= cleaned_up(g0.active_view()));
    game.players[a].draw_n(HAND_SIZE);
    proof {
        assert(conserves(g0.players@[a as int], g0.state, game.players@[a as int], game.state));
        lemma_conserved_update(g0, *game, a as int);
    }
    let ghost g1 = *game;
    game.active = if a + 1 < n { a + 1 } else { 0 };
    proof {
        assert forall|c: Card| #[trigger] game.total(c) == g0.total(c) by {
            assert(game.total(c) == g1.total(c));
        }
        assert((a as int + 1) % (n as int) == if a + 1 < n { a as int + 1 } else { 0 }) by (nonlinear_arith)
            requires
                a < n,
        {
        }
    }
}

/// The outcome of a finished game.
#[derive(Debug)]
pub struct GameResult {
    /// The seat of the single player with the most points; `None` on a tie.
    pub winner: Option<usize>,
    /// Every player's victory points, in seat order.
    pub points: Vec<i128>,
}

/// Scores every player and names the winner, or reports a tie for the top.
pub fn game_result(game: &Game) -> (r: GameResult)
    requires
        game.wf(),
        forall|i: int| 0 <= i < game.players@.len() ==> card_count(#[trigger] game.players@[i]@) <= u64::MAX,
    ensures
        r.points@.len() == game.players@.len(),
        forall|i: int| 0 <= i < r.points@.len() ==> #[trigger] r.points@[i] == score(game.players@[i]@),
        r.winner matches Some(w) ==> w < r.points@.len() && forall|j: int|
            0 <= j < r.points@.len() && j != w ==> #[trigger] r.points@[j] < r.points@[w as int],
        r.winner is None ==> exists|i: int, j: int|
            0 <= i < j < r.points@.len() && r.points@[i] == r.points@[j] && forall|k: int|
                0 <= k < r.points@.len() ==> #[trigger] r.points@[k] <= r.points@[i],
{
    let n = game.players.len();
    let mut points: Vec<i128> = Vec::new();
    let mut i: usize = 0;
    while i < n
        invariant
            n == game.players@.len(),
            i <= n,
            points@.len() == i,
            forall|k: int| 0 <= k < n ==> card_count(#[trigger] game.players@[k]@) <= u64::MAX,
            forall|k: int| 0 <= k < i ==> #[trigger] points@[k] == score(game.players@[k]@),
        decreases n - i,
    {
        let p = player_points(&game.players[i]);
        points.push(p);
        i = i + 1;
    }
    let mut best: usize = 0;
    let mut i: usize = 1;
    while i < n
        invariant
            n == points@.len(),
            n > 0,
            1 <= i <= n,
            best < i,
            forall|k: int| 0 <= k < i ==> #[trigger] points@[k] <= points@[best as int],
            forall|k: int| 0 <= k < best ==> #[trigger] points@[k] < points@[best as int],
        decreases n - i,
    {
        if points[i] > points[best] {
            best = i;
        }
        i = i + 1;
    }
    let mut tie = false;
    let mut j: usize = 0;
    while j < n
        invariant
            n == points@.len(),
            best < n,
            j <= n,
            forall|k: int| 0 <= k < n ==> #[trigger] points@[k] <= points@[best as int],
            forall|k: int| 0 <= k < best ==> #[trigger] points@[k] < points@[best as int],
            tie ==> exists|k: int| 0 <= k < n && k != best && points@[k] == points@[best as int],
            !tie ==> forall|k: int| 0 <= k < j && k != best ==> #[trigger] points@[k] < points@[best as int],
        decreases n - j,
    {
        if j != best && points[j] == points[best] {
            tie = true;
        }
        j = j + 1;
    }
    let ghost ps = points@;
    let winner = if tie {
        None
    } else {
        Some(best)
    };
    let r = GameResult { winner, points };
    proof {
        if tie {
            let k = choose|k: int| 0 <= k < n && k != best && ps[k] == ps[best as int];
            assert(k > best);
            assert(r.points@ == ps);
            assert(0 <= best < k < r.points@.len() && r.points@[best as int] == r.points@[k] && forall|m: int|
                0 <= m < r.points@.len() ==> #[trigger] r.points@[m] <= r.points@[best as int]);
        }
    }
    r
}

} // verus!
