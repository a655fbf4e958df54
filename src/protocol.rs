//! The messages between players and the single owner of the game state, and
//! the arbitration step that services exactly one message at a time.
//!
//! A player's logic sends commands and queries and supplies the payloads of
//! its pending plays; the owner of the game applies each message in turn with
//! `Arbiter::handle`. Moving messages across threads is left to the caller.

use crate::card::{Card, is_action};
use crate::engine::{ActionInput, Game, conserved};
use crate::error::Error;
use crate::game::{Player, effect_post, played, resolve_effect, same_table, views};
use crate::play::{all_money_played, begin_play, buy, can_play, play_all_money, play_card_and};
use crate::turn::{
    HAND_SIZE, cleaned_up, end_turn, finished, is_game_finished, start_turn, turn_started,
};
use crate::zones::{GameState, PlayerView, bought, drew};
use vstd::prelude::*;

verus! {

/// A command from the active player.
#[derive(Clone, Copy, Debug, PartialEq, Eq, Structural)]
pub enum Command {
    Play(Card),
    PlayAllMoney,
    Buy(Card),
}

/// A read-only question from a player about its own state.
#[derive(Clone, Copy, Debug, PartialEq, Eq, Structural)]
pub enum Query {
    BuyingPower,
    Hand,
    HandSize,
    HasInHand(Card),
    /// Copies left in the card's supply pile.
    Count(Card),
    /// Whether the player owns the card anywhere: hand, deck, discard or in play.
    Owns(Card),
}

/// The answer to a `Query`.
#[derive(Debug)]
pub enum Answer {
    BuyingPower(u64),
    Hand(Vec<Card>),
    HandSize(usize),
    HasInHand(bool),
    Count(Option<u64>),
    Owns(bool),
}

/// A message the engine sends a player unprompted.
#[derive(Clone, Copy, Debug, PartialEq, Eq, Structural)]
pub enum Notification {
    /// It is the player's turn, in the given round.
    YourTurn(u64),
    /// The game is over.
    GameOver,
    /// Another player played Militia: discard down to three cards.
    Militia,
    /// Another player attacks with the given card while the player holds Moat.
    Attack(Card),
}

/// A player's answer to a `Notification` that asks for a choice.
#[derive(Clone, Copy, Debug, PartialEq, Eq, Structural)]
pub enum Reaction {
    /// The player has no policy for the notification.
    NotImplemented,
    /// The card to discard to Militia.
    MilitiaDiscard(Card),
    /// Reveal Moat and block the attack.
    RevealMoat,
    /// Do not block the attack.
    TakeAttack,
}

/// The engine's response to a command or to a pending play's payloads.
#[derive(Clone, Copy, Debug, PartialEq, Eq, Structural)]
pub enum Response {
    /// The command was carried out.
    NoProblem,
    /// The command failed with this error; the game is as before, unless an
    /// attack had already reached some opponents.
    Failed(Error),
    /// The message named no pending play of the player.
    DontUnderstand,
    /// The card is in play and its effect waits for more decisions.
    Incomplete { card: Card, index: usize },
}

/// An effect waiting for decisions: the card, its index among the player's
/// pending plays, and the payloads gathered so far.
#[derive(Debug)]
pub struct PendingPlay {
    pub card: Card,
    pub index: usize,
    pub discarding: Vec<Card>,
    pub trashing: Vec<Card>,
}

/// More payloads for the pending play with the given index.
#[derive(Debug)]
pub struct PendingInput {
    pub index: usize,
    pub discarding: Vec<Card>,
    pub trashing: Vec<Card>,
}

/// A message for the owner of the game.
#[derive(Debug)]
pub enum Event {
    Command(Command),
    Query(Query),
    Pending(PendingInput),
    /// The active player ends its turn.
    Done,
}

/// What the owner of the game sends back for an `Event`.
#[derive(Debug)]
pub enum Outcome {
    Respond(Response),
    Answer(Answer),
    TurnOver,
}

/// Whether `c` waits for decisions when it is played without payloads.
pub open spec fn needs_decisions(c: Card) -> bool {
    c == Card::Cellar || c == Card::Chapel
}

/// Whether a pending play of `c` with these payloads can be resolved.
pub open spec fn complete(c: Card, discarding: Seq<Card>, trashing: Seq<Card>) -> bool {
    match c {
        Card::Cellar => discarding.len() > 0,
        Card::Chapel => trashing.len() > 0,
        _ => true,
    }
}

/// The payloads as decision inputs: the discards, then the trashes.
pub open spec fn as_inputs(discarding: Seq<Card>, trashing: Seq<Card>) -> Seq<ActionInput> {
    discarding.map_values(|c: Card| ActionInput::Discard(c)) + trashing.map_values(
        |c: Card| ActionInput::Trash(c),
    )
}

/// The response that reports result `r`.
pub open spec fn response_of(r: Result<(), Error>) -> Response {
    match r {
        Ok(()) => Response::NoProblem,
        Err(e) => Response::Failed(e),
    }
}

/// The result that response `r` reports.
pub open spec fn result_of(r: Response) -> Result<(), Error> {
    match r {
        Response::Failed(e) => Err(e),
        _ => Ok(()),
    }
}

/// Whether `r` reports a result: success or an error.
pub open spec fn reports(r: Response) -> bool {
    r is NoProblem || r is Failed
}

/// The answer to `q` for player `v` in a game with shared state `s`.
pub open spec fn answers(q: Query, v: PlayerView, s: GameState, a: Answer) -> bool {
    match q {
        Query::BuyingPower => a == Answer::BuyingPower(v.buying_power),
        Query::Hand => a matches Answer::Hand(h) && h@ == v.hand,
        Query::HandSize => a == Answer::HandSize(v.hand.len() as usize),
        Query::HasInHand(c) => a == Answer::HasInHand(v.hand.contains(c)),
        Query::Count(c) => a == Answer::Count(s.pile(c)),
        Query::Owns(c) => a == Answer::Owns(v.zones().count(c) > 0),
    }
}

fn respond(r: Result<(), Error>) -> (o: Response)
    ensures
        o == response_of(r),
{
    match r {
        Ok(()) => Response::NoProblem,
        Err(e) => Response::Failed(e),
    }
}

impl Response {
    /// Whether the response reports a failure.
    pub fn is_err(&self) -> (r: bool)
        ensures
            r == (*self is Failed || *self is DontUnderstand),
    {
        match self {
            Response::Failed(_) | Response::DontUnderstand => true,
            _ => false,
        }
    }

    /// The response of a play that waits for decisions.
    pub fn incomplete(card: Card, index: usize) -> (r: Response)
        ensures
            r == (Response::Incomplete { card, index }),
    {
        Response::Incomplete { card, index }
    }

    /// The payloads that discard `cards` for the pending play this response
    /// names; `None` for any other response.
    pub fn discarding(&self, cards: Vec<Card>) -> (r: Option<PendingInput>)
        ensures
            *self is Incomplete <==> r is Some,
            r matches Some(p) ==> p.index == self->index && p.discarding@ == cards@ && p.trashing@.len() == 0,
    {
        match self {
            Response::Incomplete { index, .. } => Some(
                PendingInput { index: *index, discarding: cards, trashing: Vec::new() },
            ),
            _ => None,
        }
    }

    /// The payloads that trash `cards` for the pending play this response
    /// names; `None` for any other response.
    pub fn trashing(&self, cards: Vec<Card>) -> (r: Option<PendingInput>)
        ensures
            *self is Incomplete <==> r is Some,
            r matches Some(p) ==> p.index == self->index && p.trashing@ == cards@ && p.discarding@.len() == 0,
    {
        match self {
            Response::Incomplete { index, .. } => Some(
                PendingInput { index: *index, discarding: Vec::new(), trashing: cards },
            ),
            _ => None,
        }
    }
}

impl PendingPlay {
    /// A pending play of `card` with no payloads yet.
    pub fn new(card: Card, index: usize) -> (r: PendingPlay)
        ensures
            r.card == card,
            r.index == index,
            r.discarding@.len() == 0,
            r.trashing@.len() == 0,
    {
        PendingPlay { card, index, discarding: Vec::new(), trashing: Vec::new() }
    }

    /// Whether the payloads gathered so far let the effect be resolved.
    pub fn is_complete(&self) -> (r: bool)
        ensures
            r == complete(self.card, self.discarding@, self.trashing@),
    {
        match self.card {
            Card::Cellar => self.discarding.len() > 0,
            Card::Chapel => self.trashing.len() > 0,
            _ => true,
        }
    }

    /// The gathered payloads as decision inputs.
    pub fn inputs(&self) -> (r: Vec<ActionInput>)
        ensures
            r@ == as_inputs(self.discarding@, self.trashing@),
    {
        let mut r: Vec<ActionInput> = Vec::new();
        let mut i: usize = 0;
        while i < self.discarding.len()
            invariant
                i <= self.discarding@.len(),
                r@ == self.discarding@.subrange(0, i as int).map_values(|c: Card| ActionInput::Discard(c)),
            decreases self.discarding@.len() - i,
        {
            r.push(ActionInput::Discard(self.discarding[i]));
            assert(r@ =~= self.discarding@.subrange(0, i + 1).map_values(|c: Card| ActionInput::Discard(c)));
            i = i + 1;
        }
        assert(self.discarding@.subrange(0, i as int) =~= self.discarding@);
        let ghost first = r@;
        let mut j: usize = 0;
        while j < self.trashing.len()
            invariant
                j <= self.trashing@.len(),
                first == self.discarding@.map_values(|c: Card| ActionInput::Discard(c)),
                r@ == first + self.trashing@.subrange(0, j as int).map_values(|c: Card| ActionInput::Trash(c)),
            decreases self.trashing@.len() - j,
        {
            r.push(ActionInput::Trash(self.trashing[j]));
            assert(r@ =~= first + self.trashing@.subrange(0, j + 1).map_values(|c: Card| ActionInput::Trash(c)));
            j = j + 1;
        }
        assert(self.trashing@.subrange(0, j as int) =~= self.trashing@);
        r
    }
}

/// What `Arbiter::handle_cmd` promises, from arbiter `a0` to `a1`, with response `r`.
pub open spec fn cmd_post(a0: Arbiter, a1: Arbiter, cmd: Command, r: Response) -> bool {
    &&& cmd is Buy ==> reports(r) && bought(
        cmd->Buy_0,
        a0.game.active_view(),
        a0.game.state,
        a1.game.active_view(),
        a1.game.state,
        result_of(r),
    )
    &&& cmd is PlayAllMoney ==> r == Response::NoProblem && views(a1.game) == views(
        a0.game,
    ).update(a0.game.active as int, all_money_played(a0.game.active_view()))
    &&& cmd is Play && needs_decisions(cmd->Play_0) && can_play(cmd->Play_0, a0.game.active_view())
        && a0.next_index < usize::MAX ==> r == (Response::Incomplete {
        card: cmd->Play_0,
        index: a0.next_index,
    }) && views(a1.game) == views(a0.game).update(
        a0.game.active as int,
        played(cmd->Play_0, a0.game.active_view()),
    ) && a1.pending@.len() == a0.pending@.len() + 1
    &&& cmd is Play && !(needs_decisions(cmd->Play_0) && can_play(cmd->Play_0, a0.game.active_view()))
        ==> reports(r) && (can_play(cmd->Play_0, a0.game.active_view()) && is_action(cmd->Play_0)
        ==> effect_post(
        cmd->Play_0,
        Seq::empty(),
        a0.game.active as int,
        views(a0.game).update(a0.game.active as int, played(cmd->Play_0, a0.game.active_view())),
        a0.game.state,
        views(a1.game),
        a1.game.state,
        result_of(r),
    ))
    &&& cmd is Play && !can_play(cmd->Play_0, a0.game.active_view()) ==> r is Failed
        && a1.game == a0.game
    &&& cmd is Play && can_play(cmd->Play_0, a0.game.active_view()) && !is_action(cmd->Play_0)
        ==> r == Response::NoProblem && views(a1.game) == views(a0.game).update(
        a0.game.active as int,
        played(cmd->Play_0, a0.game.active_view()),
    ) && a1.game.state == a0.game.state
    &&& !(cmd is Play && needs_decisions(cmd->Play_0)) ==> a1.pending == a0.pending
}

/// What `Arbiter::supply` promises, from arbiter `a0` to `a1`, with response `r`.
pub open spec fn supply_post(a0: Arbiter, a1: Arbiter, input: PendingInput, r: Response) -> bool {
    &&& (forall|k: int| 0 <= k < a0.pending@.len() ==> #[trigger] a0.pending@[k].index != input.index)
        ==> r == Response::DontUnderstand && a1.game == a0.game
    &&& forall|k: int|
        0 <= k < a0.pending@.len() && #[trigger] a0.pending@[k].index == input.index ==> {
            let p = a0.pending@[k];
            let ds = p.discarding@ + input.discarding@;
            let ts = p.trashing@ + input.trashing@;
            &&& complete(p.card, ds, ts) ==> a1.pending@ == a0.pending@.remove(k)
                && reports(r) && effect_post(
                p.card,
                as_inputs(ds, ts),
                a0.game.active as int,
                views(a0.game),
                a0.game.state,
                views(a1.game),
                a1.game.state,
                result_of(r),
            )
            &&& !complete(p.card, ds, ts) ==> r == (Response::Incomplete { card: p.card, index: p.index })
                && a1.game == a0.game && a1.pending@.len() == a0.pending@.len()
                && a1.pending@[k].discarding@ == ds && a1.pending@[k].trashing@ == ts
        }
}

/// The owner of a game: the game itself and the active player's pending plays.
#[derive(Debug)]
pub struct Arbiter {
    pub game: Game,
    pub pending: Vec<PendingPlay>,
    pub next_index: usize,
}

impl Arbiter {
    /// Pending plays have distinct indices, all below `next_index`.
    pub open spec fn wf(&self) -> bool {
        &&& self.game.wf()
        &&& forall|k: int| 0 <= k < self.pending@.len() ==> #[trigger] self.pending@[k].index < self.next_index
        &&& forall|a: int, b: int|
            0 <= a < b < self.pending@.len() ==> self.pending@[a].index != self.pending@[b].index
    }

    /// The owner of `game`, with no pending plays.
    pub fn new(game: Game) -> (r: Arbiter)
        requires
            game.wf(),
        ensures
            r.wf(),
            r.game == game,
            r.pending@.len() == 0,
    {
        Arbiter { game, pending: Vec::new(), next_index: 0 }
    }

    /// Answers query `q` about the active player.
    pub fn answer_query(&self, q: Query) -> (a: Answer)
        requires
            self.game.wf(),
        ensures
            answers(q, self.game.active_view(), self.game.state, a),
    {
        let p = &self.game.players[self.game.active];
        match q {
            Query::BuyingPower => Answer::BuyingPower(p.buying_power),
            Query::Hand => Answer::Hand(crate::engine::copy_cards(&p.hand)),
            Query::HandSize => Answer::HandSize(p.hand.len()),
            Query::HasInHand(c) => Answer::HasInHand(p.hand_contains(c)),
            Query::Count(c) => Answer::Count(self.game.state.count(c)),
            Query::Owns(c) => Answer::Owns(crate::play::has(&self.game, c)),
        }
    }

    /// Carries out command `cmd` of the active player. Playing a card that
    /// waits for decisions puts it in play and registers a pending play.
    pub fn handle_cmd<P: Player>(&mut self, policies: &Vec<P>, cmd: Command) -> (r: Response)
        requires
            old(self).wf(),
            policies@.len() == old(self).game.players@.len(),
        ensures
            final(self).wf(),
            same_table(old(self).game, final(self).game),
            conserved(old(self).game, final(self).game),
            cmd_post(*old(self), *final(self), cmd, r),
    {
        match cmd {
            Command::Buy(c) => {
                let res = buy(&mut self.game, c);
                respond(res)
            },
            Command::PlayAllMoney => {
                let _ = play_all_money(&mut self.game);
                Response::NoProblem
            },
            Command::Play(c) => {
                let decide = c == Card::Cellar || c == Card::Chapel;
                if decide && crate::play::hand_contains(&self.game, c) && self.game.players[self.game.active].actions > 0 {
                    if self.next_index == usize::MAX {
                        return Response::DontUnderstand;
                    }
                    let res = begin_play(&mut self.game, c);
                    let index = self.next_index;
                    self.pending.push(PendingPlay::new(c, index));
                    self.next_index = index + 1;
                    Response::incomplete(c, index)
                } else {
                    let inputs: Vec<ActionInput> = Vec::new();
                    assert(inputs@ =~= Seq::<ActionInput>::empty());
                    let res = play_card_and(&mut self.game, policies, c, &inputs);
                    respond(res)
                }
            },
        }
    }

    /// Adds payloads to the pending play they name. Once its payloads are
    /// complete, the effect is resolved with all of them and the pending play
    /// ends; until then it waits.
    pub fn supply<P: Player>(&mut self, policies: &Vec<P>, input: PendingInput) -> (r: Response)
        requires
            old(self).wf(),
            policies@.len() == old(self).game.players@.len(),
        ensures
            final(self).wf(),
            same_table(old(self).game, final(self).game),
            conserved(old(self).game, final(self).game),
            supply_post(*old(self), *final(self), input, r),
    {
        let mut pos: usize = 0;
        while pos < self.pending.len() && self.pending[pos].index != input.index
            invariant
                pos <= self.pending@.len(),
                forall|k: int| 0 <= k < pos ==> #[trigger] self.pending@[k].index != input.index,
            decreases self.pending@.len() - pos,
        {
            pos = pos + 1;
        }
        if pos == self.pending.len() {
            return Response::DontUnderstand;
        }
        let ghost old_pending = self.pending@;
        let mut p = self.pending.remove(pos);
        let mut input = input;
        p.discarding.append(&mut input.discarding);
        p.trashing.append(&mut input.trashing);
        if p.is_complete() {
            let inputs = p.inputs();
            let res = resolve_effect(&mut self.game, policies, p.card, &inputs);
            proof {
                assert forall|a: int, b: int| 0 <= a < b < self.pending@.len() implies self.pending@[a].index != self.pending@[b].index by {
                    assert(self.pending@[a] == old_pending[if a < pos { a } else { a + 1 }]);
                    assert(self.pending@[b] == old_pending[if b < pos { b } else { b + 1 }]);
                }
                assert forall|k: int| 0 <= k < self.pending@.len() implies #[trigger] self.pending@[k].index < self.next_index by {
                    assert(self.pending@[k] == old_pending[if k < pos { k } else { k + 1 }]);
                }
            }
            respond(res)
        } else {
            let card = p.card;
            let index = p.index;
            self.pending.insert(pos, p);
            proof {
                assert forall|a: int, b: int| 0 <= a < b < self.pending@.len() implies self.pending@[a].index != self.pending@[b].index by {
                    assert(self.pending@[a].index == old_pending[a].index);
                    assert(self.pending@[b].index == old_pending[b].index);
                }
                assert forall|k: int| 0 <= k < self.pending@.len() implies #[trigger] self.pending@[k].index < self.next_index by {
                    assert(self.pending@[k].index == old_pending[k].index);
                }
            }
            Response::incomplete(card, index)
        }
    }

    /// Starts the active player's turn (see `start_turn`).
    pub fn begin_turn(&mut self)
        requires
            old(self).wf(),
        ensures
            final(self).wf(),
            same_table(old(self).game, final(self).game),
            conserved(old(self).game, final(self).game),
            final(self).pending == old(self).pending,
            final(self).game.state == old(self).game.state,
            drew(
                turn_started(old(self).game.active_view()),
                final(self).game.active_view(),
                if old(self).game.active_view().hand.len() < HAND_SIZE {
                    HAND_SIZE - old(self).game.active_view().hand.len()
                } else {
                    0
                },
            ),
    {
        start_turn(&mut self.game);
    }

    /// Ends the active player's turn: its pending plays are dropped, cleanup
    /// runs and the next player becomes active (see `end_turn`). Returns
    /// whether the game is over, with `limit` empty piles ending it.
    pub fn finish_turn(&mut self, limit: u64) -> (over: bool)
        requires
            old(self).wf(),
        ensures
            final(self).wf(),
            final(self).pending@.len() == 0,
            final(self).game.players@.len() == old(self).game.players@.len(),
            final(self).game.active == (old(self).game.active + 1) % (old(self).game.players@.len() as int),
            conserved(old(self).game, final(self).game),
            final(self).game.state == old(self).game.state,
            drew(
                cleaned_up(old(self).game.active_view()),
                final(self).game.players@[old(self).game.active as int]@,
                HAND_SIZE as int,
            ),
            over == finished(old(self).game.state, limit),
    {
        self.pending = Vec::new();
        end_turn(&mut self.game);
        is_game_finished(&self.game.state, limit)
    }

    /// Services one message: the arbitration step.
    pub fn handle<P: Player>(&mut self, policies: &Vec<P>, event: Event) -> (o: Outcome)
        requires
            old(self).wf(),
            policies@.len() == old(self).game.players@.len(),
        ensures
            final(self).wf(),
            same_table(old(self).game, final(self).game),
            conserved(old(self).game, final(self).game),
            event is Query ==> final(self).game == old(self).game && o is Answer && answers(
                event->Query_0,
                old(self).game.active_view(),
                old(self).game.state,
                o->Answer_0,
            ),
            event is Done ==> o is TurnOver && final(self).game == old(self).game,
            event is Command ==> o is Respond && cmd_post(*old(self), *final(self), event->Command_0, o->Respond_0),
            event is Pending ==> o is Respond && supply_post(*old(self), *final(self), event->Pending_0, o->Respond_0),
    {
        match event {
            Event::Command(cmd) => Outcome::Respond(self.handle_cmd(policies, cmd)),
            Event::Query(q) => Outcome::Answer(self.answer_query(q)),
            Event::Pending(input) => Outcome::Respond(self.supply(policies, input)),
            Event::Done => Outcome::TurnOver,
        }
    }
}

} // verus!
