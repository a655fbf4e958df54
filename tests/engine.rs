use dominion::card::Card;
use dominion::card::Card::{
    Adventurer, Bureaucrat, Cellar, Chapel, Copper, CouncilRoom, Curse, Duchy, Estate, Feast,
    Festival, Gold, Library, Market, Militia, Mine, Moat, Moneylender, Province, Remodel, Silver,
    Smithy, Spy, Thief, ThroneRoom, Village, Witch, Workshop, Gardens,
};
use dominion::card::{dominion_set, for_name, CardType};
use dominion::engine::ActionInput::{Discard, Gain, Repeat, Trash};
use dominion::engine::Game;
use dominion::error::Error;
use dominion::game::{attack_blocks, militia_attack, witch_attack, DefaultPlayer, Player};
use dominion::play::{
    buy, count, get_available_money, get_buying_power, get_hand, get_total_points, has, number_of,
    play_all_money, play_card, play_card_and,
};
use dominion::protocol::{Answer, Arbiter, Command, Event, Outcome, Query, Response};
use dominion::strat::{big_money, big_money_smithy, big_money_witch};
use dominion::turn::{
    build_kingdom, build_supply, end_turn, game_result, get_empty_limit, is_game_finished,
    set_kingdom, setup_game, start_turn, starting_deck,
};
use dominion::zones::{GameState, PlayerState};

fn player(hand: Vec<Card>, deck: Vec<Card>) -> PlayerState {
    let mut p = PlayerState::new(deck);
    p.hand = hand;
    p.actions = 1;
    p.buys = 1;
    p
}

fn game_of(players: Vec<PlayerState>) -> Game {
    Game::new(players, build_supply())
}

/// Copies of `c` in all zones, the supply and the trash.
fn total(game: &Game, c: Card) -> u64 {
    let mut n = 0u64;
    for p in game.players.iter() {
        for zone in [&p.deck, &p.hand, &p.discard, &p.in_play] {
            n += zone.iter().filter(|&&x| x == c).count() as u64;
        }
    }
    n += game.state.trash.iter().filter(|&&x| x == c).count() as u64;
    n + game.state.count(c).unwrap_or(0)
}

struct NeverBlock;
impl Player for NeverBlock {
    fn moat_should_block(&self, _attacker: Card) -> bool {
        false
    }
}

struct PicksAbsent;
impl Player for PicksAbsent {
    fn militia_discard(&self, _options: &Vec<Card>) -> Card {
        Province
    }
}

#[test]
fn buy_province_underfunded_is_rejected() {
    let mut game = game_of(vec![player(vec![], vec![])]);
    game.players[0].buying_power = 7;
    let before = count(&game, Province);
    let r = buy(&mut game, Province);
    assert_eq!(r, Err(Error::NotEnoughMoney { need: 8, have: 7 }));
    assert_eq!(count(&game, Province), before);
    assert!(game.players[0].discard.is_empty());
    assert_eq!(get_buying_power(&game), 7);
}

#[test]
fn buy_pays_and_uses_a_buy() {
    let mut game = game_of(vec![player(vec![], vec![])]);
    game.players[0].buying_power = 9;
    game.players[0].actions = 1;
    assert_eq!(buy(&mut game, Province), Ok(()));
    assert_eq!(count(&game, Province), Some(11));
    assert_eq!(game.players[0].discard, vec![Province]);
    assert_eq!(game.players[0].buying_power, 1);
    assert_eq!(game.players[0].buys, 0);
    assert_eq!(game.players[0].actions, 0);
    assert_eq!(buy(&mut game, Copper), Err(Error::NoBuys));
}

#[test]
fn buy_errors_for_missing_and_empty_piles() {
    let mut game = game_of(vec![player(vec![], vec![])]);
    game.players[0].buying_power = 10;
    assert_eq!(buy(&mut game, Smithy), Err(Error::NotInSupply(Smithy)));
    game.state.set_pile(Duchy, 0);
    assert_eq!(buy(&mut game, Duchy), Err(Error::EmptyPile(Duchy)));
}

#[test]
fn draw_reshuffles_discard_when_deck_is_empty() {
    let mut p = player(vec![], vec![]);
    p.discard = vec![Gold, Silver, Copper];
    let c = p.draw();
    assert!(c.is_some());
    assert_eq!(p.hand.len(), 1);
    assert!(p.discard.is_empty());
    assert_eq!(p.deck.len(), 2);
    let mut all = p.deck.clone();
    all.push(p.hand[0]);
    all.sort_by_key(|c| c.index());
    assert_eq!(all, vec![Copper, Silver, Gold]);
}

#[test]
fn draw_from_nothing_returns_nothing() {
    let mut p = player(vec![Estate], vec![]);
    assert_eq!(p.draw(), None);
    assert!(p.deck.is_empty());
    assert!(p.discard.is_empty());
    assert_eq!(p.hand, vec![Estate]);
}

#[test]
fn draw_takes_the_top_of_the_deck() {
    let mut p = player(vec![], vec![Silver, Gold, Copper]);
    assert_eq!(p.draw(), Some(Silver));
    assert_eq!(p.deck, vec![Gold, Copper]);
    assert_eq!(p.draw_n(5), 2);
    assert_eq!(p.hand, vec![Silver, Gold, Copper]);
}

#[test]
fn cards_are_conserved_across_a_turn() {
    let mut game = game_of(vec![
        player(vec![Witch, Copper, Copper, Estate, Militia], vec![Gold, Silver, Estate]),
        player(vec![Copper, Copper, Copper, Copper, Estate], vec![Duchy]),
    ]);
    game.players[0].actions = 2;
    let policies = vec![DefaultPlayer; 2];
    let cards = [Copper, Silver, Gold, Estate, Duchy, Province, Curse, Witch, Militia];
    let before: Vec<u64> = cards.iter().map(|&c| total(&game, c)).collect();
    play_card(&mut game, &policies, Witch).unwrap();
    play_card(&mut game, &policies, Militia).unwrap();
    play_all_money(&mut game).unwrap();
    let _ = buy(&mut game, Silver);
    end_turn(&mut game);
    start_turn(&mut game);
    let after: Vec<u64> = cards.iter().map(|&c| total(&game, c)).collect();
    assert_eq!(before, after);
    assert_eq!(game.active, 1);
}

#[test]
fn witch_curses_an_unprotected_opponent() {
    let mut game = game_of(vec![
        player(vec![Witch], vec![Copper, Copper]),
        player(vec![Copper], vec![]),
    ]);
    let policies = vec![DefaultPlayer; 2];
    play_card(&mut game, &policies, Witch).unwrap();
    assert_eq!(game.players[1].discard, vec![Curse]);
    assert_eq!(count(&game, Curse), Some(29));
    assert_eq!(game.players[0].hand, vec![Copper, Copper]);
}

#[test]
fn moat_blocks_witch_only_when_the_policy_says_so() {
    let mut game = game_of(vec![player(vec![Witch], vec![]), player(vec![Moat], vec![])]);
    play_card(&mut game, &vec![DefaultPlayer; 2], Witch).unwrap();
    assert!(game.players[1].discard.is_empty());

    let mut game = game_of(vec![player(vec![Witch], vec![]), player(vec![Moat], vec![])]);
    play_card(&mut game, &vec![NeverBlock, NeverBlock], Witch).unwrap();
    assert_eq!(game.players[1].discard, vec![Curse]);
}

#[test]
fn attack_runs_once_per_unblocked_opponent() {
    let mut game = game_of(vec![
        player(vec![], vec![]),
        player(vec![Moat, Copper, Copper, Copper, Copper], vec![]),
        player(vec![Copper, Copper, Copper, Copper, Estate], vec![]),
    ]);
    let blocks = attack_blocks(&game, &vec![DefaultPlayer; 3], Militia);
    assert_eq!(blocks, vec![false, true, false]);
    let r = militia_attack(&mut game, &vec![DefaultPlayer; 3], &blocks);
    assert_eq!(r, Ok(()));
    assert_eq!(game.players[1].hand.len(), 5);
    assert_eq!(game.players[2].hand.len(), 3);
    assert_eq!(game.players[2].discard.len(), 2);

    let mut game = game_of(vec![player(vec![], vec![]), player(vec![Copper], vec![])]);
    witch_attack(&mut game, &vec![false, true]);
    assert!(game.players[1].discard.is_empty());
}

#[test]
fn militia_with_an_invalid_choice_fails() {
    let mut game = game_of(vec![
        player(vec![Militia], vec![]),
        player(vec![Copper, Copper, Copper, Copper, Copper], vec![]),
    ]);
    let r = play_card(&mut game, &vec![PicksAbsent, PicksAbsent], Militia);
    assert_eq!(r, Err(Error::InvalidChoice(Province)));
    assert_eq!(game.players[1].hand.len(), 5);
}

#[test]
fn play_errors() {
    let mut game = game_of(vec![player(vec![Estate, Smithy, Village], vec![])]);
    let policies = vec![DefaultPlayer];
    assert_eq!(play_card(&mut game, &policies, Estate), Err(Error::InvalidPlay(Estate)));
    assert_eq!(play_card(&mut game, &policies, Gold), Err(Error::InvalidPlay(Gold)));
    game.players[0].actions = 0;
    assert_eq!(play_card(&mut game, &policies, Smithy), Err(Error::NoActions));
    assert_eq!(game.players[0].hand, vec![Estate, Smithy, Village]);
}

#[test]
fn money_ends_the_action_phase() {
    let mut game = game_of(vec![player(vec![Gold, Village], vec![])]);
    let policies = vec![DefaultPlayer];
    play_card(&mut game, &policies, Gold).unwrap();
    assert_eq!(get_buying_power(&game), 3);
    assert_eq!(game.players[0].actions, 0);
    assert_eq!(play_card(&mut game, &policies, Village), Err(Error::NoActions));
}

#[test]
fn cellar_discarding_a_missing_card_changes_nothing() {
    let mut game = game_of(vec![player(vec![Cellar, Estate], vec![Gold])]);
    let r = play_card_and(&mut game, &vec![DefaultPlayer], Cellar, &vec![Discard(Estate), Discard(Estate)]);
    assert_eq!(r, Err(Error::NotInHand(Estate)));
    assert_eq!(game.players[0].hand, vec![Estate]);
    assert_eq!(game.players[0].in_play, vec![Cellar]);
}

#[test]
fn chapel_trashes_at_most_four() {
    let mut game = game_of(vec![player(vec![Chapel, Copper, Copper, Copper, Copper, Copper], vec![])]);
    let inputs = vec![Trash(Copper); 5];
    play_card_and(&mut game, &vec![DefaultPlayer], Chapel, &inputs).unwrap();
    assert_eq!(game.players[0].hand, vec![Copper]);
    assert_eq!(game.state.trash.len(), 4);
}

#[test]
fn workshop_and_remodel() {
    let mut game = game_of(vec![player(vec![Workshop, Workshop, Workshop, Remodel, Estate, Gold], vec![])]);
    game.players[0].actions = 5;
    let p = vec![DefaultPlayer];
    assert_eq!(play_card(&mut game, &p, Workshop), Err(Error::NothingToGain));
    assert_eq!(play_card_and(&mut game, &p, Workshop, &vec![Gain(Gold)]), Err(Error::InvalidChoice(Gold)));
    play_card_and(&mut game, &p, Workshop, &vec![Gain(Silver)]).unwrap();
    assert_eq!(game.players[0].discard, vec![Silver]);
    assert_eq!(count(&game, Silver), Some(29));
    assert_eq!(play_card_and(&mut game, &p, Remodel, &vec![Gain(Silver)]), Err(Error::NothingToTrash));

    let mut game = game_of(vec![player(vec![Remodel, Estate], vec![])]);
    assert_eq!(
        play_card_and(&mut game, &p, Remodel, &vec![Trash(Estate), Gain(Gold)]),
        Err(Error::InvalidChoice(Gold))
    );
    let mut game = game_of(vec![player(vec![Remodel, Estate], vec![])]);
    play_card_and(&mut game, &p, Remodel, &vec![Trash(Estate), Gain(Silver)]).unwrap();
    assert_eq!(game.players[0].hand, Vec::<Card>::new());
    assert_eq!(game.state.trash, vec![Estate]);
    assert_eq!(game.players[0].discard, vec![Silver]);
    let mut game = game_of(vec![player(vec![Remodel, Estate], vec![])]);
    assert_eq!(play_card_and(&mut game, &p, Remodel, &vec![Trash(Estate)]), Err(Error::NothingToGain));
}

#[test]
fn counters_of_simple_actions() {
    let mut game = game_of(vec![player(vec![Village, Market, Festival, Moneylender, Copper], vec![Estate, Estate])]);
    let p = vec![DefaultPlayer];
    play_card(&mut game, &p, Village).unwrap();
    assert_eq!(game.players[0].actions, 2);
    play_card(&mut game, &p, Market).unwrap();
    assert_eq!((game.players[0].actions, game.players[0].buys, game.players[0].buying_power), (2, 2, 1));
    play_card(&mut game, &p, Festival).unwrap();
    assert_eq!((game.players[0].actions, game.players[0].buys, game.players[0].buying_power), (3, 3, 3));
    play_card(&mut game, &p, Moneylender).unwrap();
    assert_eq!(game.players[0].buying_power, 6);
    assert_eq!(game.state.trash, vec![Copper]);
    assert_eq!(game.players[0].hand, vec![Estate, Estate]);
}

#[test]
fn council_room_draws_for_everyone() {
    let mut game = game_of(vec![
        player(vec![CouncilRoom], vec![Copper, Copper, Copper, Copper, Copper]),
        player(vec![], vec![Gold]),
    ]);
    play_card(&mut game, &vec![DefaultPlayer; 2], CouncilRoom).unwrap();
    assert_eq!(game.players[0].hand.len(), 4);
    assert_eq!(game.players[0].buys, 2);
    assert_eq!(game.players[1].hand, vec![Gold]);
}

#[test]
fn play_all_money_and_queries() {
    let mut game = game_of(vec![player(vec![Copper, Estate, Gold, Silver], vec![Province])]);
    assert_eq!(get_available_money(&game), 6);
    play_all_money(&mut game).unwrap();
    assert_eq!(get_buying_power(&game), 6);
    assert_eq!(get_hand(&game), vec![Estate]);
    assert_eq!(game.players[0].in_play, vec![Copper, Gold, Silver]);
    assert_eq!(game.players[0].actions, 0);
    assert!(has(&game, Province));
    assert_eq!(number_of(&game, Copper), 1);
    assert_eq!(get_total_points(&game), 7);
}

#[test]
fn end_of_game_rules() {
    assert_eq!(get_empty_limit(1), None);
    assert_eq!(get_empty_limit(2), Some(3));
    assert_eq!(get_empty_limit(4), Some(3));
    assert_eq!(get_empty_limit(5), Some(4));
    assert_eq!(get_empty_limit(6), Some(4));
    assert_eq!(get_empty_limit(7), None);

    let mut s = build_supply();
    assert!(!is_game_finished(&s, 3));
    s.set_pile(Province, 0);
    assert!(is_game_finished(&s, 3));

    let mut s = build_supply();
    s.set_pile(Copper, 0);
    s.set_pile(Silver, 0);
    assert!(!is_game_finished(&s, 3));
    s.set_pile(Curse, 0);
    assert!(is_game_finished(&s, 3));
    assert!(!is_game_finished(&s, 4));
}

#[test]
fn scoring_reports_winner_and_ties() {
    let mut a = player(vec![Province], vec![Estate]);
    a.in_play = vec![Duchy];
    let b = player(vec![Curse], vec![Province]);
    let game = game_of(vec![a, b]);
    let r = game_result(&game);
    assert_eq!(r.points, vec![10, 5]);
    assert_eq!(r.winner, Some(0));

    let game = game_of(vec![player(vec![Duchy], vec![]), player(vec![Estate, Estate, Estate], vec![]), player(vec![], vec![])]);
    let r = game_result(&game);
    assert_eq!(r.points, vec![3, 3, 0]);
    assert_eq!(r.winner, None);
}

#[test]
fn turn_start_and_cleanup() {
    let mut game = game_of(vec![
        player(vec![Copper], vec![Silver, Silver, Silver, Silver, Silver, Gold]),
        player(vec![], vec![]),
    ]);
    game.players[0].buying_power = 4;
    start_turn(&mut game);
    assert_eq!(game.players[0].hand, vec![Copper, Silver, Silver, Silver, Silver]);
    assert_eq!((game.players[0].actions, game.players[0].buys, game.players[0].buying_power), (1, 1, 0));
    game.players[0].in_play = vec![];
    end_turn(&mut game);
    assert_eq!(game.active, 1);
    assert_eq!(game.players[0].hand.len(), 5);
    assert_eq!(game.players[0].deck.len() + game.players[0].discard.len(), 2);
    end_turn(&mut game);
    assert_eq!(game.active, 0);
}

#[test]
fn setup_helpers() {
    let deck = starting_deck();
    assert_eq!(deck.len(), 10);
    assert_eq!(deck.iter().filter(|&&c| c == Copper).count(), 7);
    assert_eq!(deck.iter().filter(|&&c| c == Estate).count(), 3);

    let k = build_kingdom(&vec![Smithy, Witch]);
    assert_eq!(k.len(), 10);
    assert_eq!(&k[0..2], &[Smithy, Witch]);
    for (i, c) in k.iter().enumerate() {
        assert!(dominion_set().contains(c));
        assert!(!k[..i].contains(c));
    }
    let mut s = build_supply();
    set_kingdom(&mut s, &k);
    assert_eq!(s.count(Witch), Some(10));
    assert_eq!(s.count(Province), Some(12));
    assert_eq!(GameState::new().count(Copper), None);
}

#[test]
fn catalog_lookups() {
    assert_eq!(for_name("Council Room"), Some(CouncilRoom));
    assert_eq!(for_name("Moat"), Some(Moat));
    assert_eq!(for_name("Throne"), None);
    assert_eq!(for_name("copper"), None);
    assert_eq!(dominion_set().len(), 25);
    assert_eq!(for_name("Gardens"), Some(Gardens));
    assert!(Gardens.is_victory() && !Gardens.is_action());
    assert_eq!(Gardens.cost(), 4);
    assert!(!dominion_set().contains(&Copper));
    assert_eq!(for_name("Throne Room"), Some(ThroneRoom));
    assert_eq!(Province.cost(), 8);
    assert_eq!(Gold.treasure_value(), 3);
    assert_eq!(Curse.victory_points(), -1);
    assert!(Curse.is_curse() && !Curse.is_victory());
    assert!(Moat.is_action() && !Moat.is_money());
    assert_eq!(Silver.def().types, vec![CardType::Money(2)]);
    assert_eq!(Estate.def().create_copies(2), vec![Estate, Estate]);
}

#[test]
fn strategy_choices() {
    assert_eq!(big_money(2, 8), None);
    assert_eq!(big_money(3, 8), Some(Silver));
    assert_eq!(big_money(5, 8), Some(Silver));
    assert_eq!(big_money(5, 5), Some(Duchy));
    assert_eq!(big_money(7, 8), Some(Gold));
    assert_eq!(big_money(8, 8), Some(Province));
    assert_eq!(big_money_smithy(4, 8, false), Some(Smithy));
    assert_eq!(big_money_smithy(4, 8, true), Some(Silver));
    assert_eq!(big_money_witch(5, 8, false), Some(Witch));
    assert_eq!(big_money_witch(5, 3, true), Some(Duchy));
}

#[test]
fn pending_play_resolves_once_complete() {
    let game = game_of(vec![player(vec![Cellar, Estate, Copper], vec![Gold, Silver])]);
    let mut arb = Arbiter::new(game);
    let p = vec![DefaultPlayer];
    let resp = match arb.handle(&p, Event::Command(Command::Play(Cellar))) {
        Outcome::Respond(r) => r,
        _ => panic!("expected a response"),
    };
    assert_eq!(resp, Response::Incomplete { card: Cellar, index: 0 });
    assert_eq!(arb.game.players[0].in_play, vec![Cellar]);
    assert_eq!(arb.pending.len(), 1);

    let more = resp.discarding(vec![]).unwrap();
    match arb.handle(&p, Event::Pending(more)) {
        Outcome::Respond(r) => assert_eq!(r, Response::Incomplete { card: Cellar, index: 0 }),
        _ => panic!("expected a response"),
    }
    let more = resp.discarding(vec![Estate]).unwrap();
    match arb.handle(&p, Event::Pending(more)) {
        Outcome::Respond(r) => assert_eq!(r, Response::NoProblem),
        _ => panic!("expected a response"),
    }
    assert!(arb.pending.is_empty());
    assert_eq!(arb.game.players[0].hand, vec![Copper, Gold]);
    assert_eq!(arb.game.players[0].actions, 1);

    match arb.handle(&p, Event::Query(Query::HandSize)) {
        Outcome::Answer(Answer::HandSize(n)) => assert_eq!(n, 2),
        _ => panic!("expected an answer"),
    }
    match arb.handle(&p, Event::Command(Command::Buy(Province))) {
        Outcome::Respond(r) => assert_eq!(r, Response::Failed(Error::NotEnoughMoney { need: 8, have: 0 })),
        _ => panic!("expected a response"),
    }
    assert!(matches!(arb.handle(&p, Event::Done), Outcome::TurnOver));
    let stray = Response::Incomplete { card: Chapel, index: 7 }.trashing(vec![Copper]).unwrap();
    match arb.handle(&p, Event::Pending(stray)) {
        Outcome::Respond(r) => assert!(r.is_err()),
        _ => panic!("expected a response"),
    }
}

#[test]
fn feast_trashes_itself_and_gains() {
    let mut game = game_of(vec![player(vec![Feast], vec![])]);
    let p = vec![DefaultPlayer];
    play_card_and(&mut game, &p, Feast, &vec![Gain(Duchy)]).unwrap();
    assert!(game.players[0].in_play.is_empty());
    assert_eq!(game.state.trash, vec![Feast]);
    assert_eq!(game.players[0].discard, vec![Duchy]);
    let mut game = game_of(vec![player(vec![Feast], vec![])]);
    assert_eq!(play_card_and(&mut game, &p, Feast, &vec![Gain(Gold)]), Err(Error::InvalidChoice(Gold)));
    assert_eq!(game.players[0].in_play, vec![Feast]);
}

#[test]
fn mine_upgrades_a_treasure_into_the_hand() {
    let mut game = game_of(vec![player(vec![Mine, Estate, Silver], vec![])]);
    let p = vec![DefaultPlayer];
    play_card_and(&mut game, &p, Mine, &vec![Trash(Silver), Gain(Gold)]).unwrap();
    assert_eq!(game.players[0].hand, vec![Gold, Estate]);
    assert_eq!(game.state.trash, vec![Silver]);
    let mut game = game_of(vec![player(vec![Mine, Copper], vec![])]);
    assert_eq!(play_card_and(&mut game, &p, Mine, &vec![Trash(Copper), Gain(Gold)]), Err(Error::InvalidChoice(Gold)));
    let mut game = game_of(vec![player(vec![Mine, Estate], vec![])]);
    assert_eq!(play_card_and(&mut game, &p, Mine, &vec![Trash(Estate), Gain(Silver)]), Err(Error::InvalidChoice(Estate)));
    let mut game = game_of(vec![player(vec![Mine], vec![])]);
    assert_eq!(play_card_and(&mut game, &p, Mine, &vec![Trash(Copper), Gain(Silver)]), Err(Error::NotInHand(Copper)));
}

#[test]
fn adventurer_digs_for_two_treasures() {
    let mut game = game_of(vec![player(vec![Adventurer], vec![Estate, Copper, Duchy, Gold, Silver])]);
    play_card(&mut game, &vec![DefaultPlayer], Adventurer).unwrap();
    assert_eq!(game.players[0].hand, vec![Copper, Gold]);
    assert_eq!(game.players[0].deck, vec![Silver]);
    assert_eq!(game.players[0].discard, vec![Estate, Duchy]);

    let mut game = game_of(vec![player(vec![Adventurer], vec![Estate, Copper])]);
    play_card(&mut game, &vec![DefaultPlayer], Adventurer).unwrap();
    assert_eq!(game.players[0].hand, vec![Copper]);
    assert_eq!(game.players[0].discard, vec![Estate]);
}

#[test]
fn library_draws_to_seven_setting_actions_aside() {
    let mut game = game_of(vec![player(
        vec![Library, Copper, Copper],
        vec![Smithy, Estate, Copper, Village, Gold, Silver, Duchy],
    )]);
    play_card(&mut game, &vec![DefaultPlayer], Library).unwrap();
    assert_eq!(game.players[0].hand, vec![Copper, Copper, Estate, Copper, Gold, Silver, Duchy]);
    assert_eq!(game.players[0].discard, vec![Smithy, Village]);
    assert!(game.players[0].deck.is_empty());
}

#[test]
fn bureaucrat_gains_silver_and_tops_a_victory_card() {
    let mut game = game_of(vec![
        player(vec![Bureaucrat], vec![Copper]),
        player(vec![Copper, Duchy, Estate], vec![Gold]),
        player(vec![Copper, Copper], vec![]),
    ]);
    play_card(&mut game, &vec![DefaultPlayer; 3], Bureaucrat).unwrap();
    assert_eq!(game.players[0].deck, vec![Silver, Copper]);
    assert_eq!(count(&game, Silver), Some(29));
    assert_eq!(game.players[1].hand, vec![Copper, Estate]);
    assert_eq!(game.players[1].deck, vec![Duchy, Gold]);
    assert_eq!(game.players[2].hand, vec![Copper, Copper]);
}

#[test]
fn spy_reveals_and_sorts_top_cards() {
    let mut game = game_of(vec![
        player(vec![Spy], vec![Copper, Estate, Gold]),
        player(vec![], vec![Gold, Copper]),
        player(vec![], vec![Province, Copper]),
    ]);
    play_card(&mut game, &vec![DefaultPlayer; 3], Spy).unwrap();
    assert_eq!(game.players[0].hand, vec![Copper]);
    assert_eq!(game.players[0].actions, 1);
    assert_eq!(game.players[0].discard, vec![Estate]);
    assert_eq!(game.players[0].deck, vec![Gold]);
    assert_eq!(game.players[1].discard, vec![Gold]);
    assert_eq!(game.players[1].deck, vec![Copper]);
    assert_eq!(game.players[2].deck, vec![Province, Copper]);
}

#[test]
fn thief_steals_the_best_treasure() {
    let mut game = game_of(vec![
        player(vec![Thief], vec![]),
        player(vec![], vec![Silver, Gold, Estate]),
        player(vec![], vec![Copper, Estate]),
    ]);
    play_card(&mut game, &vec![DefaultPlayer; 3], Thief).unwrap();
    assert_eq!(game.players[0].discard, vec![Gold]);
    assert_eq!(game.players[1].discard, vec![Silver]);
    assert_eq!(game.players[1].deck, vec![Estate]);
    assert_eq!(game.players[2].discard, vec![Estate]);
    assert_eq!(game.state.trash, vec![Copper]);
}

#[test]
fn throne_room_repeats_an_action() {
    let mut game = game_of(vec![player(vec![ThroneRoom, Smithy], vec![Copper; 8])]);
    let p = vec![DefaultPlayer];
    play_card_and(&mut game, &p, ThroneRoom, &vec![Repeat(Smithy)]).unwrap();
    assert_eq!(game.players[0].hand.len(), 6);
    assert_eq!(game.players[0].in_play, vec![ThroneRoom, Smithy]);
    assert_eq!(game.players[0].actions, 0);

    let mut game = game_of(vec![player(vec![ThroneRoom, Festival], vec![])]);
    play_card_and(&mut game, &p, ThroneRoom, &vec![Repeat(Festival)]).unwrap();
    assert_eq!((game.players[0].actions, game.players[0].buys, game.players[0].buying_power), (4, 3, 4));

    let mut game = game_of(vec![player(vec![ThroneRoom], vec![])]);
    assert_eq!(play_card(&mut game, &p, ThroneRoom), Err(Error::NothingToRepeat));
    let mut game = game_of(vec![player(vec![ThroneRoom, Gold], vec![])]);
    assert_eq!(play_card_and(&mut game, &p, ThroneRoom, &vec![Repeat(Gold)]), Err(Error::InvalidChoice(Gold)));
    let mut game = game_of(vec![player(vec![ThroneRoom], vec![])]);
    assert_eq!(play_card_and(&mut game, &p, ThroneRoom, &vec![Repeat(Smithy)]), Err(Error::NotInHand(Smithy)));
}

#[test]
fn gardens_score_by_card_count() {
    let game = game_of(vec![
        player(vec![Gardens, Estate], vec![Copper; 19]),
        player(vec![Gardens, Gardens], vec![Copper; 7]),
    ]);
    let r = game_result(&game);
    assert_eq!(r.points, vec![3, 0]);
    assert_eq!(r.winner, Some(0));
    assert_eq!(get_total_points(&game), 3);
}

#[test]
fn setup_refuses_bad_player_counts() {
    let kingdom = build_kingdom(&vec![]);
    assert!(setup_game(&kingdom, 1).is_none());
    assert!(setup_game(&kingdom, 7).is_none());
    let game = setup_game(&kingdom, 3).unwrap();
    assert_eq!(game.players.len(), 3);
    assert_eq!(game.active, 0);
    for p in game.players.iter() {
        assert_eq!(p.deck.len(), 10);
        assert!(p.hand.is_empty());
        assert_eq!((p.actions, p.buys, p.buying_power), (0, 0, 0));
    }
    assert_eq!(game.state.count(kingdom[0]), Some(10));
    assert_eq!(game.state.count(Province), Some(12));
}

#[test]
fn militia_succeeds_when_every_opponent_blocks() {
    let mut game = game_of(vec![
        player(vec![Militia], vec![]),
        player(vec![Moat, Copper, Copper, Copper, Copper], vec![]),
        player(vec![Moat, Estate, Estate, Estate, Estate], vec![]),
    ]);
    assert_eq!(play_card(&mut game, &vec![DefaultPlayer; 3], Militia), Ok(()));
    assert_eq!(game.players[1].hand.len(), 5);
    assert_eq!(game.players[2].hand.len(), 5);
    assert_eq!(game.players[0].buying_power, 2);
}

#[test]
fn attack_stops_at_the_first_failing_opponent() {
    let mut game = game_of(vec![
        player(vec![Militia], vec![]),
        player(vec![Copper, Copper, Copper, Copper, Copper], vec![]),
        player(vec![Copper, Copper, Copper, Copper, Copper], vec![]),
    ]);
    let r = play_card(&mut game, &vec![PicksAbsent, PicksAbsent, PicksAbsent], Militia);
    assert_eq!(r, Err(Error::InvalidChoice(Province)));
    assert_eq!(game.players[2].hand.len(), 5);
    assert!(game.players[2].discard.is_empty());
}

#[test]
fn add_player_seats_an_empty_player() {
    let mut game = game_of(vec![player(vec![Copper], vec![])]);
    let seat = game.add_player(vec![Estate, Copper]);
    assert_eq!(seat, 1);
    let p = &game.players[1];
    assert_eq!(p.deck, vec![Estate, Copper]);
    assert!(p.hand.is_empty() && p.discard.is_empty() && p.in_play.is_empty());
    assert_eq!((p.actions, p.buys, p.buying_power), (0, 0, 0));
}
