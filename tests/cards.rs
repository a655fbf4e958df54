use dominion::card::Card;
use dominion::card::Card::{Cellar, Chancellor, Chapel, Copper, Estate, Gold, Militia, Moat, Silver};
use dominion::engine::ActionInput::{Confirm, Discard, Trash};
use dominion::engine::Game;
use dominion::error::Error;
use dominion::game::DefaultPlayer;
use dominion::play::{
    get_action_count, get_buying_power, get_discard, get_hand, get_trash, play_card, play_card_and,
};
use dominion::turn::build_supply;
use dominion::zones::PlayerState;

struct Ai {
    hand: Vec<Card>,
    deck: Vec<Card>,
}

fn setup(ais: Vec<Ai>) -> (Game, Vec<DefaultPlayer>) {
    let mut players = Vec::new();
    for ai in ais {
        let mut p = PlayerState::new(ai.deck);
        p.hand = ai.hand;
        p.actions = 1;
        p.buys = 1;
        players.push(p);
    }
    let policies = vec![DefaultPlayer; players.len()];
    (Game::new(players, build_supply()), policies)
}

fn assert_ok(r: Result<(), Error>) {
    match r {
        Ok(_) => (),
        Err(Error::InvalidPlay(_)) => panic!("Invalid play!"),
        Err(Error::NoActions) => panic!("No actions left!"),
        Err(_) => panic!("Unknown error!"),
    }
}

#[test]
fn dominion_test_cellar() {
    let (mut game, policies) = setup(vec![Ai { hand: vec![Cellar, Estate, Estate, Copper], deck: vec![Silver, Gold] }]);
    assert_ok(play_card_and(&mut game, &policies, Cellar, &vec![Discard(Estate), Discard(Estate)]));
    let hand = get_hand(&game);
    assert_eq!(hand.len(), 3);
    assert_eq!(hand[0], Copper);
    assert_eq!(hand[1], Silver);
    assert_eq!(hand[2], Gold);
    assert_eq!(get_action_count(&game), 1);
}

#[test]
fn dominion_test_chapel() {
    let (mut game, policies) = setup(vec![Ai {
        hand: vec![Chapel, Estate, Estate, Copper, Estate, Copper],
        deck: vec![],
    }]);
    assert!(get_trash(&game).is_empty());
    assert_ok(play_card_and(
        &mut game,
        &policies,
        Chapel,
        &vec![Trash(Estate), Trash(Estate), Trash(Estate), Trash(Copper)],
    ));
    let hand = get_hand(&game);
    let trash = get_trash(&game);
    assert_eq!(hand.len(), 1);
    assert_eq!(hand[0], Copper);
    assert_eq!(trash.len(), 4);
    assert_eq!(trash.iter().filter(|&x| x == &Copper).count(), 1);
    assert_eq!(trash.iter().filter(|&x| x == &Estate).count(), 3);
}

#[test]
fn dominion_test_chancellor() {
    // Don't discard the deck.
    let (mut game, policies) = setup(vec![Ai { hand: vec![Chancellor], deck: vec![Copper, Copper] }]);
    assert_ok(play_card(&mut game, &policies, Chancellor));
    assert_eq!(get_buying_power(&game), 2);
    assert!(get_discard(&game).is_empty());

    // Discard the deck.
    let (mut game, policies) = setup(vec![Ai { hand: vec![Chancellor], deck: vec![Copper, Copper] }]);
    assert_ok(play_card_and(&mut game, &policies, Chancellor, &vec![Confirm]));
    assert_eq!(get_buying_power(&game), 2);
    assert_eq!(get_discard(&game).len(), 2);
}

#[test]
fn test_moat() {
    let (mut game, policies) = setup(vec![
        Ai { hand: vec![Militia], deck: vec![] },
        Ai { hand: vec![Moat, Copper, Copper, Copper, Copper], deck: vec![] },
    ]);
    assert_ok(play_card(&mut game, &policies, Militia));
    game.active = 1;
    assert_eq!(get_hand(&game).len(), 5);
}

#[test]
fn test_militia() {
    let (mut game, policies) = setup(vec![
        Ai { hand: vec![Militia], deck: vec![] },
        Ai { hand: vec![Copper, Copper, Copper, Copper, Copper], deck: vec![] },
    ]);
    assert_ok(play_card(&mut game, &policies, Militia));
    game.active = 1;
    assert_eq!(get_hand(&game).len(), 3);
}

#[test]
fn card_test_cellar() {
    let (mut game, policies) = setup(vec![Ai { hand: vec![Cellar, Estate, Estate, Copper], deck: vec![Silver, Gold] }]);
    assert_ok(play_card_and(&mut game, &policies, Cellar, &vec![Discard(Estate), Discard(Estate)]));
    let hand = get_hand(&game);
    assert_eq!(hand.len(), 3);
    assert_eq!(hand[0], Copper);
    assert_eq!(hand[1], Silver);
    assert_eq!(hand[2], Gold);
    assert_eq!(get_action_count(&game), 1);
}

#[test]
fn card_test_chapel() {
    let (mut game, policies) = setup(vec![Ai {
        hand: vec![Chapel, Estate, Estate, Copper, Estate, Copper],
        deck: vec![],
    }]);
    assert_eq!(get_trash(&game).len(), 0);
    assert_ok(play_card_and(
        &mut game,
        &policies,
        Chapel,
        &vec![Trash(Estate), Trash(Estate), Trash(Estate), Trash(Copper)],
    ));
    let hand = get_hand(&game);
    let trash = get_trash(&game);
    assert_eq!(hand.len(), 1);
    assert_eq!(hand[0], Copper);
    assert_eq!(trash.len(), 4);
    assert_eq!(trash.iter().filter(|&x| x == &Copper).count(), 1);
    assert_eq!(trash.iter().filter(|&x| x == &Estate).count(), 3);
}

#[test]
fn card_test_chancellor() {
    let (mut game, policies) = setup(vec![Ai { hand: vec![Chancellor], deck: vec![] }]);
    assert_ok(play_card(&mut game, &policies, Chancellor));
    assert_eq!(get_buying_power(&game), 2);
}
