use emperor::cards::{count_in_hand, play_from_hand, CardSelection};
use emperor::components::{Card, CardState, CardSuit};
use emperor::cursor::{Cursor, WinSize};
use emperor::game_loop::{resolve, Duel, GameTimer, COOLDOWN_NANOS};
use emperor::game_state::{GameStage, GameState, Turn};

const WIN: WinSize = WinSize { w: 598, h: 676 };

/// A pointer over the first card of a hand of `n` cards in `WIN`.
fn pointer_over_first(n: i32) -> Cursor {
    Cursor { x: (WIN.w - 87 * n) / 2 + 10, y: 0 }
}

fn hand_of(suits: &[CardSuit]) -> Vec<Card> {
    suits
        .iter()
        .enumerate()
        .map(|(i, s)| Card { suit: *s, state: CardState::InHand(i as i32) })
        .collect()
}

fn on_table(cards: &[Card]) -> usize {
    cards.iter().filter(|c| c.state == CardState::InTable).count()
}

fn in_pile(cards: &[Card]) -> usize {
    cards.iter().filter(|c| c.state == CardState::InPile).count()
}

#[test]
fn card_moves_between_hand_table_and_pile() {
    let mut c = Card { suit: CardSuit::Slave, state: CardState::InHand(2) };
    c.play();
    assert_eq!(c, Card { suit: CardSuit::Slave, state: CardState::InTable });
    c.bring_back(1);
    assert_eq!(c.state, CardState::InHand(1));
    c.play();
    c.discard();
    assert_eq!(c, Card { suit: CardSuit::Slave, state: CardState::InPile });
}

#[test]
fn playing_compacts_the_hand() {
    let mut hand = hand_of(&[
        CardSuit::Emperor,
        CardSuit::Citizen,
        CardSuit::Slave,
        CardSuit::Citizen,
        CardSuit::Citizen,
    ]);
    play_from_hand(&mut hand, 2);
    let states: Vec<CardState> = hand.iter().map(|c| c.state).collect();
    assert_eq!(
        states,
        vec![
            CardState::InHand(0),
            CardState::InHand(1),
            CardState::InTable,
            CardState::InHand(2),
            CardState::InHand(3),
        ]
    );
    assert_eq!(hand[2].suit, CardSuit::Slave);
    assert_eq!(count_in_hand(&hand), 4);
}

#[test]
fn playing_the_last_index_and_the_first() {
    let mut hand = hand_of(&[CardSuit::Emperor, CardSuit::Citizen, CardSuit::Slave]);
    play_from_hand(&mut hand, 2);
    assert_eq!(hand[2].state, CardState::InTable);
    assert_eq!(hand[0].state, CardState::InHand(0));
    assert_eq!(hand[1].state, CardState::InHand(1));
    hand[2].discard();
    play_from_hand(&mut hand, 0);
    assert_eq!(hand[0].state, CardState::InTable);
    assert_eq!(hand[1].state, CardState::InHand(0));
    assert_eq!(count_in_hand(&hand), 1);
}

#[test]
fn resolution_table() {
    assert_eq!(resolve(CardSuit::Emperor, CardSuit::Citizen), Some(CardSuit::Emperor));
    assert_eq!(resolve(CardSuit::Citizen, CardSuit::Emperor), Some(CardSuit::Emperor));
    assert_eq!(resolve(CardSuit::Citizen, CardSuit::Slave), Some(CardSuit::Citizen));
    assert_eq!(resolve(CardSuit::Slave, CardSuit::Citizen), Some(CardSuit::Citizen));
    assert_eq!(resolve(CardSuit::Slave, CardSuit::Emperor), Some(CardSuit::Slave));
    assert_eq!(resolve(CardSuit::Emperor, CardSuit::Slave), Some(CardSuit::Slave));
    let suits = [CardSuit::Emperor, CardSuit::Citizen, CardSuit::Slave];
    let mut draws = 0;
    for a in suits {
        for b in suits {
            assert_eq!(resolve(a, b), resolve(b, a));
            if resolve(a, b).is_none() {
                draws += 1;
                assert_eq!(a, b);
            }
        }
    }
    assert_eq!(draws, 3);
}

#[test]
fn selection_edges() {
    let win = WinSize { w: 600, h: 676 };
    let mut s = CardSelection { n: 4, i: None };
    // left edge of the hand: 600 / 2 - 87 * 4 / 2 = 126
    s.select_card(&Cursor { x: 126, y: 0 }, &win);
    assert_eq!(s.i, Some(0));
    s.select_card(&Cursor { x: 125, y: 0 }, &win);
    assert_eq!(s.i, None);
    s.select_card(&Cursor { x: 212, y: 0 }, &win);
    assert_eq!(s.i, Some(0));
    s.select_card(&Cursor { x: 213, y: 0 }, &win);
    assert_eq!(s.i, Some(1));
    s.select_card(&Cursor { x: 473, y: 0 }, &win);
    assert_eq!(s.i, Some(3));
    s.select_card(&Cursor { x: 474, y: 0 }, &win);
    assert_eq!(s.i, None);
    s.select_card(&Cursor { x: -1000, y: 0 }, &win);
    assert_eq!(s.i, None);
    assert_eq!(s.n, 4);
}

#[test]
fn selection_is_idempotent() {
    let mut s = CardSelection::new();
    assert_eq!(s.n, 5);
    assert_eq!(s.i, None);
    let c = Cursor { x: 300, y: 40 };
    s.select_card(&c, &WIN);
    let once = s;
    s.select_card(&c, &WIN);
    assert_eq!(s, once);
    assert_eq!(s.i, Some(2));
}

#[test]
fn empty_hand_selects_nothing() {
    let mut s = CardSelection { n: 0, i: Some(0) };
    s.select_card(&Cursor { x: 299, y: 0 }, &WIN);
    assert_eq!(s.i, None);
}

#[test]
fn timer_finishes_once() {
    let mut t = GameTimer::new(10);
    t.tick(4);
    assert!(!t.just_finished());
    assert_eq!(t.elapsed, 4);
    t.tick(6);
    assert!(t.just_finished());
    assert_eq!(t.elapsed, 10);
    t.tick(3);
    assert!(!t.just_finished());
    assert!(t.finished);
    t.reset();
    assert_eq!(t, GameTimer::new(10));
    t.tick(u64::MAX);
    assert!(t.just_finished());
}

#[test]
fn stages_cycle_and_turn_flips_once_per_round() {
    let mut s = GameState::new();
    assert_eq!(s, GameState { stage: GameStage::Check, turn: Turn::Player });
    s.advance();
    assert_eq!(s, GameState { stage: GameStage::Place, turn: Turn::Enemy });
    s.advance();
    assert_eq!(s, GameState { stage: GameStage::Open, turn: Turn::Enemy });
    s.advance();
    assert_eq!(s, GameState { stage: GameStage::Check, turn: Turn::Enemy });
    s.advance();
    assert_eq!(s, GameState { stage: GameStage::Place, turn: Turn::Player });
}

#[test]
fn new_duel() {
    let d = Duel::new();
    assert_eq!(d.player_cards()[0], Card { suit: CardSuit::Emperor, state: CardState::InHand(0) });
    assert_eq!(d.enemy_cards()[0], Card { suit: CardSuit::Slave, state: CardState::InHand(0) });
    for i in 1..5 {
        assert_eq!(d.player_cards()[i].suit, CardSuit::Citizen);
        assert_eq!(d.enemy_cards()[i].state, CardState::InHand(i as i32));
    }
    assert_eq!(d.game_state(), GameState::new());
    assert_eq!(d.timer(), GameTimer::new(COOLDOWN_NANOS));
    assert_eq!(d.rounds_played(), 0);
    assert!(!d.is_over());
}

#[test]
fn player_plays_selected_card_on_commit() {
    let mut d = Duel::new();
    d.update_selection(&pointer_over_first(5), &WIN);
    assert_eq!(d.selection(), CardSelection { n: 5, i: Some(0) });
    assert_eq!(d.game_loop(0, true), None);
    let p = d.player_cards();
    assert_eq!(p[0], Card { suit: CardSuit::Emperor, state: CardState::InTable });
    for j in 1..5 {
        assert_eq!(p[j], Card { suit: CardSuit::Citizen, state: CardState::InHand(j as i32 - 1) });
    }
    assert_eq!(d.game_state(), GameState { stage: GameStage::Place, turn: Turn::Enemy });
}

#[test]
fn commit_without_selection_is_ignored() {
    let mut d = Duel::new();
    d.update_selection(&Cursor { x: 0, y: 0 }, &WIN);
    assert_eq!(d.selection().i, None);
    d.game_loop(5, true);
    assert_eq!(on_table(d.player_cards()), 0);
    assert_eq!(d.game_state(), GameState::new());
    assert_eq!(d.timer().elapsed, 5);
}

#[test]
fn selection_without_commit_is_ignored() {
    let mut d = Duel::new();
    d.update_selection(&pointer_over_first(5), &WIN);
    d.game_loop(0, false);
    assert_eq!(on_table(d.player_cards()), 0);
    assert_eq!(d.game_state().stage, GameStage::Check);
}

#[test]
fn enemy_waits_for_the_cooldown_then_plays_a_card_in_hand() {
    let mut d = Duel::new();
    d.update_selection(&pointer_over_first(5), &WIN);
    d.game_loop(0, true);
    d.game_loop(COOLDOWN_NANOS - 1, false);
    assert_eq!(on_table(d.enemy_cards()), 0);
    d.game_loop(1, false);
    assert_eq!(on_table(d.enemy_cards()), 1);
    assert_eq!(count_in_hand(d.enemy_cards()), 4);
    assert_eq!(d.game_state(), GameState { stage: GameStage::Open, turn: Turn::Enemy });
}

#[test]
fn enemy_turn_plays_one_card() {
    let mut d = Duel::new();
    d.update_selection(&pointer_over_first(5), &WIN);
    d.game_loop(0, true);
    d.enemy_turn();
    assert_eq!(on_table(d.enemy_cards()), 1);
    let mut idx: Vec<i32> = d
        .enemy_cards()
        .iter()
        .filter_map(|c| match c.state {
            CardState::InHand(j) => Some(j),
            _ => None,
        })
        .collect();
    idx.sort();
    assert_eq!(idx, vec![0, 1, 2, 3]);
}

#[test]
fn enemy_play_at_index() {
    let mut d = Duel::new();
    d.update_selection(&pointer_over_first(5), &WIN);
    d.game_loop(0, true);
    d.enemy_play(0);
    assert_eq!(d.enemy_cards()[0], Card { suit: CardSuit::Slave, state: CardState::InTable });
    assert_eq!(d.enemy_cards()[4].state, CardState::InHand(3));
}

#[test]
fn open_resolves_both_cards_and_flips_turn() {
    let mut d = Duel::new();
    let start_turn = d.game_state().turn;
    d.update_selection(&pointer_over_first(5), &WIN);
    d.game_loop(0, true);
    d.enemy_play(0);
    assert_eq!(on_table(d.player_cards()), 1);
    assert_eq!(on_table(d.enemy_cards()), 1);
    assert_eq!(d.game_loop(COOLDOWN_NANOS / 2, false), None);
    let r = d.game_loop(COOLDOWN_NANOS, false);
    assert_eq!(
        r.map(|v| (v.player, v.enemy, v.winner)),
        Some((CardSuit::Emperor, CardSuit::Slave, Some(CardSuit::Slave)))
    );
    assert_eq!(d.player_cards()[0].state, CardState::InPile);
    assert_eq!(d.enemy_cards()[0].state, CardState::InPile);
    assert_eq!(on_table(d.player_cards()), 0);
    assert_eq!(on_table(d.enemy_cards()), 0);
    assert_eq!(d.game_state().stage, GameStage::Check);
    assert_ne!(d.game_state().turn, start_turn);
    assert_eq!(d.rounds_played(), 1);
}

#[test]
fn five_rounds_empty_both_hands() {
    let mut d = Duel::new();
    let mut ticks = 0;
    while !d.is_over() {
        ticks += 1;
        assert!(ticks < 100);
        let s = d.game_state();
        if s.stage != GameStage::Open && s.turn == Turn::Player {
            let n = count_in_hand(d.player_cards());
            d.update_selection(&pointer_over_first(n), &WIN);
            d.game_loop(0, true);
        } else {
            d.game_loop(COOLDOWN_NANOS, false);
        }
    }
    assert_eq!(d.rounds_played(), 5);
    assert_eq!(in_pile(d.player_cards()), 5);
    assert_eq!(in_pile(d.enemy_cards()), 5);
    assert_eq!(count_in_hand(d.player_cards()), 0);
    assert_eq!(count_in_hand(d.enemy_cards()), 0);
    // nothing moves once the duel is over
    d.game_loop(COOLDOWN_NANOS, true);
    d.game_loop(COOLDOWN_NANOS, true);
    assert_eq!(d.rounds_played(), 5);
    assert_eq!(in_pile(d.player_cards()), 5);
}
