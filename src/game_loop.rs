use vstd::prelude::*;

use rand::Rng;

use crate::cards::{
    count_in_hand, discard_from_table, discard_table, discarded_card, hand_indices_wf, hand_pred,
    hand_wf, in_hand_count, is_in_pile, is_on_table, lemma_count_if_all, lemma_count_if_ext,
    lemma_count_if_map, lemma_count_if_none, lemma_count_if_split, lemma_partition,
    lemma_play_at, pile_count, pile_pred, play_at, play_from_hand, table_count, table_pred,
    has_index, CardSelection, HAND_SIZE,
};
use crate::components::{Card, CardState, CardSuit};
use crate::cursor::{Cursor, WinSize};
use crate::game_state::{other, GameStage, GameState, Turn};

verus! {

/// Length of the cooldown between automatic moves, in nanoseconds.
pub const COOLDOWN_NANOS: u64 = 1000000000;

// ---------------------------------------------------------------------------
// Cooldown timer

/// A one-shot countdown: it finishes once `duration` nanoseconds have
/// elapsed, reports that on the tick where it happened, and stays finished
/// until it is reset.
#[derive(Debug, Clone, Copy, PartialEq, Eq, Structural)]
pub struct GameTimer {
    pub elapsed: u64,
    pub duration: u64,
    pub finished: bool,
    pub just_finished: bool,
}

impl GameTimer {
    pub open spec fn wf(self) -> bool {
        &&& self.elapsed <= self.duration
        &&& self.finished ==> self.elapsed == self.duration
        &&& self.just_finished ==> self.finished
    }

    /// The timer after `delta` nanoseconds.
    pub open spec fn ticked(self, delta: u64) -> GameTimer {
        if self.finished {
            GameTimer { just_finished: false, ..self }
        } else if delta >= self.duration - self.elapsed {
            GameTimer {
                elapsed: self.duration,
                duration: self.duration,
                finished: true,
                just_finished: true,
            }
        } else {
            GameTimer {
                elapsed: (self.elapsed + delta) as u64,
                duration: self.duration,
                finished: false,
                just_finished: false,
            }
        }
    }

    /// The timer started again from zero.
    pub open spec fn restarted(self) -> GameTimer {
        GameTimer { elapsed: 0, duration: self.duration, finished: false, just_finished: false }
    }

    /// A timer of `duration` nanoseconds that has not run yet.
    pub open spec fn new_spec(duration: u64) -> GameTimer {
        GameTimer { elapsed: 0, duration, finished: false, just_finished: false }
    }

    /// A timer of `duration` nanoseconds that has not run yet.
    pub fn new(duration: u64) -> (r: GameTimer)
        ensures
            r.wf(),
            r == GameTimer::new_spec(duration),
    {
        GameTimer { elapsed: 0, duration, finished: false, just_finished: false }
    }

    /// Lets `delta` nanoseconds pass.
    pub fn tick(&mut self, delta: u64)
        requires
            old(self).wf(),
        ensures
            *final(self) == old(self).ticked(delta),
            final(self).wf(),
    {
        if self.finished {
            self.just_finished = false;
        } else if delta >= self.duration - self.elapsed {
            self.elapsed = self.duration;
            self.finished = true;
            self.just_finished = true;
        } else {
            self.elapsed = self.elapsed + delta;
            self.just_finished = false;
        }
    }

    /// Whether the timer finished on the last tick.
    pub fn just_finished(&self) -> (r: bool)
        ensures
            r == self.just_finished,
    {
        self.just_finished
    }

    /// Starts the timer again from zero.
    pub fn reset(&mut self)
        ensures
            *final(self) == old(self).restarted(),
            final(self).wf(),
    {
        self.elapsed = 0;
        self.finished = false;
        self.just_finished = false;
    }
}

// ---------------------------------------------------------------------------
// Suits

/// `a` beats `b`: Emperor over Citizen, Citizen over Slave, Slave over
/// Emperor.
pub open spec fn beats(a: CardSuit, b: CardSuit) -> bool {
    ||| (a == CardSuit::Emperor && b == CardSuit::Citizen)
    ||| (a == CardSuit::Citizen && b == CardSuit::Slave)
    ||| (a == CardSuit::Slave && b == CardSuit::Emperor)
}

/// The suit that wins when `a` meets `b`, or `None` for a draw.
pub open spec fn winner(a: CardSuit, b: CardSuit) -> Option<CardSuit> {
    if beats(a, b) {
        Some(a)
    } else if beats(b, a) {
        Some(b)
    } else {
        None
    }
}

/// The suit that wins when `a` meets `b`, or `None` for a draw.
pub fn resolve(a: CardSuit, b: CardSuit) -> (r: Option<CardSuit>)
    ensures
        r == winner(a, b),
{
    match (a, b) {
        (CardSuit::Emperor, CardSuit::Citizen) | (CardSuit::Citizen, CardSuit::Emperor) => Some(
            CardSuit::Emperor,
        ),
        (CardSuit::Citizen, CardSuit::Slave) | (CardSuit::Slave, CardSuit::Citizen) => Some(
            CardSuit::Citizen,
        ),
        (CardSuit::Slave, CardSuit::Emperor) | (CardSuit::Emperor, CardSuit::Slave) => Some(
            CardSuit::Slave,
        ),
        _ => None,
    }
}

/// The outcome does not depend on which side played which suit.
pub proof fn lemma_resolve_symmetric(a: CardSuit, b: CardSuit)
    ensures
        winner(a, b) == winner(b, a),
{
}

/// Emperor beats Citizen, Citizen beats Slave, Slave beats Emperor, in either
/// order; of the nine pairs exactly the three of equal suits are draws.
pub proof fn lemma_cyclic_dominance()
    ensures
        winner(CardSuit::Emperor, CardSuit::Citizen) == Some(CardSuit::Emperor),
        winner(CardSuit::Citizen, CardSuit::Emperor) == Some(CardSuit::Emperor),
        winner(CardSuit::Citizen, CardSuit::Slave) == Some(CardSuit::Citizen),
        winner(CardSuit::Slave, CardSuit::Citizen) == Some(CardSuit::Citizen),
        winner(CardSuit::Slave, CardSuit::Emperor) == Some(CardSuit::Slave),
        winner(CardSuit::Emperor, CardSuit::Slave) == Some(CardSuit::Slave),
        forall|a: CardSuit, b: CardSuit| #[trigger] winner(a, b) is None <==> a == b,
{
}

// ---------------------------------------------------------------------------
// Turn state machine

/// What was revealed when a round was opened: the suit that each side had
/// on the table and the suit that won, if any.
#[derive(Debug, Clone, Copy, PartialEq, Eq, Structural)]
pub struct Reveal {
    pub player: CardSuit,
    pub enemy: CardSuit,
    pub winner: Option<CardSuit>,
}

/// Mathematical model of a duel.
pub struct DuelView {
    pub player: Seq<Card>,
    pub enemy: Seq<Card>,
    pub state: GameState,
    pub timer: GameTimer,
    pub selection: CardSelection,
    pub rounds: nat,
}

/// Some card of `s` is on the table and has suit `suit`.
pub open spec fn on_table_with(s: Seq<Card>, suit: CardSuit) -> bool {
    exists|a: int| 0 <= a < s.len() && is_on_table(#[trigger] s[a]) && s[a].suit == suit
}

impl DuelView {
    /// The cards of the side `t`.
    pub open spec fn hand_of(self, t: Turn) -> Seq<Card> {
        match t {
            Turn::Player => self.player,
            Turn::Enemy => self.enemy,
        }
    }

    /// Each side holds five cards whose hand indices are well formed; every
    /// resolved round put one card of each side into the pile; and the cards
    /// on the table are those that the stage calls for: none at `Check`, one
    /// of the side that played first at `Place`, one of each at `Open`.
    pub open spec fn wf(self) -> bool {
        &&& self.player.len() == HAND_SIZE
        &&& self.enemy.len() == HAND_SIZE
        &&& hand_wf(self.player)
        &&& hand_wf(self.enemy)
        &&& self.timer.wf()
        &&& self.rounds <= HAND_SIZE
        &&& pile_count(self.player) == self.rounds
        &&& pile_count(self.enemy) == self.rounds
        &&& match self.state.stage {
            GameStage::Check => table_count(self.player) == 0 && table_count(self.enemy) == 0,
            GameStage::Place => table_count(self.hand_of(self.state.turn)) == 0 && table_count(
                self.hand_of(other(self.state.turn)),
            ) == 1,
            GameStage::Open => table_count(self.player) == 1 && table_count(self.enemy) == 1,
        }
    }

    /// The selection names a card that the player holds.
    pub open spec fn has_valid_selection(self) -> bool {
        match self.selection.i {
            Some(i) => 0 <= i < in_hand_count(self.player),
            None => false,
        }
    }

    pub open spec fn with_timer(self, timer: GameTimer) -> DuelView {
        DuelView { timer, ..self }
    }

    /// The player played the card at hand index `i`.
    pub open spec fn player_played(self, i: int) -> DuelView {
        DuelView {
            player: play_at(self.player, i),
            timer: self.timer.restarted(),
            state: self.state.advanced(),
            ..self
        }
    }

    /// The enemy played the card at hand index `i`.
    pub open spec fn enemy_played(self, i: int) -> DuelView {
        DuelView {
            enemy: play_at(self.enemy, i),
            timer: self.timer.restarted(),
            state: self.state.advanced(),
            ..self
        }
    }

    /// Both cards on the table went to the pile and the round is over.
    pub open spec fn opened(self) -> DuelView {
        DuelView {
            player: discard_table(self.player),
            enemy: discard_table(self.enemy),
            timer: self.timer.restarted(),
            state: self.state.advanced(),
            rounds: self.rounds + 1,
            ..self
        }
    }

    /// The duel after one tick of `delta` nanoseconds in which the commit
    /// signal was `pressed`, where `pick` is the hand index that the enemy
    /// plays if it plays.
    pub open spec fn next(self, delta: u64, pressed: bool, pick: int) -> DuelView {
        let d = self.with_timer(self.timer.ticked(delta));
        match self.state.stage {
            GameStage::Open => if d.timer.just_finished {
                d.opened()
            } else {
                d
            },
            _ => match self.state.turn {
                Turn::Player => if pressed && d.has_valid_selection() {
                    d.player_played(d.selection.i->Some_0 as int)
                } else {
                    d
                },
                Turn::Enemy => if d.timer.just_finished && in_hand_count(d.enemy) > 0 {
                    d.enemy_played(pick)
                } else {
                    d
                },
            },
        }
    }
}

/// Putting the table card into the pile keeps the cards in hand as they are.
pub proof fn lemma_discard_table(s: Seq<Card>)
    requires
        hand_indices_wf(s),
    ensures
        hand_indices_wf(discard_table(s)),
        in_hand_count(discard_table(s)) == in_hand_count(s),
        table_count(discard_table(s)) == 0,
        pile_count(discard_table(s)) == pile_count(s) + table_count(s),
        discard_table(s).len() == s.len(),
{
    let t = discard_table(s);
    let m = |c: Card| discarded_card(c);
    lemma_count_if_map(s, m, hand_pred());
    lemma_count_if_ext(s, |c: Card| hand_pred()(m(c)), hand_pred());
    lemma_count_if_map(s, m, table_pred());
    lemma_count_if_none(s, |c: Card| table_pred()(m(c)));
    lemma_count_if_map(s, m, pile_pred());
    lemma_count_if_split(s, |c: Card| pile_pred()(m(c)), pile_pred(), table_pred());
    assert forall|j: int| 0 <= j < in_hand_count(t) implies #[trigger] has_index(t, j) by {
        assert(has_index(s, j));
        let a = choose|a: int|
            0 <= a < s.len() && (#[trigger] s[a]).state == CardState::InHand(j as i32);
        assert(t[a] == s[a]);
    }
}

/// Every tick keeps a duel well formed, whatever hand index the enemy picks
/// among those it holds.
pub proof fn lemma_next_wf(d: DuelView, delta: u64, pressed: bool, pick: int)
    requires
        d.wf(),
        0 <= pick < in_hand_count(d.enemy) || in_hand_count(d.enemy) == 0,
    ensures
        d.next(delta, pressed, pick).wf(),
{
    let e = d.with_timer(d.timer.ticked(delta));
    lemma_partition(d.player);
    lemma_partition(d.enemy);
    match d.state.stage {
        GameStage::Open => {
            if e.timer.just_finished {
                lemma_discard_table(d.player);
                lemma_discard_table(d.enemy);
            }
        },
        _ => {
            match d.state.turn {
                Turn::Player => {
                    if pressed && e.has_valid_selection() {
                        lemma_play_at(d.player, e.selection.i->Some_0 as int);
                    }
                },
                Turn::Enemy => {
                    if e.timer.just_finished && in_hand_count(e.enemy) > 0 {
                        lemma_play_at(d.enemy, pick);
                    }
                },
            }
        },
    }
}

/// When the reveal delay runs out at `Open`, both cards on the table go to
/// the pile, the other cards stay as they are, a round is counted and the
/// stage wraps to `Check` with the turn unchanged.
pub proof fn lemma_open_resolves(d: DuelView, delta: u64, pressed: bool, pick: int)
    requires
        d.wf(),
        d.state.stage == GameStage::Open,
        d.timer.ticked(delta).just_finished,
    ensures
        ({
            let e = d.next(delta, pressed, pick);
            &&& e.state == (GameState { stage: GameStage::Check, turn: d.state.turn })
            &&& e.rounds == d.rounds + 1
            &&& table_count(e.player) == 0
            &&& table_count(e.enemy) == 0
            &&& e.player.len() == d.player.len()
            &&& e.enemy.len() == d.enemy.len()
            &&& forall|a: int|
                0 <= a < d.player.len() ==> #[trigger] e.player[a] == (if is_on_table(d.player[a]) {
                    Card { suit: d.player[a].suit, state: CardState::InPile }
                } else {
                    d.player[a]
                })
            &&& forall|a: int|
                0 <= a < d.enemy.len() ==> #[trigger] e.enemy[a] == (if is_on_table(d.enemy[a]) {
                    Card { suit: d.enemy[a].suit, state: CardState::InPile }
                } else {
                    d.enemy[a]
                })
        }),
{
    lemma_discard_table(d.player);
    lemma_discard_table(d.enemy);
}

/// After five resolved rounds every card of both sides is in the pile:
/// no hand and no table holds a card.
pub proof fn lemma_duel_complete(d: DuelView)
    requires
        d.wf(),
        d.rounds == HAND_SIZE,
    ensures
        d.state.stage == GameStage::Check,
        forall|a: int| 0 <= a < d.player.len() ==> is_in_pile(#[trigger] d.player[a]),
        forall|a: int| 0 <= a < d.enemy.len() ==> is_in_pile(#[trigger] d.enemy[a]),
        in_hand_count(d.player) == 0,
        in_hand_count(d.enemy) == 0,
        table_count(d.player) == 0,
        table_count(d.enemy) == 0,
{
    lemma_partition(d.player);
    lemma_partition(d.enemy);
    lemma_count_if_all(d.player, pile_pred());
    lemma_count_if_all(d.enemy, pile_pred());
}

/// A hand fresh from the deal: the card at each position is in the hand at
/// that index.
pub proof fn lemma_fresh_hand(s: Seq<Card>)
    requires
        s.len() <= i32::MAX,
        forall|a: int| 0 <= a < s.len() ==> (#[trigger] s[a]).state == CardState::InHand(a as i32),
    ensures
        hand_wf(s),
        in_hand_count(s) == s.len(),
        table_count(s) == 0,
        pile_count(s) == 0,
{
    lemma_count_if_all(s, hand_pred());
    lemma_count_if_none(s, table_pred());
    lemma_count_if_none(s, pile_pred());
    assert forall|j: int| 0 <= j < in_hand_count(s) implies #[trigger] has_index(s, j) by {
        assert(s[j].state == CardState::InHand(j as i32));
    }
}

/// Relies on rand's `thread_rng().gen_range(0..n)`: a number in `0 .. n`,
/// drawn uniformly; the call panics on an empty range.
#[verifier::external_body]
fn random_index(n: i32) -> (r: i32)
    requires
        0 < n,
    ensures
        0 <= r < n,
{
    rand::thread_rng().gen_range(0..n)
}

/// Deals the cards of `suits`, in that order, into a hand.
fn deal_hand(suits: &Vec<CardSuit>) -> (r: Vec<Card>)
    requires
        suits@.len() <= i32::MAX,
    ensures
        r@.len() == suits@.len(),
        forall|a: int|
            0 <= a < r@.len() ==> #[trigger] r@[a] == (Card {
                suit: suits@[a],
                state: CardState::InHand(a as i32),
            }),
{
    let mut r: Vec<Card> = Vec::new();
    let mut a: usize = 0;
    while a < suits.len()
        invariant
            a <= suits@.len() <= i32::MAX,
            r@.len() == a,
            forall|b: int|
                0 <= b < a ==> #[trigger] r@[b] == (Card {
                    suit: suits@[b],
                    state: CardState::InHand(b as i32),
                }),
        decreases suits@.len() - a,
    {
        r.push(Card { suit: suits[a], state: CardState::InHand(a as i32) });
        a = a + 1;
    }
    r
}

/// The first card on the table in `hand`, if any.
fn table_card(hand: &Vec<Card>) -> (r: Option<Card>)
    ensures
        r matches Some(c) ==> on_table_with(hand@, c.suit),
        r is None ==> table_count(hand@) == 0,
{
    let mut a: usize = 0;
    while a < hand.len()
        invariant
            a <= hand@.len(),
            forall|b: int| 0 <= b < a ==> !is_on_table(#[trigger] hand@[b]),
        decreases hand@.len() - a,
    {
        if let CardState::InTable = hand[a].state {
            assert(is_on_table(hand@[a as int]));
            return Some(hand[a]);
        }
        a = a + 1;
    }
    proof {
        lemma_count_if_none(hand@, table_pred());
    }
    None
}

/// A duel: the cards of both sides, the stage and turn, the cooldown timer,
/// the player's current selection and the number of resolved rounds.
pub struct Duel {
    player: Vec<Card>,
    enemy: Vec<Card>,
    state: GameState,
    timer: GameTimer,
    selection: CardSelection,
    rounds: u32,
}

impl View for Duel {
    type V = DuelView;

    closed spec fn view(&self) -> DuelView {
        DuelView {
            player: self.player@,
            enemy: self.enemy@,
            state: self.state,
            timer: self.timer,
            selection: self.selection,
            rounds: self.rounds as nat,
        }
    }
}

impl Duel {
    pub open spec fn wf(&self) -> bool {
        self@.wf()
    }

    /// A new duel: the player holds Emperor and four Citizens, the enemy
    /// Slave and four Citizens, each at hand indices `0 .. 4`; the stage is
    /// `Check`, the player plays first, nothing is selected and the cooldown
    /// has not started.
    pub fn new() -> (r: Duel)
        ensures
            r.wf(),
            r@.player == seq![
                Card { suit: CardSuit::Emperor, state: CardState::InHand(0) },
                Card { suit: CardSuit::Citizen, state: CardState::InHand(1) },
                Card { suit: CardSuit::Citizen, state: CardState::InHand(2) },
                Card { suit: CardSuit::Citizen, state: CardState::InHand(3) },
                Card { suit: CardSuit::Citizen, state: CardState::InHand(4) },
            ],
            r@.enemy == seq![
                Card { suit: CardSuit::Slave, state: CardState::InHand(0) },
                Card { suit: CardSuit::Citizen, state: CardState::InHand(1) },
                Card { suit: CardSuit::Citizen, state: CardState::InHand(2) },
                Card { suit: CardSuit::Citizen, state: CardState::InHand(3) },
                Card { suit: CardSuit::Citizen, state: CardState::InHand(4) },
            ],
            r@.state == (GameState { stage: GameStage::Check, turn: Turn::Player }),
            r@.timer == GameTimer::new_spec(COOLDOWN_NANOS),
            r@.selection == (CardSelection { n: HAND_SIZE, i: None }),
            r@.rounds == 0,
    {
        let player_suits = vec![
            CardSuit::Emperor,
            CardSuit::Citizen,
            CardSuit::Citizen,
            CardSuit::Citizen,
            CardSuit::Citizen,
        ];
        let enemy_suits = vec![
            CardSuit::Slave,
            CardSuit::Citizen,
            CardSuit::Citizen,
            CardSuit::Citizen,
            CardSuit::Citizen,
        ];
        let player = deal_hand(&player_suits);
        let enemy = deal_hand(&enemy_suits);
        proof {
            lemma_fresh_hand(player@);
            lemma_fresh_hand(enemy@);
        }
        let r = Duel {
            player,
            enemy,
            state: GameState::new(),
            timer: GameTimer::new(COOLDOWN_NANOS),
            selection: CardSelection::new(),
            rounds: 0,
        };
        assert(r@.player =~= seq![
            Card { suit: CardSuit::Emperor, state: CardState::InHand(0) },
            Card { suit: CardSuit::Citizen, state: CardState::InHand(1) },
            Card { suit: CardSuit::Citizen, state: CardState::InHand(2) },
            Card { suit: CardSuit::Citizen, state: CardState::InHand(3) },
            Card { suit: CardSuit::Citizen, state: CardState::InHand(4) },
        ]);
        assert(r@.enemy =~= seq![
            Card { suit: CardSuit::Slave, state: CardState::InHand(0) },
            Card { suit: CardSuit::Citizen, state: CardState::InHand(1) },
            Card { suit: CardSuit::Citizen, state: CardState::InHand(2) },
            Card { suit: CardSuit::Citizen, state: CardState::InHand(3) },
            Card { suit: CardSuit::Citizen, state: CardState::InHand(4) },
        ]);
        r
    }

    /// The player's cards.
    pub fn player_cards(&self) -> (r: &Vec<Card>)
        ensures
            r@ == self@.player,
    {
        &self.player
    }

    /// The enemy's cards.
    pub fn enemy_cards(&self) -> (r: &Vec<Card>)
        ensures
            r@ == self@.enemy,
    {
        &self.enemy
    }

    /// Stage and turn.
    pub fn game_state(&self) -> (r: GameState)
        ensures
            r == self@.state,
    {
        self.state
    }

    /// The cooldown timer.
    pub fn timer(&self) -> (r: GameTimer)
        ensures
            r == self@.timer,
    {
        self.timer
    }

    /// The player's current selection.
    pub fn selection(&self) -> (r: CardSelection)
        ensures
            r == self@.selection,
    {
        self.selection
    }

    /// Number of rounds resolved so far.
    pub fn rounds_played(&self) -> (r: u32)
        ensures
            r == self@.rounds,
    {
        self.rounds
    }

    /// The duel is over: every card of both sides is in the pile.
    pub fn is_over(&self) -> (r: bool)
        requires
            self.wf(),
        ensures
            r == (self@.rounds == HAND_SIZE),
            r ==> forall|a: int| 0 <= a < self@.player.len() ==> is_in_pile(#[trigger] self@.player[a]),
            r ==> forall|a: int| 0 <= a < self@.enemy.len() ==> is_in_pile(#[trigger] self@.enemy[a]),
    {
        proof {
            if self@.rounds == HAND_SIZE {
                lemma_duel_complete(self@);
            }
        }
        self.rounds == HAND_SIZE as u32
    }

    /// Counts the player's cards in hand and selects the one under the
    /// pointer, or none.
    pub fn update_selection(&mut self, cursor: &Cursor, win_size: &WinSize)
        requires
            old(self).wf(),
        ensures
            final(self).wf(),
            final(self)@ == (DuelView {
                selection: (CardSelection {
                    n: in_hand_count(old(self)@.player) as i32,
                    i: old(self)@.selection.i,
                }).selected(cursor.x as int, win_size.w as int),
                ..old(self)@
            }),
    {
        let n = count_in_hand(&self.player);
        self.selection.n = n;
        self.selection.select_card(cursor, win_size);
    }

    /// On the player's turn: if the commit signal came and a card in hand is
    /// selected, plays it, restarts the cooldown and advances the stage;
    /// otherwise nothing changes.
    pub fn player_turn(&mut self, pressed: bool)
        requires
            old(self).wf(),
            old(self)@.state.stage != GameStage::Open,
            old(self)@.state.turn == Turn::Player,
        ensures
            final(self)@ == if pressed && old(self)@.has_valid_selection() {
                old(self)@.player_played(old(self)@.selection.i->Some_0 as int)
            } else {
                old(self)@
            },
    {
        if pressed {
            if let Some(i) = self.selection.i {
                let n = count_in_hand(&self.player);
                if 0 <= i && i < n {
                    play_from_hand(&mut self.player, i);
                    self.timer.reset();
                    self.state.advance();
                }
            }
        }
    }

    /// The enemy plays the card at hand index `pick`, the cooldown restarts
    /// and the stage advances.
    pub fn enemy_play(&mut self, pick: i32)
        requires
            old(self).wf(),
            old(self)@.state.stage != GameStage::Open,
            old(self)@.state.turn == Turn::Enemy,
            0 <= pick < in_hand_count(old(self)@.enemy),
        ensures
            final(self)@ == old(self)@.enemy_played(pick as int),
            final(self).wf(),
    {
        proof {
            lemma_play_at(self@.enemy, pick as int);
            lemma_partition(self@.enemy);
        }
        play_from_hand(&mut self.enemy, pick);
        self.state.advance();
        self.timer.reset();
    }

    /// The enemy plays a card of its hand drawn uniformly at random; with
    /// an empty hand nothing changes.
    pub fn enemy_turn(&mut self)
        requires
            old(self).wf(),
            old(self)@.state.stage != GameStage::Open,
            old(self)@.state.turn == Turn::Enemy,
        ensures
            final(self).wf(),
            in_hand_count(old(self)@.enemy) == 0 ==> final(self)@ == old(self)@,
            in_hand_count(old(self)@.enemy) > 0 ==> exists|pick: int|
                0 <= pick < in_hand_count(old(self)@.enemy) && final(self)@
                    == #[trigger] old(self)@.enemy_played(pick),
    {
        let n = count_in_hand(&self.enemy);
        if n > 0 {
            let pick = random_index(n);
            self.enemy_play(pick);
        }
    }

    /// Opens the round: compares the two cards on the table, puts both into
    /// the pile, restarts the cooldown, counts the round and advances the
    /// stage to `Check`.
    pub fn open_round(&mut self) -> (r: Reveal)
        requires
            old(self).wf(),
            old(self)@.state.stage == GameStage::Open,
        ensures
            final(self)@ == old(self)@.opened(),
            final(self).wf(),
            on_table_with(old(self)@.player, r.player),
            on_table_with(old(self)@.enemy, r.enemy),
            r.winner == winner(r.player, r.enemy),
    {
        proof {
            lemma_partition(self@.player);
            lemma_discard_table(self@.player);
            lemma_discard_table(self@.enemy);
        }
        let player_card = table_card(&self.player);
        let enemy_card = table_card(&self.enemy);
        let p = match player_card {
            Some(c) => c,
            None => {
                proof {
                    assert(false);
                }
                Card { suit: CardSuit::Citizen, state: CardState::InTable }
            },
        };
        let e = match enemy_card {
            Some(c) => c,
            None => {
                proof {
                    assert(false);
                }
                Card { suit: CardSuit::Citizen, state: CardState::InTable }
            },
        };
        let w = resolve(p.suit, e.suit);
        discard_from_table(&mut self.player);
        discard_from_table(&mut self.enemy);
        self.timer.reset();
        self.state.advance();
        self.rounds = self.rounds + 1;
        Reveal { player: p.suit, enemy: e.suit, winner: w }
    }

    /// One tick of `delta` nanoseconds in which the commit signal was
    /// `pressed`: the cooldown runs; at `Check` and `Place` the side whose
    /// turn it is may play (the player on the commit signal with a card
    /// selected, the enemy a random card of its hand once the cooldown
    /// finishes); at `Open` the round is resolved once the cooldown finishes,
    /// and what was revealed is returned.
    pub fn game_loop(&mut self, delta: u64, pressed: bool) -> (r: Option<Reveal>)
        requires
            old(self).wf(),
        ensures
            final(self).wf(),
            exists|pick: int|
                (0 <= pick < in_hand_count(old(self)@.enemy) || in_hand_count(old(self)@.enemy)
                    == 0) && final(self)@ == #[trigger] old(self)@.next(delta, pressed, pick),
            r is Some <==> (old(self)@.state.stage == GameStage::Open && old(self)@.timer.ticked(
                delta,
            ).just_finished),
            r matches Some(v) ==> on_table_with(old(self)@.player, v.player) && on_table_with(
                old(self)@.enemy,
                v.enemy,
            ) && v.winner == winner(v.player, v.enemy),
    {
        let ghost d0 = self@;
        self.timer.tick(delta);
        assert(self@ == d0.with_timer(d0.timer.ticked(delta)));
        let r = match self.state.stage {
            GameStage::Open => {
                if self.timer.just_finished() {
                    Some(self.open_round())
                } else {
                    None
                }
            },
            _ => {
                match self.state.turn {
                    Turn::Player => {
                        self.player_turn(pressed);
                    },
                    Turn::Enemy => {
                        if self.timer.just_finished() {
                            self.enemy_turn();
                        }
                    },
                }
                None
            },
        };
        proof {
            let pick = if d0.state.stage != GameStage::Open && d0.state.turn == Turn::Enemy
                && self@ != d0.with_timer(d0.timer.ticked(delta)) {
                choose|pick: int|
                    0 <= pick < in_hand_count(d0.enemy) && self@ == #[trigger] d0.with_timer(
                        d0.timer.ticked(delta),
                    ).enemy_played(pick)
            } else {
                0
            };
            assert(self@ == d0.next(delta, pressed, pick));
            lemma_next_wf(d0, delta, pressed, pick);
        }
        r
    }
}

} // verus!
