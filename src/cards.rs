use vstd::prelude::*;

use crate::components::{Card, CardState};
use crate::cursor::{Cursor, WinSize};

verus! {

/// Width in pixels of a card sprite before scaling.
pub const CARD_SPRITE_WIDTH: i64 = 29;

/// Scale at which the player's cards are drawn.
pub const PLAYER_CARD_SCALE: i64 = 3;

/// Width in pixels of one of the player's cards on screen.
pub const CARD_WIDTH: i64 = CARD_SPRITE_WIDTH * PLAYER_CARD_SCALE;

/// Number of cards that each side starts with.
pub const HAND_SIZE: i32 = 5;

// ---------------------------------------------------------------------------
// Model of a hand

/// Index of a card in its owner's hand, or -1 if it is not in the hand.
pub open spec fn hand_index(s: CardState) -> int {
    match s {
        CardState::InHand(j) => j as int,
        _ => -1,
    }
}

pub open spec fn is_in_hand(c: Card) -> bool {
    c.state is InHand
}

pub open spec fn is_on_table(c: Card) -> bool {
    c.state is InTable
}

pub open spec fn is_in_pile(c: Card) -> bool {
    c.state is InPile
}

/// Number of cards of `s` that satisfy `f`.
pub open spec fn count_if(s: Seq<Card>, f: spec_fn(Card) -> bool) -> nat
    decreases s.len(),
{
    if s.len() == 0 {
        0
    } else {
        count_if(s.drop_last(), f) + if f(s.last()) {
            1nat
        } else {
            0nat
        }
    }
}

pub open spec fn hand_pred() -> spec_fn(Card) -> bool {
    |c: Card| is_in_hand(c)
}

pub open spec fn table_pred() -> spec_fn(Card) -> bool {
    |c: Card| is_on_table(c)
}

pub open spec fn pile_pred() -> spec_fn(Card) -> bool {
    |c: Card| is_in_pile(c)
}

pub open spec fn in_hand_count(s: Seq<Card>) -> nat {
    count_if(s, hand_pred())
}

pub open spec fn table_count(s: Seq<Card>) -> nat {
    count_if(s, table_pred())
}

pub open spec fn pile_count(s: Seq<Card>) -> nat {
    count_if(s, pile_pred())
}

/// The cards in hand carry the indices `0 .. k-1`, each exactly once, where
/// `k` is the number of cards in hand.
pub open spec fn hand_indices_wf(s: Seq<Card>) -> bool {
    &&& forall|a: int|
        0 <= a < s.len() && #[trigger] is_in_hand(s[a]) ==> 0 <= hand_index(s[a].state)
            < in_hand_count(s)
    &&& forall|a: int, b: int|
        0 <= a < s.len() && 0 <= b < s.len() && a != b && is_in_hand(#[trigger] s[a])
            && is_in_hand(#[trigger] s[b]) ==> hand_index(s[a].state) != hand_index(s[b].state)
    &&& forall|j: int| 0 <= j < in_hand_count(s) ==> #[trigger] has_index(s, j)
}

/// Some card of `s` is in the hand at index `j`.
pub open spec fn has_index(s: Seq<Card>, j: int) -> bool {
    exists|a: int| 0 <= a < s.len() && (#[trigger] s[a]).state == CardState::InHand(j as i32)
}

/// A hand whose indices are well formed and with at most one card on the table.
pub open spec fn hand_wf(s: Seq<Card>) -> bool {
    hand_indices_wf(s) && table_count(s) <= 1
}

/// State of a card after the card at hand index `i` was played.
pub open spec fn played_state(s: CardState, i: int) -> CardState {
    match s {
        CardState::InHand(j) => if j > i {
            CardState::InHand((j - 1) as i32)
        } else if j == i {
            CardState::InTable
        } else {
            s
        },
        _ => s,
    }
}

pub open spec fn played_card(c: Card, i: int) -> Card {
    Card { suit: c.suit, state: played_state(c.state, i) }
}

/// A hand after the card at index `i` was played: it goes to the table and
/// the cards after it move down by one.
pub open spec fn play_at(s: Seq<Card>, i: int) -> Seq<Card> {
    s.map_values(|c: Card| played_card(c, i))
}

pub open spec fn discarded_card(c: Card) -> Card {
    if c.state is InTable {
        Card { suit: c.suit, state: CardState::InPile }
    } else {
        c
    }
}

/// A hand after the card on the table went to the pile.
pub open spec fn discard_table(s: Seq<Card>) -> Seq<Card> {
    s.map_values(|c: Card| discarded_card(c))
}

// ---------------------------------------------------------------------------
// Counting lemmas

pub proof fn lemma_count_if_ext(s: Seq<Card>, f: spec_fn(Card) -> bool, g: spec_fn(Card) -> bool)
    requires
        forall|a: int| 0 <= a < s.len() ==> f(#[trigger] s[a]) == g(s[a]),
    ensures
        count_if(s, f) == count_if(s, g),
    decreases s.len(),
{
    if s.len() > 0 {
        lemma_count_if_ext(s.drop_last(), f, g);
    }
}

pub proof fn lemma_count_if_split(
    s: Seq<Card>,
    f: spec_fn(Card) -> bool,
    g: spec_fn(Card) -> bool,
    h: spec_fn(Card) -> bool,
)
    requires
        forall|a: int|
            0 <= a < s.len() ==> (f(#[trigger] s[a]) == (g(s[a]) || h(s[a])) && !(g(s[a])
                && h(s[a]))),
    ensures
        count_if(s, f) == count_if(s, g) + count_if(s, h),
    decreases s.len(),
{
    if s.len() > 0 {
        lemma_count_if_split(s.drop_last(), f, g, h);
    }
}

pub proof fn lemma_count_if_map(s: Seq<Card>, m: spec_fn(Card) -> Card, f: spec_fn(Card) -> bool)
    ensures
        count_if(s.map_values(m), f) == count_if(s, |c: Card| f(m(c))),
    decreases s.len(),
{
    if s.len() > 0 {
        assert(s.map_values(m).drop_last() =~= s.drop_last().map_values(m));
        lemma_count_if_map(s.drop_last(), m, f);
    }
}

pub proof fn lemma_count_if_none(s: Seq<Card>, f: spec_fn(Card) -> bool)
    requires
        forall|a: int| 0 <= a < s.len() ==> !f(#[trigger] s[a]),
    ensures
        count_if(s, f) == 0,
    decreases s.len(),
{
    if s.len() > 0 {
        lemma_count_if_none(s.drop_last(), f);
    }
}

pub proof fn lemma_count_if_one(s: Seq<Card>, f: spec_fn(Card) -> bool, a: int)
    requires
        0 <= a < s.len(),
        f(s[a]),
        forall|b: int| 0 <= b < s.len() && b != a ==> !f(#[trigger] s[b]),
    ensures
        count_if(s, f) == 1,
    decreases s.len(),
{
    if a == s.len() - 1 {
        lemma_count_if_none(s.drop_last(), f);
    } else {
        lemma_count_if_one(s.drop_last(), f, a);
    }
}

pub proof fn lemma_count_if_le(s: Seq<Card>, f: spec_fn(Card) -> bool)
    ensures
        count_if(s, f) <= s.len(),
    decreases s.len(),
{
    if s.len() > 0 {
        lemma_count_if_le(s.drop_last(), f);
    }
}

/// When every card satisfies `f` the count is the length, and back.
pub proof fn lemma_count_if_all(s: Seq<Card>, f: spec_fn(Card) -> bool)
    ensures
        count_if(s, f) == s.len() <==> forall|a: int| 0 <= a < s.len() ==> f(#[trigger] s[a]),
    decreases s.len(),
{
    if s.len() > 0 {
        lemma_count_if_all(s.drop_last(), f);
        lemma_count_if_le(s.drop_last(), f);
        if count_if(s, f) == s.len() {
            assert forall|a: int| 0 <= a < s.len() implies f(#[trigger] s[a]) by {
                if a < s.len() - 1 {
                    assert(s[a] == s.drop_last()[a]);
                }
            }
        }
        if forall|a: int| 0 <= a < s.len() ==> f(#[trigger] s[a]) {
            assert forall|a: int| 0 <= a < s.drop_last().len() implies f(
                #[trigger] s.drop_last()[a],
            ) by {
                assert(s[a] == s.drop_last()[a]);
            }
        }
    }
}

/// Every card is in the hand, on the table or in the pile.
pub proof fn lemma_partition(s: Seq<Card>)
    ensures
        in_hand_count(s) + table_count(s) + pile_count(s) == s.len(),
{
    let not_hand = |c: Card| is_on_table(c) || is_in_pile(c);
    let all = |c: Card| true;
    lemma_count_if_split(s, all, hand_pred(), not_hand);
    lemma_count_if_split(s, not_hand, table_pred(), pile_pred());
    lemma_count_if_all(s, all);
}


/// Playing the card at hand index `i` of a hand of `k` cards leaves the
/// indices `0 .. k-2` in the hand, each once: the played card goes to the
/// table, each card at an index `j > i` moves to `j - 1`, the cards before
/// `i` keep their index, and nothing else changes.
pub proof fn lemma_play_at(s: Seq<Card>, i: int)
    requires
        hand_indices_wf(s),
        0 <= i < in_hand_count(s),
        s.len() <= i32::MAX,
    ensures
        hand_indices_wf(play_at(s, i)),
        in_hand_count(play_at(s, i)) == in_hand_count(s) - 1,
        table_count(play_at(s, i)) == table_count(s) + 1,
        pile_count(play_at(s, i)) == pile_count(s),
        play_at(s, i).len() == s.len(),
        forall|a: int|
            0 <= a < s.len() ==> {
                let j = hand_index(s[a].state);
                let c = #[trigger] play_at(s, i)[a];
                &&& c.suit == s[a].suit
                &&& (j > i ==> c.state == CardState::InHand((j - 1) as i32))
                &&& (j == i ==> c.state == CardState::InTable)
                &&& (j < i ==> c.state == s[a].state)
            },
{
    let t = play_at(s, i);
    let k = in_hand_count(s);
    let m = |c: Card| played_card(c, i);
    let at_i = |c: Card| c.state == CardState::InHand(i as i32);
    lemma_count_if_le(s, hand_pred());
    assert(has_index(s, i));
    let a0 = choose|a: int| 0 <= a < s.len() && (#[trigger] s[a]).state == CardState::InHand(i as i32);
    lemma_count_if_one(s, at_i, a0);
    // cards in hand
    lemma_count_if_map(s, m, hand_pred());
    let still = |c: Card| is_in_hand(played_card(c, i));
    lemma_count_if_ext(s, |c: Card| hand_pred()(m(c)), still);
    lemma_count_if_split(s, hand_pred(), still, at_i);
    // cards on the table
    lemma_count_if_map(s, m, table_pred());
    let now_table = |c: Card| is_on_table(played_card(c, i));
    lemma_count_if_ext(s, |c: Card| table_pred()(m(c)), now_table);
    lemma_count_if_split(s, now_table, table_pred(), at_i);
    // cards in the pile
    lemma_count_if_map(s, m, pile_pred());
    lemma_count_if_ext(s, |c: Card| pile_pred()(m(c)), pile_pred());
    assert(in_hand_count(t) == k - 1);
    assert forall|j: int| 0 <= j < in_hand_count(t) implies #[trigger] has_index(t, j) by {
        if j < i {
            assert(has_index(s, j));
            let a = choose|a: int| 0 <= a < s.len() && (#[trigger] s[a]).state == CardState::InHand(j as i32);
            assert(t[a].state == CardState::InHand(j as i32));
        } else {
            assert(has_index(s, j + 1));
            let a = choose|a: int| 0 <= a < s.len() && (#[trigger] s[a]).state == CardState::InHand((j + 1) as i32);
            assert(t[a].state == CardState::InHand(j as i32));
        }
    }
}

impl Card {
    /// Puts the card on the table.
    pub fn play(&mut self)
        requires
            old(self).state is InHand,
        ensures
            final(self).suit == old(self).suit,
            final(self).state == CardState::InTable,
    {
        self.state = CardState::InTable;
    }

    /// Puts the card on the table into the pile.
    pub fn discard(&mut self)
        requires
            old(self).state is InTable,
        ensures
            final(self).suit == old(self).suit,
            final(self).state == CardState::InPile,
    {
        self.state = CardState::InPile;
    }

    /// Takes a card that is not in the pile back into the hand at index `i`.
    pub fn bring_back(&mut self, i: i32)
        requires
            !(old(self).state is InPile),
        ensures
            final(self).suit == old(self).suit,
            final(self).state == CardState::InHand(i),
    {
        self.state = CardState::InHand(i);
    }
}

/// Number of cards of `hand` that are in the hand.
pub fn count_in_hand(hand: &Vec<Card>) -> (r: i32)
    requires
        hand@.len() <= i32::MAX,
    ensures
        r == in_hand_count(hand@),
{
    let mut r: i32 = 0;
    let mut a: usize = 0;
    while a < hand.len()
        invariant
            a <= hand@.len() <= i32::MAX,
            r == in_hand_count(hand@.subrange(0, a as int)),
            r <= a,
        decreases hand@.len() - a,
    {
        assert(hand@.subrange(0, a + 1).drop_last() =~= hand@.subrange(0, a as int));
        if let CardState::InHand(_) = hand[a].state {
            r = r + 1;
        }
        a = a + 1;
    }
    assert(hand@.subrange(0, a as int) =~= hand@);
    r
}

/// Plays the card at hand index `i`: it goes to the table, and each card
/// after it in the hand moves down by one.
pub fn play_from_hand(hand: &mut Vec<Card>, i: i32)
    requires
        hand_indices_wf(old(hand)@),
        0 <= i < in_hand_count(old(hand)@),
    ensures
        final(hand)@ == play_at(old(hand)@, i as int),
{
    let ghost start = hand@;
    let mut a: usize = 0;
    while a < hand.len()
        invariant
            a <= hand@.len() == start.len(),
            0 <= i,
            forall|b: int| 0 <= b < a ==> #[trigger] hand@[b] == played_card(start[b], i as int),
            forall|b: int| a <= b < hand@.len() ==> #[trigger] hand@[b] == start[b],
        decreases hand@.len() - a,
    {
        let c = hand[a];
        if let CardState::InHand(j) = c.state {
            if j > i {
                hand.set(a, Card { suit: c.suit, state: CardState::InHand(j - 1) });
            } else if j == i {
                let mut p = c;
                p.play();
                hand.set(a, p);
            }
        }
        a = a + 1;
    }
    assert(hand@ =~= play_at(start, i as int));
}

/// Puts the cards of `hand` that are on the table into the pile.
pub fn discard_from_table(hand: &mut Vec<Card>)
    ensures
        final(hand)@ == discard_table(old(hand)@),
{
    let ghost start = hand@;
    let mut a: usize = 0;
    while a < hand.len()
        invariant
            a <= hand@.len() == start.len(),
            forall|b: int| 0 <= b < a ==> #[trigger] hand@[b] == discarded_card(start[b]),
            forall|b: int| a <= b < hand@.len() ==> #[trigger] hand@[b] == start[b],
        decreases hand@.len() - a,
    {
        let c = hand[a];
        if let CardState::InTable = c.state {
            let mut p = c;
            p.discard();
            hand.set(a, p);
        }
        a = a + 1;
    }
    assert(hand@ =~= discard_table(start));
}

// ---------------------------------------------------------------------------
// Selection of the card under the pointer

/// Hand index under a pointer at `x` in a window `w` pixels wide when `n`
/// cards are centred in it: `floor((x - left) / CARD_WIDTH)` with
/// `left = w / 2 - CARD_WIDTH * n / 2`, or `None` outside `0 .. n-1`.
pub open spec fn selection_index(x: int, w: int, n: int) -> Option<int> {
    let k = (2 * x - w + CARD_WIDTH * n) / (2 * CARD_WIDTH);
    if 0 <= k < n {
        Some(k)
    } else {
        None
    }
}

/// The number of cards in the player's hand and the index of the card under
/// the pointer, if any.
#[derive(Debug, Clone, Copy, PartialEq, Eq, Structural)]
pub struct CardSelection {
    pub n: i32,
    pub i: Option<i32>,
}

impl CardSelection {
    /// The selection after the pointer at `x` was looked at in a window `w`
    /// pixels wide.
    pub open spec fn selected(self, x: int, w: int) -> CardSelection {
        CardSelection {
            n: self.n,
            i: match selection_index(x, w, self.n as int) {
                Some(k) => Some(k as i32),
                None => None,
            },
        }
    }

    /// A full hand and nothing selected.
    pub fn new() -> (r: CardSelection)
        ensures
            r.n == HAND_SIZE,
            r.i is None,
    {
        CardSelection { n: HAND_SIZE, i: None }
    }

    /// Selects the card under the pointer, or none.
    pub fn select_card(&mut self, cursor: &Cursor, win_size: &WinSize)
        ensures
            *final(self) == old(self).selected(cursor.x as int, win_size.w as int),
    {
        let num: i64 = 2 * (cursor.x as i64) - (win_size.w as i64) + CARD_WIDTH * (self.n as i64);
        let den: i64 = 2 * CARD_WIDTH;
        if num < 0 {
            assert((num as int) / (den as int) < 0) by (nonlinear_arith)
                requires
                    num < 0,
                    den == 174,
            ;
            self.i = None;
        } else {
            let k: i64 = num / den;
            if k < self.n as i64 {
                self.i = Some(k as i32);
            } else {
                self.i = None;
            }
        }
    }
}

/// Looking at the same pointer twice selects what looking once did.
pub proof fn lemma_select_card_idempotent(s: CardSelection, x: int, w: int)
    ensures
        s.selected(x, w).selected(x, w) == s.selected(x, w),
{
}

/// With `n > 0` cards, a pointer left of the first card or at or right of the
/// right edge of the last card selects nothing, and a pointer on the left
/// edge of the first card selects index 0.
pub proof fn lemma_selection_bounds(x: int, w: int, n: int)
    requires
        n > 0,
    ensures
        2 * x < w - CARD_WIDTH * n ==> selection_index(x, w, n) is None,
        2 * x >= w + CARD_WIDTH * n ==> selection_index(x, w, n) is None,
        2 * x == w - CARD_WIDTH * n ==> selection_index(x, w, n) == Some(0int),
{
    let num = 2 * x - w + CARD_WIDTH * n;
    if num < 0 {
        assert(num / 174 < 0) by (nonlinear_arith)
            requires
                num < 0,
        ;
    }
    if num >= 174 * n {
        assert(num / 174 >= n) by (nonlinear_arith)
            requires
                num >= 174 * n,
        ;
    }
}

} // verus!
