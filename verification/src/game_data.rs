//! Cards, hands, actions and the round's outcome record.
//!
//! The hand-value rule lives here: a hand's total is the sum of its card
//! values, reduced by 10 exactly once when the raw sum is 22 or more and the
//! hand holds at least one ace-equivalent card (value 11). The reduction is
//! applied at most once however many such cards the hand holds.

use vstd::prelude::*;
use vstd::string::StrSliceExecFns;

verus! {

/// One of the four card suits.
#[derive(Debug, Clone, Copy)]
pub enum Suit {
    Clubs,
    Diamonds,
    Hearts,
    Spades,
}

/// A playing card. A value of 11 denotes an ace-equivalent card, usable as
/// either 11 or 1 through the soft-ace reduction of the hand total.
#[derive(Debug, Clone, Copy)]
pub struct Card {
    pub suit: Suit,
    pub value: u8,
}

/// A player decision. `Thinking` is the inert default and never triggers a
/// transition.
#[derive(PartialEq, Debug, Clone, Copy)]
pub enum Action {
    Hit,
    Stand,
    Split,
    Insurance,
    Thinking,
}

/// A card carries a value between 2 and 11 inclusive.
pub open spec fn card_ok(c: Card) -> bool {
    2 <= c.value <= 11
}

/// Every card of the hand carries a value between 2 and 11 inclusive.
pub open spec fn hand_ok(cards: Seq<Card>) -> bool {
    forall|i: int| 0 <= i < cards.len() ==> card_ok(#[trigger] cards[i])
}

/// The raw sum of the card values of a hand.
pub open spec fn spec_sum(cards: Seq<Card>) -> int
    decreases cards.len(),
{
    if cards.len() == 0 {
        0
    } else {
        spec_sum(cards.drop_last()) + cards.last().value
    }
}

/// Whether the hand holds at least one ace-equivalent card (value 11).
pub open spec fn spec_has_ace(cards: Seq<Card>) -> bool
    decreases cards.len(),
{
    if cards.len() == 0 {
        false
    } else {
        cards.last().value == 11 || spec_has_ace(cards.drop_last())
    }
}

/// The total value of a hand: the raw sum, reduced by 10 exactly once when
/// the sum is at least 22 and an ace-equivalent card is present.
pub open spec fn spec_total(cards: Seq<Card>) -> int {
    if spec_sum(cards) >= 22 && spec_has_ace(cards) {
        spec_sum(cards) - 10
    } else {
        spec_sum(cards)
    }
}

pub proof fn lemma_sum_nonneg(cards: Seq<Card>)
    ensures
        spec_sum(cards) >= 0,
    decreases cards.len(),
{
    if cards.len() > 0 {
        lemma_sum_nonneg(cards.drop_last());
    }
}

pub proof fn lemma_sum_push(cards: Seq<Card>, c: Card)
    ensures
        spec_sum(cards.push(c)) == spec_sum(cards) + c.value,
        spec_has_ace(cards.push(c)) == (spec_has_ace(cards) || c.value == 11),
{
    assert(cards.push(c).drop_last() =~= cards);
    assert(cards.push(c).last() == c);
}

pub proof fn lemma_sum_singleton(cards: Seq<Card>)
    requires
        cards.len() == 1,
    ensures
        spec_sum(cards) == cards[0].value,
        spec_has_ace(cards) == (cards[0].value == 11),
{
    assert(cards.drop_last() =~= Seq::<Card>::empty());
    assert(spec_sum(Seq::<Card>::empty()) == 0);
    assert(!spec_has_ace(Seq::<Card>::empty()));
    assert(cards.last() == cards[0]);
}

pub proof fn lemma_hand_ok_push(cards: Seq<Card>, c: Card)
    requires
        hand_ok(cards),
        card_ok(c),
    ensures
        hand_ok(cards.push(c)),
{
    assert forall|i: int| 0 <= i < cards.push(c).len() implies card_ok(#[trigger] cards.push(c)[i]) by {
        if i < cards.len() {
            assert(cards.push(c)[i] == cards[i]);
        } else {
            assert(cards.push(c)[i] == c);
        }
    }
}

proof fn lemma_sum_take_succ(cards: Seq<Card>, i: int)
    requires
        0 <= i < cards.len(),
    ensures
        spec_sum(cards.take(i + 1)) == spec_sum(cards.take(i)) + cards[i].value,
        spec_has_ace(cards.take(i + 1)) == (spec_has_ace(cards.take(i)) || cards[i].value == 11),
{
    assert(cards.take(i + 1).drop_last() =~= cards.take(i));
    assert(cards.take(i + 1).last() == cards[i]);
}

proof fn lemma_sum_take_le(cards: Seq<Card>, i: int)
    requires
        0 <= i <= cards.len(),
    ensures
        spec_sum(cards.take(i)) <= spec_sum(cards),
    decreases cards.len() - i,
{
    if i == cards.len() {
        assert(cards.take(i) =~= cards);
    } else {
        lemma_sum_take_succ(cards, i);
        lemma_sum_take_le(cards, i + 1);
    }
}

/// Computes the total value of a hand under the soft-ace rule.
pub fn hand_total(cards: &Vec<Card>) -> (t: u8)
    requires
        spec_sum(cards@) <= 255,
    ensures
        t == spec_total(cards@),
{
    let n: usize = cards.len();
    let mut sum: u8 = 0;
    let mut saw_ace: bool = false;
    let mut i: usize = 0;
    while i < n
        invariant
            n == cards@.len(),
            i <= n,
            spec_sum(cards@) <= 255,
            sum == spec_sum(cards@.take(i as int)),
            saw_ace == spec_has_ace(cards@.take(i as int)),
        decreases n - i,
    {
        proof {
            lemma_sum_take_succ(cards@, i as int);
            lemma_sum_take_le(cards@, i as int + 1);
            lemma_sum_nonneg(cards@.take(i as int));
        }
        let v: u8 = cards[i].value;
        sum = sum + v;
        if v == 11 {
            saw_ace = true;
        }
        i = i + 1;
    }
    proof {
        assert(cards@.take(n as int) =~= cards@);
    }
    if sum >= 22 && saw_ace {
        sum - 10
    } else {
        sum
    }
}

/// The player's side of the table: a hand and the last intended action.
#[derive(Debug)]
#[verifier::ext_equal]
pub struct Player {
    pub cards: Vec<Card>,
    pub decision: Action,
}

impl Player {
    /// A split is available exactly when the player holds two cards of equal
    /// value.
    pub fn can_split(&self) -> (r: bool)
        ensures
            r == (self.cards@.len() == 2 && self.cards@[0].value == self.cards@[1].value),
    {
        self.cards.len() == 2 && self.cards[0].value == self.cards[1].value
    }

    /// The total value of the player's hand under the soft-ace rule.
    pub fn total_value(&self) -> (t: u8)
        requires
            spec_sum(self.cards@) <= 255,
        ensures
            t == spec_total(self.cards@),
    {
        hand_total(&self.cards)
    }
}

/// The dealer's side of the table: a hand only.
#[derive(Debug)]
#[verifier::ext_equal]
pub struct Dealer {
    pub cards: Vec<Card>,
}

impl Dealer {
    /// The total value of the dealer's hand under the soft-ace rule.
    pub fn total_value(&self) -> (t: u8)
        requires
            spec_sum(self.cards@) <= 255,
        ensures
            t == spec_total(self.cards@),
    {
        hand_total(&self.cards)
    }
}

/// A split's leftover card, handed to an external hand-orchestrator. The
/// engine only signals the intent; it never spawns a second hand itself.
#[derive(Debug, Clone, Copy)]
#[verifier::ext_equal]
pub struct RequeueData {
    pub should_requeue: bool,
    pub card: Option<Card>,
}

/// The round's outcome record. Once `is_decided` is set, the win flags do
/// not change again within the round.
#[derive(Debug, Clone, Copy)]
#[verifier::ext_equal]
pub struct WinState {
    pub player: bool,
    pub dealer: bool,
    pub is_decided: bool,
    pub requeue_data: RequeueData,
}

/// The whole round state: both hands, whose turn it is, and the outcome.
#[derive(Debug)]
#[verifier::ext_equal]
pub struct BlackjackGame {
    pub player: Player,
    pub dealer: Dealer,
    pub players_turn: bool,
    pub win_state: WinState,
}

/// A freshly created round: no cards dealt, dealer to move first, outcome
/// entirely open.
pub open spec fn fresh_game(g: BlackjackGame) -> bool {
    &&& g.player.cards@.len() == 0
    &&& g.player.decision == Action::Thinking
    &&& g.dealer.cards@.len() == 0
    &&& !g.players_turn
    &&& !g.win_state.player
    &&& !g.win_state.dealer
    &&& !g.win_state.is_decided
    &&& !g.win_state.requeue_data.should_requeue
    &&& g.win_state.requeue_data.card is None
}

impl BlackjackGame {
    /// Creates a round in its initial state.
    pub fn new() -> (g: Self)
        ensures
            fresh_game(g),
    {
        Self {
            player: Player { cards: Vec::new(), decision: Action::Thinking },
            dealer: Dealer { cards: Vec::new() },
            players_turn: false,
            win_state: WinState {
                player: false,
                dealer: false,
                is_decided: false,
                requeue_data: RequeueData { should_requeue: false, card: None },
            },
        }
    }

    /// Insurance is available exactly when the dealer shows a single
    /// ace-equivalent card.
    pub fn viable_for_insurance(&self) -> (r: bool)
        ensures
            r == (self.dealer.cards@.len() == 1 && self.dealer.cards@[0].value == 11),
    {
        self.dealer.cards.len() == 1 && self.dealer.cards[0].value == 11
    }
}

/// Compares two string slices character by character.
fn str_eq(a: &str, b: &str) -> (r: bool)
    ensures
        r == (a@ == b@),
{
    let n: usize = a.unicode_len();
    if n != b.unicode_len() {
        return false;
    }
    let mut i: usize = 0;
    while i < n
        invariant
            n == a@.len(),
            n == b@.len(),
            i <= n,
            forall|j: int| 0 <= j < i ==> a@[j] == b@[j],
        decreases n - i,
    {
        if a.get_char(i) != b.get_char(i) {
            return false;
        }
        i = i + 1;
    }
    proof {
        assert(a@ =~= b@);
    }
    true
}

/// The action named by a string, if any.
pub open spec fn action_of(s: Seq<char>) -> Option<Action> {
    if s == "Hit"@ {
        Some(Action::Hit)
    } else if s == "Stand"@ {
        Some(Action::Stand)
    } else if s == "Split"@ {
        Some(Action::Split)
    } else if s == "Insurance"@ {
        Some(Action::Insurance)
    } else if s == "Thinking"@ {
        Some(Action::Thinking)
    } else {
        None
    }
}

impl Action {
    /// Parses an action from its exact name; any other string yields `None`.
    pub fn from_str(s: &str) -> (r: Option<Action>)
        ensures
            r == action_of(s@),
    {
        if str_eq(s, "Hit") {
            Some(Action::Hit)
        } else if str_eq(s, "Stand") {
            Some(Action::Stand)
        } else if str_eq(s, "Split") {
            Some(Action::Split)
        } else if str_eq(s, "Insurance") {
            Some(Action::Insurance)
        } else if str_eq(s, "Thinking") {
            Some(Action::Thinking)
        } else {
            None
        }
    }
}

} // verus!
