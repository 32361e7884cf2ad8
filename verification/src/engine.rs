//! The turn engine: alternates the dealer's autonomous policy with the
//! player's externally supplied decisions until the round's outcome is
//! decided, publishing an event after every observable transition.
//!
//! The engine is synchronous over plain values: the caller draws the round
//! forward with [`BlackjackGame::begin_round`] and
//! [`BlackjackGame::apply_decision`], handing in each decision as it
//! arrives, or plays a whole scripted round with [`BlackjackGame::run`].
//! Waiting for a decision is the caller's affair; [`DecisionSlot`] gives the
//! single-slot, last-write-wins, consume-once holder that decisions travel
//! through.

use vstd::prelude::*;
use crate::event_dispatcher::{EventDispatcher, GameEvent};
use crate::game_data::{
    card_ok, fresh_game, hand_ok, lemma_hand_ok_push, lemma_sum_push, lemma_sum_singleton,
    spec_sum, spec_total, Action, BlackjackGame, Card, Suit, WinState,
};
use rand::Rng;

verus! {

/// Relies on rand::Rng::random_range over an inclusive byte range: the
/// result lies within the bounds. An empty range would panic, which the
/// precondition rules out.
#[verifier::external_body]
fn random_u8_in(lo: u8, hi: u8) -> (r: u8)
    requires
        lo <= hi,
    ensures
        lo <= r <= hi,
{
    rand::rng().random_range(lo..=hi)
}

/// Draws a card with a uniformly chosen suit and a value between 2 and 11.
fn random_card() -> (c: Card)
    ensures
        card_ok(c),
{
    let s: u8 = random_u8_in(0, 3);
    let suit: Suit = if s == 0 {
        Suit::Clubs
    } else if s == 1 {
        Suit::Diamonds
    } else if s == 2 {
        Suit::Hearts
    } else {
        Suit::Spades
    };
    Card { suit, value: random_u8_in(2, 11) }
}

/// Where the engine's cards come from: the random source, or a scripted
/// sequence of cards dealt front to back (falling back to the random source
/// once the script is exhausted).
#[derive(Debug)]
pub enum DrawSource {
    Random,
    Scripted(Vec<Card>),
}

/// Every scripted card carries a value between 2 and 11 inclusive.
pub open spec fn draws_ok(d: DrawSource) -> bool {
    match d {
        DrawSource::Random => true,
        DrawSource::Scripted(v) => hand_ok(v@),
    }
}

/// One draw: a scripted source hands out its first card and keeps the rest;
/// the random source stays the random source.
pub open spec fn draw_step(d0: DrawSource, c: Card, d1: DrawSource) -> bool {
    match d0 {
        DrawSource::Random => d1 is Random,
        DrawSource::Scripted(v) => if v@.len() > 0 {
            c == v@[0] && (d1 matches DrawSource::Scripted(w) && w@ == v@.skip(1))
        } else {
            d1 matches DrawSource::Scripted(w) && w@ == v@
        },
    }
}

/// Two draws in sequence.
pub open spec fn draw_step2(d0: DrawSource, c1: Card, c2: Card, d2: DrawSource) -> bool {
    exists|m: DrawSource| draw_step(d0, c1, m) && draw_step(m, c2, d2)
}

/// A whole sequence of draws in order: each card came from one draw, the
/// source threading through from `d0` to `d1`. With a scripted source this
/// pins the drawn cards to the script, front to back.
pub open spec fn draw_steps(d0: DrawSource, cs: Seq<Card>, d1: DrawSource) -> bool
    decreases cs.len(),
{
    if cs.len() == 0 {
        d1 == d0
    } else {
        exists|m: DrawSource| draw_step(d0, cs[0], m) && draw_steps(m, cs.skip(1), d1)
    }
}

pub proof fn lemma_draw_steps_push(
    d0: DrawSource,
    cs: Seq<Card>,
    mid: DrawSource,
    c: Card,
    d1: DrawSource,
)
    requires
        draw_steps(d0, cs, mid),
        draw_step(mid, c, d1),
    ensures
        draw_steps(d0, cs.push(c), d1),
    decreases cs.len(),
{
    if cs.len() == 0 {
        assert(mid == d0);
        assert(cs.push(c)[0] == c);
        assert(cs.push(c).skip(1) =~= Seq::<Card>::empty());
        assert(draw_steps(d1, cs.push(c).skip(1), d1));
        assert(draw_step(d0, cs.push(c)[0], d1) && draw_steps(d1, cs.push(c).skip(1), d1));
    } else {
        let m0 = choose|m: DrawSource|
            draw_step(d0, cs[0], m) && draw_steps(m, cs.skip(1), mid);
        lemma_draw_steps_push(m0, cs.skip(1), mid, c, d1);
        assert(cs.push(c)[0] == cs[0]);
        assert(cs.push(c).skip(1) =~= cs.skip(1).push(c));
        assert(draw_step(d0, cs.push(c)[0], m0) && draw_steps(m0, cs.push(c).skip(1), d1));
    }
}

impl DrawSource {
    /// Deals the next card.
    pub fn draw(&mut self) -> (c: Card)
        requires
            draws_ok(*old(self)),
        ensures
            card_ok(c),
            draws_ok(*final(self)),
            draw_step(*old(self), c, *final(self)),
    {
        match self {
            DrawSource::Random => random_card(),
            DrawSource::Scripted(v) => {
                if v.len() > 0 {
                    v.remove(0)
                } else {
                    random_card()
                }
            },
        }
    }
}

/// The single externally writable slot holding at most one pending action.
/// Writes overwrite (last write wins); a read consumes the value, so each
/// successful write is observed at most once.
pub struct DecisionSlot {
    pub pending: Option<Action>,
}

/// The slot after a write: exactly the written action is pending, whatever
/// was pending before.
pub open spec fn slot_after_write(s: DecisionSlot, action: Action) -> DecisionSlot {
    DecisionSlot { pending: Some(action) }
}

impl DecisionSlot {
    /// Creates an empty slot.
    pub fn new() -> (s: Self)
        ensures
            s.pending is None,
    {
        DecisionSlot { pending: None }
    }

    /// Stores an action, overwriting any pending one.
    pub fn write(&mut self, action: Action)
        ensures
            *final(self) == slot_after_write(*old(self), action),
    {
        self.pending = Some(action);
    }

    /// Consumes and returns the pending action, if any; the slot is empty
    /// afterwards, so the same action is never observed twice.
    pub fn take(&mut self) -> (r: Option<Action>)
        ensures
            r == old(self).pending,
            final(self).pending is None,
    {
        let r = self.pending;
        self.pending = None;
        r
    }
}

/// A decision written before an earlier one is consumed replaces it
/// entirely: after two writes the slot holds the later action, and no trace
/// of the earlier one remains.
pub proof fn lemma_last_write_wins(s: DecisionSlot, first: Action, second: Action)
    ensures
        slot_after_write(slot_after_write(s, first), second) == slot_after_write(s, second),
        slot_after_write(s, second).pending == Some(second),
{
}

/// The round is an exact tie: both totals within 21 and equal. The tie
/// branch of round evaluation sets no flag, so a tied round never reaches a
/// decided outcome.
pub open spec fn round_tied(pt: int, dt: int) -> bool {
    pt <= 21 && dt <= 21 && pt == dt
}

/// The player takes the round: the player is within 21 and the dealer
/// busted or stands lower.
pub open spec fn player_beats(pt: int, dt: int) -> bool {
    pt <= 21 && (dt > 21 || pt > dt)
}

/// The dealer takes the round: the player busted, or both are within 21 and
/// the dealer stands higher.
pub open spec fn dealer_beats(pt: int, dt: int) -> bool {
    pt > 21 || (dt <= 21 && dt > pt)
}

/// For any pair of totals, exactly one of tie, player win and dealer win
/// holds; in particular a decided evaluation sets exactly one win flag.
pub proof fn lemma_outcome_exclusive(pt: int, dt: int)
    ensures
        round_tied(pt, dt) || player_beats(pt, dt) || dealer_beats(pt, dt),
        !(round_tied(pt, dt) && player_beats(pt, dt)),
        !(round_tied(pt, dt) && dealer_beats(pt, dt)),
        !(player_beats(pt, dt) && dealer_beats(pt, dt)),
{
}

/// How round evaluation rewrites the outcome record for the given totals: a
/// non-tie sets the winner's flag and decides the round; a tie changes
/// nothing.
pub open spec fn evaluated_post(ws0: WinState, ws1: WinState, pt: int, dt: int) -> bool {
    &&& ws1.player == (ws0.player || player_beats(pt, dt))
    &&& ws1.dealer == (ws0.dealer || dealer_beats(pt, dt))
    &&& ws1.is_decided == (ws0.is_decided || !round_tied(pt, dt))
    &&& ws1.requeue_data == ws0.requeue_data
}

/// The events round evaluation publishes: one `RoundResult` carrying the
/// decided record, or none on a tie.
pub open spec fn eval_events(ev0: Seq<GameEvent>, ev1: Seq<GameEvent>, pt: int, dt: int, ws1: WinState) -> bool {
    if round_tied(pt, dt) {
        ev1 == ev0
    } else {
        ev1 == ev0.push(GameEvent::RoundResult(ws1))
    }
}

/// How many `RoundResult` events a trace holds.
pub open spec fn result_count(s: Seq<GameEvent>) -> int
    decreases s.len(),
{
    if s.len() == 0 {
        0
    } else {
        result_count(s.drop_last()) + if s.last() is RoundResult {
            1int
        } else {
            0int
        }
    }
}

pub proof fn lemma_result_count_push(s: Seq<GameEvent>, e: GameEvent)
    ensures
        result_count(s.push(e)) == result_count(s) + if e is RoundResult {
            1int
        } else {
            0int
        },
{
    assert(s.push(e).drop_last() =~= s);
    assert(s.push(e).last() == e);
}

pub proof fn lemma_result_count_singleton(e: GameEvent)
    ensures
        result_count(seq![e]) == if e is RoundResult {
            1int
        } else {
            0int
        },
{
    assert(seq![e].drop_last() =~= Seq::<GameEvent>::empty());
    assert(result_count(Seq::<GameEvent>::empty()) == 0);
    assert(seq![e].last() == e);
}

pub proof fn lemma_result_count_concat(a: Seq<GameEvent>, b: Seq<GameEvent>)
    ensures
        result_count(a + b) == result_count(a) + result_count(b),
    decreases b.len(),
{
    if b.len() == 0 {
        assert(a + b =~= a);
    } else {
        lemma_result_count_concat(a, b.drop_last());
        assert((a + b).drop_last() =~= a + b.drop_last());
        assert((a + b).last() == b.last());
    }
}

/// The dealer-hit events for a sequence of drawn cards, in draw order.
pub open spec fn dealer_hits(cards: Seq<Card>) -> Seq<GameEvent> {
    cards.map_values(|c: Card| GameEvent::DealerHit(c))
}

pub proof fn lemma_result_count_dealer_hits(cards: Seq<Card>)
    ensures
        result_count(dealer_hits(cards)) == 0,
    decreases cards.len(),
{
    if cards.len() == 0 {
        assert(dealer_hits(cards) =~= Seq::<GameEvent>::empty());
    } else {
        lemma_result_count_dealer_hits(cards.drop_last());
        assert(dealer_hits(cards).drop_last() =~= dealer_hits(cards.drop_last()));
        assert(dealer_hits(cards).last() == GameEvent::DealerHit(cards.last()));
    }
}

impl BlackjackGame {
    /// Evaluates the round for the given totals. A player bust hands the
    /// round to the dealer; otherwise a dealer bust hands it to the player;
    /// equal totals are a tie and leave the record untouched — the round
    /// stays undecided; otherwise the higher total wins. Every non-tie
    /// branch decides the round and publishes one `RoundResult` carrying
    /// the updated record.
    pub fn decide_winner(&mut self, player_total: u8, dealer_total: u8, events: &mut EventDispatcher)
        requires
            !old(self).win_state.is_decided,
        ensures
            final(self).player == old(self).player,
            final(self).dealer == old(self).dealer,
            final(self).players_turn == old(self).players_turn,
            evaluated_post(
                old(self).win_state,
                final(self).win_state,
                player_total as int,
                dealer_total as int,
            ),
            eval_events(
                old(events).events(),
                final(events).events(),
                player_total as int,
                dealer_total as int,
                final(self).win_state,
            ),
    {
        if player_total > 21 {
            self.win_state.dealer = true;
            self.win_state.is_decided = true;
            events.dispatch(GameEvent::RoundResult(self.win_state));
        } else if dealer_total > 21 {
            self.win_state.player = true;
            self.win_state.is_decided = true;
            events.dispatch(GameEvent::RoundResult(self.win_state));
        } else if player_total == dealer_total {
            // the documented tie gap: no flag is set, the round stays open
        } else if player_total < dealer_total {
            self.win_state.dealer = true;
            self.win_state.is_decided = true;
            events.dispatch(GameEvent::RoundResult(self.win_state));
        } else {
            self.win_state.player = true;
            self.win_state.is_decided = true;
            events.dispatch(GameEvent::RoundResult(self.win_state));
        }
    }

    /// Evaluates the round on the two hands' current totals.
    pub fn check_for_win(&mut self, events: &mut EventDispatcher)
        requires
            !old(self).win_state.is_decided,
            spec_sum(old(self).player.cards@) <= 255,
            spec_sum(old(self).dealer.cards@) <= 255,
        ensures
            final(self).player == old(self).player,
            final(self).dealer == old(self).dealer,
            final(self).players_turn == old(self).players_turn,
            evaluated_post(
                old(self).win_state,
                final(self).win_state,
                spec_total(old(self).player.cards@),
                spec_total(old(self).dealer.cards@),
            ),
            eval_events(
                old(events).events(),
                final(events).events(),
                spec_total(old(self).player.cards@),
                spec_total(old(self).dealer.cards@),
                final(self).win_state,
            ),
    {
        let player_total = self.player.total_value();
        let dealer_total = self.dealer.total_value();
        self.decide_winner(player_total, dealer_total, events);
    }
}

/// What one engine step reports back to the caller driving the round.
#[derive(Debug, Clone, Copy, PartialEq)]
pub enum StepOutcome {
    /// The round is still in the player's phase; the engine waits for the
    /// next decision.
    AwaitingDecision,
    /// Round evaluation ran; the round is decided unless the totals tied.
    Evaluated,
    /// The insurance short-circuit fired: the player won outright.
    InsuranceWin,
}

/// The player's phase is under way: it is the player's turn, the round is
/// open, both sides hold cards from their forced opening draws, and the
/// player's total still leaves the next draw's sum within bounds.
pub open spec fn mid_round(g: BlackjackGame) -> bool {
    &&& g.players_turn
    &&& !g.win_state.is_decided
    &&& !g.win_state.player
    &&& !g.win_state.dealer
    &&& g.player.cards@.len() >= 1
    &&& g.dealer.cards@.len() == 1
    &&& hand_ok(g.player.cards@)
    &&& hand_ok(g.dealer.cards@)
    &&& spec_total(g.player.cards@) <= 20
}

/// The same game with the turn flag replaced.
pub open spec fn with_turn(g: BlackjackGame, players_turn: bool) -> BlackjackGame {
    BlackjackGame { player: g.player, dealer: g.dealer, players_turn, win_state: g.win_state }
}

/// What the dealer's phase guarantees, relating the state, event trace and
/// draw source at its start (`g0`, `ev0`, `d0`) to those at its end (`g1`,
/// `ev1`, `d1`): the dealer draws from the source until standing at 17 or
/// more, busting, or — under insurance — reaching a two-card 21, which
/// hands the round to the player at once, with no `DealerStand` and no
/// `RoundResult`. Every card appended to the dealer's hand was obtained by
/// a draw, each draw happened while the hand's total was still below 17,
/// and an evaluated outcome under insurance is only possible when the hand
/// never stood at a two-card 21.
pub open spec fn dealer_phase_post(
    g0: BlackjackGame,
    g1: BlackjackGame,
    ev0: Seq<GameEvent>,
    ev1: Seq<GameEvent>,
    d0: DrawSource,
    d1: DrawSource,
    insurance: bool,
    r: StepOutcome,
) -> bool {
    let pt = spec_total(g0.player.cards@);
    let dt = spec_total(g1.dealer.cards@);
    let drawn = g1.dealer.cards@.skip(g0.dealer.cards@.len() as int);
    &&& g1.player == g0.player
    &&& g1.players_turn == g0.players_turn
    &&& hand_ok(g1.dealer.cards@)
    &&& g1.dealer.cards@.len() >= g0.dealer.cards@.len()
    &&& g1.dealer.cards@.take(g0.dealer.cards@.len() as int) == g0.dealer.cards@
    &&& draw_steps(d0, drawn, d1)
    &&& (forall|p: int|
        g0.dealer.cards@.len() <= p < g1.dealer.cards@.len() ==> spec_total(
            #[trigger] g1.dealer.cards@.take(p),
        ) < 17)
    &&& (r is Evaluated && insurance && g0.dealer.cards@.len() < 2 && g1.dealer.cards@.len() >= 2
        ==> spec_total(g1.dealer.cards@.take(2)) != 21)
    &&& !(r is AwaitingDecision)
    &&& (r is InsuranceWin ==> {
        &&& insurance
        &&& dt == 21
        &&& g1.dealer.cards@.len() == 2
        &&& g1.win_state.player
        &&& g1.win_state.is_decided
        &&& g1.win_state.dealer == g0.win_state.dealer
        &&& g1.win_state.requeue_data == g0.win_state.requeue_data
        &&& ev1 == ev0 + dealer_hits(drawn)
    })
    &&& (r is Evaluated ==> {
        &&& dt >= 17
        &&& evaluated_post(g0.win_state, g1.win_state, pt, dt)
        &&& ev1 == ev0 + dealer_hits(drawn) + (if dt < 21 {
            seq![GameEvent::DealerStand]
        } else {
            Seq::<GameEvent>::empty()
        }) + (if round_tied(pt, dt) {
            Seq::<GameEvent>::empty()
        } else {
            seq![GameEvent::RoundResult(g1.win_state)]
        })
    })
}

impl BlackjackGame {
    /// Runs the dealer's phase to its end: the dealer draws below 17,
    /// stands from 17 up, and the round is then evaluated — unless the
    /// insurance short-circuit ends it first.
    #[verifier::loop_isolation(false)]
    pub fn dealer_play(&mut self, insurance: bool, draws: &mut DrawSource, events: &mut EventDispatcher) -> (r: StepOutcome)
        requires
            !old(self).win_state.is_decided,
            !old(self).win_state.player,
            !old(self).win_state.dealer,
            old(self).dealer.cards@.len() >= 1,
            hand_ok(old(self).dealer.cards@),
            spec_sum(old(self).dealer.cards@) <= 26,
            hand_ok(old(self).player.cards@),
            spec_sum(old(self).player.cards@) <= 255,
            draws_ok(*old(draws)),
        ensures
            draws_ok(*final(draws)),
            dealer_phase_post(
                *old(self),
                *final(self),
                old(events).events(),
                final(events).events(),
                *old(draws),
                *final(draws),
                insurance,
                r,
            ),
    {
        let ghost base_len = self.dealer.cards@.len() as int;
        proof {
            assert(self.dealer.cards@.take(base_len) =~= self.dealer.cards@);
            assert(self.dealer.cards@.skip(base_len) =~= Seq::<Card>::empty());
            assert(dealer_hits(Seq::<Card>::empty()) =~= Seq::<GameEvent>::empty());
            assert(events.events() + dealer_hits(self.dealer.cards@.skip(base_len)) =~= events.events());
            assert(draw_steps(*draws, self.dealer.cards@.skip(base_len), *draws));
        }
        loop
            invariant
                self.player == old(self).player,
                self.players_turn == old(self).players_turn,
                self.win_state == old(self).win_state,
                self.dealer.cards@.len() >= old(self).dealer.cards@.len(),
                self.dealer.cards@.take(base_len) == old(self).dealer.cards@,
                hand_ok(self.dealer.cards@),
                spec_sum(self.dealer.cards@) <= 37,
                events.events() == old(events).events() + dealer_hits(
                    self.dealer.cards@.skip(base_len),
                ),
                draws_ok(*draws),
                draw_steps(*old(draws), self.dealer.cards@.skip(base_len), *draws),
                forall|p: int|
                    base_len <= p < self.dealer.cards@.len() ==> spec_total(
                        #[trigger] self.dealer.cards@.take(p),
                    ) < 17,
                (insurance && old(self).dealer.cards@.len() < 2 && self.dealer.cards@.len() >= 2
                    ==> spec_total(self.dealer.cards@.take(2)) != 21),
            decreases 37 - spec_sum(self.dealer.cards@),
        {
            let ghost drawn = self.dealer.cards@.skip(base_len);
            let dealer_total = self.dealer.total_value();
            if dealer_total >= 21 {
                self.check_for_win(events);
                proof {
                    let pt = spec_total(old(self).player.cards@);
                    let dt = spec_total(self.dealer.cards@);
                    if round_tied(pt, dt) {
                        assert(events.events() == old(events).events() + dealer_hits(drawn)
                            + Seq::<GameEvent>::empty() + Seq::<GameEvent>::empty()) by {
                            assert(old(events).events() + dealer_hits(drawn)
                                + Seq::<GameEvent>::empty() + Seq::<GameEvent>::empty()
                                =~= old(events).events() + dealer_hits(drawn));
                        }
                    } else {
                        assert(events.events() == old(events).events() + dealer_hits(drawn)
                            + Seq::<GameEvent>::empty() + seq![
                                GameEvent::RoundResult(self.win_state),
                            ]) by {
                            assert(old(events).events() + dealer_hits(drawn)
                                + Seq::<GameEvent>::empty() + seq![
                                    GameEvent::RoundResult(self.win_state),
                                ]
                                =~= (old(events).events() + dealer_hits(drawn)).push(
                                GameEvent::RoundResult(self.win_state)));
                        }
                    }
                }
                return StepOutcome::Evaluated;
            }
            if dealer_total >= 17 {
                events.dispatch(GameEvent::DealerStand);
                self.check_for_win(events);
                proof {
                    let pt = spec_total(old(self).player.cards@);
                    let dt = spec_total(self.dealer.cards@);
                    let stand = seq![GameEvent::DealerStand];
                    if round_tied(pt, dt) {
                        assert(events.events() == old(events).events() + dealer_hits(drawn)
                            + stand + Seq::<GameEvent>::empty()) by {
                            assert(old(events).events() + dealer_hits(drawn) + stand
                                + Seq::<GameEvent>::empty()
                                =~= (old(events).events() + dealer_hits(drawn)).push(
                                GameEvent::DealerStand));
                        }
                    } else {
                        assert(events.events() == old(events).events() + dealer_hits(drawn)
                            + stand + seq![GameEvent::RoundResult(self.win_state)]) by {
                            assert(old(events).events() + dealer_hits(drawn) + stand + seq![
                                GameEvent::RoundResult(self.win_state),
                            ]
                                =~= (old(events).events() + dealer_hits(drawn)).push(
                                GameEvent::DealerStand,
                            ).push(GameEvent::RoundResult(self.win_state)));
                        }
                    }
                }
                return StepOutcome::Evaluated;
            }
            let ghost prev_cards = self.dealer.cards@;
            let ghost pre_draws = *draws;
            let card = draws.draw();
            self.dealer.cards.push(card);
            events.dispatch(GameEvent::DealerHit(card));
            proof {
                lemma_sum_push(prev_cards, card);
                lemma_hand_ok_push(prev_cards, card);
                assert(spec_total(prev_cards) < 17);
                assert(spec_sum(prev_cards) <= 26);
                assert(self.dealer.cards@ == prev_cards.push(card));
                assert(self.dealer.cards@.take(base_len) =~= old(self).dealer.cards@);
                assert(self.dealer.cards@.skip(base_len) =~= drawn.push(card));
                assert(dealer_hits(drawn.push(card)) =~= dealer_hits(drawn).push(
                    GameEvent::DealerHit(card)));
                assert(old(events).events() + dealer_hits(drawn).push(GameEvent::DealerHit(card))
                    =~= (old(events).events() + dealer_hits(drawn)).push(
                    GameEvent::DealerHit(card)));
                lemma_draw_steps_push(*old(draws), drawn, pre_draws, card, *draws);
                assert forall|p: int|
                    base_len <= p < self.dealer.cards@.len() implies spec_total(
                        #[trigger] self.dealer.cards@.take(p),
                    ) < 17 by {
                    if p < prev_cards.len() {
                        assert(self.dealer.cards@.take(p) =~= prev_cards.take(p));
                    } else {
                        assert(self.dealer.cards@.take(p) =~= prev_cards);
                    }
                }
            }
            if insurance {
                let t = self.dealer.total_value();
                if t == 21 && self.dealer.cards.len() == 2 {
                    self.win_state.player = true;
                    self.win_state.is_decided = true;
                    return StepOutcome::InsuranceWin;
                }
            }
            proof {
                if insurance && old(self).dealer.cards@.len() < 2 && self.dealer.cards@.len()
                    >= 2 {
                    if self.dealer.cards@.len() == 2 {
                        assert(self.dealer.cards@.take(2) =~= self.dealer.cards@);
                    } else {
                        assert(prev_cards.len() >= 2);
                        assert(self.dealer.cards@.take(2) =~= prev_cards.take(2));
                    }
                }
            }
        }
    }
}

/// A split is available: exactly two player cards, of equal value.
pub open spec fn split_allowed(g: BlackjackGame) -> bool {
    g.player.cards@.len() == 2 && g.player.cards@[0].value == g.player.cards@[1].value
}

/// Insurance is available: the dealer shows a single ace-equivalent card.
pub open spec fn insurance_allowed(g: BlackjackGame) -> bool {
    g.dealer.cards@.len() == 1 && g.dealer.cards@[0].value == 11
}

impl BlackjackGame {
    /// Performs the two forced opening draws — the dealer's single card,
    /// then the player's — publishing each, and hands the turn to the
    /// player.
    pub fn begin_round(&mut self, draws: &mut DrawSource, events: &mut EventDispatcher)
        requires
            fresh_game(*old(self)),
            draws_ok(*old(draws)),
        ensures
            draws_ok(*final(draws)),
            mid_round(*final(self)),
            final(self).player.cards@.len() == 1,
            final(self).dealer.cards@.len() == 1,
            final(self).win_state == old(self).win_state,
            final(self).player.decision == old(self).player.decision,
            final(events).events() == old(events).events().push(
                GameEvent::DealerHit(final(self).dealer.cards@[0]),
            ).push(GameEvent::PlayerHit(final(self).player.cards@[0])),
            draw_step2(
                *old(draws),
                final(self).dealer.cards@[0],
                final(self).player.cards@[0],
                *final(draws),
            ),
    {
        let d = draws.draw();
        let ghost mid_draws = *draws;
        self.dealer.cards.push(d);
        events.dispatch(GameEvent::DealerHit(d));
        self.players_turn = true;
        let p = draws.draw();
        self.player.cards.push(p);
        events.dispatch(GameEvent::PlayerHit(p));
        proof {
            assert(self.dealer.cards@[0] == d);
            assert(self.player.cards@[0] == p);
            lemma_sum_singleton(self.dealer.cards@);
            lemma_sum_singleton(self.player.cards@);
            assert forall|i: int| 0 <= i < self.dealer.cards@.len() implies card_ok(
                #[trigger] self.dealer.cards@[i],
            ) by {
                assert(self.dealer.cards@[i] == d);
            }
            assert forall|i: int| 0 <= i < self.player.cards@.len() implies card_ok(
                #[trigger] self.player.cards@[i],
            ) by {
                assert(self.player.cards@[i] == p);
            }
            assert(draw_step2(*old(draws), d, p, *draws)) by {
                assert(draw_step(*old(draws), d, mid_draws));
                assert(draw_step(mid_draws, p, *draws));
            }
        }
    }

    /// Applies one player decision, running the dealer's phase to its end
    /// where the decision closes the player's phase. A decision that is not
    /// allowed in the current state — a split without a matching pair, an
    /// insurance without a single dealer ace — changes nothing and
    /// publishes nothing, as does `Thinking`.
    pub fn apply_decision(&mut self, action: Action, draws: &mut DrawSource, events: &mut EventDispatcher) -> (r: StepOutcome)
        requires
            mid_round(*old(self)),
            draws_ok(*old(draws)),
        ensures
            draws_ok(*final(draws)),
            (r is AwaitingDecision ==> mid_round(*final(self))),
            (action is Thinking ==> r is AwaitingDecision && *final(self) == *old(self)
                && final(events).events() == old(events).events()),
            (action is Split && !split_allowed(*old(self)) ==> r is AwaitingDecision
                && *final(self) == *old(self) && final(events).events() == old(events).events()),
            (action is Split && split_allowed(*old(self)) ==> {
                &&& r is AwaitingDecision
                &&& final(self).player.cards@ == old(self).player.cards@.take(1)
                &&& final(self).player.decision == old(self).player.decision
                &&& final(self).dealer == old(self).dealer
                &&& final(self).players_turn
                &&& final(self).win_state.player == old(self).win_state.player
                &&& final(self).win_state.dealer == old(self).win_state.dealer
                &&& final(self).win_state.is_decided == old(self).win_state.is_decided
                &&& final(self).win_state.requeue_data.should_requeue
                &&& final(self).win_state.requeue_data.card == Some(old(self).player.cards@[1])
                &&& final(events).events() == old(events).events().push(
                    GameEvent::PlayerSplit(old(self).player.cards@[1]),
                )
            }),
            (action is Insurance && !insurance_allowed(*old(self)) ==> r is AwaitingDecision
                && *final(self) == *old(self) && final(events).events() == old(events).events()),
            (action is Insurance && insurance_allowed(*old(self)) ==> dealer_phase_post(
                with_turn(*old(self), false),
                *final(self),
                old(events).events().push(GameEvent::PlayerInsure),
                final(events).events(),
                *old(draws),
                *final(draws),
                true,
                r,
            )),
            (action is Stand ==> dealer_phase_post(
                with_turn(*old(self), false),
                *final(self),
                old(events).events().push(GameEvent::PlayerStand),
                final(events).events(),
                *old(draws),
                *final(draws),
                false,
                r,
            )),
            (action is Hit ==> {
                let c = final(self).player.cards@.last();
                let pt = spec_total(final(self).player.cards@);
                let dt = spec_total(old(self).dealer.cards@);
                &&& final(self).player.cards@ == old(self).player.cards@.push(c)
                &&& final(self).player.decision == old(self).player.decision
                &&& card_ok(c)
                &&& draw_step(*old(draws), c, *final(draws))
                &&& final(self).dealer == old(self).dealer
                &&& final(self).players_turn
                &&& (if pt >= 21 {
                    &&& r is Evaluated
                    &&& evaluated_post(old(self).win_state, final(self).win_state, pt, dt)
                    &&& eval_events(
                        old(events).events().push(GameEvent::PlayerHit(c)),
                        final(events).events(),
                        pt,
                        dt,
                        final(self).win_state,
                    )
                } else {
                    &&& r is AwaitingDecision
                    &&& final(self).win_state == old(self).win_state
                    &&& final(events).events() == old(events).events().push(
                        GameEvent::PlayerHit(c),
                    )
                })
            }),
    {
        match action {
            Action::Hit => {
                let ghost prev_player = self.player.cards@;
                let card = draws.draw();
                self.player.cards.push(card);
                events.dispatch(GameEvent::PlayerHit(card));
                proof {
                    lemma_sum_push(prev_player, card);
                    lemma_hand_ok_push(prev_player, card);
                    assert(spec_sum(prev_player) <= 30);
                    assert(spec_sum(self.player.cards@) <= 41);
                    lemma_sum_singleton(self.dealer.cards@);
                }
                let total = self.player.total_value();
                if total >= 21 {
                    self.check_for_win(events);
                    StepOutcome::Evaluated
                } else {
                    StepOutcome::AwaitingDecision
                }
            },
            Action::Stand => {
                events.dispatch(GameEvent::PlayerStand);
                self.players_turn = false;
                proof {
                    assert(*self =~= with_turn(*old(self), false));
                    lemma_sum_singleton(self.dealer.cards@);
                    assert(spec_sum(self.player.cards@) <= 30);
                }
                self.dealer_play(false, draws, events)
            },
            Action::Split => {
                if self.player.can_split() {
                    self.win_state.requeue_data.should_requeue = true;
                    let ghost prev_player = self.player.cards@;
                    let c = self.player.cards.pop().unwrap();
                    self.win_state.requeue_data.card = Some(c);
                    events.dispatch(GameEvent::PlayerSplit(c));
                    proof {
                        assert(self.player.cards@ =~= prev_player.take(1));
                        assert(c == prev_player[1]);
                        lemma_sum_singleton(self.player.cards@);
                        assert(card_ok(prev_player[0]));
                    }
                    StepOutcome::AwaitingDecision
                } else {
                    StepOutcome::AwaitingDecision
                }
            },
            Action::Insurance => {
                if self.viable_for_insurance() {
                    events.dispatch(GameEvent::PlayerInsure);
                    self.players_turn = false;
                    proof {
                        assert(*self =~= with_turn(*old(self), false));
                        lemma_sum_singleton(self.dealer.cards@);
                        assert(spec_sum(self.player.cards@) <= 30);
                    }
                    self.dealer_play(true, draws, events)
                } else {
                    StepOutcome::AwaitingDecision
                }
            },
            Action::Thinking => StepOutcome::AwaitingDecision,
        }
    }
}

/// How a scripted round ended.
#[derive(Debug, Clone, Copy, PartialEq)]
pub enum RunOutcome {
    /// Round evaluation decided the round and published its one
    /// `RoundResult`.
    Decided,
    /// The insurance short-circuit handed the round to the player; no
    /// `RoundResult` is published on this path.
    InsuranceWin,
    /// Round evaluation hit the exact-tie gap: the round is over but stays
    /// undecided forever, and no `RoundResult` is ever published.
    Tied,
    /// The decision script ran out while the player's phase was still open.
    NeedDecision,
}

impl BlackjackGame {
    /// Plays one whole round from a fresh state: both forced opening
    /// draws, then the scripted decisions in order until the round leaves
    /// the player's phase and the dealer's phase has been evaluated.
    ///
    /// Every round that ends in `Decided` carries exactly one
    /// `RoundResult` event, published last, with exactly one of the two
    /// win flags set. An `InsuranceWin` round — the dealer standing at a
    /// two-card 21 while insured — or a `Tied` round publishes no
    /// `RoundResult` at all: the insurance short-circuit decides without
    /// evaluation, and a tie leaves the round undecided indefinitely. A
    /// tie can only come out of a played round: the dealer drew past its
    /// opening card to 17 or more and its stand is the last event.
    /// `NeedDecision` is only possible when no scripted decision closed
    /// the player's phase; in particular a script holding a `Stand` never
    /// ends there.
    #[verifier::loop_isolation(false)]
    pub fn run(&mut self, decisions: &Vec<Action>, draws: &mut DrawSource, events: &mut EventDispatcher) -> (r: RunOutcome)
        requires
            fresh_game(*old(self)),
            draws_ok(*old(draws)),
        ensures
            draws_ok(*final(draws)),
            final(self).win_state.is_decided == (r is Decided || r is InsuranceWin),
            (r is Decided ==> {
                &&& final(self).win_state.is_decided
                &&& final(self).win_state.player != final(self).win_state.dealer
                &&& final(self).player.cards@.len() >= 1
                &&& final(self).dealer.cards@.len() >= 1
                &&& decisions@.len() >= 1
                &&& result_count(final(events).events()) == result_count(old(events).events())
                    + 1
                &&& final(events).events().len() > 0
                &&& final(events).events().last() == GameEvent::RoundResult(
                    final(self).win_state,
                )
            }),
            (r is InsuranceWin ==> {
                &&& final(self).win_state.player
                &&& !final(self).win_state.dealer
                &&& final(self).dealer.cards@.len() == 2
                &&& spec_total(final(self).dealer.cards@) == 21
                &&& decisions@.len() >= 1
                &&& result_count(final(events).events()) == result_count(old(events).events())
            }),
            (r is Tied ==> {
                &&& !final(self).win_state.player
                &&& !final(self).win_state.dealer
                &&& !final(self).players_turn
                &&& final(self).player.cards@.len() >= 1
                &&& final(self).dealer.cards@.len() >= 2
                &&& spec_total(final(self).player.cards@) == spec_total(final(self).dealer.cards@)
                &&& 17 <= spec_total(final(self).dealer.cards@) <= 21
                &&& decisions@.len() >= 1
                &&& final(events).events().len() > old(events).events().len()
                &&& final(events).events().last() == GameEvent::DealerStand
                &&& result_count(final(events).events()) == result_count(old(events).events())
            }),
            (r is NeedDecision ==> {
                &&& mid_round(*final(self))
                &&& (forall|j: int|
                    0 <= j < decisions@.len() ==> !((#[trigger] decisions@[j]) is Stand))
                &&& result_count(final(events).events()) == result_count(old(events).events())
            }),
    {
        self.begin_round(draws, events);
        proof {
            lemma_result_count_push(old(events).events(), GameEvent::DealerHit(self.dealer.cards@[0]));
            lemma_result_count_push(
                old(events).events().push(GameEvent::DealerHit(self.dealer.cards@[0])),
                GameEvent::PlayerHit(self.player.cards@[0]),
            );
        }
        let n: usize = decisions.len();
        let mut i: usize = 0;
        while i < n
            invariant
                i <= n,
                mid_round(*self),
                draws_ok(*draws),
                result_count(events.events()) == result_count(old(events).events()),
                events.events().len() >= old(events).events().len() + 2,
                forall|j: int| 0 <= j < i ==> !((#[trigger] decisions@[j]) is Stand),
            decreases n - i,
        {
            let ghost prev_g = *self;
            let ghost prev_ev = events.events();
            let action = decisions[i];
            i = i + 1;
            let outcome = self.apply_decision(action, draws, events);
            match outcome {
                StepOutcome::AwaitingDecision => {
                    proof {
                        assert(!(action is Stand));
                        if action is Split && split_allowed(prev_g) {
                            lemma_result_count_push(
                                prev_ev,
                                GameEvent::PlayerSplit(prev_g.player.cards@[1]),
                            );
                        }
                        if action is Hit {
                            lemma_result_count_push(
                                prev_ev,
                                GameEvent::PlayerHit(self.player.cards@.last()),
                            );
                        }
                    }
                },
                StepOutcome::InsuranceWin => {
                    proof {
                        let evmid = prev_ev.push(GameEvent::PlayerInsure);
                        let drawn = self.dealer.cards@.skip(prev_g.dealer.cards@.len() as int);
                        lemma_result_count_push(prev_ev, GameEvent::PlayerInsure);
                        lemma_result_count_concat(evmid, dealer_hits(drawn));
                        lemma_result_count_dealer_hits(drawn);
                    }
                    return RunOutcome::InsuranceWin;
                },
                StepOutcome::Evaluated => {
                    proof {
                        let pt = spec_total(self.player.cards@);
                        let dt = spec_total(self.dealer.cards@);
                        lemma_outcome_exclusive(pt, dt);
                        if action is Hit {
                            let c = self.player.cards@.last();
                            lemma_result_count_push(prev_ev, GameEvent::PlayerHit(c));
                            if !round_tied(pt, dt) {
                                lemma_result_count_push(
                                    prev_ev.push(GameEvent::PlayerHit(c)),
                                    GameEvent::RoundResult(self.win_state),
                                );
                            } else {
                                // a hit cannot tie: it evaluates only at 21 or
                                // more, while the dealer still shows one card
                                lemma_sum_singleton(prev_g.dealer.cards@);
                                assert(false);
                            }
                        } else {
                            let opener = if action is Stand {
                                GameEvent::PlayerStand
                            } else {
                                GameEvent::PlayerInsure
                            };
                            let evmid = prev_ev.push(opener);
                            let drawn = self.dealer.cards@.skip(prev_g.dealer.cards@.len() as int);
                            let stand_part = if dt < 21 {
                                seq![GameEvent::DealerStand]
                            } else {
                                Seq::<GameEvent>::empty()
                            };
                            let result_part = if round_tied(pt, dt) {
                                Seq::<GameEvent>::empty()
                            } else {
                                seq![GameEvent::RoundResult(self.win_state)]
                            };
                            lemma_result_count_push(prev_ev, opener);
                            lemma_result_count_concat(evmid, dealer_hits(drawn));
                            lemma_result_count_dealer_hits(drawn);
                            lemma_result_count_concat(evmid + dealer_hits(drawn), stand_part);
                            lemma_result_count_concat(
                                evmid + dealer_hits(drawn) + stand_part,
                                result_part,
                            );
                            if dt < 21 {
                                lemma_result_count_singleton(GameEvent::DealerStand);
                            } else {
                                assert(result_count(Seq::<GameEvent>::empty()) == 0);
                            }
                            if round_tied(pt, dt) {
                                assert(result_count(Seq::<GameEvent>::empty()) == 0);
                                // a tied evaluation came through the dealer's
                                // stand at 17..=20, so it drew past its single
                                // opening card and stood last
                                assert(pt <= 20);
                                assert(dt < 21);
                                if self.dealer.cards@.len() == 1 {
                                    lemma_sum_singleton(self.dealer.cards@);
                                    assert(false);
                                }
                                assert(evmid + dealer_hits(drawn) + stand_part + result_part
                                    =~= (evmid + dealer_hits(drawn)).push(GameEvent::DealerStand));
                                assert(events.events().last() == GameEvent::DealerStand);
                            } else {
                                lemma_result_count_singleton(GameEvent::RoundResult(self.win_state));
                                assert((evmid + dealer_hits(drawn) + stand_part + result_part).last()
                                    == GameEvent::RoundResult(self.win_state));
                            }
                        }
                    }
                    if self.win_state.is_decided {
                        return RunOutcome::Decided;
                    } else {
                        return RunOutcome::Tied;
                    }
                },
            }
        }
        RunOutcome::NeedDecision
    }
}

} // verus!
