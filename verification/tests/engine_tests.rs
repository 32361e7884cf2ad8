use blackjack::engine::{DecisionSlot, DrawSource, RunOutcome, StepOutcome};
use blackjack::event_dispatcher::{EventDispatcher, GameEvent};
use blackjack::game_data::{Action, BlackjackGame, Card, Suit};
use tokio::sync::broadcast::Receiver;

fn card(value: u8) -> Card {
    Card { suit: Suit::Hearts, value }
}

fn scripted(values: &[u8]) -> DrawSource {
    DrawSource::Scripted(values.iter().map(|v| card(*v)).collect())
}

fn drain(rx: &mut Receiver<GameEvent>) -> Vec<GameEvent> {
    let mut out = Vec::new();
    while let Ok(event) = rx.try_recv() {
        out.push(event);
    }
    out
}

fn round_results(events: &[GameEvent]) -> usize {
    events.iter().filter(|e| matches!(e, GameEvent::RoundResult(_))).count()
}

#[test]
fn decision_slot_last_write_wins() {
    // A decision written twice before being consumed is observed exactly
    // once, as the later value; the earlier one is lost.
    let mut slot = DecisionSlot::new();
    slot.write(Action::Hit);
    slot.write(Action::Stand);
    assert_eq!(slot.take(), Some(Action::Stand));
    assert_eq!(slot.take(), None);
}

#[test]
fn decision_slot_starts_empty() {
    let mut slot = DecisionSlot::new();
    assert_eq!(slot.take(), None);
}

#[test]
fn publish_with_zero_subscribers_returns() {
    // Publishing must neither fail nor block when nobody listens.
    let mut events = EventDispatcher::new();
    events.dispatch(GameEvent::PlayerStand);
    events.dispatch(GameEvent::DealerStand);
}

#[test]
fn subscriber_sees_only_later_events() {
    let mut events = EventDispatcher::new();
    events.dispatch(GameEvent::PlayerStand);
    let mut rx = events.subscribe();
    events.dispatch(GameEvent::DealerStand);
    let seen = drain(&mut rx);
    assert_eq!(seen.len(), 1);
    assert!(matches!(seen[0], GameEvent::DealerStand));
}

#[test]
fn each_subscriber_gets_its_own_ordered_copy() {
    let mut events = EventDispatcher::new();
    let mut first = events.subscribe();
    let mut second = events.subscribe();
    events.dispatch(GameEvent::PlayerStand);
    events.dispatch(GameEvent::DealerStand);
    for rx in [&mut first, &mut second] {
        let seen = drain(rx);
        assert_eq!(seen.len(), 2);
        assert!(matches!(seen[0], GameEvent::PlayerStand));
        assert!(matches!(seen[1], GameEvent::DealerStand));
    }
}

#[test]
fn slow_subscriber_loses_oldest_events_without_blocking_publisher() {
    // The backlog is bounded: a subscriber that does not keep up misses its
    // oldest unread events, while every publish returns at once.
    let mut events = EventDispatcher::new();
    let mut rx = events.subscribe();
    for _ in 0..300 {
        events.dispatch(GameEvent::PlayerStand);
    }
    match rx.try_recv() {
        Err(tokio::sync::broadcast::error::TryRecvError::Lagged(n)) => assert!(n > 0),
        other => panic!("expected a lag report, got {:?}", other),
    }
    let mut received = 0;
    while rx.try_recv().is_ok() {
        received += 1;
    }
    assert!(received > 0);
    assert!(received < 300);
}

#[test]
fn split_succeeds_only_on_equal_pair() {
    // Split with a matching pair: one card leaves into the requeue signal.
    let mut game = BlackjackGame::new();
    let mut draws = scripted(&[11, 8]);
    let mut events = EventDispatcher::new();
    let mut rx = events.subscribe();
    game.begin_round(&mut draws, &mut events);
    game.player.cards.push(card(8));
    let outcome = game.apply_decision(Action::Split, &mut draws, &mut events);
    assert_eq!(outcome, StepOutcome::AwaitingDecision);
    assert_eq!(game.player.cards.len(), 1);
    assert!(game.win_state.requeue_data.should_requeue);
    let left = game.win_state.requeue_data.card.expect("split leaves a card");
    assert_eq!(left.value, 8);
    let seen = drain(&mut rx);
    assert!(matches!(seen.last(), Some(GameEvent::PlayerSplit(c)) if c.value == 8));
}

#[test]
fn split_without_pair_changes_nothing() {
    let mut game = BlackjackGame::new();
    let mut draws = scripted(&[11, 8]);
    let mut events = EventDispatcher::new();
    game.begin_round(&mut draws, &mut events);
    let mut rx = events.subscribe();
    let outcome = game.apply_decision(Action::Split, &mut draws, &mut events);
    assert_eq!(outcome, StepOutcome::AwaitingDecision);
    assert_eq!(game.player.cards.len(), 1);
    assert!(!game.win_state.requeue_data.should_requeue);
    assert!(game.win_state.requeue_data.card.is_none());
    assert!(drain(&mut rx).is_empty());
}

#[test]
fn insurance_without_dealer_ace_changes_nothing() {
    let mut game = BlackjackGame::new();
    let mut draws = scripted(&[10, 8]);
    let mut events = EventDispatcher::new();
    game.begin_round(&mut draws, &mut events);
    let mut rx = events.subscribe();
    let outcome = game.apply_decision(Action::Insurance, &mut draws, &mut events);
    assert_eq!(outcome, StepOutcome::AwaitingDecision);
    assert!(game.players_turn);
    assert!(!game.win_state.is_decided);
    assert!(drain(&mut rx).is_empty());
}

#[test]
fn thinking_is_a_no_op() {
    let mut game = BlackjackGame::new();
    let mut draws = scripted(&[10, 8]);
    let mut events = EventDispatcher::new();
    game.begin_round(&mut draws, &mut events);
    let mut rx = events.subscribe();
    let outcome = game.apply_decision(Action::Thinking, &mut draws, &mut events);
    assert_eq!(outcome, StepOutcome::AwaitingDecision);
    assert!(game.players_turn);
    assert_eq!(game.player.cards.len(), 1);
    assert!(drain(&mut rx).is_empty());
}

#[test]
fn player_bust_ends_round_with_dealer_win() {
    // Dealer opens with an ace-equivalent 11; the player opens with 7 and
    // hits into 6 then 9, reaching 7 + 6 + 9 = 22 with no ace of their
    // own, so the total stays 22: a bust on the second hit. The round ends
    // at once with a dealer win; no stand of either side is processed.
    let mut game = BlackjackGame::new();
    let mut draws = scripted(&[11, 7, 6, 9]);
    let mut events = EventDispatcher::new();
    let mut rx = events.subscribe();
    let decisions = vec![Action::Hit, Action::Hit];
    let outcome = game.run(&decisions, &mut draws, &mut events);
    assert_eq!(outcome, RunOutcome::Decided);
    assert!(game.win_state.is_decided);
    assert!(game.win_state.dealer);
    assert!(!game.win_state.player);
    let seen = drain(&mut rx);
    assert_eq!(seen.len(), 5);
    assert!(matches!(seen[0], GameEvent::DealerHit(c) if c.value == 11));
    assert!(matches!(seen[1], GameEvent::PlayerHit(c) if c.value == 7));
    assert!(matches!(seen[2], GameEvent::PlayerHit(c) if c.value == 6));
    assert!(matches!(seen[3], GameEvent::PlayerHit(c) if c.value == 9));
    assert!(matches!(seen[4], GameEvent::RoundResult(ws) if ws.dealer && ws.is_decided));
    assert!(!seen.iter().any(|e| matches!(e, GameEvent::PlayerStand | GameEvent::DealerStand)));
}

#[test]
fn dealer_stands_at_twenty_and_wins() {
    // The player stands at 7 + 11 = 18; the dealer, starting from 11,
    // draws 5 then 4 to 20, stands at 17 or more, and wins 20 over 18.
    let mut game = BlackjackGame::new();
    let mut draws = scripted(&[11, 7, 11, 5, 4]);
    let mut events = EventDispatcher::new();
    let mut rx = events.subscribe();
    let decisions = vec![Action::Hit, Action::Stand];
    let outcome = game.run(&decisions, &mut draws, &mut events);
    assert_eq!(outcome, RunOutcome::Decided);
    assert!(game.win_state.is_decided);
    assert!(game.win_state.dealer);
    assert!(!game.win_state.player);
    let seen = drain(&mut rx);
    assert_eq!(seen.len(), 8);
    assert!(matches!(seen[0], GameEvent::DealerHit(c) if c.value == 11));
    assert!(matches!(seen[1], GameEvent::PlayerHit(c) if c.value == 7));
    assert!(matches!(seen[2], GameEvent::PlayerHit(c) if c.value == 11));
    assert!(matches!(seen[3], GameEvent::PlayerStand));
    assert!(matches!(seen[4], GameEvent::DealerHit(c) if c.value == 5));
    assert!(matches!(seen[5], GameEvent::DealerHit(c) if c.value == 4));
    assert!(matches!(seen[6], GameEvent::DealerStand));
    assert!(matches!(seen[7], GameEvent::RoundResult(ws) if ws.dealer));
}

#[test]
fn insurance_pays_on_two_card_twenty_one() {
    // Insurance is taken against the dealer's single ace; the dealer's
    // next draw reaches exactly 21 on 2 cards, so the round is decided
    // immediately in the player's favor, whatever the player's own total.
    let mut game = BlackjackGame::new();
    let mut draws = scripted(&[11, 5, 10]);
    let mut events = EventDispatcher::new();
    let mut rx = events.subscribe();
    let decisions = vec![Action::Insurance];
    let outcome = game.run(&decisions, &mut draws, &mut events);
    assert_eq!(outcome, RunOutcome::InsuranceWin);
    assert!(game.win_state.is_decided);
    assert!(game.win_state.player);
    assert!(!game.win_state.dealer);
    let seen = drain(&mut rx);
    assert_eq!(seen.len(), 4);
    assert!(matches!(seen[0], GameEvent::DealerHit(c) if c.value == 11));
    assert!(matches!(seen[1], GameEvent::PlayerHit(c) if c.value == 5));
    assert!(matches!(seen[2], GameEvent::PlayerInsure));
    assert!(matches!(seen[3], GameEvent::DealerHit(c) if c.value == 10));
    assert_eq!(round_results(&seen), 0);
}

#[test]
fn exact_tie_leaves_round_undecided() {
    // Both sides finish at 18: the tie branch sets no flag, publishes no
    // result, and the round can never reach a decided outcome — the
    // documented gap, pinned here rather than fixed.
    let mut game = BlackjackGame::new();
    let mut draws = scripted(&[11, 7, 11, 7]);
    let mut events = EventDispatcher::new();
    let mut rx = events.subscribe();
    let decisions = vec![Action::Hit, Action::Stand];
    let outcome = game.run(&decisions, &mut draws, &mut events);
    assert_eq!(outcome, RunOutcome::Tied);
    assert!(!game.win_state.is_decided);
    assert!(!game.win_state.player);
    assert!(!game.win_state.dealer);
    let seen = drain(&mut rx);
    assert_eq!(round_results(&seen), 0);
    assert!(matches!(seen.last(), Some(GameEvent::DealerStand)));
}

#[test]
fn decided_round_publishes_exactly_one_result_with_exclusive_flags() {
    let mut game = BlackjackGame::new();
    let mut draws = scripted(&[11, 10, 9, 8]);
    let mut events = EventDispatcher::new();
    let mut rx = events.subscribe();
    // The player stands on the opening 10; the dealer draws 9 to 20,
    // stands, and wins 20 over 10.
    let decisions = vec![Action::Stand];
    let outcome = game.run(&decisions, &mut draws, &mut events);
    assert_eq!(outcome, RunOutcome::Decided);
    let seen = drain(&mut rx);
    assert_eq!(round_results(&seen), 1);
    match seen.last() {
        Some(GameEvent::RoundResult(ws)) => {
            assert!(ws.is_decided);
            assert!(ws.player != ws.dealer);
        },
        other => panic!("expected a round result, got {:?}", other),
    }
}

#[test]
fn script_exhaustion_reports_need_decision() {
    let mut game = BlackjackGame::new();
    let mut draws = scripted(&[11, 7]);
    let mut events = EventDispatcher::new();
    let decisions = vec![Action::Thinking];
    let outcome = game.run(&decisions, &mut draws, &mut events);
    assert_eq!(outcome, RunOutcome::NeedDecision);
    assert!(!game.win_state.is_decided);
    assert!(game.players_turn);
}

#[test]
fn tie_branch_of_evaluation_changes_nothing() {
    let mut game = BlackjackGame::new();
    let mut events = EventDispatcher::new();
    let mut rx = events.subscribe();
    game.decide_winner(18, 18, &mut events);
    assert!(!game.win_state.is_decided);
    assert!(!game.win_state.player);
    assert!(!game.win_state.dealer);
    assert!(drain(&mut rx).is_empty());
}

#[test]
fn evaluation_handles_all_outcomes() {
    // Player bust: dealer wins even when the dealer busts too.
    let mut game = BlackjackGame::new();
    let mut events = EventDispatcher::new();
    game.decide_winner(22, 25, &mut events);
    assert!(game.win_state.is_decided && game.win_state.dealer && !game.win_state.player);
    // Dealer bust with the player standing: player wins.
    let mut game = BlackjackGame::new();
    game.decide_winner(18, 22, &mut events);
    assert!(game.win_state.is_decided && game.win_state.player && !game.win_state.dealer);
    // Higher total wins below 22.
    let mut game = BlackjackGame::new();
    game.decide_winner(17, 19, &mut events);
    assert!(game.win_state.is_decided && game.win_state.dealer);
    let mut game = BlackjackGame::new();
    game.decide_winner(20, 19, &mut events);
    assert!(game.win_state.is_decided && game.win_state.player);
}

#[test]
fn scripted_source_falls_back_to_random_draws() {
    let mut draws = scripted(&[4]);
    let first = draws.draw();
    assert_eq!(first.value, 4);
    let second = draws.draw();
    assert!((2..=11).contains(&second.value));
}
