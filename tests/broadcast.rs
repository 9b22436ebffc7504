use speedhockey_backend::game::{Game, GameState};
use speedhockey_backend::registry::BodyHandle;
use std::time::{Duration, Instant};
use tokio::sync::watch;

/// Publishes `ticks` snapshots with `subscribers` receivers that never read,
/// and returns how long publishing took.
fn publish_with_idle_subscribers(subscribers: usize, ticks: usize) -> Duration {
    let (tx, rx) = watch::channel(GameState::new());
    let idle: Vec<watch::Receiver<GameState>> = (0..subscribers).map(|_| rx.clone()).collect();
    let mut game = Game::new(BodyHandle { index: 0, generation: 0 });
    let start = Instant::now();
    for _ in 0..ticks {
        let (_, state) = game.end_tick(speedhockey_backend::geometry::rink_center(), &Vec::new());
        assert!(tx.send(state).is_ok());
    }
    let spent = start.elapsed();
    assert_eq!(idle.len(), subscribers);
    // A subscriber that looks late sees the latest value only.
    assert!(idle.iter().all(|r| r.has_changed().unwrap_or(false) == (ticks > 0)));
    spent
}

#[test]
fn publishing_never_waits_for_subscribers() {
    let one = publish_with_idle_subscribers(1, 1000);
    let many = publish_with_idle_subscribers(500, 1000);
    assert!(one < Duration::from_secs(2));
    assert!(many < Duration::from_secs(2));
}

#[test]
fn publishing_without_subscribers_fails_at_once() {
    let (tx, rx) = watch::channel(GameState::new());
    drop(rx);
    let start = Instant::now();
    assert!(tx.send(GameState::new()).is_err());
    assert!(start.elapsed() < Duration::from_secs(1));
}
