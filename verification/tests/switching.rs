use relay_core::data::SwitchData;
use relay_core::level::LevelManager;
use relay_core::switch::SwitchManager;

#[test]
fn no_players_yields_sentinel_event() {
    let mut sm = SwitchManager::new();
    let e = sm.get_next_switch(1234);
    assert_eq!(e, SwitchData { player: 0, timestamp: 0 });
    assert!(sm.history().is_empty());
}

#[test]
fn generated_event_has_bounded_delay() {
    let mut sm = SwitchManager::new();
    sm.set_players(vec![1, 2, 3]);
    let e = sm.get_next_switch(0);
    assert!(e.timestamp >= 2000 && e.timestamp < 5000);
    assert!([1, 2, 3].contains(&e.player));
    assert_eq!(sm.history().len(), 1);
}

#[test]
fn late_queries_replay_the_last_event() {
    let mut sm = SwitchManager::new();
    sm.set_players(vec![1, 2]);
    let first = sm.get_next_switch(0);
    // both of these lie before the recorded event: identical replays,
    // nothing new recorded
    let replay_a = sm.get_next_switch(0);
    let replay_b = sm.get_next_switch(first.timestamp - 1);
    assert_eq!(replay_a, first);
    assert_eq!(replay_b, first);
    assert_eq!(sm.history().len(), 1);
}

#[test]
fn next_event_never_repeats_the_player() {
    let mut sm = SwitchManager::new();
    sm.set_players(vec![1, 2]);
    let mut prev = sm.get_next_switch(0);
    for _ in 0..20 {
        let next = sm.get_next_switch(prev.timestamp);
        assert_ne!(next.player, prev.player);
        assert!(next.timestamp >= prev.timestamp + 2000);
        assert!(next.timestamp < prev.timestamp + 5000);
        prev = next;
    }
}

#[test]
fn single_player_repeats_unavoidably() {
    let mut sm = SwitchManager::new();
    sm.set_players(vec![9]);
    let first = sm.get_next_switch(0);
    let second = sm.get_next_switch(first.timestamp);
    assert_eq!(first.player, 9);
    assert_eq!(second.player, 9);
}

#[test]
fn reset_clears_history() {
    let mut sm = SwitchManager::new();
    sm.set_players(vec![1, 2]);
    sm.get_next_switch(0);
    sm.reset();
    assert!(sm.history().is_empty());
    assert_eq!(sm.players(), &vec![1, 2]);
}

#[test]
fn registry_runs_switch_queries_per_level() {
    let mut m = LevelManager::new();
    m.add_to_level(5, 1, false);
    m.add_to_level(5, 2, false);
    let e = m.get_next_switch_on_level(5, 0).expect("the level exists");
    assert!([1, 2].contains(&e.player));
    assert!(e.timestamp >= 2000 && e.timestamp < 5000);
    assert_eq!(m.get_switch_manager(5).unwrap().history().len(), 1);
    assert!(m.get_next_switch_on_level(999, 0).is_none());
    assert!(m.reset_switch_on_level(5));
    assert!(m.get_switch_manager(5).unwrap().history().is_empty());
    assert!(!m.reset_switch_on_level(999));
}
