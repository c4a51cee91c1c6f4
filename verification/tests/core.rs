use relay_core::data::{
    CounterAction, CounterChange, CustomItem, PacketHandlingError, PlayerAccountData, PlayerData,
    PlayerDataPacket, PlayerMetadata,
};
use relay_core::handlers::{
    handle_chat_message, handle_level_join, handle_level_leave, handle_player_data,
    handle_request_profiles, handle_voice, visible_players_on_level, ConnectionState,
    ProfileStore,
};
use relay_core::level::LevelManager;

fn data_packet(bytes: Vec<u8>) -> PlayerDataPacket {
    PlayerDataPacket { data: PlayerData::new(bytes), counter_changes: Vec::new(), meta: None }
}

#[test]
fn join_leave_counts_match() {
    let mut m = LevelManager::new();
    m.add_to_level(10, 1, false);
    m.add_to_level(10, 2, false);
    assert_eq!(m.get_player_count_on_level(10), Some(2));
    assert_eq!(m.get_level_count(), 1);
    m.remove_from_level(10, 1);
    assert_eq!(m.get_player_count_on_level(10), Some(1));
    m.remove_from_level(10, 2);
    // the level is absent exactly when its count reaches zero
    assert_eq!(m.get_player_count_on_level(10), None);
    assert!(m.get_level(10).is_none());
    assert_eq!(m.get_level_count(), 0);
}

#[test]
fn join_twice_is_idempotent() {
    let mut m = LevelManager::new();
    m.add_to_level(11, 1, false);
    m.add_to_level(11, 1, true);
    assert_eq!(m.get_player_count_on_level(11), Some(1));
    // the unlisted flag follows the latest join
    assert!(m.get_level(11).unwrap().unlisted);
    m.add_to_level(11, 1, false);
    assert_eq!(m.get_player_count_on_level(11), Some(1));
    assert!(!m.get_level(11).unwrap().unlisted);
}

#[test]
fn removal_round_trip_leaves_no_trace() {
    let mut m = LevelManager::new();
    m.create_player(1, false);
    m.create_player(2, false);
    m.add_to_level(20, 1, false);
    m.add_to_level(20, 2, false);
    m.add_to_level(21, 1, false);
    m.remove_from_level(20, 1);
    m.remove_from_level(21, 1);
    m.remove_player(1);
    assert!(!m.has_player(1));
    assert!(m.get_player_data(1).is_none());
    // no membership entry references the account any more
    let remaining: Vec<i32> = m
        .get_level(20)
        .map(|l| l.players.clone())
        .unwrap_or_default();
    assert_eq!(remaining, vec![2]);
    assert!(m.get_level(21).is_none());
    assert_eq!(m.get_total_player_count(), 1);
}

#[test]
fn player_record_survives_leaving_last_level() {
    let mut m = LevelManager::new();
    m.create_player(7, false);
    m.add_to_level(30, 7, false);
    m.remove_from_level(30, 7);
    // the record lifecycle is independent of membership
    assert!(m.has_player(7));
}

#[test]
fn tolerant_iteration_skips_missing_records() {
    let mut m = LevelManager::new();
    m.create_player(1, false);
    m.add_to_level(40, 1, false);
    m.add_to_level(40, 99, false); // no record for 99
    assert_eq!(m.get_player_count_on_level(40), Some(2));
    let records = m.for_each_player_on_level(40);
    assert_eq!(records.len(), 1);
    assert_eq!(records[0].account_id, 1);
}

#[test]
fn visible_players_excludes_querier_and_invisible() {
    let mut m = LevelManager::new();
    m.create_player(1, false);
    m.create_player(2, true); // invisible
    m.create_player(3, false);
    m.add_to_level(9, 1, false);
    m.add_to_level(9, 2, false);
    m.add_to_level(9, 3, false);
    let plain = visible_players_on_level(&m, 9, 1, false);
    let ids: Vec<i32> = plain.iter().map(|p| p.account_id).collect();
    assert_eq!(ids, vec![3]);
    let moderated = visible_players_on_level(&m, 9, 1, true);
    let mod_ids: Vec<i32> = moderated.iter().map(|p| p.account_id).collect();
    assert_eq!(mod_ids, vec![2, 3]);
}

#[test]
fn level_join_handler_moves_membership() {
    let mut m = LevelManager::new();
    let mut conn = ConnectionState { account_id: 5, level_id: 0, on_unlisted_level: false };
    handle_level_join(&mut m, &mut conn, 50, true);
    assert_eq!(conn.level_id, 50);
    assert!(conn.on_unlisted_level);
    assert_eq!(m.get_player_count_on_level(50), Some(1));
    handle_level_join(&mut m, &mut conn, 51, false);
    assert_eq!(conn.level_id, 51);
    assert!(m.get_level(50).is_none());
    assert_eq!(m.get_player_count_on_level(51), Some(1));
}

#[test]
fn level_leave_handler_clears_marker() {
    let mut m = LevelManager::new();
    let mut conn = ConnectionState { account_id: 5, level_id: 0, on_unlisted_level: false };
    handle_level_join(&mut m, &mut conn, 50, false);
    handle_level_leave(&mut m, &mut conn);
    assert_eq!(conn.level_id, 0);
    assert!(m.get_level(50).is_none());
    // leaving while in no level is a no-op
    handle_level_leave(&mut m, &mut conn);
    assert_eq!(conn.level_id, 0);
}

#[test]
fn player_data_broadcast_lists_exactly_the_others() {
    let mut m = LevelManager::new();
    m.create_player(1, false); // A
    m.create_player(2, false); // B
    m.create_player(3, false); // C
    m.add_to_level(5, 1, false);
    m.add_to_level(5, 2, false);
    m.add_to_level(5, 3, false);
    let packet = data_packet(vec![0xAA, 0xBB]);
    let resp = handle_player_data(&mut m, 1, 5, false, &packet).unwrap();
    assert_eq!(resp.recipients, 2);
    let ld = resp.level_data.expect("a broadcast is owed");
    let ids: Vec<i32> = ld.players.iter().map(|p| p.account_id).collect();
    assert_eq!(ids, vec![2, 3]);
    assert!(ld.custom_items.is_none());
    // measure-then-fill size: prefix + 2 * (empty state + id) + margins
    assert_eq!(resp.buffer_size, 4 + (0 + 4) + (0 + 4) + 2 * 16 + 256);
    assert!(resp.metadata.is_none());
    // the sender's own state was stored
    assert_eq!(m.get_player_data(1).unwrap().data.bytes(), &vec![0xAA, 0xBB]);
}

#[test]
fn solo_player_data_produces_no_packet() {
    let mut m = LevelManager::new();
    m.create_player(4, false); // D
    m.add_to_level(7, 4, false);
    let packet = data_packet(vec![1, 2, 3]);
    let resp = handle_player_data(&mut m, 4, 7, false, &packet).unwrap();
    assert_eq!(resp.recipients, 0);
    assert!(resp.level_data.is_none());
    assert!(resp.metadata.is_none());
    assert_eq!(resp.buffer_size, 0);
}

#[test]
fn solo_player_still_receives_item_overrides() {
    let mut m = LevelManager::new();
    m.create_player(4, false);
    m.add_to_level(7, 4, false);
    let packet = PlayerDataPacket {
        data: PlayerData::new(vec![1]),
        counter_changes: vec![CounterChange { item_id: 12, action: CounterAction::Assign(3) }],
        meta: None,
    };
    let resp = handle_player_data(&mut m, 4, 7, false, &packet).unwrap();
    assert_eq!(resp.recipients, 0);
    let ld = resp.level_data.expect("a zero-player packet carries the overrides");
    assert!(ld.players.is_empty());
    assert_eq!(ld.custom_items.unwrap(), vec![CustomItem { item_id: 12, value: 3 }]);
}

#[test]
fn player_data_with_meta_returns_recipient_metadata() {
    let mut m = LevelManager::new();
    m.create_player(1, false);
    m.create_player(2, false);
    m.add_to_level(5, 1, false);
    m.add_to_level(5, 2, false);
    m.set_player_meta(2, &PlayerMetadata::new(vec![9, 9]));
    let packet = PlayerDataPacket {
        data: PlayerData::new(vec![1]),
        counter_changes: Vec::new(),
        meta: Some(PlayerMetadata::new(vec![5])),
    };
    let resp = handle_player_data(&mut m, 1, 5, false, &packet).unwrap();
    let mp = resp.metadata.expect("metadata was asked for");
    assert_eq!(mp.players.len(), 1);
    assert_eq!(mp.players[0].account_id, 2);
    assert_eq!(mp.players[0].data.bytes(), &vec![9, 9]);
    assert_eq!(m.get_player_data(1).unwrap().meta.bytes(), &vec![5]);
}

#[test]
fn moderator_broadcast_reaches_invisible_players() {
    let mut m = LevelManager::new();
    m.create_player(1, false);
    m.create_player(2, true); // invisible
    m.add_to_level(5, 1, false);
    m.add_to_level(5, 2, false);
    let packet = data_packet(vec![1]);
    let resp = handle_player_data(&mut m, 1, 5, false, &packet).unwrap();
    assert_eq!(resp.recipients, 0);
    let resp_mod = handle_player_data(&mut m, 1, 5, true, &packet).unwrap();
    assert_eq!(resp_mod.recipients, 1);
    let ld = resp_mod.level_data.unwrap();
    assert_eq!(ld.players[0].account_id, 2);
}

#[test]
fn buffer_estimate_counts_stored_states() {
    let mut m = LevelManager::new();
    m.create_player(1, false);
    m.create_player(2, false);
    m.set_player_data(2, &PlayerData::new(vec![0; 10]));
    m.add_to_level(5, 1, false);
    m.add_to_level(5, 2, false);
    let resp = handle_player_data(&mut m, 1, 5, false, &data_packet(vec![7])).unwrap();
    assert_eq!(resp.recipients, 1);
    // prefix + (10-byte state + id) + one margin + flat margin
    assert_eq!(resp.buffer_size, 4 + (10 + 4) + 16 + 256);
}

#[test]
fn player_data_outside_any_level_is_rejected() {
    let mut m = LevelManager::new();
    let packet = data_packet(vec![1]);
    let r = handle_player_data(&mut m, 1, 0, false, &packet);
    assert!(matches!(r, Err(PacketHandlingError::UnexpectedPlayerData)));
}

#[test]
fn counter_actions_apply_in_order_and_clamp() {
    let mut m = LevelManager::new();
    m.add_to_level(6, 1, false);
    let changes = vec![
        CounterChange { item_id: 1, action: CounterAction::Add(5) },
        CounterChange { item_id: 1, action: CounterAction::Add(-2) },
        CounterChange { item_id: 2, action: CounterAction::Assign(7) },
        CounterChange { item_id: 3, action: CounterAction::Add(i32::MAX) },
        CounterChange { item_id: 3, action: CounterAction::Add(1) },
    ];
    m.run_counter_actions_on_level(6, &changes);
    let items = m.get_level(6).unwrap().custom_items.clone();
    assert_eq!(
        items,
        vec![
            CustomItem { item_id: 1, value: 3 },
            CustomItem { item_id: 2, value: 7 },
            CustomItem { item_id: 3, value: i32::MAX },
        ]
    );
    // an unknown level is a no-op
    m.run_counter_actions_on_level(999, &changes);
    assert!(m.get_level(999).is_none());
}

#[test]
fn profile_request_for_missing_account_sends_nothing() {
    let mut m = LevelManager::new();
    m.add_to_level(3, 1, false);
    let store = ProfileStore::new();
    let r = handle_request_profiles(&m, &store, 1, 3, 42, false);
    assert!(r.unwrap().is_none());
}

#[test]
fn profile_request_single_account_fast_path() {
    let mut m = LevelManager::new();
    m.add_to_level(3, 1, false);
    let mut store = ProfileStore::new();
    store.add(PlayerAccountData { account_id: 42, hidden: false, data: vec![7] });
    let pkt = handle_request_profiles(&m, &store, 1, 3, 42, false).unwrap().unwrap();
    assert_eq!(pkt.players.len(), 1);
    assert_eq!(pkt.players[0].account_id, 42);
    assert_eq!(pkt.players[0].data, vec![7]);
}

#[test]
fn profile_request_hidden_profile_needs_moderator() {
    let mut m = LevelManager::new();
    m.add_to_level(3, 1, false);
    let mut store = ProfileStore::new();
    store.add(PlayerAccountData { account_id: 42, hidden: true, data: vec![7] });
    assert!(handle_request_profiles(&m, &store, 1, 3, 42, false).unwrap().is_none());
    assert!(handle_request_profiles(&m, &store, 1, 3, 42, true).unwrap().is_some());
}

#[test]
fn profile_request_level_wide_excludes_requester() {
    let mut m = LevelManager::new();
    m.create_player(1, false);
    m.create_player(2, false);
    m.create_player(3, false);
    m.add_to_level(3, 1, false);
    m.add_to_level(3, 2, false);
    m.add_to_level(3, 3, false);
    let mut store = ProfileStore::new();
    store.add(PlayerAccountData { account_id: 1, hidden: false, data: vec![1] });
    store.add(PlayerAccountData { account_id: 2, hidden: false, data: vec![2] });
    // account 3 has no profile and is omitted
    let pkt = handle_request_profiles(&m, &store, 1, 3, 0, false).unwrap().unwrap();
    let ids: Vec<i32> = pkt.players.iter().map(|p| p.account_id).collect();
    assert_eq!(ids, vec![2]);
}

#[test]
fn profile_request_outside_any_level_is_rejected() {
    let m = LevelManager::new();
    let store = ProfileStore::new();
    let r = handle_request_profiles(&m, &store, 1, 0, 42, false);
    assert!(matches!(r, Err(PacketHandlingError::UnexpectedPlayerData)));
}

#[test]
fn voice_broadcast_wraps_sender() {
    let pkt = handle_voice(77, vec![1, 2, 3]);
    assert_eq!(pkt.player_id, 77);
    assert_eq!(pkt.data, vec![1, 2, 3]);
}

#[test]
fn empty_chat_message_is_dropped() {
    assert!(handle_chat_message(77, String::new()).is_none());
    let pkt = handle_chat_message(77, String::from("hello")).unwrap();
    assert_eq!(pkt.player_id, 77);
    assert_eq!(pkt.message, "hello");
}
