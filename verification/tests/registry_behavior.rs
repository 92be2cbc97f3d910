use gecko_audio_ctrl::registry::ClientManager;
use gecko_audio_ctrl::registry::RegistryError;
use gecko_audio_ctrl::state::ClientState;
use gecko_audio_ctrl::state::ClientStateChange;

fn fresh_with_session(id: u64) -> ClientManager {
    let mut m = ClientManager::new();
    m.new_client(id);
    m
}

#[test]
fn connect_gives_all_unset_state() {
    let mut m = fresh_with_session(1);
    let st = m.get_client(1).unwrap();
    assert!(st.client_name.is_none());
    assert!(st.battery_level.is_none());
    assert!(st.is_charging.is_none());
    assert!(st.display_name.is_none());
    assert!(st.recv_audio_port.is_none());
    assert!(st.recv_repair_port.is_none());
    assert!(st.send_audio_port.is_none());
    assert!(st.send_repair_port.is_none());
    assert!(st.send_mute.is_none());
    assert!(st.recv_mute.is_none());
    assert!(st.send_audio.is_none());
    assert!(st.recv_audio.is_none());
    assert!(st.battery_log_interval_secs.is_none());
}

#[test]
fn get_state_after_disconnect_fails() {
    let mut m = fresh_with_session(1);
    m.rm_client(1);
    assert_eq!(m.get_client(1).unwrap_err(), RegistryError::SessionNotFound);
}

#[test]
fn set_on_unknown_session_fails() {
    let mut m = ClientManager::new();
    let r = m.set_client_property(9, ClientStateChange::SendMute(true));
    assert_eq!(r.unwrap_err(), RegistryError::SessionNotFound);
}

#[test]
fn add_and_remove_are_not_settable_properties() {
    let mut m = fresh_with_session(1);
    let r = m.set_client_property(1, ClientStateChange::Add);
    assert_eq!(r.unwrap_err(), RegistryError::UnsupportedOperation);
    let r = m.set_client_property(1, ClientStateChange::Remove(ClientState::empty()));
    assert_eq!(r.unwrap_err(), RegistryError::UnsupportedOperation);
}

#[test]
fn set_emits_exactly_on_equal_value() {
    // the single-field path's preserved polarity: a fresh value is
    // silent, a repeated identical value emits
    let mut m = fresh_with_session(1);
    let s = m.subscribe();
    m.set_client_property(1, ClientStateChange::SendMute(true)).unwrap();
    assert!(m.take_events(s).is_empty());
    m.set_client_property(1, ClientStateChange::SendMute(true)).unwrap();
    let evs = m.take_events(s);
    assert_eq!(evs.len(), 1);
    assert!(matches!(evs[0].1, ClientStateChange::SendMute(true)));
    // a different value again: silent
    m.set_client_property(1, ClientStateChange::SendMute(false)).unwrap();
    assert!(m.take_events(s).is_empty());
}

#[test]
fn merge_emits_one_event_per_changed_field_only() {
    let mut m = fresh_with_session(7);
    let s = m.subscribe();
    m.set_client_property(7, ClientStateChange::SendMute(true)).unwrap();
    let _ = m.take_events(s);
    let mut p = ClientState::empty();
    p.send_mute = Some(true); // equals the stored value: no event
    p.recv_mute = Some(false); // fresh value: one event
    m.update_client(7, p).unwrap();
    let evs = m.take_events(s);
    assert_eq!(evs.len(), 1);
    assert_eq!(evs[0].0, 7);
    assert!(matches!(evs[0].1, ClientStateChange::RecvMute(false)));
}

#[test]
fn merge_twice_emits_only_the_first_time() {
    let mut m = fresh_with_session(7);
    let s = m.subscribe();
    let mut p = ClientState::empty();
    p.client_name = Some(String::from("kitchen"));
    p.recv_audio_port = Some(5000);
    p.send_mute = Some(true);
    m.update_client(7, p).unwrap();
    let first = m.take_events(s);
    assert_eq!(first.len(), 3);
    let mut p2 = ClientState::empty();
    p2.client_name = Some(String::from("kitchen"));
    p2.recv_audio_port = Some(5000);
    p2.send_mute = Some(true);
    m.update_client(7, p2).unwrap();
    assert!(m.take_events(s).is_empty());
}

#[test]
fn merge_keeps_fields_the_payload_leaves_unset() {
    let mut m = fresh_with_session(7);
    m.set_client_property(7, ClientStateChange::DisplayName(String::from("Kitchen Pi")))
        .unwrap();
    let mut p = ClientState::empty();
    p.send_mute = Some(true);
    m.update_client(7, p).unwrap();
    let st = m.get_client(7).unwrap();
    assert_eq!(st.display_name.as_deref(), Some("Kitchen Pi"));
    assert_eq!(st.send_mute, Some(true));
}

#[test]
fn merge_events_follow_field_order() {
    let mut m = fresh_with_session(7);
    let s = m.subscribe();
    let mut p = ClientState::empty();
    p.client_name = Some(String::from("a"));
    p.battery_level = Some(500);
    p.send_audio = Some(true);
    m.update_client(7, p).unwrap();
    let evs = m.take_events(s);
    assert_eq!(evs.len(), 3);
    assert!(matches!(evs[0].1, ClientStateChange::ClientName(_)));
    assert!(matches!(evs[1].1, ClientStateChange::BatteryLevel(500)));
    assert!(matches!(evs[2].1, ClientStateChange::SendAudio(true)));
}

#[test]
fn every_subscriber_sees_every_event() {
    let mut m = ClientManager::new();
    let a = m.subscribe();
    let b = m.subscribe();
    m.new_client(1);
    // the repeated identical write is what the field-set path emits on
    m.set_client_property(1, ClientStateChange::RecvMute(true)).unwrap();
    m.set_client_property(1, ClientStateChange::RecvMute(true)).unwrap();
    m.rm_client(1);
    let evs_a = m.take_events(a);
    let evs_b = m.take_events(b);
    assert_eq!(evs_a.len(), 3);
    assert_eq!(evs_b.len(), 3);
    assert!(matches!(evs_a[0].1, ClientStateChange::Add));
    assert!(matches!(evs_b[0].1, ClientStateChange::Add));
    assert!(matches!(evs_a[1].1, ClientStateChange::RecvMute(true)));
    assert!(matches!(evs_b[1].1, ClientStateChange::RecvMute(true)));
    assert!(matches!(evs_a[2].1, ClientStateChange::Remove(_)));
    assert!(matches!(evs_b[2].1, ClientStateChange::Remove(_)));
}

#[test]
fn removal_event_carries_the_final_snapshot() {
    let mut m = fresh_with_session(1);
    let s = m.subscribe();
    m.set_client_property(1, ClientStateChange::ClientName(String::from("attic")))
        .unwrap();
    let _ = m.take_events(s);
    m.rm_client(1);
    let evs = m.take_events(s);
    assert_eq!(evs.len(), 1);
    match &evs[0].1 {
        ClientStateChange::Remove(st) => {
            assert_eq!(st.client_name.as_deref(), Some("attic"));
        }
        other => panic!("expected a removal event, got {:?}", other),
    }
}

#[test]
fn disconnect_of_unknown_session_is_a_silent_no_op() {
    let mut m = ClientManager::new();
    let s = m.subscribe();
    m.rm_client(42);
    assert!(m.take_events(s).is_empty());
}

#[test]
fn find_session_by_name_returns_first_match() {
    let mut m = ClientManager::new();
    m.new_client(1);
    m.new_client(2);
    m.set_client_property(2, ClientStateChange::ClientName(String::from("kitchen")))
        .unwrap();
    assert_eq!(m.get_session_id("kitchen"), Some(2));
    assert_eq!(m.get_session_id("attic"), None);
    // the first connected session of that name wins
    m.set_client_property(1, ClientStateChange::ClientName(String::from("kitchen")))
        .unwrap();
    assert_eq!(m.get_session_id("kitchen"), Some(1));
}

#[test]
fn all_states_reflects_connected_sessions() {
    let mut m = ClientManager::new();
    m.new_client(1);
    m.new_client(2);
    assert_eq!(m.get_all_clients().len(), 2);
    m.rm_client(1);
    assert_eq!(m.get_all_clients().len(), 1);
}

#[test]
fn identifier_reuse_starts_from_scratch() {
    let mut m = fresh_with_session(1);
    m.set_client_property(1, ClientStateChange::ClientName(String::from("kitchen")))
        .unwrap();
    m.rm_client(1);
    m.new_client(1);
    let st = m.get_client(1).unwrap();
    assert!(st.client_name.is_none());
}
