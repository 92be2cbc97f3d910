use gecko_audio_ctrl::confsync::ConfigApplyOutcome;
use gecko_audio_ctrl::confsync::PersistAction;
use gecko_audio_ctrl::confsync::apply_config_state;
use gecko_audio_ctrl::confsync::config_file_name;
use gecko_audio_ctrl::confsync::has_json_ext;
use gecko_audio_ctrl::confsync::persist_decision;
use gecko_audio_ctrl::frame::FrameResult;
use gecko_audio_ctrl::frame::frame_document;
use gecko_audio_ctrl::json::encode_client_message;
use gecko_audio_ctrl::json::encode_server_message;
use gecko_audio_ctrl::messages::AudioStream;
use gecko_audio_ctrl::messages::BatLogInterval;
use gecko_audio_ctrl::messages::BatteryLevel;
use gecko_audio_ctrl::messages::DisplayName;
use gecko_audio_ctrl::messages::Hello;
use gecko_audio_ctrl::messages::MessageToServer;
use gecko_audio_ctrl::messages::MessagesFromServer;
use gecko_audio_ctrl::messages::MuteAudio;
use gecko_audio_ctrl::messages::TransmitAudio;
use gecko_audio_ctrl::parse::decode_config;
use gecko_audio_ctrl::parse::decode_message;
use gecko_audio_ctrl::protocol::BroadcastAction;
use gecko_audio_ctrl::protocol::broadcast_decision;
use gecko_audio_ctrl::protocol::handle_client_message_received;
use gecko_audio_ctrl::registry::ClientManager;
use gecko_audio_ctrl::state::ClientState;
use gecko_audio_ctrl::state::ClientStateChange;

#[test]
fn decode_accepts_each_canonical_message() {
    let cases = vec![
        r#"{"type":"Hello","client_name":"kitchen"}"#,
        r#"{"type":"Ping"}"#,
        r#"{"type":"BatteryLevel","level":0.85,"is_charging":false}"#,
        r#"{"type":"LogMsg","message":"boot done"}"#,
        r#"{"type":"DisplayName","display_name":"Kitchen Pi"}"#,
        r#"{"type":"AudioStream","recv_audio_port":5000,"recv_repair_port":5001,"send_audio_port":6000,"send_repair_port":6001}"#,
        r#"{"type":"MuteAudio","send_mute":true,"recv_mute":false}"#,
        r#"{"type":"TransmitAudio","send_audio":false,"recv_audio":true}"#,
    ];
    for text in cases {
        let m = decode_message(text).unwrap();
        assert_eq!(encode_client_message(&m), text);
    }
}

#[test]
fn decode_battery_level_in_thousandths() {
    let m = decode_message(r#"{"type":"BatteryLevel","level":0.85,"is_charging":false}"#)
        .unwrap();
    match m {
        MessageToServer::BatteryLevel(b) => {
            assert_eq!(b.level, 850);
            assert!(!b.is_charging);
        }
        other => panic!("wrong message: {:?}", other),
    }
    let m = decode_message(r#"{"type":"BatteryLevel","level":1.0,"is_charging":true}"#).unwrap();
    match m {
        MessageToServer::BatteryLevel(b) => assert_eq!(b.level, 1000),
        other => panic!("wrong message: {:?}", other),
    }
}

#[test]
fn decode_rejects_malformed_documents() {
    assert!(decode_message("").is_err());
    assert!(decode_message("{").is_err());
    assert!(decode_message(r#"{"type":"Hello"}"#).is_err());
    assert!(decode_message(r#"{"type":"Nonsense","x":1}"#).is_err());
    assert!(decode_message(r#"{"type":"AudioStream","recv_audio_port":99999,"recv_repair_port":1,"send_audio_port":1,"send_repair_port":1}"#).is_err());
}

#[test]
fn decode_round_trips_every_inbound_shape() {
    let msgs = vec![
        MessageToServer::Hello(Hello { client_name: String::from("attic") }),
        MessageToServer::Ping,
        MessageToServer::BatteryLevel(BatteryLevel { level: 2, is_charging: true }),
        MessageToServer::LogMsg(log_message()),
        MessageToServer::DisplayName(DisplayName { display_name: String::from("Attic Pi") }),
        MessageToServer::AudioStream(AudioStream {
            recv_audio_port: 1,
            recv_repair_port: 65535,
            send_audio_port: 0,
            send_repair_port: 7,
        }),
        MessageToServer::MuteAudio(MuteAudio { send_mute: false, recv_mute: false }),
        MessageToServer::TransmitAudio(TransmitAudio { send_audio: true, recv_audio: true }),
    ];
    for m in msgs {
        let text = encode_client_message(&m);
        assert_eq!(decode_message(&text).unwrap(), m);
    }
}

fn log_message() -> gecko_audio_ctrl::messages::LogMsg {
    gecko_audio_ctrl::messages::LogMsg { message: String::from("hi there") }
}

#[test]
fn outbound_messages_render_canonically() {
    let m = MessagesFromServer::MuteAudio(MuteAudio { send_mute: true, recv_mute: false });
    assert_eq!(
        encode_server_message(&m),
        r#"{"type":"MuteAudio","send_mute":true,"recv_mute":false}"#
    );
    let m = MessagesFromServer::BatLogInterval(BatLogInterval {
        battery_log_interval_secs: None,
    });
    assert_eq!(
        encode_server_message(&m),
        r#"{"type":"BatLogInterval","battery_log_interval_secs":null}"#
    );
    let m = MessagesFromServer::BatLogInterval(BatLogInterval {
        battery_log_interval_secs: Some(30),
    });
    assert_eq!(
        encode_server_message(&m),
        r#"{"type":"BatLogInterval","battery_log_interval_secs":30}"#
    );
    let m = MessagesFromServer::DisplayName(DisplayName {
        display_name: String::from("Kitchen Pi"),
    });
    assert_eq!(
        encode_server_message(&m),
        r#"{"type":"DisplayName","display_name":"Kitchen Pi"}"#
    );
}

#[test]
fn audio_stream_is_sent_only_once_all_four_ports_are_known() {
    // set the four ports in several orders; the composite fires only on
    // the write that completes the set
    let orders: Vec<Vec<ClientStateChange>> = vec![
        vec![
            ClientStateChange::RecvAudioPort(5000),
            ClientStateChange::RecvRepairPort(5001),
            ClientStateChange::SendAudioPort(6000),
            ClientStateChange::SendRepairPort(6001),
        ],
        vec![
            ClientStateChange::SendRepairPort(6001),
            ClientStateChange::SendAudioPort(6000),
            ClientStateChange::RecvRepairPort(5001),
            ClientStateChange::RecvAudioPort(5000),
        ],
        vec![
            ClientStateChange::SendAudioPort(6000),
            ClientStateChange::RecvAudioPort(5000),
            ClientStateChange::SendRepairPort(6001),
            ClientStateChange::RecvRepairPort(5001),
        ],
    ];
    for order in orders {
        let mut m = ClientManager::new();
        m.new_client(1);
        let s = m.subscribe();
        let mut sent: u32 = 0;
        for change in order {
            // the field-set path emits on a repeated identical write, so
            // each port is reported twice, as a re-reporting client would
            m.set_client_property(1, change.duplicate()).unwrap();
            m.set_client_property(1, change).unwrap();
            for (id, ev) in m.take_events(s) {
                let st = m.get_client(id).ok();
                match broadcast_decision(&ev, st.as_ref()) {
                    BroadcastAction::SendMessage(MessagesFromServer::AudioStream(a)) => {
                        sent += 1;
                        assert_eq!(
                            (a.recv_audio_port, a.recv_repair_port, a.send_audio_port,
                             a.send_repair_port),
                            (5000, 5001, 6000, 6001)
                        );
                    }
                    BroadcastAction::SendMessage(other) => {
                        panic!("unexpected outbound message {:?}", other)
                    }
                    _ => {}
                }
            }
        }
        assert_eq!(sent, 1);
    }
}

#[test]
fn mute_composite_waits_for_both_flags() {
    let mut m = ClientManager::new();
    m.new_client(1);
    let s = m.subscribe();
    m.set_client_property(1, ClientStateChange::SendMute(true)).unwrap();
    m.set_client_property(1, ClientStateChange::SendMute(true)).unwrap();
    let evs = m.take_events(s);
    let st = m.get_client(1).unwrap();
    assert!(matches!(
        broadcast_decision(&evs[0].1, Some(&st)),
        BroadcastAction::Nothing
    ));
    m.set_client_property(1, ClientStateChange::RecvMute(false)).unwrap();
    m.set_client_property(1, ClientStateChange::RecvMute(false)).unwrap();
    let evs = m.take_events(s);
    let st = m.get_client(1).unwrap();
    match broadcast_decision(&evs[0].1, Some(&st)) {
        BroadcastAction::SendMessage(MessagesFromServer::MuteAudio(mm)) => {
            assert!(mm.send_mute);
            assert!(!mm.recv_mute);
        }
        other => panic!("expected a mute message, got {:?}", other),
    }
}

#[test]
fn removal_event_closes_the_outbound_stream() {
    let ev = ClientStateChange::Remove(ClientState::empty());
    assert!(matches!(
        broadcast_decision(&ev, None),
        BroadcastAction::CloseStream
    ));
}

#[test]
fn lifecycle_events_never_touch_config_files() {
    let mut m = ClientManager::new();
    m.new_client(1);
    let r = persist_decision(&mut m, 1, &ClientStateChange::Add);
    assert!(matches!(r, PersistAction::Nothing));
    let r = persist_decision(&mut m, 1, &ClientStateChange::Remove(ClientState::empty()));
    assert!(matches!(r, PersistAction::Nothing));
}

#[test]
fn persist_needs_the_current_identity_name() {
    let mut m = ClientManager::new();
    m.new_client(1);
    // no name yet: a field change is not persisted
    m.set_client_property(1, ClientStateChange::SendMute(true)).unwrap();
    let r = persist_decision(&mut m, 1, &ClientStateChange::SendMute(true));
    assert!(matches!(r, PersistAction::Nothing));
    // with a name, the write goes to that client's file
    m.set_client_property(1, ClientStateChange::ClientName(String::from("kitchen")))
        .unwrap();
    let r = persist_decision(&mut m, 1, &ClientStateChange::SendMute(true));
    match r {
        PersistAction::WriteConfig(path, _content) => assert_eq!(path, "kitchen.json"),
        other => panic!("expected a write, got {:?}", other),
    }
}

#[test]
fn identifying_client_loads_its_own_file() {
    let mut m = ClientManager::new();
    m.new_client(1);
    let r = persist_decision(&mut m, 1, &ClientStateChange::ClientName(String::from("kitchen")));
    match r {
        PersistAction::LoadConfig(path) => assert_eq!(path, "kitchen.json"),
        other => panic!("expected a load, got {:?}", other),
    }
}

#[test]
fn hello_then_audio_stream_persists_the_expected_file() {
    let mut m = ClientManager::new();
    m.new_client(1);
    let s = m.subscribe();
    // a client reports its state periodically; the field-set path's
    // preserved polarity emits on the repeated identical report
    for _ in 0..2 {
        let msg = decode_message(r#"{"type":"Hello","client_name":"kitchen"}"#).unwrap();
        handle_client_message_received(1, &mut m, msg).unwrap();
        let msg = decode_message(
            r#"{"type":"AudioStream","recv_audio_port":5000,"recv_repair_port":5001,"send_audio_port":6000,"send_repair_port":6001}"#,
        )
        .unwrap();
        handle_client_message_received(1, &mut m, msg).unwrap();
    }
    let mut written: Option<(String, String)> = None;
    for (id, ev) in m.take_events(s) {
        if let PersistAction::WriteConfig(path, content) = persist_decision(&mut m, id, &ev) {
            written = Some((path, content));
        }
    }
    let (path, content) = written.expect("a field change must persist the state");
    assert_eq!(path, "kitchen.json");
    let expected = "{\n  \"client_name\": \"kitchen\",\n  \"recv_audio_port\": 5000,\n  \"recv_repair_port\": 5001,\n  \"send_audio_port\": 6000,\n  \"send_repair_port\": 6001\n}";
    assert_eq!(content, expected);
}

#[test]
fn prepopulated_config_reaches_the_session_after_hello() {
    let file_text = r#"{"client_name":"kitchen","send_mute":true}"#;
    let mut m = ClientManager::new();
    m.new_client(1);
    let msg = decode_message(r#"{"type":"Hello","client_name":"kitchen"}"#).unwrap();
    handle_client_message_received(1, &mut m, msg).unwrap();
    // the ClientName event tells the engine to load kitchen.json; the
    // loaded text is parsed and merged back by name
    let parsed = decode_config(file_text).expect("the file parses");
    let outcome = apply_config_state(&mut m, parsed);
    assert_eq!(outcome, ConfigApplyOutcome::Merged(1));
    let st = m.get_client(1).unwrap();
    assert_eq!(st.send_mute, Some(true));
}

#[test]
fn config_for_an_offline_client_is_dropped() {
    let mut m = ClientManager::new();
    m.new_client(1);
    let parsed = decode_config(r#"{"client_name":"attic"}"#).unwrap();
    assert_eq!(apply_config_state(&mut m, parsed), ConfigApplyOutcome::NotConnected);
    let parsed = decode_config(r#"{}"#).unwrap();
    assert_eq!(apply_config_state(&mut m, parsed), ConfigApplyOutcome::NoName);
}

#[test]
fn config_parser_accepts_pretty_and_compact_forms() {
    let pretty = "{\n  \"client_name\": \"kitchen\",\n  \"send_mute\": true\n}";
    let compact = r#"{"client_name":"kitchen","send_mute":true}"#;
    let a = decode_config(pretty).unwrap();
    let b = decode_config(compact).unwrap();
    assert_eq!(a.client_name.as_deref(), Some("kitchen"));
    assert_eq!(a.send_mute, Some(true));
    assert_eq!(b.client_name.as_deref(), Some("kitchen"));
    assert_eq!(b.send_mute, Some(true));
    assert!(decode_config("not json at all").is_none());
    assert!(decode_config(r#"{"client_name":}"#).is_none());
}

#[test]
fn config_round_trips_through_file_text() {
    let mut m = ClientManager::new();
    m.new_client(1);
    m.set_client_property(1, ClientStateChange::ClientName(String::from("kitchen")))
        .unwrap();
    m.set_client_property(1, ClientStateChange::BatteryLevel(750)).unwrap();
    m.set_client_property(1, ClientStateChange::BatteryLogIntervalSecs(Some(30)))
        .unwrap();
    let r = persist_decision(&mut m, 1, &ClientStateChange::BatteryLevel(750));
    let content = match r {
        PersistAction::WriteConfig(_, c) => c,
        other => panic!("expected a write, got {:?}", other),
    };
    let parsed = decode_config(&content).expect("our own file parses back");
    assert_eq!(parsed.client_name.as_deref(), Some("kitchen"));
    assert_eq!(parsed.battery_level, Some(750));
    assert_eq!(parsed.battery_log_interval_secs, Some(30));
}

#[test]
fn malformed_stream_closes_the_session() {
    let mut m = ClientManager::new();
    m.new_client(1);
    assert_eq!(m.get_all_clients().len(), 1);
    // mid-stream garbage: the decode fails and the reader loop
    // deregisters the session, exactly once
    let r = decode_message(r#"{"type":"Hello","client_name": zap}"#);
    assert!(r.is_err());
    m.rm_client(1);
    assert_eq!(m.get_all_clients().len(), 0);
}

#[test]
fn framer_splits_concatenated_documents() {
    let two = r#"{"type":"Ping"}{"type":"MuteAudio","send_mute":true,"recv_mute":false}"#;
    match frame_document(two) {
        FrameResult::Complete(a, b) => {
            assert_eq!(&two[a..b], r#"{"type":"Ping"}"#);
            let rest = &two[b..];
            match frame_document(rest) {
                FrameResult::Complete(c, d) => {
                    assert_eq!(
                        &rest[c..d],
                        r#"{"type":"MuteAudio","send_mute":true,"recv_mute":false}"#
                    );
                }
                other => panic!("second document not framed: {:?}", other),
            }
        }
        other => panic!("first document not framed: {:?}", other),
    }
}

#[test]
fn framer_waits_ignores_whitespace_and_rejects_garbage() {
    assert!(matches!(frame_document(r#"{"type":"Pi"#), FrameResult::NeedMore));
    assert!(matches!(frame_document("  \n"), FrameResult::NeedMore));
    match frame_document("  {\"a\":\"}\"}") {
        // a brace inside a string must not end the document
        FrameResult::Complete(a, b) => {
            assert_eq!(a, 2);
            assert_eq!(b, 11);
        }
        other => panic!("expected a complete document, got {:?}", other),
    }
    assert!(matches!(frame_document("x{}"), FrameResult::Malformed));
}

#[test]
fn json_extension_filter() {
    assert!(has_json_ext("kitchen.json"));
    assert!(has_json_ext("./client_config/attic.json"));
    assert!(!has_json_ext("kitchen.json.swp"));
    assert!(!has_json_ext("kitchen"));
    assert!(!has_json_ext(".json.bak"));
    // a leading-dot name is all extension and no stem
    assert!(!has_json_ext(".json"));
    assert!(!has_json_ext("./client_config/.json"));
    assert_eq!(config_file_name("kitchen"), "kitchen.json");
}

#[test]
fn decoder_accepts_whitespace_but_one_numeric_spelling() {
    // whitespace outside strings is tolerated
    let m = decode_message("{ \"type\": \"Ping\" }").unwrap();
    assert_eq!(m, MessageToServer::Ping);
    let m = decode_message("{\n  \"type\": \"Hello\",\n  \"client_name\": \"a b\"\n}")
        .unwrap();
    match m {
        MessageToServer::Hello(h) => assert_eq!(h.client_name, "a b"),
        other => panic!("wrong message: {:?}", other),
    }
    // numbers have one canonical spelling: no trailing fraction zeros, no
    // leading integer zeros
    assert!(decode_message(r#"{"type":"BatteryLevel","level":0.850,"is_charging":false}"#)
        .is_err());
    assert!(decode_message(r#"{"type":"AudioStream","recv_audio_port":01,"recv_repair_port":1,"send_audio_port":1,"send_repair_port":1}"#).is_err());
}

#[test]
fn interval_change_is_always_broadcast() {
    let mut m = ClientManager::new();
    m.new_client(1);
    let s = m.subscribe();
    m.set_client_property(1, ClientStateChange::BatteryLogIntervalSecs(Some(30)))
        .unwrap();
    m.set_client_property(1, ClientStateChange::BatteryLogIntervalSecs(Some(30)))
        .unwrap();
    let evs = m.take_events(s);
    let st = m.get_client(1).unwrap();
    match broadcast_decision(&evs[0].1, Some(&st)) {
        BroadcastAction::SendMessage(MessagesFromServer::BatLogInterval(b)) => {
            assert_eq!(b.battery_log_interval_secs, Some(30));
        }
        other => panic!("expected an interval message, got {:?}", other),
    }
}

#[test]
fn merge_on_unknown_session_fails() {
    let mut m = ClientManager::new();
    let r = m.update_client(5, ClientState::empty());
    assert!(r.is_err());
}

#[test]
fn persist_escapes_awkward_names() {
    let mut m = ClientManager::new();
    m.new_client(1);
    m.set_client_property(1, ClientStateChange::ClientName(String::from("a\"b")))
        .unwrap();
    let r = persist_decision(&mut m, 1, &ClientStateChange::SendMute(true));
    match r {
        PersistAction::WriteConfig(path, content) => {
            assert_eq!(path, "a\"b.json");
            assert_eq!(content, "{\n  \"client_name\": \"a\\\"b\"\n}");
        }
        other => panic!("expected a write, got {:?}", other),
    }
}
