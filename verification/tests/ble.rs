use memo_node::audio::ble::{
    advertises_service, audio_bundle, control_uuids, control_uuids_from, control_value, link_step,
    locate_characteristics, parse_control_uuids, Characteristics, ConnectedDevices, ControlEffect, ControlTracker,
    ControlUuids, LinkAction, LinkError, LinkEvent, LinkState, CMD_END_RECORDING,
    CMD_START_RECORDING, RESP_SPEECH_END, RESP_SPEECH_START, SCAN_INTERVAL_SECS,
};

#[test]
fn the_control_protocol_has_its_values() {
    assert_eq!(RESP_SPEECH_START, 0x01);
    assert_eq!(RESP_SPEECH_END, 0x02);
    assert_eq!(CMD_START_RECORDING, 10);
    assert_eq!(CMD_END_RECORDING, 12);
    assert_eq!(SCAN_INTERVAL_SECS, 2);
}

#[test]
fn speech_start_raises_and_speech_end_lowers_the_flag() {
    let mut tracker = ControlTracker::new();
    assert_eq!(tracker.on_value(0x01, false), ControlEffect::Acted { is_recording: true });
    assert_eq!(tracker.on_value(0x02, true), ControlEffect::Acted { is_recording: false });
    assert_eq!(tracker.on_value(0x01, false), ControlEffect::Acted { is_recording: true });
}

#[test]
fn a_repeated_control_value_is_suppressed() {
    let mut tracker = ControlTracker::new();
    assert_eq!(tracker.on_value(0x02, true), ControlEffect::Acted { is_recording: false });
    assert_eq!(tracker.on_value(0x02, false), ControlEffect::Suppressed);
    assert_eq!(tracker.on_value(0x02, true), ControlEffect::Suppressed);
    assert_eq!(tracker.on_value(0x01, false), ControlEffect::Acted { is_recording: true });
    assert_eq!(tracker.on_value(0x01, true), ControlEffect::Suppressed);
}

#[test]
fn other_control_values_leave_the_flag_but_are_remembered() {
    let mut tracker = ControlTracker::new();
    assert_eq!(tracker.on_value(0x7F, true), ControlEffect::Acted { is_recording: true });
    assert_eq!(tracker.on_value(0x7F, true), ControlEffect::Suppressed);
    assert_eq!(tracker.on_value(0x00, false), ControlEffect::Acted { is_recording: false });
    assert_eq!(tracker.on_value(0x7F, false), ControlEffect::Acted { is_recording: false });
}

#[test]
fn no_two_neighbouring_acted_values_are_equal() {
    let trace = [1u8, 1, 2, 2, 2, 1, 3, 3, 1, 1, 2];
    let mut tracker = ControlTracker::new();
    let mut acted = Vec::new();
    let mut flag = true;
    for value in trace {
        if let ControlEffect::Acted { is_recording } = tracker.on_value(value, flag) {
            flag = is_recording;
            acted.push(value);
        }
    }
    assert_eq!(acted, vec![1, 2, 1, 3, 1, 2]);
    for pair in acted.windows(2) {
        assert_ne!(pair[0], pair[1]);
    }
    assert!(!flag);
}

#[test]
fn the_control_value_is_the_first_byte_of_a_control_notification() {
    assert_eq!(control_value(7, 7, &[0x02, 0xFF]), Some(0x02));
    assert_eq!(control_value(7, 7, &[]), None);
    assert_eq!(control_value(8, 7, &[0x02]), None);
}

#[test]
fn audio_notifications_are_passed_on_as_they_are() {
    assert_eq!(audio_bundle(5, 5, vec![0, 1, 2]), Some(vec![0, 1, 2]));
    assert_eq!(audio_bundle(5, 5, Vec::new()), Some(Vec::new()));
    assert_eq!(audio_bundle(6, 5, vec![0, 1, 2]), None);
}

#[test]
fn the_control_characteristics_are_read_from_their_text() {
    assert_eq!(
        control_uuids(),
        Ok(ControlUuids {
            tx: 0x1234A003_1234_5678_1234_56789ABCDEF0,
            rx: 0x1234A002_1234_5678_1234_56789ABCDEF0,
        })
    );
}

#[test]
fn characteristics_are_found_by_their_uuid() {
    let control = ControlUuids { tx: 3, rx: 2 };
    assert_eq!(
        locate_characteristics(&vec![9, 1, 3], 1, control),
        Characteristics { audio: true, control_tx: true, control_rx: false }
    );
    assert_eq!(
        locate_characteristics(&vec![2], 1, control),
        Characteristics { audio: false, control_tx: false, control_rx: true }
    );
    assert_eq!(
        locate_characteristics(&Vec::new(), 1, control),
        Characteristics { audio: false, control_tx: false, control_rx: false }
    );
    assert!(advertises_service(&vec![4, 5], 5));
    assert!(!advertises_service(&vec![4, 5], 6));
}

fn run(events: &[LinkEvent]) -> (LinkState, Vec<LinkAction>) {
    let mut state = LinkState::Disconnected;
    let mut actions = Vec::new();
    for event in events {
        let (next, action) = link_step(state, *event);
        state = next;
        actions.push(action);
    }
    (state, actions)
}

const ALL: Characteristics = Characteristics { audio: true, control_tx: true, control_rx: true };

#[test]
fn a_new_device_is_set_up_step_by_step() {
    let (state, actions) = run(&[
        LinkEvent::Sighted { advertises_service: true, known: false },
        LinkEvent::LinkQueried { ok: true, link_up: false },
        LinkEvent::ConnectFinished { ok: true },
        LinkEvent::DiscoveryFinished { ok: true, found: ALL },
        LinkEvent::AudioSubscribeFinished { ok: true },
        LinkEvent::ControlSubscribeFinished { ok: true },
        LinkEvent::StartCommandFinished { ok: true },
    ]);
    assert_eq!(state, LinkState::Streaming);
    assert_eq!(
        actions,
        vec![
            LinkAction::QueryLink,
            LinkAction::Connect,
            LinkAction::DiscoverServices,
            LinkAction::SubscribeAudio,
            LinkAction::SubscribeControl,
            LinkAction::SendStartRecording,
            LinkAction::MarkConnected { raise_flag: true },
        ]
    );
}

#[test]
fn a_device_that_is_linked_already_is_not_connected_again() {
    let (state, actions) = run(&[
        LinkEvent::Sighted { advertises_service: true, known: false },
        LinkEvent::LinkQueried { ok: true, link_up: true },
    ]);
    assert_eq!(state, LinkState::ServiceDiscovery);
    assert_eq!(actions, vec![LinkAction::QueryLink, LinkAction::DiscoverServices]);
}

#[test]
fn a_device_without_the_service_or_already_set_up_is_passed_over() {
    for event in [
        LinkEvent::Sighted { advertises_service: false, known: false },
        LinkEvent::Sighted { advertises_service: true, known: true },
        LinkEvent::Sighted { advertises_service: false, known: true },
    ] {
        assert_eq!(run(&[event]), (LinkState::Disconnected, vec![LinkAction::Nothing]));
    }
    assert_eq!(
        run(&[LinkEvent::SightedWithoutProperties]),
        (LinkState::Disconnected, vec![LinkAction::Abandon(LinkError::NoProperties)])
    );
}

#[test]
fn a_device_without_control_characteristics_streams_all_the_same() {
    let audio_only = Characteristics { audio: true, control_tx: false, control_rx: false };
    let (state, actions) = run(&[
        LinkEvent::Sighted { advertises_service: true, known: false },
        LinkEvent::LinkQueried { ok: true, link_up: true },
        LinkEvent::DiscoveryFinished { ok: true, found: audio_only },
        LinkEvent::AudioSubscribeFinished { ok: true },
    ]);
    assert_eq!(state, LinkState::Streaming);
    assert_eq!(actions[3], LinkAction::MarkConnected { raise_flag: false });
}

#[test]
fn a_failed_start_command_leaves_the_flag_alone() {
    let rx_only = Characteristics { audio: true, control_tx: false, control_rx: true };
    let (state, actions) = run(&[
        LinkEvent::Sighted { advertises_service: true, known: false },
        LinkEvent::LinkQueried { ok: true, link_up: true },
        LinkEvent::DiscoveryFinished { ok: true, found: rx_only },
        LinkEvent::AudioSubscribeFinished { ok: true },
        LinkEvent::StartCommandFinished { ok: false },
    ]);
    assert_eq!(state, LinkState::Streaming);
    assert_eq!(actions[3], LinkAction::SendStartRecording);
    assert_eq!(actions[4], LinkAction::MarkConnected { raise_flag: false });
}

#[test]
fn every_failure_abandons_the_device() {
    let sighted = LinkEvent::Sighted { advertises_service: true, known: false };
    let queried = LinkEvent::LinkQueried { ok: true, link_up: false };
    let cases: Vec<(Vec<LinkEvent>, LinkError)> = vec![
        (
            vec![sighted, LinkEvent::LinkQueried { ok: false, link_up: false }],
            LinkError::LinkQueryFailed,
        ),
        (vec![sighted, queried, LinkEvent::ConnectFinished { ok: false }], LinkError::ConnectFailed),
        (
            vec![
                sighted,
                queried,
                LinkEvent::ConnectFinished { ok: true },
                LinkEvent::DiscoveryFinished { ok: false, found: ALL },
            ],
            LinkError::DiscoveryFailed,
        ),
        (
            vec![
                sighted,
                queried,
                LinkEvent::ConnectFinished { ok: true },
                LinkEvent::DiscoveryFinished {
                    ok: true,
                    found: Characteristics { audio: false, control_tx: true, control_rx: true },
                },
            ],
            LinkError::AudioCharacteristicNotFound,
        ),
        (
            vec![
                sighted,
                queried,
                LinkEvent::ConnectFinished { ok: true },
                LinkEvent::DiscoveryFinished { ok: true, found: ALL },
                LinkEvent::AudioSubscribeFinished { ok: false },
            ],
            LinkError::AudioSubscribeFailed,
        ),
        (
            vec![
                sighted,
                queried,
                LinkEvent::ConnectFinished { ok: true },
                LinkEvent::DiscoveryFinished { ok: true, found: ALL },
                LinkEvent::AudioSubscribeFinished { ok: true },
                LinkEvent::ControlSubscribeFinished { ok: false },
            ],
            LinkError::ControlSubscribeFailed,
        ),
    ];
    for (events, error) in cases {
        let (state, actions) = run(&events);
        assert_eq!(state, LinkState::Disconnected);
        assert_eq!(*actions.last().unwrap(), LinkAction::Abandon(error));
    }
}

#[test]
fn a_stream_that_ends_makes_the_device_new_again() {
    let (state, action) = link_step(LinkState::Streaming, LinkEvent::StreamEnded);
    assert_eq!(state, LinkState::Disconnected);
    assert_eq!(action, LinkAction::Forget);
}

#[test]
fn a_report_that_does_not_fit_the_state_changes_nothing() {
    assert_eq!(
        link_step(LinkState::Connecting, LinkEvent::StreamEnded),
        (LinkState::Connecting, LinkAction::Nothing)
    );
    assert_eq!(
        link_step(LinkState::Streaming, LinkEvent::ConnectFinished { ok: true }),
        (LinkState::Streaming, LinkAction::Nothing)
    );
    assert_eq!(
        link_step(LinkState::Streaming, LinkEvent::Sighted { advertises_service: true, known: true }),
        (LinkState::Streaming, LinkAction::Nothing)
    );
}

#[test]
fn devices_are_remembered_by_name() {
    let mut devices = ConnectedDevices::new();
    assert!(!devices.contains("memo"));
    devices.insert("memo".to_string());
    devices.insert("memo".to_string());
    devices.insert(String::new());
    assert!(devices.contains("memo"));
    assert!(devices.contains(""));
    assert!(!devices.contains("other"));
    devices.remove("memo");
    assert!(!devices.contains("memo"));
    assert!(devices.contains(""));
    devices.remove("memo");
    devices.remove("never");
    assert!(devices.contains(""));
}

#[test]
fn a_control_uuid_that_is_no_uuid_is_named() {
    let good = "1234A003-1234-5678-1234-56789ABCDEF0";
    assert_eq!(parse_control_uuids("nonsense", good), Err(LinkError::BadControlTxUuid));
    assert_eq!(parse_control_uuids("", ""), Err(LinkError::BadControlTxUuid));
    assert_eq!(parse_control_uuids(good, "1234A003"), Err(LinkError::BadControlRxUuid));
    assert_eq!(
        parse_control_uuids(good, "00000000-0000-0000-0000-000000000001"),
        Ok(ControlUuids { tx: 0x1234A003_1234_5678_1234_56789ABCDEF0, rx: 1 })
    );
}

#[test]
fn the_readings_of_the_control_uuids_are_put_together() {
    assert_eq!(control_uuids_from(Some(3), Some(2)), Ok(ControlUuids { tx: 3, rx: 2 }));
    assert_eq!(control_uuids_from(None, Some(2)), Err(LinkError::BadControlTxUuid));
    assert_eq!(control_uuids_from(Some(3), None), Err(LinkError::BadControlRxUuid));
    assert_eq!(control_uuids_from(None, None), Err(LinkError::BadControlTxUuid));
}
