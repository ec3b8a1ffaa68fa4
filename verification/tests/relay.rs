use telemetry_relay::channel::DataChannel;
use telemetry_relay::dispatch::{dispatch, plug_protocol, Command, DeviceConfig, DispatchDecision, PlugProtocol};
use telemetry_relay::envelope::{encode_auth_message, encode_data_message, parse_data_message};
use telemetry_relay::frames::{handle_session_event, InboundFrame, SessionEvent, SessionReaction};
use telemetry_relay::inbound::{parse_auth_reply, parse_command};
use telemetry_relay::poller::{assemble_batch, poll_tick, QueryOutcome};
use telemetry_relay::reading::{Reading, ReadingBody, StructuredData};
use telemetry_relay::rules::{
    active_countdown, verify_countdown, AddCountdownRuleParams, CountdownCheck, CountdownRule,
    CountdownStatus, DesiredState, EditCountdownRuleParams, GetRulesParams, ScheduleRule,
};
use telemetry_relay::sensor::{co2_reading, parse_sensor_response, sensor_request};
use telemetry_relay::snapshot::{plug_readings, EnergyUsage, PlugInfo, PlugSnapshot};
use telemetry_relay::supervisor::{
    ConnectionState, Supervisor, SupervisorAction, SupervisorEvent, TerminationReason,
};

fn val_reading(device: &str, channel: &str, millis: i64) -> Reading {
    Reading {
        device: String::from(device),
        channel: String::from(channel),
        body: ReadingBody::Value { millis },
    }
}

fn reading_eq(a: &Reading, b: &Reading) -> bool {
    a.device == b.device && a.channel == b.channel && body_eq(&a.body, &b.body)
}

fn body_eq(a: &ReadingBody, b: &ReadingBody) -> bool {
    match (a, b) {
        (ReadingBody::Value { millis: x }, ReadingBody::Value { millis: y }) => x == y,
        (
            ReadingBody::Data { data: StructuredData::Countdown { status: x } },
            ReadingBody::Data { data: StructuredData::Countdown { status: y } },
        ) => x == y,
        (
            ReadingBody::Data { data: StructuredData::Schedules { rules: x } },
            ReadingBody::Data { data: StructuredData::Schedules { rules: y } },
        ) => x.len() == y.len() && x.iter().zip(y.iter()).all(|(r, s)| rule_eq(r, s)),
        _ => false,
    }
}

fn rule_eq(a: &ScheduleRule, b: &ScheduleRule) -> bool {
    a.id == b.id && a.enable == b.enable && a.week_day == b.week_day && a.s_min == b.s_min
        && a.e_min == b.e_min && a.mode == b.mode && a.day == b.day && a.month == b.month
        && a.year == b.year
        && match (&a.desired_states, &b.desired_states) {
            (Some(x), Some(y)) => x.on == y.on,
            (None, None) => true,
            _ => false,
        }
}

fn sample_rule() -> ScheduleRule {
    ScheduleRule {
        id: String::from("R1"),
        enable: true,
        week_day: 127,
        s_min: 540,
        e_min: 1020,
        mode: Some(String::from("repeat")),
        day: None,
        month: Some(7),
        year: Some(2024),
        desired_states: Some(DesiredState { on: Some(true) }),
    }
}

fn sample_batch() -> Vec<Reading> {
    vec![
        val_reading("plug-a", "state", 1000),
        val_reading("plug-a", "power", 12345),
        val_reading("plug-a", "rssi", -52000),
        val_reading("plug \"x\"\\y", "odd\u{1}name", -1500),
        Reading {
            device: String::from("plug-a"),
            channel: String::from("countdown"),
            body: ReadingBody::Data {
                data: StructuredData::Countdown {
                    status: Some(CountdownStatus { remain: 90, turn_on: Some(false) }),
                },
            },
        },
        Reading {
            device: String::from("plug-a"),
            channel: String::from("countdown"),
            body: ReadingBody::Data { data: StructuredData::Countdown { status: None } },
        },
        Reading {
            device: String::from("plug-a"),
            channel: String::from("schedules"),
            body: ReadingBody::Data {
                data: StructuredData::Schedules {
                    rules: vec![
                        sample_rule(),
                        ScheduleRule {
                            id: String::from(""),
                            enable: false,
                            week_day: 0,
                            s_min: 0,
                            e_min: 0,
                            mode: None,
                            day: Some(31),
                            month: None,
                            year: None,
                            desired_states: None,
                        },
                    ],
                },
            },
        },
    ]
}

#[test]
fn data_message_round_trip() {
    let batch = sample_batch();
    let frame = encode_data_message(&batch);
    let back = parse_data_message(&frame).expect("canonical frame must parse");
    assert_eq!(back.len(), batch.len());
    for (a, b) in back.iter().zip(batch.iter()) {
        assert!(reading_eq(a, b));
    }
}

#[test]
fn empty_batch_round_trip() {
    let batch: Vec<Reading> = Vec::new();
    let frame = encode_data_message(&batch);
    assert_eq!(frame, b"{\"type\":\"data\",\"readings\":[]}".to_vec());
    let back = parse_data_message(&frame).expect("empty frame must parse");
    assert!(back.is_empty());
}

#[test]
fn data_message_is_real_json() {
    let frame = encode_data_message(&sample_batch());
    let text = String::from_utf8(frame).expect("frame is UTF-8");
    let v: serde_json::Value = serde_json::from_str(&text).expect("frame is JSON");
    assert_eq!(v["type"], "data");
    let readings = v["readings"].as_array().expect("readings is a list");
    assert_eq!(readings.len(), 7);
    assert_eq!(readings[0]["device"], "plug-a");
    assert_eq!(readings[0]["channel"], "state");
    assert_eq!(readings[0]["value"], 1);
    assert_eq!(readings[1]["value"].as_f64().unwrap(), 12.345);
    assert_eq!(readings[2]["value"].as_f64().unwrap(), -52.0);
    assert_eq!(readings[3]["device"], "plug \"x\"\\y");
    assert_eq!(readings[4]["data"]["remain"], 90);
    assert_eq!(readings[4]["data"]["action"], "off");
    assert!(readings[5]["data"].is_null());
    assert_eq!(readings[6]["data"][0]["id"], "R1");
    assert_eq!(readings[6]["data"][1]["day"], 31);
}

#[test]
fn value_decimals_are_exact() {
    let frame = encode_data_message(&vec![val_reading("d", "c", 500)]);
    let text = String::from_utf8(frame).unwrap();
    assert_eq!(text, "{\"type\":\"data\",\"readings\":[{\"device\":\"d\",\"channel\":\"c\",\"value\":0.500}]}");
    let frame = encode_data_message(&vec![val_reading("d", "c", -1500)]);
    assert!(String::from_utf8(frame).unwrap().contains("\"value\":-1.500"));
    let frame = encode_data_message(&vec![val_reading("d", "c", 2000)]);
    assert!(String::from_utf8(frame).unwrap().contains("\"value\":2}"));
}

#[test]
fn escaped_device_name_survives() {
    let batch = vec![val_reading("a\"b\\c\u{7}", "c", 0)];
    let frame = encode_data_message(&batch);
    let back = parse_data_message(&frame).unwrap();
    assert_eq!(back[0].device, "a\"b\\c\u{7}");
}

#[test]
fn mangled_frame_is_rejected() {
    let batch = vec![val_reading("d", "c", 1000)];
    let mut frame = encode_data_message(&batch);
    frame.push(b' ');
    assert!(parse_data_message(&frame).is_none());
}

#[test]
fn auth_message_text() {
    let frame = encode_auth_message(&String::from("k-123"));
    assert_eq!(
        String::from_utf8(frame).unwrap(),
        "{\"type\":\"auth\",\"apiKey\":\"k-123\"}"
    );
}

#[test]
fn backoff_schedule_doubles_to_cap() {
    let mut sup = Supervisor::new();
    let mut delays: Vec<u64> = Vec::new();
    for _ in 0..8 {
        let a = sup.on_event(SupervisorEvent::BackoffElapsed);
        assert_eq!(a, Some(SupervisorAction::Connect));
        match sup.on_event(SupervisorEvent::ConnectFailed) {
            Some(SupervisorAction::Backoff { delay }) => delays.push(delay),
            other => panic!("expected backoff, got {:?}", other),
        }
    }
    assert_eq!(delays, vec![1, 2, 4, 8, 16, 32, 60, 60]);
}

#[test]
fn backoff_resets_after_authenticated_cycle() {
    let mut sup = Supervisor::new();
    for _ in 0..4 {
        sup.on_event(SupervisorEvent::BackoffElapsed);
        sup.on_event(SupervisorEvent::ConnectFailed);
    }
    sup.on_event(SupervisorEvent::BackoffElapsed);
    assert_eq!(sup.on_event(SupervisorEvent::ConnectSucceeded), Some(SupervisorAction::SendAuth));
    assert_eq!(sup.on_event(SupervisorEvent::AuthAccepted), Some(SupervisorAction::RunSession));
    assert_eq!(sup.connection_state(), ConnectionState::Connected);
    let ended = sup.on_event(
        SupervisorEvent::SessionEnded { reason: TerminationReason::PeerClosed },
    );
    assert_eq!(ended, Some(SupervisorAction::Backoff { delay: 1 }));
}

#[test]
fn no_data_frame_before_auth_ack() {
    let mut sup = Supervisor::new();
    assert_eq!(sup.on_event(SupervisorEvent::OutboundBatch), None);
    sup.on_event(SupervisorEvent::BackoffElapsed);
    assert_eq!(sup.on_event(SupervisorEvent::OutboundBatch), None);
    sup.on_event(SupervisorEvent::ConnectSucceeded);
    assert_eq!(sup.on_event(SupervisorEvent::OutboundBatch), None);
    sup.on_event(SupervisorEvent::AuthAccepted);
    assert_eq!(sup.on_event(SupervisorEvent::OutboundBatch), Some(SupervisorAction::WriteData));
}

#[test]
fn auth_reject_backs_off() {
    let mut sup = Supervisor::new();
    sup.on_event(SupervisorEvent::BackoffElapsed);
    sup.on_event(SupervisorEvent::ConnectSucceeded);
    assert_eq!(
        sup.on_event(SupervisorEvent::AuthRejected),
        Some(SupervisorAction::Backoff { delay: 1 })
    );
    assert_eq!(sup.connection_state(), ConnectionState::Disconnected);
}

#[test]
fn peer_close_cycle_reconnects_with_floor_backoff() {
    let mut sup = Supervisor::new();
    sup.on_event(SupervisorEvent::BackoffElapsed);
    sup.on_event(SupervisorEvent::ConnectSucceeded);
    sup.on_event(SupervisorEvent::AuthAccepted);
    assert_eq!(sup.connection_state(), ConnectionState::Connected);
    let a = sup.on_event(SupervisorEvent::SessionEnded { reason: TerminationReason::PeerClosed });
    assert_eq!(a, Some(SupervisorAction::Backoff { delay: 1 }));
    assert_eq!(sup.connection_state(), ConnectionState::Disconnected);
    sup.on_event(SupervisorEvent::BackoffElapsed);
    sup.on_event(SupervisorEvent::ConnectSucceeded);
    sup.on_event(SupervisorEvent::AuthAccepted);
    assert_eq!(sup.connection_state(), ConnectionState::Connected);
    let b = sup.on_event(SupervisorEvent::SessionEnded { reason: TerminationReason::ReadFailed });
    assert_eq!(b, Some(SupervisorAction::Backoff { delay: 1 }));
}

#[test]
fn full_channel_drops_batch_for_good() {
    let mut ch = DataChannel::new(2);
    assert!(ch.try_send(vec![val_reading("a", "c", 1)]));
    assert!(ch.try_send(vec![val_reading("b", "c", 2)]));
    assert!(!ch.try_send(vec![val_reading("dropped", "c", 3)]));
    assert_eq!(ch.len(), 2);
    let first = ch.try_recv().unwrap();
    assert_eq!(first[0].device, "a");
    let second = ch.try_recv().unwrap();
    assert_eq!(second[0].device, "b");
    assert!(ch.try_recv().is_none());
}

#[test]
fn channel_is_fifo() {
    let mut ch = DataChannel::new(10);
    for i in 0..5i64 {
        ch.try_send(vec![val_reading("d", "c", i)]);
    }
    for i in 0..5i64 {
        let b = ch.try_recv().unwrap();
        match b[0].body {
            ReadingBody::Value { millis } => assert_eq!(millis, i),
            _ => panic!("wrong body"),
        }
    }
}

#[test]
fn ping_answered_with_identical_payload() {
    let payload = vec![1u8, 2, 3, 255];
    let r = handle_session_event(
        SessionEvent::Frame { frame: InboundFrame::Ping { payload: payload.clone() } },
    );
    match r {
        SessionReaction::SendPong { payload: p } => assert_eq!(p, payload),
        _ => panic!("ping must be answered with a pong"),
    }
}

#[test]
fn close_and_errors_terminate() {
    match handle_session_event(SessionEvent::Frame { frame: InboundFrame::Close }) {
        SessionReaction::Terminate { reason } => {
            assert_eq!(reason, TerminationReason::PeerClosed)
        },
        _ => panic!("close must terminate"),
    }
    match handle_session_event(SessionEvent::ReadFailed) {
        SessionReaction::Terminate { reason } => {
            assert_eq!(reason, TerminationReason::ReadFailed)
        },
        _ => panic!("read failure must terminate"),
    }
    match handle_session_event(SessionEvent::StreamEnded) {
        SessionReaction::Terminate { reason } => {
            assert_eq!(reason, TerminationReason::PeerClosed)
        },
        _ => panic!("stream end must terminate"),
    }
}

#[test]
fn command_text_is_dispatched() {
    let text = b"{\"type\":\"command\",\"device\":\"plug-a\",\"action\":\"set_state\",\"value\":1}"
        .to_vec();
    match handle_session_event(SessionEvent::Frame { frame: InboundFrame::Text { payload: text } })
    {
        SessionReaction::DispatchCommand { command } => {
            assert_eq!(command.device, "plug-a");
            assert_eq!(command.action, "set_state");
            assert_eq!(command.value, 1);
        },
        _ => panic!("command text must be dispatched"),
    }
}

#[test]
fn malformed_text_is_ignored() {
    let text = b"{\"type\":\"data\",\"readings\":[]}".to_vec();
    match handle_session_event(SessionEvent::Frame { frame: InboundFrame::Text { payload: text } })
    {
        SessionReaction::Ignore => {},
        _ => panic!("non-command text must be ignored"),
    }
}

#[test]
fn parse_command_negative_value() {
    let text = b"{\"type\":\"command\",\"device\":\"p\",\"action\":\"set_state\",\"value\":-3}"
        .to_vec();
    let c = parse_command(&text).unwrap();
    assert_eq!(c.value, -3);
}

#[test]
fn auth_reply_success_and_failure() {
    let ok = parse_auth_reply(&b"{\"type\":\"auth\",\"success\":true}".to_vec()).unwrap();
    assert!(ok.success);
    assert!(ok.error.is_none());
    let no = parse_auth_reply(
        &b"{\"type\":\"auth\",\"success\":false,\"error\":\"bad key\"}".to_vec(),
    )
    .unwrap();
    assert!(!no.success);
    assert_eq!(no.error.unwrap(), "bad key");
    assert!(parse_auth_reply(&b"{\"type\":\"data\",\"success\":true}".to_vec()).is_none());
    assert!(parse_auth_reply(&b"".to_vec()).is_none());
}

#[test]
fn unknown_device_command_is_discarded() {
    let devices = vec![DeviceConfig {
        ip: String::from("192.168.1.10"),
        name: String::from("plug-a"),
        device_type: String::from("P110"),
        tapo_email: String::from("user@example.com"),
        tapo_password: String::from("pw"),
    }];
    let cmd = Command {
        device: String::from("ghost"),
        action: String::from("set_state"),
        value: 1,
    };
    let mut sup = Supervisor::new();
    sup.on_event(SupervisorEvent::BackoffElapsed);
    sup.on_event(SupervisorEvent::ConnectSucceeded);
    sup.on_event(SupervisorEvent::AuthAccepted);
    let before = sup.connection_state();
    assert_eq!(dispatch(&cmd, &devices), DispatchDecision::UnknownDevice);
    assert_eq!(sup.connection_state(), before);
}

#[test]
fn known_device_commands_resolve() {
    let devices = vec![
        DeviceConfig {
            ip: String::from("192.168.1.10"),
            name: String::from("plug-a"),
            device_type: String::from("P110"),
            tapo_email: String::from("user@example.com"),
            tapo_password: String::from("pw"),
        },
        DeviceConfig {
            ip: String::from("192.168.1.11"),
            name: String::from("plug-b"),
            device_type: String::from("P100"),
            tapo_email: String::from("user@example.com"),
            tapo_password: String::from("pw"),
        },
    ];
    let on = Command {
        device: String::from("plug-b"),
        action: String::from("set_state"),
        value: 1,
    };
    assert_eq!(
        dispatch(&on, &devices),
        DispatchDecision::Invoke { device_index: 1, turn_on: true }
    );
    let off = Command {
        device: String::from("plug-a"),
        action: String::from("set_state"),
        value: 0,
    };
    assert_eq!(
        dispatch(&off, &devices),
        DispatchDecision::Invoke { device_index: 0, turn_on: false }
    );
    let odd = Command {
        device: String::from("plug-a"),
        action: String::from("reboot"),
        value: 1,
    };
    assert_eq!(dispatch(&odd, &devices), DispatchDecision::UnknownAction);
}

#[test]
fn plug_protocol_mapping() {
    assert_eq!(plug_protocol(&String::from("P110")), Some(PlugProtocol::EnergyMonitoring));
    assert_eq!(plug_protocol(&String::from("P115")), Some(PlugProtocol::EnergyMonitoring));
    assert_eq!(plug_protocol(&String::from("P100")), Some(PlugProtocol::Basic));
    assert_eq!(plug_protocol(&String::from("P105")), Some(PlugProtocol::Basic));
    assert_eq!(plug_protocol(&String::from("L530")), None);
}

#[test]
fn failed_device_contributes_nothing() {
    let a = QueryOutcome::Failed;
    let b = QueryOutcome::Answered {
        readings: vec![val_reading("B", "state", 1000), val_reading("B", "power", 5)],
    };
    let batch = assemble_batch(vec![a, b]);
    assert_eq!(batch.len(), 2);
    assert!(batch.iter().all(|r| r.device == "B"));
}

#[test]
fn empty_tick_enqueues_nothing() {
    let mut ch = DataChannel::new(4);
    let sent = poll_tick(&mut ch, vec![QueryOutcome::Failed, QueryOutcome::Failed]);
    assert!(!sent);
    assert_eq!(ch.len(), 0);
    let sent = poll_tick(
        &mut ch,
        vec![QueryOutcome::Failed, QueryOutcome::Answered {
            readings: vec![val_reading("B", "state", 0)],
        }],
    );
    assert!(sent);
    assert_eq!(ch.len(), 1);
}

#[test]
fn sensor_frames() {
    assert_eq!(sensor_request(), vec![0xFE, 0x44, 0x00, 0x08, 0x02, 0x9F, 0x25]);
    let good = vec![0xFEu8, 0x44, 0x00, 0x02, 0x58, 0x00, 0x00];
    assert_eq!(parse_sensor_response(&good), Some(600));
    let bad_header = vec![0xFFu8, 0x44, 0x00, 0x02, 0x58, 0x00, 0x00];
    assert_eq!(parse_sensor_response(&bad_header), None);
    let short = vec![0xFEu8, 0x44];
    assert_eq!(parse_sensor_response(&short), None);
    let r = co2_reading(600);
    assert_eq!(r.device, "pis88");
    assert_eq!(r.channel, "co2");
    match r.body {
        ReadingBody::Value { millis } => assert_eq!(millis, 600_000),
        _ => panic!("co2 reading is numeric"),
    }
}

#[test]
fn active_countdown_picks_first_enabled() {
    let rules = vec![
        CountdownRule {
            id: String::from("0"),
            enable: false,
            delay: 10,
            remain: 5,
            desired_states: Some(DesiredState { on: Some(true) }),
        },
        CountdownRule {
            id: String::from("1"),
            enable: true,
            delay: 60,
            remain: 42,
            desired_states: Some(DesiredState { on: Some(false) }),
        },
        CountdownRule {
            id: String::from("2"),
            enable: true,
            delay: 9,
            remain: 1,
            desired_states: None,
        },
    ];
    let st = active_countdown(&rules).unwrap();
    assert_eq!(st.remain, 42);
    assert_eq!(st.turn_on, Some(false));
    assert_eq!(active_countdown(&Vec::new()), None);
}

#[test]
fn countdown_verification() {
    let running = vec![CountdownRule {
        id: String::from("1"),
        enable: true,
        delay: 60,
        remain: 42,
        desired_states: Some(DesiredState { on: Some(true) }),
    }];
    assert_eq!(verify_countdown(&running, true), CountdownCheck::Confirmed);
    assert_eq!(verify_countdown(&running, false), CountdownCheck::Mismatch);
    let spent = vec![CountdownRule {
        id: String::from("1"),
        enable: true,
        delay: 60,
        remain: 0,
        desired_states: Some(DesiredState { on: Some(true) }),
    }];
    assert_eq!(verify_countdown(&spent, true), CountdownCheck::NoneActive);
}

#[test]
fn rule_params_constructors() {
    let e = EditCountdownRuleParams::new(String::from("7"), 30, true);
    assert_eq!(e.id, "7");
    assert_eq!(e.delay, 30);
    assert!(e.desired_states.on);
    assert!(e.enable);
    let a = AddCountdownRuleParams::new(15, false);
    assert_eq!(a.delay, 15);
    assert!(!a.desired_states.on);
    assert!(a.enable);
    let g = GetRulesParams::new(3);
    assert_eq!(g.start_index, 3);
    let d = GetRulesParams::default();
    assert_eq!(d.start_index, 0);
}

#[test]
fn snapshot_yields_readings_in_order() {
    let snap = PlugSnapshot {
        info: Some(PlugInfo { device_on: true, on_time: 120, signal_level: 3, rssi: -52 }),
        current_power_mw: Some(12345),
        energy: Some(EnergyUsage {
            today_energy_wh: 50,
            today_runtime_min: 30,
            month_energy_wh: 700,
            month_runtime_min: 420,
        }),
        countdown: Some(Some(CountdownStatus { remain: 90, turn_on: Some(true) })),
        schedules: Some(vec![sample_rule()]),
    };
    let rs = plug_readings(&String::from("plug-a"), snap);
    let channels: Vec<&str> = rs.iter().map(|r| r.channel.as_str()).collect();
    assert_eq!(
        channels,
        vec![
            "state", "on_time", "signal_level", "rssi", "power", "energy_today", "runtime_today",
            "energy_month", "runtime_month", "countdown", "schedules",
        ]
    );
    match rs[0].body {
        ReadingBody::Value { millis } => assert_eq!(millis, 1000),
        _ => panic!("state is numeric"),
    }
    match rs[3].body {
        ReadingBody::Value { millis } => assert_eq!(millis, -52_000),
        _ => panic!("rssi is numeric"),
    }
    match rs[4].body {
        ReadingBody::Value { millis } => assert_eq!(millis, 12_345),
        _ => panic!("power is numeric"),
    }
}

#[test]
fn partial_snapshot_skips_absent_parts() {
    let snap = PlugSnapshot {
        info: Some(PlugInfo { device_on: false, on_time: 0, signal_level: 1, rssi: -70 }),
        current_power_mw: None,
        energy: None,
        countdown: None,
        schedules: None,
    };
    let rs = plug_readings(&String::from("plug-b"), snap);
    assert_eq!(rs.len(), 4);
    match rs[0].body {
        ReadingBody::Value { millis } => assert_eq!(millis, 0),
        _ => panic!("state is numeric"),
    }
}
