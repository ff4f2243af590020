use lora_ecla::actors::{
    advertise_recommendation, answer_ping, ping_for_request, supervisor_step, EmuCommit, EmuState,
    PingPongRequest, PingSession, SupervisorAction, SupervisorEvent,
};
use lora_ecla::agents::{agent_spec, parse_modem_line, tx_command, AgentError, AgentSpec, LineBuffer, ModemLine};
use lora_ecla::global::{ActorType, CloseType, ECLAConfig, LoRaConfig, StrategyConfig};
use lora_ecla::protocol::{Content, PacketType, PingPong, PingPongType, Position};
use lora_ecla::strmap::StrMap;

fn lora(agent_type: &str, agent_arg: &str) -> LoRaConfig {
    LoRaConfig { agent_type: agent_type.to_string(), agent_arg: agent_arg.to_string() }
}

#[test]
fn agent_from_config() {
    match agent_spec(&lora("serial", "/dev/ttyUSB0")) {
        Ok(AgentSpec::Serial { port_name }) => assert_eq!(port_name, "/dev/ttyUSB0"),
        _ => panic!("expected a serial agent"),
    }
    match agent_spec(&lora("websocket", "127.0.0.1:8291:node3")) {
        Ok(AgentSpec::Websocket { node_id, ip, port }) => {
            assert_eq!(node_id, "node3");
            assert_eq!(ip, "127.0.0.1");
            assert_eq!(port, 8291);
        }
        _ => panic!("expected a websocket agent"),
    }
    assert!(matches!(agent_spec(&lora("websocket", "127.0.0.1:8291")), Err(AgentError::MissingPart)));
    assert!(matches!(agent_spec(&lora("websocket", "127.0.0.1:port:node3")), Err(AgentError::BadPort)));
    assert!(matches!(agent_spec(&lora("Serial", "x")), Err(AgentError::UnknownType)));
}

#[test]
fn tx_command_writes_each_byte_in_upper_hex_without_padding() {
    assert_eq!(tx_command(&vec![0xAB, 0x0F, 0x10, 0x00]), "AT+TX=ABF100\n");
    assert_eq!(tx_command(&vec![]), "AT+TX=\n");
    assert_eq!(tx_command(&vec![255, 1]), "AT+TX=FF1\n");
}

#[test]
fn modem_lines() {
    match parse_modem_line("+RX 3,0a0B1c,-57,9") {
        ModemLine::Rx { data, rssi, snr } => {
            assert_eq!(data, vec![0x0a, 0x0b, 0x1c]);
            assert_eq!(rssi, -57);
            assert_eq!(snr, 9);
        }
        _ => panic!("expected a frame"),
    }
    assert!(matches!(parse_modem_line("+RX 3,0a0,-57,9"), ModemLine::BadHex));
    assert!(matches!(parse_modem_line("+RX 3,zz,-57,9"), ModemLine::BadHex));
    assert!(matches!(parse_modem_line("+RX 3"), ModemLine::Malformed));
    assert!(matches!(parse_modem_line("+RX 3,0a0b,-57"), ModemLine::Malformed));
    assert!(matches!(parse_modem_line("+RX 3,0a0b,x,1"), ModemLine::Malformed));
    match parse_modem_line("Latitude: 52.5") {
        ModemLine::Latitude(t) => assert_eq!(t, " 52.5"),
        _ => panic!("expected a latitude"),
    }
    match parse_modem_line("Longitude:13.4") {
        ModemLine::Longitude(t) => assert_eq!(t, "13.4"),
        _ => panic!("expected a longitude"),
    }
    assert!(matches!(parse_modem_line("Latitude:1:2"), ModemLine::Other));
    assert!(matches!(parse_modem_line("+OK"), ModemLine::Other));
}

#[test]
fn line_buffer_splits_on_newline() {
    let mut b = LineBuffer::new();
    assert!(b.push_byte(b'o').is_none());
    assert!(b.push_byte(b'k').is_none());
    assert_eq!(b.push_byte(b'\n').unwrap(), "ok");
    assert_eq!(b.push_byte(b'\n').unwrap(), "");
    assert!(b.push_byte(0xE9).is_none());
    assert_eq!(b.push_byte(b'\n').unwrap(), "\u{e9}");
}

#[test]
fn pings_are_answered_when_for_us_or_for_all() {
    let own = "node1".to_string();
    let ping_all = PingPong { kind: PingPongType::TypePing, node_id: String::new() };
    let ping_us = PingPong { kind: PingPongType::TypePing, node_id: "node1".to_string() };
    let ping_other = PingPong { kind: PingPongType::TypePing, node_id: "node2".to_string() };
    let pong = PingPong { kind: PingPongType::TypePong, node_id: String::new() };
    for p in [&ping_all, &ping_us] {
        let answer = answer_ping(p, &own).unwrap();
        assert_eq!(answer.kind, PacketType::TypePingPong);
        match answer.content {
            Some(Content::PingPong(q)) => {
                assert_eq!(q.kind, PingPongType::TypePong);
                assert_eq!(q.node_id, "node1");
            }
            _ => panic!("expected a pong"),
        }
    }
    assert!(answer_ping(&ping_other, &own).is_none());
    assert!(answer_ping(&pong, &own).is_none());
}

#[test]
fn advertisement_needs_a_node_name() {
    assert!(advertise_recommendation(String::new(), Position::NoPos).is_none());
    let p = advertise_recommendation("n1".to_string(), Position::Xy { x: 1, y: 2 }).unwrap();
    assert_eq!(p.kind, PacketType::TypeAdvertise);
    match p.content {
        Some(Content::Advertise(a)) => {
            assert_eq!(a.node_name, "n1");
            assert_eq!(a.data.len(), 0);
            assert!(matches!(a.position, Some(Position::Xy { x: 1, y: 2 })));
        }
        _ => panic!("expected an advertisement"),
    }
}

#[test]
fn ping_over_http() {
    assert!(ping_for_request(&PingPongRequest { node_id: "n2".to_string(), timeout_ms: 0 }).is_none());
    let ping = ping_for_request(&PingPongRequest { node_id: "n2".to_string(), timeout_ms: 100 }).unwrap();
    assert!(matches!(ping.content, Some(Content::PingPong(PingPong { kind: PingPongType::TypePing, .. }))));

    let mut s = PingSession::new("n2".to_string(), "n1".to_string());
    let pong = Some(Content::PingPong(PingPong { kind: PingPongType::TypePong, node_id: "n2".to_string() }));
    let ping_in = Some(Content::PingPong(PingPong { kind: PingPongType::TypePing, node_id: "n9".to_string() }));
    assert!(!s.on_packet(&ping_in));
    assert!(!s.on_packet(&pong));
    assert!(!s.on_packet(&None));
    assert_eq!(s.answers, vec!["n2".to_string()]);

    let mut own = PingSession::new("n1".to_string(), "n1".to_string());
    assert!(own.on_packet(&pong));
}

#[test]
fn emulator_meta_is_committed_once_addressable() {
    let mut e = EmuState::new();
    let mut cfg = StrMap::new();
    cfg.insert("SEND_INTERVAL".to_string(), "5s".to_string());
    cfg.insert("strategy".to_string(), "overridden".to_string());
    let strategy = StrategyConfig { name: "random".to_string(), config: cfg };
    assert!(matches!(e.on_strategy_start(&strategy), EmuCommit::Nothing));
    assert_eq!(e.meta.get("strategy").unwrap(), "overridden");
    assert_eq!(e.meta.get("SEND_INTERVAL").unwrap(), "5s");

    e.on_lora_start(&lora("serial", "/dev/ttyUSB0"));
    assert!(!e.is_emu);
    e.on_lora_start(&lora("websocket", "10.0.0.1:8291:n4"));
    assert!(e.is_emu);
    let ecla = ECLAConfig { addr: "127.0.0.1:3000".to_string(), module_name: "LoRa".to_string() };
    match e.on_ecla_start(&ecla) {
        EmuCommit::Commit { ip, port, node_id } => {
            assert_eq!(ip, "10.0.0.1");
            assert_eq!(port, "8291");
            assert_eq!(node_id, "n4");
        }
        _ => panic!("expected a commit"),
    }
    assert_eq!(e.meta.get("dtnd").unwrap(), "http://127.0.0.1:3000");

    let mut short = EmuState::new();
    short.on_lora_start(&lora("websocket", "10.0.0.1"));
    assert!(matches!(short.on_ecla_start(&ecla), EmuCommit::Malformed));
}

#[test]
fn supervisor_order() {
    assert_eq!(supervisor_step(SupervisorEvent::Started), SupervisorAction::StartLoraAndDtnd);
    assert_eq!(supervisor_step(SupervisorEvent::DtndStarted), SupervisorAction::StartEclaAndStrategy);
    assert_eq!(supervisor_step(SupervisorEvent::CloseAll), SupervisorAction::Stop);
    assert_eq!(supervisor_step(SupervisorEvent::Other), SupervisorAction::Nothing);
}

#[test]
fn close_targets() {
    assert_eq!(CloseType::parse("all"), Some(CloseType::All));
    assert_eq!(CloseType::parse("ALL"), Some(CloseType::All));
    assert_eq!(CloseType::parse("Lora"), Some(CloseType::LoRa));
    assert_eq!(CloseType::parse("ecla"), Some(CloseType::ECLA));
    assert_eq!(CloseType::parse("dTnD"), Some(CloseType::DTND));
    assert_eq!(CloseType::parse("STRATEGY"), Some(CloseType::Strategy));
    assert_eq!(CloseType::parse("everything"), None);
    assert_eq!(CloseType::parse(""), None);
    assert!(CloseType::All.stops(ActorType::LoRa));
    assert!(CloseType::DTND.stops(ActorType::ECLA));
    assert!(CloseType::DTND.stops(ActorType::DTND));
    assert!(!CloseType::ECLA.stops(ActorType::DTND));
    assert!(CloseType::Strategy.stops(ActorType::Strategy));
    assert!(!CloseType::LoRa.stops(ActorType::Strategy));
}

#[test]
fn supervisor_run_of_events() {
    let events = [
        SupervisorEvent::Started,
        SupervisorEvent::Other,
        SupervisorEvent::DtndStarted,
        SupervisorEvent::Other,
        SupervisorEvent::DtndStarted,
        SupervisorEvent::CloseAll,
    ];
    let mut actions = Vec::new();
    for e in events.iter() {
        let a = supervisor_step(*e);
        actions.push(a);
        if a == SupervisorAction::Stop {
            break;
        }
    }
    assert_eq!(
        actions,
        vec![
            SupervisorAction::StartLoraAndDtnd,
            SupervisorAction::Nothing,
            SupervisorAction::StartEclaAndStrategy,
            SupervisorAction::Nothing,
            SupervisorAction::StartEclaAndStrategy,
            SupervisorAction::Stop,
        ]
    );
}
