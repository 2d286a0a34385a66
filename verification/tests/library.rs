use vusb::cli::{
    option_flags, parse_flags, select_role, shows_usage, usage_text, usbip_binary, usbip_port,
    usbipd_binary, ClientConfig, Config, Flags, Role, ServerConfig, DEFAULT_USBIP_PORT,
};
use vusb::cycler::HostCycler;
use vusb::frame::{decode_body, decode_header, frame_packet, BodyStatus, HeaderStatus, HEADER_LEN};
use vusb::hosts::{Hosts, SwapStart};
use vusb::keys::KeyHandler;
use vusb::packet::{
    attach_packet, client_action, copy_strings, event_packet, requests_cycle, ClientAction, Event,
    Packet,
};
use vusb::text::{chars_of, split, split_words, string_of, trim_colons, white_space};
use vusb::usbip::{
    attach_args, bind_args, decimal_string, detach_args, is_event_node, parse_ports,
    port_list_args,
};

fn strings(v: &[&str]) -> Vec<String> {
    v.iter().map(|s| s.to_string()).collect()
}

// ---- host cycling ----

#[test]
fn cycler_starts_on_server() {
    assert_eq!(HostCycler::new().host, 0);
    assert_eq!(HostCycler::default().host, 0);
}

#[test]
fn cycler_visits_every_host_in_turn() {
    let mut c = HostCycler::new();
    let mut seen = vec![];
    for _ in 0..4 {
        c.cycle(3);
        seen.push(c.host);
    }
    assert_eq!(seen, vec![1, 2, 3, 0]);
}

#[test]
fn cycler_with_no_clients_stays_on_server() {
    let mut c = HostCycler::new();
    c.cycle(0);
    assert_eq!(c.host, 0);
}

#[test]
fn cycler_eof_before_host_shifts_down() {
    let mut c = HostCycler { host: 3 };
    c.eof(1);
    assert_eq!(c.host, 2);
}

#[test]
fn cycler_eof_of_host_returns_to_server() {
    let mut c = HostCycler { host: 2 };
    c.eof(2);
    assert_eq!(c.host, 0);
}

#[test]
fn cycler_eof_after_host_keeps_it() {
    let mut c = HostCycler { host: 1 };
    c.eof(3);
    assert_eq!(c.host, 1);
}

#[test]
fn hosts_switching_returns_after_all_had_a_turn() {
    let mut h: Hosts<&str> = Hosts::new();
    h.accept("a");
    h.accept("b");
    assert_eq!(h.current(), None);
    assert_eq!(h.advance(), Some(0));
    assert_eq!(*h.get(0), "a");
    assert_eq!(h.advance(), Some(1));
    assert_eq!(h.advance(), None);
    assert_eq!(h.advance(), Some(0));
}

#[test]
fn hosts_close_keeps_the_holder() {
    let mut h: Hosts<&str> = Hosts::new();
    h.accept("a");
    h.accept("b");
    h.accept("c");
    h.advance();
    h.advance();
    h.advance();
    assert_eq!(h.current(), Some(2));
    assert_eq!(h.close(1), "a");
    assert_eq!(h.current(), Some(1));
    assert_eq!(*h.get(1), "c");
    assert_eq!(h.len(), 2);
}

#[test]
fn hosts_close_of_holder_returns_devices_to_server() {
    let mut h: Hosts<u32> = Hosts::new();
    h.accept(7);
    h.accept(8);
    h.advance();
    assert_eq!(h.close(1), 7);
    assert_eq!(h.current(), None);
    assert_eq!(h.host_index(), 0);
}

#[test]
fn hosts_switch_only_with_clients() {
    let mut h: Hosts<u32> = Hosts::new();
    assert!(!h.should_cycle(true));
    assert!(h.is_empty());
    h.accept(1);
    assert!(h.should_cycle(true));
    assert!(!h.should_cycle(false));
}

#[test]
fn hosts_swap_detaches_holder_then_attaches_next() {
    let mut h: Hosts<&str> = Hosts::new();
    assert!(matches!(h.begin_swap(true), SwapStart::NoSwap));
    h.accept("a");
    h.accept("b");
    assert!(matches!(h.begin_swap(false), SwapStart::NoSwap));
    let busids = vec!["1-1".to_string(), "2-3".to_string()];
    // The server holds the devices: no Detach, then client 0 attaches.
    assert!(matches!(h.begin_swap(true), SwapStart::Advance));
    match h.finish_swap(&busids) {
        Some((0, Packet::Attach { busids: b })) => assert_eq!(b, busids),
        _ => panic!("expected Attach for client 0"),
    }
    // Client 0 holds them: it is told to detach, then client 1 attaches.
    assert!(matches!(h.begin_swap(true), SwapStart::DetachFirst(0, Packet::Detach)));
    assert!(matches!(h.finish_swap(&busids), Some((1, Packet::Attach { .. }))));
    // Client 1 holds them: it detaches and the devices go back to the server.
    assert!(matches!(h.begin_swap(true), SwapStart::DetachFirst(1, Packet::Detach)));
    assert!(h.finish_swap(&busids).is_none());
    assert_eq!(h.current(), None);
}

// ---- framing ----

#[test]
fn frame_puts_length_first() {
    assert_eq!(frame_packet(&[9, 8, 7]), vec![3, 0, 9, 8, 7]);
    assert_eq!(frame_packet(&[]), vec![0, 0]);
}

#[test]
fn frame_length_is_little_endian() {
    let payload = vec![0u8; 300];
    let f = frame_packet(&payload);
    assert_eq!(&f[..2], &[44, 1]);
    assert_eq!(f.len(), 302);
}

#[test]
fn frame_round_trip() {
    let payload: Vec<u8> = (0..=255).collect();
    let f = frame_packet(&payload);
    let total = match decode_header(&f[..HEADER_LEN]) {
        HeaderStatus::Frame(t) => t,
        _ => panic!("header not read"),
    };
    assert_eq!(total, f.len());
    match decode_body(&f, total) {
        BodyStatus::Complete(p) => assert_eq!(p, payload),
        _ => panic!("body not read"),
    }
}

#[test]
fn header_states() {
    assert!(matches!(decode_header(&[]), HeaderStatus::Closed));
    assert!(matches!(decode_header(&[5]), HeaderStatus::Pending));
    assert!(matches!(decode_header(&[5, 0]), HeaderStatus::Frame(7)));
    assert!(matches!(decode_header(&[0, 1]), HeaderStatus::Frame(258)));
}

#[test]
fn body_states() {
    assert!(matches!(decode_body(&[], 4), BodyStatus::Closed));
    assert!(matches!(decode_body(&[2, 0, 1], 4), BodyStatus::Pending));
    match decode_body(&[2, 0, 1, 2], 4) {
        BodyStatus::Complete(p) => assert_eq!(p, vec![1, 2]),
        _ => panic!("complete frame not read"),
    }
}

// ---- packets ----

#[test]
fn packet_decisions() {
    assert!(requests_cycle(&Packet::Activated));
    assert!(!requests_cycle(&Packet::Detach));
    assert!(!requests_cycle(&Packet::Attach { busids: vec![] }));
    assert!(matches!(event_packet(Event::Activated), Packet::Activated));
    match attach_packet(&strings(&["1-1", "2-3"])) {
        Packet::Attach { busids } => assert_eq!(busids, strings(&["1-1", "2-3"])),
        _ => panic!("not an attach packet"),
    }
    match client_action(Packet::Attach { busids: strings(&["1-1"]) }) {
        ClientAction::Attach(ids) => assert_eq!(ids, strings(&["1-1"])),
        _ => panic!("wrong action"),
    }
    assert!(matches!(client_action(Packet::Detach), ClientAction::Detach));
    assert!(matches!(client_action(Packet::Activated), ClientAction::Ignore));
    assert_eq!(copy_strings(&strings(&["x"])), strings(&["x"]));
}

// ---- key chord ----

#[test]
fn hook_chord_notifies_on_last_release() {
    let mut k = KeyHandler::new(vec![0xA2, 0xA3]);
    k.key_down(0xA2);
    k.key_down(0x41);
    k.key_down(0xA3);
    assert!(!k.key_up(0xA2));
    assert!(!k.key_up(0x41));
    assert!(k.key_up(0xA3));
    assert!(k.is_active());
    assert!(!k.is_active());
}

#[test]
fn hook_incomplete_chord_does_not_notify() {
    let mut k = KeyHandler::new(vec![0xA2, 0xA3]);
    k.key_down(0xA2);
    assert!(!k.key_up(0xA2));
    assert!(!k.is_active());
}

#[test]
fn hook_repeated_key_down_is_recorded_once() {
    let mut k = KeyHandler::new(vec![0xA2, 0xA3]);
    k.key_down(0xA2);
    k.key_down(0xA2);
    k.key_down(0xA3);
    assert!(!k.key_up(0xA3));
    assert!(k.key_up(0xA2));
}

#[test]
fn device_chord_fires_once() {
    let mut k = KeyHandler::new(vec![29, 97]);
    assert!(!k.handle_key_event(97, 1));
    assert!(!k.handle_key_event(29, 1));
    assert!(!k.handle_key_event(29, 2));
    assert!(!k.handle_key_event(97, 0));
    assert!(k.handle_key_event(29, 0));
    assert!(!k.handle_key_event(29, 0));
    assert!(!k.is_active());
}

#[test]
fn device_ignores_other_values() {
    let mut k = KeyHandler::new(vec![29]);
    assert!(!k.handle_key_event(29, 2));
    assert!(!k.handle_key_event(29, 0));
}

#[test]
fn device_stream_fires_once_per_completed_chord() {
    let events: [(u32, i32); 12] = [
        (29, 1), (42, 1), (97, 1), (42, 0), (29, 0), (97, 0),
        (29, 1), (97, 1), (97, 0), (97, 1), (29, 0), (97, 0),
    ];
    let expected = [false, false, false, false, false, true, false, false, false, false, false, true];
    let mut k = KeyHandler::new(vec![29, 97]);
    for (e, want) in events.iter().zip(expected.iter()) {
        assert_eq!(k.handle_key_event(e.0, e.1), *want);
    }
    // The same stream with repeats (value 2) woven in fires on the same events.
    let mut k = KeyHandler::new(vec![29, 97]);
    for (e, want) in events.iter().zip(expected.iter()) {
        assert!(!k.handle_key_event(e.0, 2));
        assert_eq!(k.handle_key_event(e.0, e.1), *want);
        assert!(!k.handle_key_event(97, 2));
    }
}

#[test]
fn device_partial_chord_never_fires() {
    let mut k = KeyHandler::new(vec![29, 97]);
    assert!(!k.handle_key_event(29, 1));
    assert!(!k.handle_key_event(42, 1));
    assert!(!k.handle_key_event(42, 0));
    assert!(!k.handle_key_event(29, 0));
}

// ---- text ----

#[test]
fn white_space_matches_std() {
    for u in 0u32..0x3100 {
        if let Some(c) = char::from_u32(u) {
            assert_eq!(white_space(c), c.is_whitespace(), "{:?}", c);
        }
    }
}

#[test]
fn splitting() {
    let v = chars_of("a\n\nb");
    let pieces = split(&v, true);
    assert_eq!(pieces, vec![vec!['a'], vec![], vec!['b']]);
    let w = split_words(&chars_of("  Port 00:  x "));
    let w: Vec<String> = w.iter().map(|c| string_of(c)).collect();
    assert_eq!(w, strings(&["Port", "00:", "x"]));
    assert_eq!(trim_colons(&chars_of("07::")), chars_of("07"));
    assert_eq!(trim_colons(&chars_of(":::")), Vec::<char>::new());
}

#[test]
fn ports_of_usbip_output() {
    let out = "Imported USB devices\n====================\nPort 00: <Port in Use> at Full Speed(12Mbps)\n       unknown vendor : unknown product (046d:c52b)\n  Port 01: <Port in Use> at High Speed(480Mbps)\nPort\n";
    assert_eq!(parse_ports(out), strings(&["00", "01"]));
}

#[test]
fn ports_matches_std_pipeline() {
    let out = "Port 1:\r\nPorts 2::\n x Port 3:\n\u{3000}Port\t4 y\nPort";
    let expected: Vec<String> = out
        .lines()
        .map(|line| line.trim())
        .filter(|line| line.starts_with("Port"))
        .filter_map(|line| line.split_whitespace().nth(1).map(|p| p.trim_end_matches(':')))
        .map(|s| s.to_string())
        .collect();
    assert_eq!(parse_ports(out), expected);
    assert_eq!(parse_ports(""), Vec::<String>::new());
}

#[test]
fn usbip_command_lines() {
    assert_eq!(
        attach_args(3240, "10.0.0.2", "1-1.2"),
        strings(&["--tcp-port", "3240", "attach", "-r", "10.0.0.2", "-b", "1-1.2"])
    );
    assert_eq!(port_list_args(), strings(&["port"]));
    assert_eq!(detach_args("00"), strings(&["detach", "-p", "00"]));
    assert_eq!(bind_args("2-1"), strings(&["bind", "2-1"]));
}

#[test]
fn decimal_matches_to_string() {
    for n in [0u16, 7, 10, 99, 100, 3240, 65535] {
        assert_eq!(decimal_string(n), n.to_string());
    }
}

#[test]
fn event_nodes() {
    assert!(is_event_node("event0"));
    assert!(is_event_node("event"));
    assert!(!is_event_node("mouse0"));
    assert!(!is_event_node("even"));
    assert!(!is_event_node(""));
}

// ---- command line and configuration ----

#[test]
fn flags_from_command_line() {
    let f = parse_flags(&strings(&["-s"])).unwrap();
    assert!(f.server && !f.client && !f.help);
    let f = parse_flags(&strings(&["--client", "-h"])).unwrap();
    assert!(!f.server && f.client && f.help);
    let f = parse_flags(&vec![]).unwrap();
    assert!(!f.server && !f.client && !f.help);
}

#[test]
fn unknown_flag_is_refused() {
    match parse_flags(&strings(&["-x"])) {
        Err(text) => assert_eq!(text, "Unrecognized option: 'x'"),
        Ok(_) => panic!("-x accepted"),
    }
    assert!(parse_flags(&strings(&["-s", "-s"])).is_err());
}

#[test]
fn usage_mentions_flags() {
    let text = usage_text("vusb");
    assert!(text.starts_with("usage: vusb [options]\n\nOptions:\n"));
    assert!(text.contains("--server"));
    assert!(text.contains("print this help menu"));
    assert_eq!(option_flags().len(), 3);
}

#[test]
fn usage_shown_on_help_or_both_roles() {
    let f = |server, client, help| Flags { server, client, help };
    assert!(shows_usage(&f(false, false, true)));
    assert!(shows_usage(&f(true, true, false)));
    assert!(!shows_usage(&f(true, false, false)));
    assert!(!shows_usage(&f(false, false, false)));
}

fn config(server: bool, client: bool) -> Config {
    Config {
        usbip_binary: None,
        usbipd_binary: Some("/usr/sbin/usbipd".to_string()),
        server: server.then(|| ServerConfig {
            addresses: strings(&["0.0.0.0"]),
            port: 3340,
            devices: vec![],
        }),
        client: client.then(|| ClientConfig {
            address: "10.0.0.1".to_string(),
            port: 3340,
            usbip_port: None,
        }),
    }
}

#[test]
fn role_selection() {
    let none = Flags { server: false, client: false, help: false };
    let s = Flags { server: true, client: false, help: false };
    let c = Flags { server: false, client: true, help: false };
    assert!(matches!(select_role(&none, &config(true, true)), Role::Server));
    assert!(matches!(select_role(&c, &config(true, true)), Role::Client));
    assert!(matches!(select_role(&s, &config(false, true)), Role::Neither));
    assert!(matches!(select_role(&none, &config(false, true)), Role::Client));
    assert!(matches!(select_role(&none, &config(false, false)), Role::Neither));
}

#[test]
fn configuration_defaults() {
    let cfg = config(false, true);
    assert_eq!(usbip_binary(&cfg), "usbip");
    assert_eq!(usbipd_binary(&cfg), "/usr/sbin/usbipd");
    let client = cfg.client.unwrap();
    assert_eq!(usbip_port(&client), DEFAULT_USBIP_PORT);
    assert_eq!(DEFAULT_USBIP_PORT, 3240);
    let named = ClientConfig { address: String::new(), port: 1, usbip_port: Some(4000) };
    assert_eq!(usbip_port(&named), 4000);
}

#[test]
fn flags_follow_table_order() {
    let f = vusb::cli::flags_from(&vec![false, true, true]);
    assert!(!f.server && f.client && f.help);
}
