use dnet_tui::topology::{
    handle_shard_interaction_input, handle_topology_input, Device, TopologyCommand, TopologyResponse, TopologyState,
};
use dnet_tui::topology::model_loaded_in;
use dnet_tui::common::devices::DeviceProperties;
use dnet_tui::common::shard::ShardHealth;
use dnet_tui::common::topology::{AssignmentInfo, TopologyInfo};
use dnet_tui::config::KVBits;
use dnet_tui::input::{KeyCode, KeyPress};
use dnet_tui::topology::{topology_detail_check, topology_reply_check};
use dnet_tui::views::topology::ring::{
    handle_topology_ring_input, ring_entries, ring_error_kind, topology_error_message, RingAction,
    RingErrorKind, TopologyRingState,
};
use dnet_tui::views::topology::shard::{
    format_layer_ranges, queue_level, shard_fetch_target, shard_status_kind, QueueLevel,
    ShardStatusKind,
};

fn device(instance: &str, ip: &str, port: u16) -> DeviceProperties {
    DeviceProperties {
        is_manager: false,
        is_busy: false,
        instance: instance.to_string(),
        server_port: port,
        shard_port: port + 1,
        local_ip: ip.to_string(),
        thunderbolt: None,
    }
}

fn topology() -> TopologyInfo {
    TopologyInfo {
        model: Some("m".to_string()),
        num_layers: 4,
        devices: vec![device("shard-a", "10.0.0.1", 8080), device("shard-b", "10.0.0.2", 8090), device("c", "10.0.0.3", 80)],
        assignments: vec![
            AssignmentInfo {
                instance: "shard-b".into(),
                layers: vec![vec![2, 3]],
                next_instance: "shard-a".into(),
                window_size: 2,
                residency_size: 2,
            },
            AssignmentInfo {
                instance: "shard-a".into(),
                layers: vec![vec![0, 1], vec![9]],
                next_instance: "shard-b".into(),
                window_size: 1,
                residency_size: 2,
            },
        ],
        kv_bits: KVBits::Bits8,
    }
}

#[test]
fn test_format_layer_ranges() {
    assert_eq!(format_layer_ranges(&[]), "none");
    assert_eq!(format_layer_ranges(&[0]), "0");
    assert_eq!(format_layer_ranges(&[0, 1, 2, 3]), "0-3");
    assert_eq!(format_layer_ranges(&[0, 1, 2, 5, 6, 7]), "0-2, 5-7");
    assert_eq!(format_layer_ranges(&[0, 2, 4, 6]), "0, 2, 4, 6");
    assert_eq!(format_layer_ranges(&[0, 1, 2, 10, 20, 21, 22]), "0-2, 10, 20-22");
}

#[test]
fn test_format_layers() {
    let layers = vec![
        vec![0, 1, 2, 3, 4, 5, 6, 7, 8, 9, 10, 11],
        vec![12, 13, 14, 15, 16, 17, 18, 19, 20, 21, 22, 23],
        vec![24, 25, 26, 27, 28, 29, 30, 31, 32, 33, 34, 35],
        vec![36],
    ];
    let formatted = TopologyInfo::format_layers(&layers);
    assert_eq!(formatted, "[0..11, 12..23, 24..35, 36]");
}

#[test]
fn layer_ranges_sort_first() {
    assert_eq!(format_layer_ranges(&[7, 1, 0, 2]), "0-2, 7");
    assert_eq!(TopologyInfo::format_layers(&[]), "[]");
    assert_eq!(TopologyInfo::format_layers(&[vec![]]), "[[]]");
    assert_eq!(TopologyResponse::format_layers(&[vec![5], vec![1, 2]]), "[5, 1..2]");
}

#[test]
fn device_short_names() {
    assert_eq!(TopologyResponse::device_short_name("shard-01.local.lan"), "shard-01");
    assert_eq!(TopologyResponse::device_short_name("plain"), "plain");
    assert_eq!(TopologyResponse::device_short_name(".x"), "");
}

#[test]
fn fetch_errors_are_explained() {
    assert_eq!(
        topology_error_message("HTTP 404 Not Found"),
        "No topology configured yet. Please load a model first to create a topology."
    );
    assert_eq!(
        topology_error_message("error sending request for url"),
        "Cannot connect to API server. Please check your settings and ensure the server is running."
    );
    assert_eq!(topology_error_message("boom"), "Error: boom");
    assert_eq!(ring_error_kind("No topology available"), RingErrorKind::NoTopology);
    assert_eq!(ring_error_kind("Cannot connect to API server. x"), RingErrorKind::Connection);
    assert_eq!(ring_error_kind("Error: boom"), RingErrorKind::Other);
}

#[test]
fn topology_replies_are_checked() {
    // the detail message of the body is read with serde_json
    assert_eq!(
        topology_reply_check(400, false, r#"{"detail": "call prepare_topology first"}"#, "Bad Request").as_deref(),
        Some("No topology configured")
    );
    assert_eq!(
        topology_reply_check(500, false, r#"{"detail": "disk full"}"#, "Internal Server Error").as_deref(),
        Some("disk full")
    );
    assert_eq!(topology_reply_check(404, false, "nope", "Not Found").as_deref(), Some("No topology found - model not loaded"));
    assert_eq!(topology_reply_check(503, false, "", "Service Unavailable").as_deref(), Some("API returned error: 503 Service Unavailable"));
    assert_eq!(topology_reply_check(200, true, r#"{"model": "m"}"#, "OK"), None);
    assert_eq!(topology_detail_check(200, true, Some("fine".into()), "OK"), None);
}

#[test]
fn ring_selection_wraps_around() {
    let t = Some(topology());
    let mut sel = 0usize;
    let up = KeyPress { code: KeyCode::Up, ctrl: false };
    let down = KeyPress { code: KeyCode::Down, ctrl: false };
    assert!(matches!(handle_topology_ring_input(up, &TopologyRingState::Loaded, &t, &mut sel), RingAction::Stay));
    assert_eq!(sel, 2);
    handle_topology_ring_input(down, &TopologyRingState::Loaded, &t, &mut sel);
    assert_eq!(sel, 0);
    handle_topology_ring_input(down, &TopologyRingState::Loading, &t, &mut sel);
    assert_eq!(sel, 0);
    let enter = KeyPress { code: KeyCode::Enter, ctrl: false };
    match handle_topology_ring_input(enter, &TopologyRingState::Loaded, &t, &mut sel) {
        RingAction::OpenShard(n) => assert_eq!(n, "shard-a"),
        _ => panic!(),
    }
    sel = 2;
    let esc = KeyPress { code: KeyCode::Esc, ctrl: false };
    assert!(matches!(handle_topology_ring_input(esc, &TopologyRingState::Loaded, &t, &mut sel), RingAction::ToMenu));
    assert_eq!(sel, 0);
    let quit = KeyPress { code: KeyCode::Char('c'), ctrl: true };
    assert!(matches!(handle_topology_ring_input(quit, &TopologyRingState::Loaded, &t, &mut sel), RingAction::Quit));
}

#[test]
fn ring_shows_assigned_devices() {
    let t = topology();
    let entries = ring_entries(&t, 1);
    assert_eq!(entries.len(), 2);
    assert_eq!(entries[0].index, 0);
    assert_eq!(entries[0].name, "a");
    assert_eq!(entries[0].address, "10.0.0.1:8081 (8080)");
    assert_eq!(entries[0].layers, "[0..1, 9]");
    assert_eq!(entries[0].num_rounds, 2);
    assert_eq!(entries[0].window_size, 1);
    assert!(!entries[0].is_selected);
    assert_eq!(entries[1].name, "b");
    assert!(entries[1].is_selected);
}

#[test]
fn shard_health_lookup_and_levels() {
    let t = Some(topology());
    assert_eq!(shard_fetch_target(&t, "shard-b"), Ok(("10.0.0.2".to_string(), 8090)));
    assert_eq!(shard_fetch_target(&t, "zz"), Err("Device 'zz' not found in topology".to_string()));
    assert_eq!(shard_fetch_target(&None, "zz"), Err("No topology information available".to_string()));
    assert_eq!(queue_level(0), QueueLevel::Idle);
    assert_eq!(queue_level(9), QueueLevel::Active);
    assert_eq!(queue_level(10), QueueLevel::Busy);
    let h = ShardHealth {
        status: "ok".into(),
        running: true,
        model_loaded: false,
        model_path: None,
        assigned_layers: vec![],
        queue_size: 0,
        grpc_port: 1,
        http_port: 2,
        instance: "s".into(),
    };
    assert_eq!(shard_status_kind(&h), ShardStatusKind::Healthy);
}

#[test]
fn model_loaded_reads_the_topology_body() {
    assert!(model_loaded_in(r#"{"model": "Qwen/Qwen3-4B-MLX-4bit"}"#));
    assert!(!model_loaded_in(r#"{"model": ""}"#));
    assert!(!model_loaded_in(r#"{"model": null}"#));
    assert!(!model_loaded_in("garbage"));
}

#[test]
fn compact_topology_screen_keys() {
    let dev = |n: &str| Device {
        is_manager: false,
        is_busy: false,
        instance: n.to_string(),
        host: "h".into(),
        server_port: 1,
        shard_port: 2,
        local_ip: "ip".into(),
        thunderbolt: None,
    };
    let state = TopologyState::Loaded(TopologyResponse {
        model: "m".into(),
        num_layers: 2,
        devices: vec![dev("x"), dev("y")],
        assignments: vec![],
    });
    let mut sel = 0usize;
    handle_topology_input(KeyPress { code: KeyCode::Up, ctrl: false }, &state, &mut sel);
    assert_eq!(sel, 1);
    match handle_topology_input(KeyPress { code: KeyCode::Enter, ctrl: false }, &state, &mut sel) {
        TopologyCommand::OpenShard(n) => assert_eq!(n, "y"),
        _ => panic!(),
    }
    assert!(matches!(handle_topology_input(KeyPress { code: KeyCode::Esc, ctrl: false }, &state, &mut sel), TopologyCommand::ToMenu));
    assert_eq!(sel, 0);
    assert!(matches!(handle_shard_interaction_input(KeyPress { code: KeyCode::Esc, ctrl: false }), TopologyCommand::ToMenu));
    assert!(matches!(handle_shard_interaction_input(KeyPress { code: KeyCode::Char('C'), ctrl: true }), TopologyCommand::Quit));
}
