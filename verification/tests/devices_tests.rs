use dnet_tui::common::devices::DeviceProperties;
use dnet_tui::input::{KeyCode, KeyPress};
use dnet_tui::views::devices::{
    after_devices_load, device_order, device_rows, handle_devices_input, refresh_due, DevicesView, RowStyle,
};

fn device(name: &str, ip: &str, port: u16, manager: bool, busy: bool) -> (String, DeviceProperties) {
    (
        name.to_string(),
        DeviceProperties {
            is_manager: manager,
            is_busy: busy,
            instance: name.to_string(),
            server_port: port,
            shard_port: port + 1,
            local_ip: ip.to_string(),
            thunderbolt: None,
        },
    )
}

#[test]
fn devices_sort_by_address_keeping_ties_in_order() {
    let ds = vec![
        device("c", "10.0.0.2", 8080, false, false),
        device("a", "10.0.0.10", 8080, true, false),
        device("b", "10.0.0.2", 8080, false, true),
        device("d", "10.0.0.1", 9000, false, false),
    ];
    // "10.0.0.10:8080" < "10.0.0.1:9000" ('0' before ':') < "10.0.0.2:8080" (twice, in listing order)
    let ord = device_order(&ds);
    assert_eq!(ord, vec![1, 3, 0, 2]);
    let rows = device_rows(&ds, &ord);
    assert_eq!(rows[0].style, RowStyle::Manager);
    assert_eq!(rows[1].instance, "d");
    assert_eq!(rows[1].ip, "10.0.0.1");
    assert_eq!(rows[1].http_port, "9000");
    assert_eq!(rows[1].grpc_port, "9001");
    assert_eq!(rows[2].style, RowStyle::Idle);
    assert_eq!(rows[3].style, RowStyle::Busy);
}

#[test]
fn device_refresh_and_keys() {
    assert!(refresh_due(true, 0, 5));
    assert!(refresh_due(false, 5, 5));
    assert!(!refresh_due(false, 4, 5));
    assert!(handle_devices_input(KeyPress { code: KeyCode::Esc, ctrl: false }));
    assert!(!handle_devices_input(KeyPress { code: KeyCode::Enter, ctrl: false }));
    assert!(matches!(after_devices_load(Err("x".into())), DevicesView::Error(ref e) if e == "x"));
    assert!(matches!(after_devices_load(Ok(vec![])), DevicesView::Loaded(ref v) if v.is_empty()));
}
