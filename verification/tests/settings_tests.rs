use dnet_tui::config::{
    default_devices_refresh_interval, default_max_batch_exp, default_max_tokens, default_seq_len,
    Config, KVBits, SettingError,
};
use dnet_tui::input::{KeyCode, KeyPress};
use dnet_tui::settings::{handle_settings_input as handle_two_field, save_message, SettingsCommand};
use dnet_tui::text::IntErrorKind;
use dnet_tui::views::settings::{
    handle_settings_input, save_failed, save_succeeded, SettingsAction, SettingsField, SettingsState,
    SettingsStatus,
};

fn key(code: KeyCode) -> KeyPress {
    KeyPress { code, ctrl: false }
}

#[test]
fn config_defaults() {
    let c = Config::default();
    assert_eq!(c.api_host, "127.0.0.1");
    assert_eq!(c.api_port, 8080);
    assert_eq!(c.api_url(), "http://127.0.0.1:8080");
    assert_eq!(default_max_tokens(), 2000);
    assert_eq!(default_devices_refresh_interval(), 1);
    assert_eq!(default_max_batch_exp(), 2);
    assert_eq!(default_seq_len(), 4096);
    assert_eq!(c.kv_bits, KVBits::Bits8);
}

#[test]
fn kv_bits_names() {
    assert_eq!(KVBits::from_str(" FP16 ").ok(), Some(KVBits::FP16));
    assert_eq!(KVBits::from_str("4BIT").ok(), Some(KVBits::Bits4));
    assert_eq!(KVBits::Bits8.to_string(), "8bit");
    let e = KVBits::from_str("2bit").err().unwrap();
    assert_eq!(e.value, "2bit");
}

#[test]
fn writing_settings_parses_and_clamps() {
    let mut c = Config::default();
    assert!(c.write_setting(SettingsField::MaxTokens, "0").is_ok());
    assert_eq!(c.max_tokens, 1);
    assert!(c.write_setting(SettingsField::MaxTokens, "999999").is_ok());
    assert_eq!(c.max_tokens, 100000);
    assert!(c.write_setting(SettingsField::MaxBatchExp, "9").is_ok());
    assert_eq!(c.max_batch_exp, 8);
    assert!(c.write_setting(SettingsField::DevicesRefreshInterval, "7200").is_ok());
    assert_eq!(c.devices_refresh_interval, 3600);
    assert!(c.write_setting(SettingsField::SeqLen, "1000000").is_ok());
    assert_eq!(c.seq_len, 999999);
    assert!(c.write_setting(SettingsField::Host, "10.1.1.1").is_ok());
    assert_eq!(c.read_setting(SettingsField::Host), "10.1.1.1");
    match c.write_setting(SettingsField::Port, "70000") {
        Err(SettingError::InvalidNumber(k)) => assert_eq!(k, IntErrorKind::PosOverflow),
        _ => panic!(),
    }
    match c.write_setting(SettingsField::Port, "") {
        Err(SettingError::InvalidNumber(k)) => assert_eq!(k, IntErrorKind::Empty),
        _ => panic!(),
    }
    match c.write_setting(SettingsField::Port, "80a") {
        Err(e) => assert_eq!(e.message(), "invalid digit found in string"),
        _ => panic!(),
    }
    match c.write_setting(SettingsField::KVBits, "bad") {
        Err(e) => assert_eq!(e.message(), "Invalid KV Bits value: bad"),
        _ => panic!(),
    }
    assert_eq!(c.read_setting(SettingsField::Port), "8080");
}

#[test]
fn settings_list_wraps_around() {
    let mut st = SettingsState::new(Config::default());
    let mut input = String::new();
    assert_eq!(handle_settings_input(&mut st, key(KeyCode::Up), &mut input, "0.70"), SettingsAction::Stay);
    assert_eq!(st.selection, SettingsField::SeqLen);
    handle_settings_input(&mut st, key(KeyCode::Down), &mut input, "0.70");
    assert_eq!(st.selection, SettingsField::Host);
    let mut seen = vec![];
    for _ in 0..8 {
        handle_settings_input(&mut st, key(KeyCode::Down), &mut input, "0.70");
        seen.push(st.selection.label());
    }
    assert_eq!(seen.last(), Some(&"API Host"));
    assert_eq!(seen[2], "Temperature");
    assert_eq!(SettingsField::all().len(), 8);
}

#[test]
fn editing_a_setting() {
    let mut st = SettingsState::new(Config::default());
    let mut input = String::new();
    handle_settings_input(&mut st, key(KeyCode::Down), &mut input, "0.70");
    handle_settings_input(&mut st, key(KeyCode::Enter), &mut input, "0.70");
    assert!(st.is_editing);
    assert_eq!(input, "8080");
    handle_settings_input(&mut st, key(KeyCode::Backspace), &mut input, "0.70");
    handle_settings_input(&mut st, key(KeyCode::Char('1')), &mut input, "0.70");
    assert_eq!(input, "8081");
    handle_settings_input(&mut st, key(KeyCode::Enter), &mut input, "0.70");
    assert!(!st.is_editing);
    assert_eq!(st.temp_config.api_port, 8081);
    match &st.status {
        SettingsStatus::Info(m) => assert_eq!(m, "API Port updated (press 's' to save)"),
        _ => panic!(),
    }
    // a refused value keeps the edit open
    handle_settings_input(&mut st, key(KeyCode::Enter), &mut input, "0.70");
    input = "x".to_string();
    handle_settings_input(&mut st, key(KeyCode::Enter), &mut input, "0.70");
    assert!(st.is_editing);
    match &st.status {
        SettingsStatus::Error(m) => assert_eq!(m, "[ERROR] invalid digit found in string"),
        _ => panic!(),
    }
    handle_settings_input(&mut st, key(KeyCode::Esc), &mut input, "0.70");
    assert!(!st.is_editing && input.is_empty() && st.status.is_empty());
}

#[test]
fn temperature_goes_through_the_application() {
    let mut st = SettingsState::new(Config::default());
    let mut input = String::new();
    for _ in 0..3 {
        handle_settings_input(&mut st, key(KeyCode::Down), &mut input, "0.70");
    }
    assert_eq!(st.selection, SettingsField::Temperature);
    handle_settings_input(&mut st, key(KeyCode::Enter), &mut input, "0.70");
    assert_eq!(input, "0.70");
    assert_eq!(handle_settings_input(&mut st, key(KeyCode::Enter), &mut input, "0.70"), SettingsAction::ApplyTemperature);
}

#[test]
fn settings_actions() {
    let mut st = SettingsState::new(Config::default());
    let mut input = String::new();
    assert_eq!(handle_settings_input(&mut st, key(KeyCode::Char('s')), &mut input, ""), SettingsAction::Save);
    assert_eq!(handle_settings_input(&mut st, KeyPress { code: KeyCode::Char('C'), ctrl: true }, &mut input, ""), SettingsAction::Quit);
    assert_eq!(handle_settings_input(&mut st, key(KeyCode::Esc), &mut input, ""), SettingsAction::ToMenu);
    save_succeeded(&mut st, "./dnet.json");
    match &st.status {
        SettingsStatus::Info(m) => assert_eq!(m, "Configuration saved to ./dnet.json"),
        _ => panic!(),
    }
    save_failed(&mut st, "denied");
    match &st.status {
        SettingsStatus::Error(m) => assert_eq!(m, "[ERROR] Could not save config: denied"),
        _ => panic!(),
    }
    st.status.clear();
    assert!(st.status.is_empty());
}

#[test]
fn two_field_settings() {
    let mut field = dnet_tui::settings::SettingsField::Host;
    let mut input = String::new();
    let mut temp = Config::default();
    let mut status = String::new();
    assert_eq!(handle_two_field(&mut field, key(KeyCode::Down), &mut input, &mut temp, &mut status), SettingsCommand::Stay);
    assert_eq!(field, dnet_tui::settings::SettingsField::Port);
    handle_two_field(&mut field, key(KeyCode::Enter), &mut input, &mut temp, &mut status);
    assert_eq!(input, "8080");
    input = "99999".to_string();
    handle_two_field(&mut field, key(KeyCode::Enter), &mut input, &mut temp, &mut status);
    assert_eq!(status, "Invalid port number!");
    assert!(input.is_empty());
    input = "9000".to_string();
    handle_two_field(&mut field, key(KeyCode::Enter), &mut input, &mut temp, &mut status);
    assert_eq!(temp.api_port, 9000);
    assert_eq!(status, "Port updated (press 's' to save)");
    assert_eq!(handle_two_field(&mut field, key(KeyCode::Char('s')), &mut input, &mut temp, &mut status), SettingsCommand::Save);
    assert_eq!(save_message(Ok("x.json")), "Configuration saved to x.json");
    assert_eq!(save_message(Err("no")), "Failed to save: no");
}

#[test]
fn writing_back_a_read_setting_changes_nothing() {
    let mut c = Config::default();
    c.api_port = 9000;
    c.max_tokens = 100000;
    c.devices_refresh_interval = 3600;
    c.kv_bits = KVBits::FP16;
    c.max_batch_exp = 8;
    c.seq_len = 0;
    let fields = [
        SettingsField::Host,
        SettingsField::Port,
        SettingsField::MaxTokens,
        SettingsField::DevicesRefreshInterval,
        SettingsField::KVBits,
        SettingsField::MaxBatchExp,
        SettingsField::SeqLen,
    ];
    for f in fields {
        let before = c.clone();
        let text = c.read_setting(f);
        assert!(c.write_setting(f, &text).is_ok());
        assert_eq!(c.api_host, before.api_host);
        assert_eq!(c.api_port, before.api_port);
        assert_eq!(c.max_tokens, before.max_tokens);
        assert_eq!(c.devices_refresh_interval, before.devices_refresh_interval);
        assert_eq!(c.kv_bits, before.kv_bits);
        assert_eq!(c.max_batch_exp, before.max_batch_exp);
        assert_eq!(c.seq_len, before.seq_len);
    }
}

#[test]
fn settings_labels_are_distinct_and_fit_twenty_columns() {
    let fields = SettingsField::all();
    assert_eq!(SettingsField::DevicesRefreshInterval.label(), "Device Refresh (s)");
    for (i, a) in fields.iter().enumerate() {
        assert!(!a.label().is_empty() && a.label().len() <= 20);
        for b in fields.iter().skip(i + 1) {
            assert_ne!(a.label(), b.label());
        }
    }
}
