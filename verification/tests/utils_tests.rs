use dnet_tui::utils::{get_sliding_text, layers_from_readings, sliding_text_at, sliding_text_checked, ModelConfig};
use std::time::Duration;

#[test]
fn test_slider() {
    // ensure text slides correctly w.r.t duration
    let text = "abc";
    let x = Duration::from_millis(500);

    // smaller window than text length
    // (should cycle-back at text length)
    assert_eq!(get_sliding_text(x * 0, text, 2), "ab");
    assert_eq!(get_sliding_text(x * 1, text, 2), "bc");
    assert_eq!(get_sliding_text(x * 2, text, 2), "c ");
    assert_eq!(get_sliding_text(x * 3, text, 2), "ab");

    // exact window size equals text length (should not slide at all)
    assert_eq!(get_sliding_text(x * 0, text, 3), "abc");
    assert_eq!(get_sliding_text(x * 1, text, 3), "abc");
    assert_eq!(get_sliding_text(x * 2, text, 3), "abc");

    // larger window than text length (should not slide at all)
    assert_eq!(get_sliding_text(x * 0, text, 5), "abc");
    assert_eq!(get_sliding_text(x * 1, text, 5), "abc");
    assert_eq!(get_sliding_text(x * 2, text, 5), "abc");
    assert_eq!(get_sliding_text(x * 3, text, 5), "abc");
}

#[test]
fn sliding_text_steps_every_half_second() {
    assert_eq!(sliding_text_at(0, "shard-01", 4), "shar");
    assert_eq!(sliding_text_at(499, "shard-01", 4), "shar");
    assert_eq!(sliding_text_at(500, "shard-01", 4), "hard");
    assert_eq!(sliding_text_at(3500, "shard-01", 4), "1 sh");
    assert_eq!(sliding_text_at(4000, "shard-01", 4), "shar");
}

#[test]
fn sliding_text_counts_bytes_against_the_window() {
    // "é" takes two bytes: the text is 3 bytes long, wider than a window of 2
    assert_eq!(sliding_text_at(0, "éa", 2), "éa");
    assert_eq!(sliding_text_at(0, "éa", 3), "éa");
    // offset 2 bytes in starts at 'a'
    assert_eq!(sliding_text_at(1000, "éa", 2), "a ");
}

#[test]
fn layer_count_prefers_num_hidden_layers() {
    assert_eq!(layers_from_readings(Some(64), Some(32), Some(16)), Some(64));
    assert_eq!(layers_from_readings(None, Some(32), Some(16)), Some(32));
    assert_eq!(layers_from_readings(None, None, Some(16)), Some(16));
    assert_eq!(layers_from_readings(None, None, None), None);
}

#[test]
fn model_config_reads_layer_count_from_json() {
    let c = ModelConfig::new(r#"{"num_hidden_layers": 64, "hidden_size": 5120}"#.to_string());
    assert_eq!(c.num_layers(), Some(64));
    let c = ModelConfig::new(r#"{"num_layers": "many", "num_hidden": 12}"#.to_string());
    assert_eq!(c.num_layers(), Some(12));
    let c = ModelConfig::new(r#"{"num_layers": -3}"#.to_string());
    assert_eq!(c.num_layers(), None);
    let c = ModelConfig::new("not json".to_string());
    assert_eq!(c.num_layers(), None);
}

#[test]
fn sliding_text_checked_refuses_offsets_inside_a_character() {
    // 500 ms in, the offset is 1 byte: inside the two-byte "é"
    assert_eq!(sliding_text_checked(Duration::from_millis(500), "éa", 2), None);
    assert_eq!(sliding_text_checked(Duration::from_millis(1000), "éa", 2), Some("a ".to_string()));
    assert_eq!(sliding_text_checked(Duration::from_millis(500), "éa", 3), Some("éa".to_string()));
    assert_eq!(sliding_text_checked(Duration::from_millis(1500), "shard-01", 4), Some("rd-0".to_string()));
}

#[test]
fn sliding_text_follows_the_duration() {
    assert_eq!(get_sliding_text(Duration::from_millis(3500), "shard-01", 4), "1 sh");
    assert_eq!(get_sliding_text(Duration::from_secs(2), "shard-01", 4), "d-01");
    assert_eq!(get_sliding_text(Duration::from_secs(4), "shard-01", 4), "shar");
}
