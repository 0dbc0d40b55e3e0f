use dnet_tui::common::devices::DeviceProperties;
use dnet_tui::common::shard::ShardHealth;
use dnet_tui::config::Config;
use dnet_tui::input::{KeyCode, KeyPress};
use dnet_tui::views::developer::assignments::Assignments;
use dnet_tui::views::developer::manual::{
    handle_manual_assignment_input, layer_cells, partition_shards, DeveloperView, LayerCell,
    ManualAssignmentState, ManualAssignmentView, ShardInfo,
};
use dnet_tui::views::developer::menu::{developer_menu_items, handle_developer_menu_input, DeveloperMenuAction};
use dnet_tui::views::developer::submit::{
    after_fetching_shards, after_manual_load, after_submit, manual_topology_request, shard_devices,
};
use dnet_tui::views::developer::utils::{determine_next_instances, find_missing_layers, format_layers, parse_layer_input};
use dnet_tui::widgets::model_selector::ModelSelectorState;
use std::collections::HashSet;

fn device(instance: &str, manager: bool) -> DeviceProperties {
    DeviceProperties {
        is_manager: manager,
        is_busy: false,
        instance: instance.to_string(),
        server_port: 8080,
        shard_port: 8081,
        local_ip: "10.0.0.9".to_string(),
        thunderbolt: None,
    }
}

fn shard(name: &str) -> ShardInfo {
    ShardInfo::from_health(device(name, false), None)
}

#[test]
fn layer_input_parsing() {
    assert_eq!(parse_layer_input("0-3, 7", 10), Some(vec![0, 1, 2, 3, 7]));
    assert_eq!(parse_layer_input("5,1,5", 10), Some(vec![1, 5]));
    assert_eq!(parse_layer_input("8-12", 10), None);
    assert_eq!(parse_layer_input(" 8 - 9 ,", 10), Some(vec![8, 9]));
    assert_eq!(parse_layer_input("x", 10), None);
    assert_eq!(format_layers(&[0, 1, 2, 3, 7, 9, 10]), "0-3,7,9-10");
    assert_eq!(format_layers(&[]), "[]");
    let mut assigned = HashSet::new();
    assigned.insert(0u32);
    assigned.insert(2u32);
    assert_eq!(find_missing_layers(&assigned, 4), vec![1, 3]);
}

#[test]
fn next_instances_follow_the_layers() {
    let mut a = Assignments::new();
    a.insert("s1".to_string(), vec![0, 1]);
    a.insert("s2".to_string(), vec![2, 3]);
    let mut next = determine_next_instances(&a);
    next.sort();
    assert_eq!(next, vec![("s1".to_string(), "s2".to_string()), ("s2".to_string(), "s1".to_string())]);
}

#[test]
fn manual_request_lists_assigned_shards() {
    let shards = vec![shard("s1"), shard("s2"), shard("s3")];
    let mut a = Assignments::new();
    a.insert("s3".to_string(), vec![0, 1]);
    a.insert("s1".to_string(), vec![2, 3, 4]);
    let next = determine_next_instances(&a);
    let req = manual_topology_request(&Config::default(), "m", 5, &shards, &a, &next);
    assert_eq!(req.model, "m");
    assert_eq!(req.num_layers, 5);
    assert_eq!(req.devices.len(), 2);
    assert_eq!(req.devices[0].instance, "s1");
    assert_eq!(req.devices[1].instance, "s3");
    assert_eq!(req.assignments[0].instance, "s1");
    assert_eq!(req.assignments[0].layers, vec![vec![2, 3, 4]]);
    assert_eq!(req.assignments[0].next_instance, "s3");
    assert_eq!(req.assignments[0].window_size, 3);
    assert_eq!(req.assignments[1].next_instance, "s1");
    assert_eq!(req.seq_len, 4096);
    assert_eq!(req.max_batch_size, 2);
}

#[test]
fn shards_come_from_non_manager_devices() {
    let listing = vec![
        ("api".to_string(), device("api", true)),
        ("s1".to_string(), device("s1", false)),
    ];
    let ds = shard_devices(&listing);
    assert_eq!(ds.len(), 1);
    assert_eq!(ds[0].instance, "s1");
    let h = ShardHealth {
        status: "ok".into(),
        running: true,
        model_loaded: true,
        model_path: None,
        assigned_layers: vec![3],
        queue_size: 0,
        grpc_port: 1,
        http_port: 2,
        instance: "s1".into(),
    };
    let s = ShardInfo::from_health(device("s1", false), Some(h));
    assert!(s.model_loaded);
    assert_eq!(s.assigned_layers, vec![3]);
}

#[test]
fn manual_assignment_steps() {
    let mut st = ManualAssignmentState::new();
    let v = after_fetching_shards(&mut st, "m".into(), Ok((vec![shard("s1"), shard("s2")], 4)));
    assert!(matches!(v, ManualAssignmentView::AssigningLayers));
    assert_eq!(st.num_layers, 4);
    let v = after_fetching_shards(&mut st, "m".into(), Err("boom".into()));
    assert!(matches!(v, ManualAssignmentView::Error(ref e) if e == "boom"));
    assert_eq!(st.shards.len(), 2);
    assert!(matches!(after_submit("m".into(), Ok(())), ManualAssignmentView::LoadingModel(ref m) if m == "m"));
    assert!(matches!(after_manual_load(Err("x".into())), ManualAssignmentView::Error(ref e) if e == "Failed to load model: x"));
    assert!(matches!(after_manual_load(Ok(())), ManualAssignmentView::Success));
}

#[test]
fn typing_layers_assigns_them() {
    let mut st = ManualAssignmentState::new();
    after_fetching_shards(&mut st, "m".into(), Ok((vec![shard("s1"), shard("s2")], 4)));
    let mut input = String::new();
    let mut status = String::new();
    let mut selector = ModelSelectorState::new();
    let ids: Vec<String> = vec![];
    let view = ManualAssignmentView::AssigningLayers;
    let k = |code| KeyPress { code, ctrl: false };
    handle_manual_assignment_input(&mut st, &view, k(KeyCode::Enter), &mut input, &mut status, &mut selector, &ids);
    assert!(st.is_typing);
    for c in "0-1".chars() {
        handle_manual_assignment_input(&mut st, &view, k(KeyCode::Char(c)), &mut input, &mut status, &mut selector, &ids);
    }
    assert_eq!(input, "0-1");
    handle_manual_assignment_input(&mut st, &view, k(KeyCode::Enter), &mut input, &mut status, &mut selector, &ids);
    assert!(!st.is_typing);
    let (unassigned, assigned) = partition_shards(&st);
    assert_eq!(unassigned, vec![1]);
    assert_eq!(assigned, vec![0]);
    let cells = layer_cells(&st, Some(0));
    assert_eq!(cells, vec![LayerCell::Selected, LayerCell::Selected, LayerCell::Free, LayerCell::Free]);
    let cells = layer_cells(&st, None);
    assert_eq!(cells[0], LayerCell::Assigned);
    let next = handle_manual_assignment_input(&mut st, &view, k(KeyCode::Esc), &mut input, &mut status, &mut selector, &ids);
    assert!(matches!(next, Some(DeveloperView::ManualAssignment(ManualAssignmentView::SelectingModel))));
}

#[test]
fn developer_menu() {
    let mut i = 0usize;
    assert_eq!(developer_menu_items().len(), 1);
    assert_eq!(handle_developer_menu_input(KeyPress { code: KeyCode::Enter, ctrl: false }, &mut i), DeveloperMenuAction::StartManualAssignment);
    i = 1;
    assert_eq!(handle_developer_menu_input(KeyPress { code: KeyCode::Enter, ctrl: false }, &mut i), DeveloperMenuAction::Stay);
    assert_eq!(handle_developer_menu_input(KeyPress { code: KeyCode::Esc, ctrl: false }, &mut i), DeveloperMenuAction::ToMenu);
    assert_eq!(i, 0);
}

#[test]
fn formatted_layers_parse_back_ascending() {
    let v = vec![9, 3, 1, 2, 3, 5, 0];
    assert_eq!(parse_layer_input(&format_layers(&v), 10), Some(vec![0, 1, 2, 3, 5, 9]));
    assert_eq!(parse_layer_input(&format_layers(&[4]), 5), Some(vec![4]));
    assert_eq!(parse_layer_input(&format_layers(&[7, 6, 5, 4]), 8), Some(vec![4, 5, 6, 7]));
}

#[test]
fn typed_layers_are_kept_ascending() {
    let mut st = ManualAssignmentState::new();
    after_fetching_shards(&mut st, "m".into(), Ok((vec![shard("s1"), shard("s2")], 8)));
    let mut input = String::new();
    let mut status = String::new();
    let mut selector = ModelSelectorState::new();
    let ids: Vec<String> = vec![];
    let view = ManualAssignmentView::AssigningLayers;
    let k = |code| KeyPress { code, ctrl: false };
    handle_manual_assignment_input(&mut st, &view, k(KeyCode::Enter), &mut input, &mut status, &mut selector, &ids);
    for c in "6,2-3,0".chars() {
        handle_manual_assignment_input(&mut st, &view, k(KeyCode::Char(c)), &mut input, &mut status, &mut selector, &ids);
    }
    handle_manual_assignment_input(&mut st, &view, k(KeyCode::Enter), &mut input, &mut status, &mut selector, &ids);
    assert_eq!(st.assignments.get(&"s1".to_string()), Some(&vec![0, 2, 3, 6]));
}
