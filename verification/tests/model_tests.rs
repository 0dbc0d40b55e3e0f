use dnet_tui::model::{available_models, handle_load_model_input as old_load, handle_unload_model_input as old_unload, ModelCommand};
use dnet_tui::common::api::LoadModelResponse;
use dnet_tui::common::topology::TopologyInfo;
use dnet_tui::config::KVBits;
use dnet_tui::input::{KeyCode, KeyPress};
use dnet_tui::model::PrepareTopologyRequest;
use dnet_tui::views::model::{
    after_load, after_prepare, after_unload, format_loaded_layers, handle_load_model_input,
    handle_unload_model_input, LoadAction, LoadModelView, UnloadModelView,
};
use dnet_tui::widgets::model_selector::{viewport_height, ModelSelector, ModelSelectorState};

fn key(code: KeyCode) -> KeyPress {
    KeyPress { code, ctrl: false }
}

#[test]
fn choosing_a_model_to_load() {
    let ids = vec!["a".to_string(), "b".to_string(), "c".to_string()];
    let mut sel = ModelSelectorState::new();
    let v = LoadModelView::SelectingModel;
    handle_load_model_input(key(KeyCode::Up), &v, &mut sel, &ids);
    assert_eq!(sel.selected(), 2);
    handle_load_model_input(key(KeyCode::Down), &v, &mut sel, &ids);
    assert_eq!(sel.selected(), 0);
    match handle_load_model_input(key(KeyCode::Enter), &v, &mut sel, &ids) {
        LoadAction::Start(m) => assert_eq!(m, "a"),
        _ => panic!(),
    }
    assert!(matches!(handle_load_model_input(key(KeyCode::Esc), &v, &mut sel, &ids), LoadAction::ToMenu));
    let busy = LoadModelView::PreparingTopology("a".into());
    assert!(matches!(handle_load_model_input(key(KeyCode::Esc), &busy, &mut sel, &ids), LoadAction::Stay));
}

#[test]
fn load_and_unload_progress() {
    assert!(matches!(after_prepare("m".into(), Ok(())), LoadModelView::LoadingModel(ref m) if m == "m"));
    assert!(matches!(after_prepare("m".into(), Err("e".into())), LoadModelView::Error(ref e) if e == "e"));
    let r = LoadModelResponse { model: "m".into(), success: true, shard_statuses: vec![], message: None };
    assert!(matches!(after_load(Ok(r)), LoadModelView::Success(_)));
    assert_eq!(format_loaded_layers(&[]), "[]");
    assert_eq!(format_loaded_layers(&[4, 5, 6]), "[4..6]");
    assert_eq!(format_loaded_layers(&[7]), "[7..7]");
    let mut t = Some(TopologyInfo { model: Some("m".into()), num_layers: 1, devices: vec![], assignments: vec![], kv_bits: KVBits::Bits8 });
    assert!(matches!(after_unload(Ok(()), &mut t), UnloadModelView::Success));
    assert!(t.unwrap().model.is_none());
    assert!(handle_unload_model_input(key(KeyCode::Esc)));
    assert_eq!(PrepareTopologyRequest::new("m").model, "m");
}

#[test]
fn model_list_scrolls_to_the_selection() {
    let items = vec!["a".to_string(), "b".to_string(), "c".to_string(), "d".to_string()];
    let sel_list = ModelSelector::new(&items);
    let mut st = ModelSelectorState::new();
    st.select(3);
    let rows = sel_list.visible_rows(&mut st, 2);
    assert_eq!(st.offset, 2);
    assert_eq!(rows, vec![("  c".to_string(), false), ("  d".to_string(), true)]);
    assert_eq!(viewport_height(10, true), 8);
    assert_eq!(viewport_height(1, true), 0);
    assert_eq!(viewport_height(10, false), 10);
}

#[test]
fn compact_model_screens() {
    assert_eq!(available_models().len(), 11);
    assert_eq!(available_models()[5], "NousResearch/Hermes-4-70B");
    let mut sel = 0usize;
    let v = LoadModelView::SelectingModel;
    old_load(key(KeyCode::Up), &v, &mut sel);
    assert_eq!(sel, 0);
    for _ in 0..20 {
        old_load(key(KeyCode::Down), &v, &mut sel);
    }
    assert_eq!(sel, 10);
    match old_load(key(KeyCode::Enter), &v, &mut sel) {
        ModelCommand::Start(m) => assert_eq!(m, "Qwen/Qwen3-30B-A3B-MLX-6bit"),
        _ => panic!(),
    }
    assert!(matches!(old_load(KeyPress { code: KeyCode::Char('c'), ctrl: true }, &LoadModelView::LoadingModel("m".into()), &mut sel), ModelCommand::Quit));
    assert!(matches!(old_load(key(KeyCode::Esc), &LoadModelView::LoadingModel("m".into()), &mut sel), ModelCommand::Stay));
    assert!(matches!(old_load(key(KeyCode::Esc), &LoadModelView::Error("e".into()), &mut sel), ModelCommand::ToMenu));
    assert_eq!(sel, 0);
    assert!(matches!(old_unload(key(KeyCode::Esc), &UnloadModelView::Unloading), ModelCommand::Stay));
    assert!(matches!(old_unload(key(KeyCode::Esc), &UnloadModelView::Success), ModelCommand::ToMenu));
}
