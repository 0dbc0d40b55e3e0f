use vstd::prelude::*;

use crate::input::{KeyCode, KeyPress};
use crate::views::model::{LoadModelView, UnloadModelView};

verus! {

/// The body of a request to plan a topology for a model.
#[derive(Debug)]
pub struct PrepareTopologyRequest {
    pub model: String,
}

impl PrepareTopologyRequest {
    /// A request for the model `model`.
    pub fn new(model: &str) -> (r: PrepareTopologyRequest)
        ensures
            r.model@ == model@,
    {
        PrepareTopologyRequest { model: model.to_string() }
    }
}

/// The models the compact client offers, in the order it lists them.
pub open spec fn model_names() -> Seq<Seq<char>> {
    seq![
        "Qwen/Qwen3-4B-MLX-4bit"@,
        "Qwen/Qwen3-4B-MLX-8bit"@,
        "Qwen/Qwen3-32B-MLX-bf16"@,
        "Qwen/Qwen3-32B-MLX-8bit"@,
        "Qwen/Qwen3-32B-MLX-6bit"@,
        "NousResearch/Hermes-4-70B"@,
        "openai/gpt-oss-120b"@,
        "openai/gpt-oss-20b"@,
        "Qwen/Qwen3-30B-A3B-MLX-8bit"@,
        "Qwen/Qwen3-30B-A3B-MLX-bf16"@,
        "Qwen/Qwen3-30B-A3B-MLX-6bit"@,
    ]
}

/// The models the compact client offers.
pub fn available_models() -> (v: Vec<&'static str>)
    ensures
        v@.len() == model_names().len(),
        forall|i: int| 0 <= i < v@.len() ==> (#[trigger] v@[i])@ == model_names()[i],
{
    let v = vec![
        "Qwen/Qwen3-4B-MLX-4bit",
        "Qwen/Qwen3-4B-MLX-8bit",
        "Qwen/Qwen3-32B-MLX-bf16",
        "Qwen/Qwen3-32B-MLX-8bit",
        "Qwen/Qwen3-32B-MLX-6bit",
        "NousResearch/Hermes-4-70B",
        "openai/gpt-oss-120b",
        "openai/gpt-oss-20b",
        "Qwen/Qwen3-30B-A3B-MLX-8bit",
        "Qwen/Qwen3-30B-A3B-MLX-bf16",
        "Qwen/Qwen3-30B-A3B-MLX-6bit",
    ];
    assert forall|i: int| 0 <= i < v@.len() implies (#[trigger] v@[i])@ == model_names()[i] by {
        if i == 0 {} else if i == 1 {} else if i == 2 {} else if i == 3 {} else if i == 4 {}
        else if i == 5 {} else if i == 6 {} else if i == 7 {} else if i == 8 {} else if i == 9 {}
        else {}
    }
    v
}

/// What the compact model screens ask of the application after a key.
#[derive(Debug)]
pub enum ModelCommand {
    Stay,
    /// Back to the menu (the model cursor returns to the top).
    ToMenu,
    Quit,
    /// Start loading the named model.
    Start(String),
}

/// Whether the key is Control-C.
pub open spec fn is_ctrl_c(key: KeyPress) -> bool {
    key.ctrl && (key.code == KeyCode::Char('c') || key.code == KeyCode::Char('C'))
}

fn ctrl_c(key: KeyPress) -> (b: bool)
    ensures
        b == is_ctrl_c(key),
{
    key.ctrl && match key.code {
        KeyCode::Char(c) => c == 'c' || c == 'C',
        _ => false,
    }
}

/// Handles a key on the compact load screen with the model cursor at `*selected`: while
/// choosing, Esc goes back, Control-C quits, Up and Down move without wrapping, Enter
/// starts loading the model under the cursor; after an answer, Esc goes back and
/// Control-C quits; while working, only Control-C does anything.
pub fn handle_load_model_input(key: KeyPress, state: &LoadModelView, selected: &mut usize) -> (c: ModelCommand)
    requires
        state is SelectingModel && key.code is Enter && !is_ctrl_c(key) ==> *old(selected) < model_names().len(),
    ensures
        is_ctrl_c(key) ==> c is Quit && *final(selected) == *old(selected),
        !is_ctrl_c(key) && key.code is Esc && !(state is PreparingTopology || state is LoadingModel)
            ==> c is ToMenu && *final(selected) == 0,
        !is_ctrl_c(key) && state is SelectingModel ==> match key.code {
            KeyCode::Up => c is Stay && *final(selected) == (if *old(selected) > 0 { *old(selected) - 1 } else { 0 }),
            KeyCode::Down => c is Stay && *final(selected) == (if *old(selected) < 10 { *old(selected) + 1 } else { *old(selected) as int }),
            KeyCode::Enter => *final(selected) == *old(selected) && (c matches ModelCommand::Start(m) && m@ == model_names()[*old(selected) as int]),
            KeyCode::Esc => true,
            _ => c is Stay && *final(selected) == *old(selected),
        },
        !is_ctrl_c(key) && !(state is SelectingModel) && !(key.code is Esc && (state is Error || state is Success))
            ==> c is Stay && *final(selected) == *old(selected),
{
    if ctrl_c(key) {
        return ModelCommand::Quit;
    }
    match state {
        LoadModelView::SelectingModel => match key.code {
            KeyCode::Esc => {
                *selected = 0;
                ModelCommand::ToMenu
            },
            KeyCode::Up => {
                if *selected > 0 {
                    *selected = *selected - 1;
                }
                ModelCommand::Stay
            },
            KeyCode::Down => {
                if *selected < 10 {
                    *selected = *selected + 1;
                }
                ModelCommand::Stay
            },
            KeyCode::Enter => {
                let models = available_models();
                ModelCommand::Start(models[*selected].to_string())
            },
            _ => ModelCommand::Stay,
        },
        LoadModelView::Error(_) | LoadModelView::Success(_) => match key.code {
            KeyCode::Esc => {
                *selected = 0;
                ModelCommand::ToMenu
            },
            _ => ModelCommand::Stay,
        },
        _ => ModelCommand::Stay,
    }
}

/// Handles a key on the compact unload screen: after an answer Esc goes back; Control-C
/// quits at any time.
pub fn handle_unload_model_input(key: KeyPress, state: &UnloadModelView) -> (c: ModelCommand)
    ensures
        c is Quit <==> is_ctrl_c(key),
        c is ToMenu <==> (!is_ctrl_c(key) && key.code is Esc && !(state is Unloading)),
        !(c is Quit) && !(c is ToMenu) ==> c is Stay,
{
    if ctrl_c(key) {
        return ModelCommand::Quit;
    }
    match state {
        UnloadModelView::Unloading => ModelCommand::Stay,
        _ => match key.code {
            KeyCode::Esc => ModelCommand::ToMenu,
            _ => ModelCommand::Stay,
        },
    }
}

} // verus!
