//! The screens that load and unload a model.

use vstd::prelude::*;

use crate::common::api::LoadModelResponse;
use crate::common::topology::TopologyInfo;
use crate::input::{KeyCode, KeyPress};
use crate::text::{decimal, push_decimal};
use crate::views::menu::push_text;
use crate::widgets::model_selector::ModelSelectorState;

verus! {

broadcast use vstd::string::group_string_axioms;

/// The load-model screen.
#[derive(Debug)]
pub enum LoadModelView {
    /// Choosing among the available models.
    SelectingModel,
    /// Asking the API to plan a topology for the named model.
    PreparingTopology(String),
    /// Asking the API to load the named model.
    LoadingModel(String),
    Error(String),
    Success(LoadModelResponse),
}

/// The unload-model screen.
#[derive(Debug)]
pub enum UnloadModelView {
    Unloading,
    Error(String),
    Success,
}

/// The model screens.
#[derive(Debug)]
pub enum ModelState {
    Load(LoadModelView),
    Unload(UnloadModelView),
}

/// What the load-model screen asks of the application after a key.
#[derive(Debug)]
pub enum LoadAction {
    Stay,
    ToMenu,
    /// Start loading the named model.
    Start(String),
}

/// Handles a key on the load-model screen. While choosing: Esc leaves, Up and Down move
/// through the `model_ids` (wrapping around), Enter starts loading the selected model.
/// After a success or an error only Esc does anything; while working, nothing does.
pub fn handle_load_model_input(
    key: KeyPress,
    view: &LoadModelView,
    selector: &mut ModelSelectorState,
    model_ids: &Vec<String>,
) -> (action: LoadAction)
    requires
        view is SelectingModel && key.code is Enter ==> old(selector).selected < model_ids@.len(),
    ensures
        view is SelectingModel ==> match key.code {
            KeyCode::Esc => action is ToMenu && *final(selector) == *old(selector),
            KeyCode::Up => action is Stay && final(selector).offset == old(selector).offset
                && final(selector).selected == (if old(selector).selected > 0 {
                (old(selector).selected - 1) as usize
            } else if model_ids@.len() > 0 {
                (model_ids@.len() - 1) as usize
            } else {
                old(selector).selected
            }),
            KeyCode::Down => action is Stay && final(selector).offset == old(selector).offset
                && final(selector).selected == (if model_ids@.len() == 0 {
                old(selector).selected
            } else if old(selector).selected < model_ids@.len() - 1 {
                (old(selector).selected + 1) as usize
            } else {
                0
            }),
            KeyCode::Enter => *final(selector) == *old(selector) && (action matches LoadAction::Start(m)
                && m@ == model_ids@[old(selector).selected as int]@),
            _ => action is Stay && *final(selector) == *old(selector),
        },
        (view is Error || view is Success) ==> *final(selector) == *old(selector) && if key.code is Esc {
            action is ToMenu
        } else {
            action is Stay
        },
        (view is PreparingTopology || view is LoadingModel) ==> action is Stay && *final(selector)
            == *old(selector),
{
    match view {
        LoadModelView::SelectingModel => match key.code {
            KeyCode::Esc => LoadAction::ToMenu,
            KeyCode::Up => {
                selector.move_up(model_ids.len());
                LoadAction::Stay
            },
            KeyCode::Down => {
                selector.move_down(model_ids.len());
                LoadAction::Stay
            },
            KeyCode::Enter => LoadAction::Start(model_ids[selector.selected()].clone()),
            _ => LoadAction::Stay,
        },
        LoadModelView::Error(_) | LoadModelView::Success(_) => match key.code {
            KeyCode::Esc => LoadAction::ToMenu,
            _ => LoadAction::Stay,
        },
        _ => LoadAction::Stay,
    }
}

/// The screen after the topology for `model` was prepared (`Ok`) or refused (`Err`, with
/// the error's text): loading the model, or the error.
pub fn after_prepare(model: String, outcome: Result<(), String>) -> (v: LoadModelView)
    ensures
        match outcome {
            Ok(_) => v matches LoadModelView::LoadingModel(m) && m@ == model@,
            Err(e) => v matches LoadModelView::Error(m) && m@ == e@,
        },
{
    match outcome {
        Ok(_) => LoadModelView::LoadingModel(model),
        Err(e) => LoadModelView::Error(e),
    }
}

/// The screen after the model was loaded, or the error's text.
pub fn after_load(outcome: Result<LoadModelResponse, String>) -> (v: LoadModelView)
    ensures
        match outcome {
            Ok(r) => v == LoadModelView::Success(r),
            Err(e) => v matches LoadModelView::Error(m) && m@ == e@,
        },
{
    match outcome {
        Ok(r) => LoadModelView::Success(r),
        Err(e) => LoadModelView::Error(e),
    }
}

/// The layers a shard loaded, as the success screen shows them: `[first..last]`, or `[]`.
pub open spec fn loaded_layers_text(layers: Seq<u32>) -> Seq<char> {
    if layers.len() == 0 {
        "[]"@
    } else {
        "["@ + decimal(layers[0] as nat) + ".."@ + decimal(layers.last() as nat) + "]"@
    }
}

/// The layers a shard loaded as the success screen shows them.
pub fn format_loaded_layers(layers: &[u32]) -> (s: String)
    ensures
        s@ == loaded_layers_text(layers@),
{
    if layers.len() == 0 {
        return "[]".to_string();
    }
    let mut s = "[".to_string();
    push_decimal(&mut s, layers[0] as u64);
    push_text(&mut s, "..");
    push_decimal(&mut s, layers[layers.len() - 1] as u64);
    push_text(&mut s, "]");
    assert(layers@.last() == layers@[layers@.len() - 1]);
    s
}

/// Whether a key on the unload-model screen goes back to the menu (Esc does).
pub fn handle_unload_model_input(key: KeyPress) -> (to_menu: bool)
    ensures
        to_menu == key.code is Esc,
{
    match key.code {
        KeyCode::Esc => true,
        _ => false,
    }
}

/// The unload screen after the request succeeded, or failed with the error's text; on
/// success the topology no longer names a model.
pub fn after_unload(outcome: Result<(), String>, topology: &mut Option<TopologyInfo>) -> (v: UnloadModelView)
    ensures
        match outcome {
            Ok(_) => v is Success && match *old(topology) {
                Some(t) => *final(topology) matches Some(u) && u == (TopologyInfo { model: None, ..t }),
                None => *final(topology) is None,
            },
            Err(e) => v matches UnloadModelView::Error(m) && m@ == e@ && *final(topology) == *old(topology),
        },
{
    match outcome {
        Ok(_) => {
            match topology {
                Some(t) => {
                    t.model = None;
                },
                None => {},
            }
            UnloadModelView::Success
        },
        Err(e) => UnloadModelView::Error(e),
    }
}

} // verus!
