use vstd::prelude::*;

use crate::input::{KeyCode, KeyPress};

verus! {

/// What the developer menu asks of the application after a key.
#[derive(Debug, Clone, Copy, PartialEq, Eq, Structural)]
pub enum DeveloperMenuAction {
    Stay,
    /// Back to the main menu.
    ToMenu,
    Quit,
    /// Open manual layer assignment, starting with the choice of a model.
    StartManualAssignment,
}

/// The entries of the developer menu.
pub fn developer_menu_items() -> (v: Vec<&'static str>)
    ensures
        v@.len() == 1,
        v@[0]@ == "Manual Layer Assignment - Manually assign layers to shards"@,
{
    vec!["Manual Layer Assignment - Manually assign layers to shards"]
}

/// Handles a key on the developer menu, whose cursor is at `index`: Esc goes back (and the
/// cursor to the top), Control-C quits, Enter on the first entry opens manual assignment.
pub fn handle_developer_menu_input(key: KeyPress, index: &mut usize) -> (a: DeveloperMenuAction)
    ensures
        match key.code {
            KeyCode::Esc => a == DeveloperMenuAction::ToMenu && *final(index) == 0,
            KeyCode::Char(c) => *final(index) == *old(index) && a == (if key.ctrl && (c == 'c' || c == 'C') {
                DeveloperMenuAction::Quit
            } else {
                DeveloperMenuAction::Stay
            }),
            KeyCode::Enter => *final(index) == *old(index) && a == (if *old(index) == 0 {
                DeveloperMenuAction::StartManualAssignment
            } else {
                DeveloperMenuAction::Stay
            }),
            _ => a == DeveloperMenuAction::Stay && *final(index) == *old(index),
        },
{
    match key.code {
        KeyCode::Esc => {
            *index = 0;
            DeveloperMenuAction::ToMenu
        },
        KeyCode::Char(c) => {
            if key.ctrl && (c == 'c' || c == 'C') {
                DeveloperMenuAction::Quit
            } else {
                DeveloperMenuAction::Stay
            }
        },
        KeyCode::Enter => {
            if *index == 0 {
                DeveloperMenuAction::StartManualAssignment
            } else {
                DeveloperMenuAction::Stay
            }
        },
        _ => DeveloperMenuAction::Stay,
    }
}

} // verus!
