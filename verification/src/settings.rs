use vstd::prelude::*;

use crate::config::Config;
use crate::input::{KeyCode, KeyPress};
use crate::text::{chars_of, decimal, decimal_string, parse_unsigned, parse_unsigned_chars, pop_char, push_char};
use crate::views::menu::push_text;

verus! {

broadcast use vstd::string::group_string_axioms;

/// The fields of the two-field settings screen.
#[derive(Debug, Clone, Copy, PartialEq, Eq, Structural)]
pub enum SettingsField {
    /// API Host.
    Host,
    /// API Port.
    Port,
}

/// What the two-field settings screen asks of the application after a key.
#[derive(Debug, Clone, Copy, PartialEq, Eq, Structural)]
pub enum SettingsCommand {
    Stay,
    ToMenu,
    Quit,
    /// Write the edited settings to their file.
    Save,
}

/// Handles a key on the two-field settings screen. A field is being edited while `input`
/// is not empty: Enter applies it (a port must parse as a 16-bit number; either way the
/// input is emptied), Esc abandons it, Backspace and characters edit it. Otherwise Esc
/// leaves, Control-C quits, Up and Down choose the field, Enter starts editing it with its
/// current value, `s` asks to save.
pub fn handle_settings_input(
    field: &mut SettingsField,
    key: KeyPress,
    input: &mut String,
    temp: &mut Config,
    status: &mut String,
) -> (c: SettingsCommand)
    ensures
        old(input)@.len() > 0 ==> *final(field) == *old(field) && match key.code {
            KeyCode::Enter => c == SettingsCommand::Stay && final(input)@.len() == 0 && match *old(field) {
                SettingsField::Host => final(temp).api_host@ == old(input)@ && *final(temp) == (Config {
                    api_host: final(temp).api_host,
                    ..*old(temp)
                }) && final(status)@ == "Host updated (press 's' to save)"@,
                SettingsField::Port => match parse_unsigned(old(input)@, u16::MAX as nat) {
                    Some(p) => *final(temp) == (Config { api_port: p as u16, ..*old(temp) })
                        && final(status)@ == "Port updated (press 's' to save)"@,
                    None => *final(temp) == *old(temp) && final(status)@ == "Invalid port number!"@,
                },
            },
            KeyCode::Esc => c == SettingsCommand::Stay && final(input)@.len() == 0 && final(status)@.len() == 0
                && *final(temp) == *old(temp),
            KeyCode::Backspace => c == SettingsCommand::Stay && final(input)@ == old(input)@.drop_last()
                && *final(temp) == *old(temp) && final(status)@ == old(status)@,
            KeyCode::Char(ch) => c == SettingsCommand::Stay && final(input)@ == old(input)@.push(ch)
                && *final(temp) == *old(temp) && final(status)@ == old(status)@,
            _ => c == SettingsCommand::Stay && final(input)@ == old(input)@ && *final(temp) == *old(temp)
                && final(status)@ == old(status)@,
        },
        old(input)@.len() == 0 ==> *final(temp) == *old(temp) && match key.code {
            KeyCode::Esc => c == SettingsCommand::ToMenu && final(status)@.len() == 0 && *final(field)
                == *old(field) && final(input)@ == old(input)@,
            KeyCode::Char(ch) => *final(field) == *old(field) && final(input)@ == old(input)@
                && final(status)@ == old(status)@ && c == (if key.ctrl && (ch == 'c' || ch == 'C') {
                SettingsCommand::Quit
            } else if ch == 's' {
                SettingsCommand::Save
            } else {
                SettingsCommand::Stay
            }),
            KeyCode::Up => c == SettingsCommand::Stay && *final(field) == SettingsField::Host
                && final(input)@ == old(input)@ && final(status)@ == old(status)@,
            KeyCode::Down => c == SettingsCommand::Stay && *final(field) == SettingsField::Port
                && final(input)@ == old(input)@ && final(status)@ == old(status)@,
            KeyCode::Enter => c == SettingsCommand::Stay && *final(field) == *old(field) && final(status)@.len() == 0
                && final(input)@ == match *old(field) {
                SettingsField::Host => old(temp).api_host@,
                SettingsField::Port => decimal(old(temp).api_port as nat),
            },
            _ => c == SettingsCommand::Stay && *final(field) == *old(field) && final(input)@ == old(input)@
                && final(status)@ == old(status)@,
        },
{
    if input.as_str().is_empty() == false {
        match key.code {
            KeyCode::Enter => {
                match *field {
                    SettingsField::Host => {
                        temp.api_host = input.clone();
                        *status = "Host updated (press 's' to save)".to_string();
                    },
                    SettingsField::Port => {
                        let cs = chars_of(input.as_str());
                        match parse_unsigned_chars(&cs, u16::MAX as u64) {
                            Some(p) => {
                                temp.api_port = p as u16;
                                *status = "Port updated (press 's' to save)".to_string();
                            },
                            None => {
                                *status = "Invalid port number!".to_string();
                            },
                        }
                    },
                }
                *input = String::new();
                SettingsCommand::Stay
            },
            KeyCode::Esc => {
                *input = String::new();
                *status = String::new();
                SettingsCommand::Stay
            },
            KeyCode::Backspace => {
                pop_char(input);
                SettingsCommand::Stay
            },
            KeyCode::Char(ch) => {
                push_char(input, ch);
                SettingsCommand::Stay
            },
            _ => SettingsCommand::Stay,
        }
    } else {
        match key.code {
            KeyCode::Esc => {
                *status = String::new();
                SettingsCommand::ToMenu
            },
            KeyCode::Char(ch) => {
                if key.ctrl && (ch == 'c' || ch == 'C') {
                    SettingsCommand::Quit
                } else if ch == 's' {
                    SettingsCommand::Save
                } else {
                    SettingsCommand::Stay
                }
            },
            KeyCode::Up => {
                *field = SettingsField::Host;
                SettingsCommand::Stay
            },
            KeyCode::Down => {
                *field = SettingsField::Port;
                SettingsCommand::Stay
            },
            KeyCode::Enter => {
                *input = match *field {
                    SettingsField::Host => temp.api_host.clone(),
                    SettingsField::Port => decimal_string(temp.api_port as u64),
                };
                *status = String::new();
                SettingsCommand::Stay
            },
            _ => SettingsCommand::Stay,
        }
    }
}

/// The note after saving the settings to `location`, or failing with `error`.
pub fn save_message(outcome: Result<&str, &str>) -> (m: String)
    ensures
        match outcome {
            Ok(location) => m@ == "Configuration saved to "@ + location@,
            Err(error) => m@ == "Failed to save: "@ + error@,
        },
{
    match outcome {
        Ok(location) => {
            let mut m = "Configuration saved to ".to_string();
            push_text(&mut m, location);
            m
        },
        Err(error) => {
            let mut m = "Failed to save: ".to_string();
            push_text(&mut m, error);
            m
        },
    }
}

} // verus!
