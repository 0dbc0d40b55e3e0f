use vstd::prelude::*;

use crate::config::{setting_error_text, setting_text, write_setting_spec, Config, SettingError};
use crate::input::{KeyCode, KeyPress};
use crate::text::pop_char;
use crate::text::push_char;
use crate::views::menu::push_text;

verus! {

/// The editable settings, in the order the settings screen lists them.
#[derive(Debug, Clone, Copy, PartialEq, Eq, Structural)]
pub enum SettingsField {
    /// API Host.
    Host,
    /// API Port.
    Port,
    /// Max tokens for chat responses.
    MaxTokens,
    /// Temperature for chat responses.
    Temperature,
    /// Devices refresh interval in seconds.
    DevicesRefreshInterval,
    /// Quantization level.
    KVBits,
    /// Sequence length to optimize for.
    SeqLen,
    /// Max batch size as power of 2 exponent.
    MaxBatchExp,
}

/// The settings in the order the screen lists them.
pub open spec fn field_order() -> Seq<SettingsField> {
    seq![
        SettingsField::Host,
        SettingsField::Port,
        SettingsField::MaxTokens,
        SettingsField::Temperature,
        SettingsField::DevicesRefreshInterval,
        SettingsField::KVBits,
        SettingsField::MaxBatchExp,
        SettingsField::SeqLen,
    ]
}

/// Where `f` stands in the list.
pub open spec fn field_index(f: SettingsField) -> int {
    match f {
        SettingsField::Host => 0,
        SettingsField::Port => 1,
        SettingsField::MaxTokens => 2,
        SettingsField::Temperature => 3,
        SettingsField::DevicesRefreshInterval => 4,
        SettingsField::KVBits => 5,
        SettingsField::MaxBatchExp => 6,
        SettingsField::SeqLen => 7,
    }
}

/// The label of `f`.
pub open spec fn field_label(f: SettingsField) -> Seq<char> {
    match f {
        SettingsField::Host => "API Host"@,
        SettingsField::Port => "API Port"@,
        SettingsField::MaxTokens => "Max Tokens"@,
        SettingsField::Temperature => "Temperature"@,
        SettingsField::DevicesRefreshInterval => "Device Refresh (s)"@,
        SettingsField::KVBits => "KV Bits"@,
        SettingsField::MaxBatchExp => "Max Batch Exponent"@,
        SettingsField::SeqLen => "Sequence Length"@,
    }
}

/// The settings' labels are distinct, not empty, and at most 20 characters long, so each
/// fits the screen's label column.
pub proof fn lemma_field_labels_distinct_and_short(a: SettingsField, b: SettingsField)
    ensures
        0 < field_label(a).len() <= 20,
        a != b ==> field_label(a) != field_label(b),
{
    reveal_strlit("API Host");
    reveal_strlit("API Port");
    reveal_strlit("Max Tokens");
    reveal_strlit("Temperature");
    reveal_strlit("Device Refresh (s)");
    reveal_strlit("KV Bits");
    reveal_strlit("Max Batch Exponent");
    reveal_strlit("Sequence Length");
    let la = field_label(a);
    let lb = field_label(b);
    if a != b {
        assert(la.len() != lb.len() || la[0] != lb[0] || la[4] != lb[4]);
    }
}

impl SettingsField {
    /// Every setting, in the order the screen lists them.
    pub fn all() -> (v: Vec<SettingsField>)
        ensures
            v@ == field_order(),
    {
        let v = vec![
            SettingsField::Host,
            SettingsField::Port,
            SettingsField::MaxTokens,
            SettingsField::Temperature,
            SettingsField::DevicesRefreshInterval,
            SettingsField::KVBits,
            SettingsField::MaxBatchExp,
            SettingsField::SeqLen,
        ];
        assert(v@ =~= field_order());
        v
    }

    /// The label the screen shows for this setting.
    pub fn label(&self) -> (s: &'static str)
        ensures
            s@ == field_label(*self),
    {
        match self {
            SettingsField::Host => "API Host",
            SettingsField::Port => "API Port",
            SettingsField::MaxTokens => "Max Tokens",
            SettingsField::Temperature => "Temperature",
            SettingsField::DevicesRefreshInterval => "Device Refresh (s)",
            SettingsField::KVBits => "KV Bits",
            SettingsField::MaxBatchExp => "Max Batch Exponent",
            SettingsField::SeqLen => "Sequence Length",
        }
    }

    /// The setting at position `i` of the list.
    pub fn at(i: usize) -> (f: SettingsField)
        requires
            i < 8,
        ensures
            f == field_order()[i as int],
            field_index(f) == i,
    {
        match i {
            0 => SettingsField::Host,
            1 => SettingsField::Port,
            2 => SettingsField::MaxTokens,
            3 => SettingsField::Temperature,
            4 => SettingsField::DevicesRefreshInterval,
            5 => SettingsField::KVBits,
            6 => SettingsField::MaxBatchExp,
            _ => SettingsField::SeqLen,
        }
    }

    /// Where this setting stands in the list.
    pub fn index(&self) -> (i: usize)
        ensures
            i == field_index(*self),
            i < 8,
    {
        match self {
            SettingsField::Host => 0,
            SettingsField::Port => 1,
            SettingsField::MaxTokens => 2,
            SettingsField::Temperature => 3,
            SettingsField::DevicesRefreshInterval => 4,
            SettingsField::KVBits => 5,
            SettingsField::MaxBatchExp => 6,
            SettingsField::SeqLen => 7,
        }
    }
}

/// The setting above `f` in the list, the last one above the first.
pub open spec fn field_above(f: SettingsField) -> SettingsField {
    let i = field_index(f);
    field_order()[if i == 0 { 7 } else { i - 1 }]
}

/// The setting below `f` in the list, the first one below the last.
pub open spec fn field_below(f: SettingsField) -> SettingsField {
    field_order()[(field_index(f) + 1) % 8]
}

/// The note shown under the settings.
#[derive(Debug)]
pub enum SettingsStatus {
    /// No note (the variant is not called `None`, a name the prelude takes).
    Blank,
    Info(String),
    Error(String),
}

impl SettingsStatus {
    /// No note.
    pub fn clear(&mut self)
        ensures
            *final(self) is Blank,
    {
        *self = SettingsStatus::Blank;
    }

    /// Whether there is no note.
    pub fn is_empty(&self) -> (b: bool)
        ensures
            b == (*self is Blank),
    {
        match self {
            SettingsStatus::Blank => true,
            _ => false,
        }
    }
}

/// The settings screen.
#[derive(Debug)]
pub struct SettingsState {
    /// Selected settings field.
    pub selection: SettingsField,
    /// Status message for the settings view.
    pub status: SettingsStatus,
    /// Whether a field is being edited.
    pub is_editing: bool,
    /// The settings being edited, saved only on request.
    pub temp_config: Config,
}

impl SettingsState {
    /// The screen on the first setting, with `config` to edit.
    pub fn new(config: Config) -> (s: SettingsState)
        ensures
            s.selection == SettingsField::Host,
            s.status is Blank,
            !s.is_editing,
            s.temp_config == config,
    {
        SettingsState { selection: SettingsField::Host, status: SettingsStatus::Blank, is_editing: false, temp_config: config }
    }
}

/// What the settings screen asks of the application after a key.
#[derive(Debug, Clone, Copy, PartialEq, Eq, Structural)]
pub enum SettingsAction {
    /// Nothing beyond the screen's own state.
    Stay,
    /// Go back to the main menu.
    ToMenu,
    /// Quit the application.
    Quit,
    /// Write the edited settings to their file.
    Save,
    /// Apply the typed text to the temperature, which the application keeps.
    ApplyTemperature,
}

/// The note after a setting took the typed value.
pub open spec fn updated_text(f: SettingsField) -> Seq<char> {
    field_label(f) + " updated (press 's' to save)"@
}

/// The note after a refused value.
pub open spec fn error_text(msg: Seq<char>) -> Seq<char> {
    "[ERROR] "@ + msg
}

/// Ends an edit that was accepted: the note names the setting, the input is emptied and
/// editing stops.
pub fn edit_accepted(st: &mut SettingsState, input: &mut String)
    ensures
        final(st).status matches SettingsStatus::Info(m) && m@ == updated_text(old(st).selection),
        final(input)@.len() == 0,
        !final(st).is_editing,
        final(st).selection == old(st).selection,
        final(st).temp_config == old(st).temp_config,
{
    let mut m = st.selection.label().to_string();
    push_text(&mut m, " updated (press 's' to save)");
    st.status = SettingsStatus::Info(m);
    *input = String::new();
    st.is_editing = false;
}

/// Reports a refused edit: editing goes on with the input as typed.
pub fn edit_refused(st: &mut SettingsState, msg: &str)
    ensures
        final(st).status matches SettingsStatus::Error(m) && m@ == error_text(msg@),
        final(st).is_editing == old(st).is_editing,
        final(st).selection == old(st).selection,
        final(st).temp_config == old(st).temp_config,
{
    let mut m = "[ERROR] ".to_string();
    push_text(&mut m, msg);
    st.status = SettingsStatus::Error(m);
}

/// The note after the settings were saved to `location`.
pub fn save_succeeded(st: &mut SettingsState, location: &str)
    ensures
        final(st).status matches SettingsStatus::Info(m) && m@ == "Configuration saved to "@ + location@,
        final(st).is_editing == old(st).is_editing,
        final(st).selection == old(st).selection,
        final(st).temp_config == old(st).temp_config,
{
    let mut m = "Configuration saved to ".to_string();
    push_text(&mut m, location);
    st.status = SettingsStatus::Info(m);
}

/// The note after saving failed with `msg`.
pub fn save_failed(st: &mut SettingsState, msg: &str)
    ensures
        final(st).status matches SettingsStatus::Error(m) && m@ == "[ERROR] Could not save config: "@ + msg@,
        final(st).is_editing == old(st).is_editing,
        final(st).selection == old(st).selection,
        final(st).temp_config == old(st).temp_config,
{
    let mut m = "[ERROR] Could not save config: ".to_string();
    push_text(&mut m, msg);
    st.status = SettingsStatus::Error(m);
}

/// Handles a key on the settings screen. `input` is the text being typed; `temperature` is
/// the temperature as the screen shows it (the application keeps that value).
///
/// While editing: Enter applies the text (the temperature through the application), Esc
/// abandons the edit, Backspace and characters edit the text. Otherwise: Esc leaves,
/// Control-C quits, Up and Down move through the list (wrapping around), Enter starts
/// editing the selected setting with its current value, `s` asks to save.
pub fn handle_settings_input(st: &mut SettingsState, key: KeyPress, input: &mut String, temperature: &str)
    -> (action: SettingsAction)
    ensures
        old(st).is_editing ==> match key.code {
            KeyCode::Enter => if old(st).selection == SettingsField::Temperature {
                action == SettingsAction::ApplyTemperature && *final(st) == *old(st)
                    && final(input)@ == old(input)@
            } else {
                action == SettingsAction::Stay && final(st).selection == old(st).selection
                    && exists|r: Result<(), SettingError>| write_setting_spec(old(st).temp_config, old(st).selection, old(input)@, final(st).temp_config, r)
                    && match r {
                        Ok(_) => final(st).status matches SettingsStatus::Info(m) && m@ == updated_text(old(st).selection)
                            && final(input)@.len() == 0 && !final(st).is_editing,
                        Err(e) => final(st).status matches SettingsStatus::Error(m) && m@ == error_text(setting_error_text(e))
                            && final(input)@ == old(input)@ && final(st).is_editing,
                    }
            },
            KeyCode::Esc => action == SettingsAction::Stay && !final(st).is_editing && final(input)@.len() == 0
                && final(st).status is Blank && final(st).selection == old(st).selection
                && final(st).temp_config == old(st).temp_config,
            KeyCode::Backspace => action == SettingsAction::Stay && *final(st) == *old(st)
                && final(input)@ == (if old(input)@.len() > 0 { old(input)@.drop_last() } else { old(input)@ }),
            KeyCode::Char(c) => action == SettingsAction::Stay && *final(st) == *old(st)
                && final(input)@ == old(input)@.push(c),
            _ => action == SettingsAction::Stay && *final(st) == *old(st) && final(input)@ == old(input)@,
        },
        !old(st).is_editing ==> {
            &&& final(st).temp_config == old(st).temp_config
            &&& match key.code {
                KeyCode::Esc => action == SettingsAction::ToMenu && final(st).status is Blank
                    && final(st).selection == old(st).selection && !final(st).is_editing
                    && final(input)@ == old(input)@,
                KeyCode::Char(c) => if key.ctrl && (c == 'c' || c == 'C') {
                    action == SettingsAction::Quit && *final(st) == *old(st) && final(input)@ == old(input)@
                } else if c == 's' {
                    action == SettingsAction::Save && *final(st) == *old(st) && final(input)@ == old(input)@
                } else {
                    action == SettingsAction::Stay && *final(st) == *old(st) && final(input)@ == old(input)@
                },
                KeyCode::Up => action == SettingsAction::Stay && final(st).selection == field_above(old(st).selection)
                    && final(st).status == old(st).status && !final(st).is_editing && final(input)@ == old(input)@,
                KeyCode::Down => action == SettingsAction::Stay && final(st).selection == field_below(old(st).selection)
                    && final(st).status == old(st).status && !final(st).is_editing && final(input)@ == old(input)@,
                KeyCode::Enter => action == SettingsAction::Stay && final(st).is_editing && final(st).status is Blank
                    && final(st).selection == old(st).selection
                    && final(input)@ == (if old(st).selection == SettingsField::Temperature {
                        temperature@
                    } else {
                        setting_text(old(st).temp_config, old(st).selection)
                    }),
                _ => action == SettingsAction::Stay && *final(st) == *old(st) && final(input)@ == old(input)@,
            }
        },
{
    if st.is_editing {
        match key.code {
            KeyCode::Enter => {
                if st.selection == SettingsField::Temperature {
                    return SettingsAction::ApplyTemperature;
                }
                let ghost pre = st.temp_config;
                let r = st.temp_config.write_setting(st.selection, input.as_str());
                match r {
                    Ok(_) => {
                        edit_accepted(st, input);
                    },
                    Err(e) => {
                        let msg = e.message();
                        edit_refused(st, msg.as_str());
                        assert(write_setting_spec(pre, st.selection, old(input)@, st.temp_config, Err::<(), SettingError>(e)));
                    },
                }
                SettingsAction::Stay
            },
            KeyCode::Esc => {
                st.is_editing = false;
                *input = String::new();
                st.status.clear();
                SettingsAction::Stay
            },
            KeyCode::Backspace => {
                pop_char(input);
                SettingsAction::Stay
            },
            KeyCode::Char(c) => {
                push_char(input, c);
                SettingsAction::Stay
            },
            _ => SettingsAction::Stay,
        }
    } else {
        match key.code {
            KeyCode::Esc => {
                st.status.clear();
                SettingsAction::ToMenu
            },
            KeyCode::Char(c) => {
                if key.ctrl && (c == 'c' || c == 'C') {
                    SettingsAction::Quit
                } else if c == 's' {
                    SettingsAction::Save
                } else {
                    SettingsAction::Stay
                }
            },
            KeyCode::Up => {
                let i = st.selection.index();
                st.selection = SettingsField::at(if i == 0 { 7 } else { i - 1 });
                SettingsAction::Stay
            },
            KeyCode::Down => {
                let i = st.selection.index();
                st.selection = SettingsField::at((i + 1) % 8);
                SettingsAction::Stay
            },
            KeyCode::Enter => {
                st.is_editing = true;
                *input = if st.selection == SettingsField::Temperature {
                    temperature.to_string()
                } else {
                    st.temp_config.read_setting(st.selection)
                };
                st.status.clear();
                SettingsAction::Stay
            },
            _ => SettingsAction::Stay,
        }
    }
}

/// Moving down the list and then up comes back to the same setting, and so does moving up
/// and then down.
pub proof fn lemma_settings_up_down(f: SettingsField)
    ensures
        field_above(field_below(f)) == f,
        field_below(field_above(f)) == f,
{
    match f {
        SettingsField::Host => {},
        SettingsField::Port => {},
        SettingsField::MaxTokens => {},
        SettingsField::Temperature => {},
        SettingsField::DevicesRefreshInterval => {},
        SettingsField::KVBits => {},
        SettingsField::MaxBatchExp => {},
        SettingsField::SeqLen => {},
    }
}

/// Moving down eight times goes once around the list, back to the same setting.
pub proof fn lemma_settings_cycle(f: SettingsField)
    ensures
        field_below(field_below(field_below(field_below(field_below(field_below(field_below(field_below(f))))))))
            == f,
{
    match f {
        SettingsField::Host => {},
        SettingsField::Port => {},
        SettingsField::MaxTokens => {},
        SettingsField::Temperature => {},
        SettingsField::DevicesRefreshInterval => {},
        SettingsField::KVBits => {},
        SettingsField::MaxBatchExp => {},
        SettingsField::SeqLen => {},
    }
}

} // verus!
