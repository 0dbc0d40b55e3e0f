use vstd::prelude::*;

use crate::text::{chars_of, push_char, string_of};

verus! {

broadcast use vstd::string::group_string_axioms;

/// An entry of the main menu.
///
/// Whether an entry can be chosen depends on whether a model is loaded within the
/// topology, whether a topology exists, and whether the API answers.
#[derive(Debug, Clone, Copy, PartialEq, Eq, Structural)]
pub enum MenuItem {
    Chat,
    ViewDevices,
    ViewTopology,
    LoadModel,
    UnloadModel,
    Settings,
    Developer,
    Exit,
}

/// The entries of the main menu, top to bottom.
pub open spec fn all_items() -> Seq<MenuItem> {
    seq![
        MenuItem::Chat,
        MenuItem::ViewDevices,
        MenuItem::ViewTopology,
        MenuItem::LoadModel,
        MenuItem::UnloadModel,
        MenuItem::Settings,
        MenuItem::Developer,
        MenuItem::Exit,
    ]
}

/// The label of an entry.
pub open spec fn label_text(item: MenuItem) -> Seq<char> {
    match item {
        MenuItem::Chat => "Chat"@,
        MenuItem::ViewDevices => "View Devices"@,
        MenuItem::ViewTopology => "View Topology"@,
        MenuItem::LoadModel => "Load Model"@,
        MenuItem::UnloadModel => "Unload Model"@,
        MenuItem::Settings => "Settings"@,
        MenuItem::Developer => "Developer"@,
        MenuItem::Exit => "Exit"@,
    }
}

/// The description of an entry, which tells why it is unavailable when it is.
pub open spec fn description_text(
    item: MenuItem,
    model_loaded: bool,
    topology_loaded: bool,
    is_api_online: bool,
) -> Seq<char> {
    match item {
        MenuItem::Chat => if model_loaded {
            "Chat with loaded model"@
        } else {
            "Chat (no model loaded)"@
        },
        MenuItem::ViewDevices => if is_api_online {
            "View devices"@
        } else {
            "View devices (API unavailable)"@
        },
        MenuItem::ViewTopology => if topology_loaded {
            "View topology"@
        } else {
            "View topology (no topology available)"@
        },
        MenuItem::LoadModel => if model_loaded {
            "Load a model (model already loaded)"@
        } else if is_api_online {
            "Load a model"@
        } else {
            "Load a model (API unavailable)"@
        },
        MenuItem::UnloadModel => if model_loaded {
            "Unload model"@
        } else {
            "Unload model (no model loaded)"@
        },
        MenuItem::Settings => "Edit configuration"@,
        MenuItem::Developer => "Advanced developer tools"@,
        MenuItem::Exit => "Quit application"@,
    }
}

/// Whether an entry is unavailable: chat and unloading need a loaded model, loading needs
/// none loaded and the API online, the topology view needs a topology, the device list
/// needs the API.
pub open spec fn item_disabled(item: MenuItem, model_loaded: bool, topology_loaded: bool, is_api_online: bool) -> bool {
    match item {
        MenuItem::Chat => !model_loaded,
        MenuItem::LoadModel => model_loaded || !is_api_online,
        MenuItem::UnloadModel => !model_loaded,
        MenuItem::ViewTopology => !topology_loaded,
        MenuItem::ViewDevices => !is_api_online,
        _ => false,
    }
}

/// `s` padded with spaces on the right to at least `w` characters (`{:<w}`).
pub open spec fn pad_right(s: Seq<char>, w: nat) -> Seq<char> {
    if s.len() >= w {
        s
    } else {
        s + Seq::new((w - s.len()) as nat, |i: int| ' ')
    }
}

/// An entry as the menu shows it: the label padded to 15 characters, `: `, the description.
pub open spec fn item_text(
    item: MenuItem,
    model_loaded: bool,
    topology_loaded: bool,
    is_api_online: bool,
) -> Seq<char> {
    pad_right(label_text(item), 15) + ": "@ + description_text(
        item,
        model_loaded,
        topology_loaded,
        is_api_online,
    )
}

/// The widest entry of `items`, in characters.
pub open spec fn widest(items: Seq<MenuItem>, model_loaded: bool, topology_loaded: bool, is_api_online: bool) -> nat
    decreases items.len(),
{
    if items.len() == 0 {
        0
    } else {
        let rest = widest(items.drop_last(), model_loaded, topology_loaded, is_api_online);
        let w = item_text(items.last(), model_loaded, topology_loaded, is_api_online).len();
        if w > rest {
            w
        } else {
            rest
        }
    }
}

/// Appends `t` to `s`.
pub fn push_text(s: &mut String, t: &str)
    ensures
        final(s)@ == old(s)@ + t@,
{
    let cs = chars_of(t);
    let mut i: usize = 0;
    while i < cs.len()
        invariant
            i <= cs@.len(),
            cs@ == t@,
            s@ == old(s)@ + cs@.take(i as int),
        decreases cs@.len() - i,
    {
        push_char(s, cs[i]);
        assert(old(s)@ + cs@.take(i + 1) =~= old(s)@ + cs@.take(i as int) + seq![cs@[i as int]]);
        i = i + 1;
    }
    assert(cs@.take(cs@.len() as int) =~= cs@);
}

/// `label` padded to `w` characters, then `": "`, then `description`.
pub fn padded_entry(label: &str, w: usize, description: &str) -> (s: String)
    ensures
        s@ == pad_right(label@, w as nat) + ": "@ + description@,
{
    let mut s = label.to_string();
    let n = chars_of(label).len();
    let mut k = n;
    while k < w
        invariant
            n == label@.len(),
            n <= k <= w || (n > w && k == n),
            s@ == label@ + Seq::new((k - n) as nat, |i: int| ' '),
        decreases w - k,
    {
        push_char(&mut s, ' ');
        assert(label@ + Seq::new((k + 1 - n) as nat, |i: int| ' ') =~= label@ + Seq::new(
            (k - n) as nat,
            |i: int| ' ',
        ) + seq![' ']);
        k = k + 1;
    }
    if n >= w {
        assert(s@ =~= label@);
    } else {
        assert(k == w);
    }
    push_text(&mut s, ": ");
    push_text(&mut s, description);
    proof {
        reveal_strlit(": ");
    }
    s
}

impl MenuItem {
    /// The entries of the main menu, top to bottom.
    pub fn all() -> (v: Vec<MenuItem>)
        ensures
            v@ == all_items(),
    {
        let v = vec![
            MenuItem::Chat,
            MenuItem::ViewDevices,
            MenuItem::ViewTopology,
            MenuItem::LoadModel,
            MenuItem::UnloadModel,
            MenuItem::Settings,
            MenuItem::Developer,
            MenuItem::Exit,
        ];
        assert(v@ =~= all_items());
        v
    }

    /// Whether the entry cannot be chosen in the given state.
    pub fn is_disabled(&self, model_loaded: bool, topology_loaded: bool, is_api_online: bool) -> (b: bool)
        ensures
            b == item_disabled(*self, model_loaded, topology_loaded, is_api_online),
    {
        match self {
            MenuItem::Chat => !model_loaded,
            MenuItem::LoadModel => model_loaded || !is_api_online,
            MenuItem::UnloadModel => !model_loaded,
            MenuItem::ViewTopology => !topology_loaded,
            MenuItem::ViewDevices => !is_api_online,
            _ => false,
        }
    }

    /// The label of the entry.
    pub fn label(&self) -> (s: &'static str)
        ensures
            s@ == label_text(*self),
    {
        match self {
            MenuItem::Chat => "Chat",
            MenuItem::ViewDevices => "View Devices",
            MenuItem::ViewTopology => "View Topology",
            MenuItem::LoadModel => "Load Model",
            MenuItem::UnloadModel => "Unload Model",
            MenuItem::Settings => "Settings",
            MenuItem::Developer => "Developer",
            MenuItem::Exit => "Exit",
        }
    }

    /// The description of the entry in the given state.
    pub fn description(&self, model_loaded: bool, topology_loaded: bool, is_api_online: bool) -> (s: &'static str)
        ensures
            s@ == description_text(*self, model_loaded, topology_loaded, is_api_online),
    {
        match self {
            MenuItem::Chat => {
                if model_loaded {
                    "Chat with loaded model"
                } else {
                    "Chat (no model loaded)"
                }
            },
            MenuItem::ViewDevices => {
                if is_api_online {
                    "View devices"
                } else {
                    "View devices (API unavailable)"
                }
            },
            MenuItem::ViewTopology => {
                if topology_loaded {
                    "View topology"
                } else {
                    "View topology (no topology available)"
                }
            },
            MenuItem::LoadModel => {
                if model_loaded {
                    "Load a model (model already loaded)"
                } else if is_api_online {
                    "Load a model"
                } else {
                    "Load a model (API unavailable)"
                }
            },
            MenuItem::UnloadModel => {
                if model_loaded {
                    "Unload model"
                } else {
                    "Unload model (no model loaded)"
                }
            },
            MenuItem::Settings => "Edit configuration",
            MenuItem::Developer => "Advanced developer tools",
            MenuItem::Exit => "Quit application",
        }
    }

    /// The entry as the menu shows it.
    pub fn fmt(&self, model_loaded: bool, topology_loaded: bool, is_api_online: bool) -> (s: String)
        ensures
            s@ == item_text(*self, model_loaded, topology_loaded, is_api_online),
    {
        padded_entry(self.label(), 15, self.description(model_loaded, topology_loaded, is_api_online))
    }

    /// The number of rows of the menu.
    pub fn total_height() -> (h: u16)
        ensures
            h == all_items().len(),
    {
        8
    }

    /// The width of the widest entry, in characters.
    pub fn total_width(model_loaded: bool, topology_loaded: bool, is_api_online: bool) -> (w: u16)
        ensures
            w as nat == widest(all_items(), model_loaded, topology_loaded, is_api_online) % 0x1_0000,
    {
        let items = MenuItem::all();
        let mut best: usize = 0;
        let mut i: usize = 0;
        while i < items.len()
            invariant
                items@ == all_items(),
                i <= items@.len(),
                best == widest(items@.take(i as int), model_loaded, topology_loaded, is_api_online),
            decreases items@.len() - i,
        {
            let n = chars_of(items[i].fmt(model_loaded, topology_loaded, is_api_online).as_str()).len();
            assert(items@.take(i + 1).drop_last() =~= items@.take(i as int));
            if n > best {
                best = n;
            }
            i = i + 1;
        }
        assert(items@.take(items@.len() as int) =~= items@);
        (best % 0x1_0000) as u16
    }
}

/// The menu cursor.
#[derive(Debug, Clone, Copy)]
pub struct MenuState {
    /// Index of the selected entry.
    pub selection_idx: usize,
}

impl MenuState {
    /// The cursor on the first entry.
    pub fn new() -> (s: MenuState)
        ensures
            s.selection_idx == 0,
    {
        MenuState { selection_idx: 0 }
    }

    /// Moves the cursor up, stopping at the first entry.
    pub fn menu_up(&mut self)
        ensures
            final(self).selection_idx == (if old(self).selection_idx > 0 {
                old(self).selection_idx - 1
            } else {
                0
            }),
    {
        if self.selection_idx > 0 {
            self.selection_idx -= 1;
        }
    }

    /// Moves the cursor down, stopping at the last entry.
    pub fn menu_down(&mut self)
        ensures
            final(self).selection_idx == (if old(self).selection_idx < all_items().len() - 1 {
                old(self).selection_idx + 1
            } else {
                old(self).selection_idx as int
            }),
    {
        if self.selection_idx < 7 {
            self.selection_idx += 1;
        }
    }
}

/// What choosing a menu entry asks of the application.
#[derive(Debug, Clone, Copy, PartialEq, Eq, Structural)]
pub enum MenuAction {
    /// Nothing happens (the entry is unavailable).
    Stay,
    OpenChat,
    OpenDevices,
    /// Show the topology with the first device selected.
    OpenTopology,
    /// Start choosing a model to load, with the model list and status reset.
    OpenLoadModel,
    /// Start unloading the model, with the status cleared.
    OpenUnloadModel,
    /// Edit a copy of the settings, with the status cleared.
    OpenSettings,
    OpenDeveloper,
    Quit,
}

/// What choosing `item` does in the given state.
pub open spec fn choose_item(item: MenuItem, model_loaded: bool, topology_loaded: bool, is_api_online: bool) -> MenuAction {
    match item {
        MenuItem::Chat => if model_loaded { MenuAction::OpenChat } else { MenuAction::Stay },
        MenuItem::ViewDevices => if is_api_online { MenuAction::OpenDevices } else { MenuAction::Stay },
        MenuItem::ViewTopology => if topology_loaded { MenuAction::OpenTopology } else { MenuAction::Stay },
        MenuItem::LoadModel => if !model_loaded && is_api_online {
            MenuAction::OpenLoadModel
        } else {
            MenuAction::Stay
        },
        MenuItem::UnloadModel => if model_loaded && topology_loaded {
            MenuAction::OpenUnloadModel
        } else {
            MenuAction::Stay
        },
        MenuItem::Settings => MenuAction::OpenSettings,
        MenuItem::Developer => MenuAction::OpenDeveloper,
        MenuItem::Exit => MenuAction::Quit,
    }
}

/// Choosing an entry opens that entry's own screen or, when it is unavailable, nothing:
/// Settings, Developer and Exit always open theirs, and no two entries open the same screen.
pub proof fn lemma_entries_open_own_screen(model_loaded: bool, topology_loaded: bool, is_api_online: bool)
    ensures
        ({
            let a = choose_item(MenuItem::Chat, model_loaded, topology_loaded, is_api_online);
            a == MenuAction::OpenChat || a == MenuAction::Stay
        }),
        ({
            let a = choose_item(MenuItem::ViewDevices, model_loaded, topology_loaded, is_api_online);
            a == MenuAction::OpenDevices || a == MenuAction::Stay
        }),
        ({
            let a = choose_item(MenuItem::ViewTopology, model_loaded, topology_loaded, is_api_online);
            a == MenuAction::OpenTopology || a == MenuAction::Stay
        }),
        ({
            let a = choose_item(MenuItem::LoadModel, model_loaded, topology_loaded, is_api_online);
            a == MenuAction::OpenLoadModel || a == MenuAction::Stay
        }),
        ({
            let a = choose_item(MenuItem::UnloadModel, model_loaded, topology_loaded, is_api_online);
            a == MenuAction::OpenUnloadModel || a == MenuAction::Stay
        }),
        choose_item(MenuItem::Settings, model_loaded, topology_loaded, is_api_online) == MenuAction::OpenSettings,
        choose_item(MenuItem::Developer, model_loaded, topology_loaded, is_api_online) == MenuAction::OpenDeveloper,
        choose_item(MenuItem::Exit, model_loaded, topology_loaded, is_api_online) == MenuAction::Quit,
        forall|a: MenuItem, b: MenuItem|
            a != b && #[trigger] choose_item(a, model_loaded, topology_loaded, is_api_online) != MenuAction::Stay
                ==> choose_item(a, model_loaded, topology_loaded, is_api_online)
                    != #[trigger] choose_item(b, model_loaded, topology_loaded, is_api_online),
{
}

/// Chooses the entry under the cursor.
pub fn select_menu_item(state: &MenuState, model_loaded: bool, topology_loaded: bool, is_api_online: bool) -> (a: MenuAction)
    requires
        state.selection_idx < all_items().len(),
    ensures
        a == choose_item(all_items()[state.selection_idx as int], model_loaded, topology_loaded, is_api_online),
{
    let items = MenuItem::all();
    match items[state.selection_idx] {
        MenuItem::Chat => if model_loaded { MenuAction::OpenChat } else { MenuAction::Stay },
        MenuItem::ViewDevices => if is_api_online { MenuAction::OpenDevices } else { MenuAction::Stay },
        MenuItem::ViewTopology => if topology_loaded { MenuAction::OpenTopology } else { MenuAction::Stay },
        MenuItem::LoadModel => if !model_loaded && is_api_online {
            MenuAction::OpenLoadModel
        } else {
            MenuAction::Stay
        },
        MenuItem::UnloadModel => if model_loaded && topology_loaded {
            MenuAction::OpenUnloadModel
        } else {
            MenuAction::Stay
        },
        MenuItem::Settings => MenuAction::OpenSettings,
        MenuItem::Developer => MenuAction::OpenDeveloper,
        MenuItem::Exit => MenuAction::Quit,
    }
}

/// Handles a key on the main menu: Esc quits, arrows move, Enter chooses.
pub fn handle_menu_input(state: &mut MenuState, key: crate::input::KeyPress, model_loaded: bool, topology_loaded: bool, is_api_online: bool) -> (a: MenuAction)
    requires
        old(state).selection_idx < all_items().len(),
    ensures
        final(state).selection_idx < all_items().len(),
        match key.code {
            crate::input::KeyCode::Esc => a == MenuAction::Quit && *final(state) == *old(state),
            crate::input::KeyCode::Up => a == MenuAction::Stay && final(state).selection_idx == (if old(state).selection_idx > 0 { old(state).selection_idx - 1 } else { 0 }),
            crate::input::KeyCode::Down => a == MenuAction::Stay && final(state).selection_idx == (if old(state).selection_idx < all_items().len() - 1 { old(state).selection_idx + 1 } else { old(state).selection_idx as int }),
            crate::input::KeyCode::Enter => *final(state) == *old(state) && a == choose_item(all_items()[old(state).selection_idx as int], model_loaded, topology_loaded, is_api_online),
            _ => a == MenuAction::Stay && *final(state) == *old(state),
        },
{
    match key.code {
        crate::input::KeyCode::Esc => MenuAction::Quit,
        crate::input::KeyCode::Up => {
            state.menu_up();
            MenuAction::Stay
        },
        crate::input::KeyCode::Down => {
            state.menu_down();
            MenuAction::Stay
        },
        crate::input::KeyCode::Enter => select_menu_item(state, model_loaded, topology_loaded, is_api_online),
        _ => MenuAction::Stay,
    }
}

/// An entry shown as unavailable does nothing when chosen, and an available entry always
/// does something, provided a loaded model implies a loaded topology (a model is only
/// ever loaded into a topology).
pub proof fn lemma_disabled_items_do_nothing(item: MenuItem, model_loaded: bool, topology_loaded: bool, is_api_online: bool)
    requires
        model_loaded ==> topology_loaded,
    ensures
        (choose_item(item, model_loaded, topology_loaded, is_api_online) == MenuAction::Stay) <==> item_disabled(item, model_loaded, topology_loaded, is_api_online),
{
}

/// An entry's description carries a note in parentheses exactly when the entry is
/// unavailable: the note says why.
pub proof fn lemma_note_iff_disabled(item: MenuItem, model_loaded: bool, topology_loaded: bool, is_api_online: bool)
    ensures
        description_text(item, model_loaded, topology_loaded, is_api_online).contains('(')
            <==> item_disabled(item, model_loaded, topology_loaded, is_api_online),
{
    reveal_strlit("Chat with loaded model");
    reveal_strlit("Chat (no model loaded)");
    reveal_strlit("View devices");
    reveal_strlit("View devices (API unavailable)");
    reveal_strlit("View topology");
    reveal_strlit("View topology (no topology available)");
    reveal_strlit("Load a model (model already loaded)");
    reveal_strlit("Load a model");
    reveal_strlit("Load a model (API unavailable)");
    reveal_strlit("Unload model");
    reveal_strlit("Unload model (no model loaded)");
    reveal_strlit("Edit configuration");
    reveal_strlit("Advanced developer tools");
    reveal_strlit("Quit application");
    let d = description_text(item, model_loaded, topology_loaded, is_api_online);
    if item_disabled(item, model_loaded, topology_loaded, is_api_online) {
        let i: int = match item {
            MenuItem::Chat => 5,
            MenuItem::ViewDevices => 13,
            MenuItem::ViewTopology => 14,
            MenuItem::LoadModel => 13,
            _ => 13,
        };
        assert(d[i] == '(');
    } else {
        assert forall|i: int| 0 <= i < d.len() implies d[i] != '(' by {}
    }
}

/// The entries' labels are distinct and at most 15 characters long, so every entry's line
/// puts its `": "` separator at the same column, 15.
pub proof fn lemma_labels_distinct_and_short(a: MenuItem, b: MenuItem)
    ensures
        label_text(a).len() <= 15,
        pad_right(label_text(a), 15).len() == 15,
        a != b ==> label_text(a) != label_text(b),
{
    reveal_strlit("Chat");
    reveal_strlit("View Devices");
    reveal_strlit("View Topology");
    reveal_strlit("Load Model");
    reveal_strlit("Unload Model");
    reveal_strlit("Settings");
    reveal_strlit("Developer");
    reveal_strlit("Exit");
    let la = label_text(a);
    let lb = label_text(b);
    if a != b {
        assert(la.len() != lb.len() || la[0] != lb[0]);
    }
}

/// Seconds between health checks while the API is offline.
pub const HEALTH_CHECK_INTERVAL_SECS: u64 = 1;

/// Seconds between topology checks while the API is online.
pub const TOPOLOGY_CHECK_INTERVAL_SECS: u64 = 3;

/// Whether the menu checks the API's health now: only while it is offline, once a second
/// (`since_secs` whole seconds have passed since the last check).
pub fn health_check_due(is_api_online: bool, since_secs: u64) -> (b: bool)
    ensures
        b == (!is_api_online && since_secs >= HEALTH_CHECK_INTERVAL_SECS),
{
    !is_api_online && since_secs >= HEALTH_CHECK_INTERVAL_SECS
}

/// Whether the menu fetches the list of models now: while online, until it has one.
pub fn models_fetch_due(is_api_online: bool, have_models: bool) -> (b: bool)
    ensures
        b == (is_api_online && !have_models),
{
    is_api_online && !have_models
}

/// Whether the menu fetches the topology now: while online, every three seconds.
pub fn topology_check_due(is_api_online: bool, since_secs: u64) -> (b: bool)
    ensures
        b == (is_api_online && since_secs >= TOPOLOGY_CHECK_INTERVAL_SECS),
{
    is_api_online && since_secs >= TOPOLOGY_CHECK_INTERVAL_SECS
}

/// How a menu entry is drawn.
#[derive(Debug, Clone, Copy, PartialEq, Eq, Structural)]
pub enum EntryStyle {
    SelectedDisabled,
    SelectedAvailable,
    Disabled,
    Available,
}

/// How a menu entry is drawn, from whether it is selected and whether it is disabled.
pub fn entry_style(is_selected: bool, is_disabled: bool) -> (st: EntryStyle)
    ensures
        st == (if is_selected {
            if is_disabled {
                EntryStyle::SelectedDisabled
            } else {
                EntryStyle::SelectedAvailable
            }
        } else if is_disabled {
            EntryStyle::Disabled
        } else {
            EntryStyle::Available
        }),
{
    if is_selected {
        if is_disabled {
            EntryStyle::SelectedDisabled
        } else {
            EntryStyle::SelectedAvailable
        }
    } else if is_disabled {
        EntryStyle::Disabled
    } else {
        EntryStyle::Available
    }
}

/// Where something `size` cells long starts to stand centred in `avail` cells (at the
/// start when it does not fit).
pub fn centered_start(avail: u16, size: u16) -> (p: u16)
    ensures
        p == (if avail >= size {
            (avail - size) / 2
        } else {
            0
        }),
{
    if avail >= size {
        (avail - size) / 2
    } else {
        0
    }
}

} // verus!
