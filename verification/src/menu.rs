use vstd::prelude::*;

use crate::views::menu::{pad_right, padded_entry};
use crate::text::chars_of;

verus! {

broadcast use vstd::string::group_string_axioms;

/// An entry of the compact main menu, which has no device list.
#[derive(Debug, Clone, Copy, PartialEq, Eq, Structural)]
pub enum MenuItem {
    Chat,
    ViewTopology,
    LoadModel,
    UnloadModel,
    Settings,
    Developer,
    Exit,
}

/// The entries of the compact menu, top to bottom.
pub open spec fn all_items() -> Seq<MenuItem> {
    seq![
        MenuItem::Chat,
        MenuItem::ViewTopology,
        MenuItem::LoadModel,
        MenuItem::UnloadModel,
        MenuItem::Settings,
        MenuItem::Developer,
        MenuItem::Exit,
    ]
}

/// The label of an entry.
pub open spec fn label_text(item: MenuItem) -> Seq<char> {
    match item {
        MenuItem::Chat => "Chat"@,
        MenuItem::ViewTopology => "View Topology"@,
        MenuItem::LoadModel => "Load Model"@,
        MenuItem::UnloadModel => "Unload Model"@,
        MenuItem::Settings => "Settings"@,
        MenuItem::Developer => "Developer"@,
        MenuItem::Exit => "Exit"@,
    }
}

/// The description of an entry.
pub open spec fn description_text(item: MenuItem, model_loaded: bool) -> Seq<char> {
    match item {
        MenuItem::Chat => if model_loaded {
            "Chat with loaded model"@
        } else {
            "Chat (no model loaded)"@
        },
        MenuItem::ViewTopology => "View dnet topology"@,
        MenuItem::LoadModel => "Prepare & load a model"@,
        MenuItem::UnloadModel => "Unload current model"@,
        MenuItem::Settings => "Edit configuration"@,
        MenuItem::Developer => "Advanced developer tools"@,
        MenuItem::Exit => "Quit application"@,
    }
}

/// An entry as the menu shows it: the label padded to 15 characters, `: `, the description.
pub open spec fn item_text(item: MenuItem, model_loaded: bool) -> Seq<char> {
    pad_right(label_text(item), 15) + ": "@ + description_text(item, model_loaded)
}

/// The widest entry of `items`, in characters.
pub open spec fn widest(items: Seq<MenuItem>, model_loaded: bool) -> nat
    decreases items.len(),
{
    if items.len() == 0 {
        0
    } else {
        let rest = widest(items.drop_last(), model_loaded);
        let w = item_text(items.last(), model_loaded).len();
        if w > rest {
            w
        } else {
            rest
        }
    }
}

impl MenuItem {
    /// The entry as the menu shows it.
    pub fn fmt(&self, model_loaded: bool) -> (s: String)
        ensures
            s@ == item_text(*self, model_loaded),
    {
        padded_entry(self.label(), 15, self.description(model_loaded))
    }

    /// The entries of the compact menu, top to bottom.
    pub fn all() -> (v: Vec<MenuItem>)
        ensures
            v@ == all_items(),
    {
        let v = vec![
            MenuItem::Chat,
            MenuItem::ViewTopology,
            MenuItem::LoadModel,
            MenuItem::UnloadModel,
            MenuItem::Settings,
            MenuItem::Developer,
            MenuItem::Exit,
        ];
        assert(v@ =~= all_items());
        v
    }

    /// The label of the entry.
    pub fn label(&self) -> (s: &'static str)
        ensures
            s@ == label_text(*self),
    {
        match self {
            MenuItem::Chat => "Chat",
            MenuItem::ViewTopology => "View Topology",
            MenuItem::LoadModel => "Load Model",
            MenuItem::UnloadModel => "Unload Model",
            MenuItem::Settings => "Settings",
            MenuItem::Developer => "Developer",
            MenuItem::Exit => "Exit",
        }
    }

    /// The description of the entry.
    pub fn description(&self, model_loaded: bool) -> (s: &'static str)
        ensures
            s@ == description_text(*self, model_loaded),
    {
        match self {
            MenuItem::Chat => if model_loaded {
                "Chat with loaded model"
            } else {
                "Chat (no model loaded)"
            },
            MenuItem::ViewTopology => "View dnet topology",
            MenuItem::LoadModel => "Prepare & load a model",
            MenuItem::UnloadModel => "Unload current model",
            MenuItem::Settings => "Edit configuration",
            MenuItem::Developer => "Advanced developer tools",
            MenuItem::Exit => "Quit application",
        }
    }

    /// The number of rows of the menu.
    pub fn total_height() -> (h: u16)
        ensures
            h == all_items().len(),
    {
        MenuItem::all().len() as u16
    }

    /// The width of the widest entry, in characters.
    pub fn total_width(model_loaded: bool) -> (w: u16)
        ensures
            w as nat == widest(all_items(), model_loaded) % 0x1_0000,
    {
        let items = MenuItem::all();
        let mut best: usize = 0;
        let mut i: usize = 0;
        while i < items.len()
            invariant
                items@ == all_items(),
                i <= items@.len(),
                best == widest(items@.take(i as int), model_loaded),
            decreases items@.len() - i,
        {
            let n = chars_of(items[i].fmt(model_loaded).as_str()).len();
            assert(items@.take(i + 1).drop_last() =~= items@.take(i as int));
            if n > best {
                best = n;
            }
            i = i + 1;
        }
        assert(items@.take(items@.len() as int) =~= items@);
        (best % 0x1_0000) as u16
    }
}

/// What the compact menu asks of the application after a key.
#[derive(Debug, Clone, Copy, PartialEq, Eq, Structural)]
pub enum MenuCommand {
    Stay,
    Quit,
    /// Open the chosen screen (chat only once a model is loaded).
    Open(MenuItem),
}

/// What choosing `item` does: chat needs a loaded model, Exit quits, the rest open.
pub open spec fn command_for(item: MenuItem, model_loaded: bool) -> MenuCommand {
    match item {
        MenuItem::Chat => if model_loaded {
            MenuCommand::Open(MenuItem::Chat)
        } else {
            MenuCommand::Stay
        },
        MenuItem::Exit => MenuCommand::Quit,
        _ => MenuCommand::Open(item),
    }
}

/// Handles a key on the compact menu with the cursor at `*selected`: Esc, `q` and Control-C
/// quit; Up and Down move the cursor without wrapping; Enter chooses the entry.
pub fn handle_menu_input(selected: &mut usize, key: crate::input::KeyPress, model_loaded: bool) -> (c: MenuCommand)
    requires
        *old(selected) < 7,
    ensures
        *final(selected) < 7,
        match key.code {
            crate::input::KeyCode::Esc => c == MenuCommand::Quit && *final(selected) == *old(selected),
            crate::input::KeyCode::Char(ch) => *final(selected) == *old(selected) && c == (if ch == 'q' || (
            key.ctrl && (ch == 'c' || ch == 'C')) {
                MenuCommand::Quit
            } else {
                MenuCommand::Stay
            }),
            crate::input::KeyCode::Up => c == MenuCommand::Stay && *final(selected) == (if *old(selected) > 0 {
                *old(selected) - 1
            } else {
                0
            }),
            crate::input::KeyCode::Down => c == MenuCommand::Stay && *final(selected) == (if *old(selected) < 6 {
                *old(selected) + 1
            } else {
                6
            }),
            crate::input::KeyCode::Enter => *final(selected) == *old(selected) && c == command_for(
                all_items()[*old(selected) as int],
                model_loaded,
            ),
            _ => c == MenuCommand::Stay && *final(selected) == *old(selected),
        },
{
    match key.code {
        crate::input::KeyCode::Esc => MenuCommand::Quit,
        crate::input::KeyCode::Char(ch) => {
            if ch == 'q' || (key.ctrl && (ch == 'c' || ch == 'C')) {
                MenuCommand::Quit
            } else {
                MenuCommand::Stay
            }
        },
        crate::input::KeyCode::Up => {
            if *selected > 0 {
                *selected = *selected - 1;
            }
            MenuCommand::Stay
        },
        crate::input::KeyCode::Down => {
            if *selected < 6 {
                *selected = *selected + 1;
            }
            MenuCommand::Stay
        },
        crate::input::KeyCode::Enter => {
            let items = MenuItem::all();
            let item = items[*selected];
            match item {
                MenuItem::Chat => if model_loaded {
                    MenuCommand::Open(MenuItem::Chat)
                } else {
                    MenuCommand::Stay
                },
                MenuItem::Exit => MenuCommand::Quit,
                _ => MenuCommand::Open(item),
            }
        },
        _ => MenuCommand::Stay,
    }
}

} // verus!
