//! The tray menu as data: its items in order, with their command ids, check
//! marks and localisation keys.
use vstd::prelude::*;

verus! {

pub const CMD_SETTINGS: u32 = 1000;
pub const CMD_AUTOSTOP: u32 = 1001;
pub const CMD_MATH: u32 = 1002;
pub const CMD_QUIT: u32 = 1003;
pub const CMD_CONSOLE: u32 = 1004;
pub const CMD_ADD_WORD: u32 = 1005;
pub const CMD_EDIT_DICT: u32 = 1006;
pub const CMD_WAKE: u32 = 1007;
pub const CMD_ADD_HALL: u32 = 1008;
pub const CMD_EDIT_HALL: u32 = 1009;
pub const CMD_TRANSCRIBE_FILE: u32 = 1010;
pub const CMD_SUBTITLE_FILE: u32 = 1011;

/// The kind of a menu item.
#[derive(Debug, Clone, Copy, PartialEq, Eq, Structural)]
pub enum MenuKind {
    /// The greyed version line at the top.
    Version,
    Separator,
    Item,
    /// An item with a check mark, on or off.
    Checked(bool),
}

/// One menu item: separators have id 0 and an empty key.
#[derive(Debug, Clone, Copy, PartialEq)]
pub struct TrayMenuItem {
    pub kind: MenuKind,
    pub id: u32,
    pub label_key: &'static str,
}

/// What the menu depends on.
#[derive(Debug, Clone, Copy)]
pub struct TrayMenuState {
    pub vad_on: bool,
    pub wake_on: bool,
    pub console_visible: bool,
}

/// An item as (kind, id, key).
pub open spec fn item_view(it: TrayMenuItem) -> (MenuKind, u32, Seq<char>) {
    (it.kind, it.id, it.label_key@)
}

/// The menu for `state`, top to bottom.
pub open spec fn menu_model(state: TrayMenuState) -> Seq<(MenuKind, u32, Seq<char>)> {
    let sep = (MenuKind::Separator, 0u32, ""@);
    seq![
        (MenuKind::Version, 0u32, "tray.menu.version"@),
        sep,
        (MenuKind::Item, CMD_SETTINGS, "tray.menu.settings"@),
        sep,
        (MenuKind::Item, CMD_CONSOLE, if state.console_visible {
            "tray.menu.toggle_console.hide"@
        } else {
            "tray.menu.toggle_console.show"@
        }),
        sep,
        (MenuKind::Item, CMD_ADD_WORD, "tray.menu.add_word"@),
        (MenuKind::Item, CMD_EDIT_DICT, "tray.menu.edit_dict"@),
        sep,
        (MenuKind::Item, CMD_ADD_HALL, "tray.menu.add_hall"@),
        (MenuKind::Item, CMD_EDIT_HALL, "tray.menu.edit_hall"@),
        sep,
        (MenuKind::Item, CMD_TRANSCRIBE_FILE, "tray.menu.transcribe_file"@),
        (MenuKind::Item, CMD_SUBTITLE_FILE, "tray.menu.subtitle_file"@),
        sep,
        (MenuKind::Checked(state.wake_on), CMD_WAKE, "tray.menu.voice_activation"@),
        (MenuKind::Checked(state.vad_on), CMD_AUTOSTOP, "tray.menu.auto_stop"@),
        (MenuKind::Item, CMD_MATH, "tray.menu.math_mode"@),
        sep,
        (MenuKind::Item, CMD_QUIT, "tray.menu.quit"@),
    ]
}

/// The menu items for `state`.
pub fn menu_items(state: &TrayMenuState) -> (r: Vec<TrayMenuItem>)
    ensures
        r@.map_values(|it: TrayMenuItem| item_view(it)) == menu_model(*state),
{
    let sep = TrayMenuItem { kind: MenuKind::Separator, id: 0, label_key: "" };
    let console_key: &'static str = if state.console_visible {
        "tray.menu.toggle_console.hide"
    } else {
        "tray.menu.toggle_console.show"
    };
    let mut r: Vec<TrayMenuItem> = Vec::new();
    r.push(TrayMenuItem { kind: MenuKind::Version, id: 0, label_key: "tray.menu.version" });
    r.push(sep);
    r.push(TrayMenuItem { kind: MenuKind::Item, id: CMD_SETTINGS, label_key: "tray.menu.settings" });
    r.push(sep);
    r.push(TrayMenuItem { kind: MenuKind::Item, id: CMD_CONSOLE, label_key: console_key });
    r.push(sep);
    r.push(TrayMenuItem { kind: MenuKind::Item, id: CMD_ADD_WORD, label_key: "tray.menu.add_word" });
    r.push(TrayMenuItem { kind: MenuKind::Item, id: CMD_EDIT_DICT, label_key: "tray.menu.edit_dict" });
    r.push(sep);
    r.push(TrayMenuItem { kind: MenuKind::Item, id: CMD_ADD_HALL, label_key: "tray.menu.add_hall" });
    r.push(TrayMenuItem { kind: MenuKind::Item, id: CMD_EDIT_HALL, label_key: "tray.menu.edit_hall" });
    r.push(sep);
    r.push(TrayMenuItem { kind: MenuKind::Item, id: CMD_TRANSCRIBE_FILE, label_key: "tray.menu.transcribe_file" });
    r.push(TrayMenuItem { kind: MenuKind::Item, id: CMD_SUBTITLE_FILE, label_key: "tray.menu.subtitle_file" });
    r.push(sep);
    r.push(TrayMenuItem { kind: MenuKind::Checked(state.wake_on), id: CMD_WAKE, label_key: "tray.menu.voice_activation" });
    r.push(TrayMenuItem { kind: MenuKind::Checked(state.vad_on), id: CMD_AUTOSTOP, label_key: "tray.menu.auto_stop" });
    r.push(TrayMenuItem { kind: MenuKind::Item, id: CMD_MATH, label_key: "tray.menu.math_mode" });
    r.push(sep);
    r.push(TrayMenuItem { kind: MenuKind::Item, id: CMD_QUIT, label_key: "tray.menu.quit" });
    assert(r@.map_values(|it: TrayMenuItem| item_view(it)) =~= menu_model(*state));
    r
}

/// The menu always has twenty items, the version first and Quit last, and
/// exactly the two toggles carry check marks, showing the two switches.
pub proof fn lemma_menu_shape(state: TrayMenuState)
    ensures
        menu_model(state).len() == 20,
        menu_model(state)[0].0 == MenuKind::Version,
        menu_model(state)[19] == (MenuKind::Item, CMD_QUIT, "tray.menu.quit"@),
        menu_model(state)[15] == (MenuKind::Checked(state.wake_on), CMD_WAKE, "tray.menu.voice_activation"@),
        menu_model(state)[16] == (MenuKind::Checked(state.vad_on), CMD_AUTOSTOP, "tray.menu.auto_stop"@),
        forall|i: int| 0 <= i < 20 && i != 15 && i != 16 ==> !(#[trigger] menu_model(state)[i].0 is Checked),
{
}

/// Items other than separators and the version line have distinct command
/// ids, so a click identifies its item.
pub proof fn lemma_menu_ids_distinct(state: TrayMenuState)
    ensures
        forall|i: int, j: int|
            0 <= i < j < 20 && #[trigger] menu_model(state)[i].1 != 0 && #[trigger] menu_model(state)[j].1 != 0
                ==> menu_model(state)[i].1 != menu_model(state)[j].1,
{
}

} // verus!
