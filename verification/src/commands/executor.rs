//! Voice commands: triggers, their actions, and matching a recognised phrase.
use vstd::prelude::*;

use crate::text::json::{json_nested_string_maps, nested_distinct_keys, nested_pair_map, parse_nested_string_maps};
use crate::text::chars::{chars_eq, copy_chars, ends_with, split_words, starts_with, to_chars, words};
use crate::text::rules::owned;
use crate::text::string_map::{lookup, StringMap};
use crate::text::unicode::{lowercase, lowercase_chars};

verus! {

/// What a voice command does.
#[derive(Debug, Clone)]
pub enum CommandAction {
    Paste(String),
    Hotkey(String),
    MouseMove(String),
    MouseClick(String),
    MouseScroll(String),
    MouseScrollMax(String),
    MouseMonitor(String),
    MouseContinuous(String),
    MouseStop,
    FocusSwitch,
    FocusSave,
    Grid(String),
    GridZoom(String),
    SelectionMore,
    SelectionLess,
    ToggleMathMode(bool),
    Nothing,
}

/// A command action with its text as a character sequence.
pub ghost enum ActionModel {
    Paste(Seq<char>),
    Hotkey(Seq<char>),
    MouseMove(Seq<char>),
    MouseClick(Seq<char>),
    MouseScroll(Seq<char>),
    MouseScrollMax(Seq<char>),
    MouseMonitor(Seq<char>),
    MouseContinuous(Seq<char>),
    MouseStop,
    FocusSwitch,
    FocusSave,
    Grid(Seq<char>),
    GridZoom(Seq<char>),
    SelectionMore,
    SelectionLess,
    ToggleMathMode(bool),
    Nothing,
}

impl View for CommandAction {
    type V = ActionModel;

    open spec fn view(&self) -> ActionModel {
        match self {
            CommandAction::Paste(s) => ActionModel::Paste(s@),
            CommandAction::Hotkey(s) => ActionModel::Hotkey(s@),
            CommandAction::MouseMove(s) => ActionModel::MouseMove(s@),
            CommandAction::MouseClick(s) => ActionModel::MouseClick(s@),
            CommandAction::MouseScroll(s) => ActionModel::MouseScroll(s@),
            CommandAction::MouseScrollMax(s) => ActionModel::MouseScrollMax(s@),
            CommandAction::MouseMonitor(s) => ActionModel::MouseMonitor(s@),
            CommandAction::MouseContinuous(s) => ActionModel::MouseContinuous(s@),
            CommandAction::MouseStop => ActionModel::MouseStop,
            CommandAction::FocusSwitch => ActionModel::FocusSwitch,
            CommandAction::FocusSave => ActionModel::FocusSave,
            CommandAction::Grid(s) => ActionModel::Grid(s@),
            CommandAction::GridZoom(s) => ActionModel::GridZoom(s@),
            CommandAction::SelectionMore => ActionModel::SelectionMore,
            CommandAction::SelectionLess => ActionModel::SelectionLess,
            CommandAction::ToggleMathMode(b) => ActionModel::ToggleMathMode(*b),
            CommandAction::Nothing => ActionModel::Nothing,
        }
    }
}

impl CommandAction {
    /// An equal action, owned.
    pub fn duplicate(&self) -> (r: CommandAction)
        ensures
            r@ == self@,
    {
        match self {
            CommandAction::Paste(s) => CommandAction::Paste(s.clone()),
            CommandAction::Hotkey(s) => CommandAction::Hotkey(s.clone()),
            CommandAction::MouseMove(s) => CommandAction::MouseMove(s.clone()),
            CommandAction::MouseClick(s) => CommandAction::MouseClick(s.clone()),
            CommandAction::MouseScroll(s) => CommandAction::MouseScroll(s.clone()),
            CommandAction::MouseScrollMax(s) => CommandAction::MouseScrollMax(s.clone()),
            CommandAction::MouseMonitor(s) => CommandAction::MouseMonitor(s.clone()),
            CommandAction::MouseContinuous(s) => CommandAction::MouseContinuous(s.clone()),
            CommandAction::MouseStop => CommandAction::MouseStop,
            CommandAction::FocusSwitch => CommandAction::FocusSwitch,
            CommandAction::FocusSave => CommandAction::FocusSave,
            CommandAction::Grid(s) => CommandAction::Grid(s.clone()),
            CommandAction::GridZoom(s) => CommandAction::GridZoom(s.clone()),
            CommandAction::SelectionMore => CommandAction::SelectionMore,
            CommandAction::SelectionLess => CommandAction::SelectionLess,
            CommandAction::ToggleMathMode(b) => CommandAction::ToggleMathMode(*b),
            CommandAction::Nothing => CommandAction::Nothing,
        }
    }
}

/// Trigger phrases of a command, per language.
#[derive(Debug, Clone)]
pub struct RawTriggers {
    pub common: Option<Vec<String>>,
    pub ru: Option<Vec<String>>,
    pub en: Option<Vec<String>>,
}

/// A command as the command file describes it.
#[derive(Debug, Clone)]
pub struct RawCommand {
    pub triggers: Option<RawTriggers>,
    pub cmd_type: String,
    pub value: Option<String>,
}

pub open spec fn string_seq(v: Option<Vec<String>>) -> Seq<Seq<char>> {
    match v {
        Some(v) => v@.map_values(|s: String| s@),
        None => seq![],
    }
}

/// The trigger phrases: common ones, then Russian, then English.
pub open spec fn triggers_of(t: Option<RawTriggers>) -> Seq<Seq<char>> {
    match t {
        Some(t) => string_seq(t.common) + string_seq(t.ru) + string_seq(t.en),
        None => seq![],
    }
}

pub open spec fn opt_seq(v: Option<Seq<char>>, default: Seq<char>) -> Seq<char> {
    match v {
        Some(s) => s,
        None => default,
    }
}

/// The action of a command type with its optional value.
pub open spec fn action_model(cmd_type: Seq<char>, value: Option<Seq<char>>) -> ActionModel {
    if cmd_type == "paste"@ {
        ActionModel::Paste(opt_seq(value, ""@))
    } else if cmd_type == "hotkey"@ {
        ActionModel::Hotkey(opt_seq(value, ""@))
    } else if cmd_type == "mouse_move"@ {
        ActionModel::MouseMove(opt_seq(value, "right"@))
    } else if cmd_type == "mouse_click"@ {
        ActionModel::MouseClick(opt_seq(value, "left"@))
    } else if cmd_type == "mouse_scroll"@ {
        ActionModel::MouseScroll(opt_seq(value, "down"@))
    } else if cmd_type == "mouse_scroll_max"@ {
        ActionModel::MouseScrollMax(opt_seq(value, "down"@))
    } else if cmd_type == "mouse_monitor"@ {
        ActionModel::MouseMonitor(opt_seq(value, "1"@))
    } else if cmd_type == "mouse_continuous"@ {
        ActionModel::MouseContinuous(opt_seq(value, "right"@))
    } else if cmd_type == "mouse_stop"@ {
        ActionModel::MouseStop
    } else if cmd_type == "focus_switch"@ {
        ActionModel::FocusSwitch
    } else if cmd_type == "focus_save"@ {
        ActionModel::FocusSave
    } else if cmd_type == "grid"@ {
        ActionModel::Grid(opt_seq(value, ""@))
    } else if cmd_type == "grid_zoom"@ {
        ActionModel::GridZoom(opt_seq(value, ""@))
    } else if cmd_type == "selection_more"@ {
        ActionModel::SelectionMore
    } else if cmd_type == "selection_less"@ {
        ActionModel::SelectionLess
    } else if cmd_type == "toggle_math_mode"@ {
        ActionModel::ToggleMathMode(value == Some("on"@))
    } else {
        ActionModel::Nothing
    }
}

/// Each command type names its action: paste, hotkey, mouse_move,
/// mouse_click, mouse_scroll, mouse_scroll_max, mouse_monitor,
/// mouse_continuous, grid and grid_zoom carry the value (by default empty,
/// "right", "left", "down", "down", "1", "right", empty, empty); mouse_stop,
/// focus_switch, focus_save, selection_more and selection_less carry none;
/// toggle_math_mode is on exactly for the value "on"; any other type does
/// nothing.
pub proof fn lemma_command_type_table(t: Seq<char>, value: Option<Seq<char>>, x: Seq<char>)
    ensures
        action_model("paste"@, Some(x)) == ActionModel::Paste(x),
        action_model("paste"@, None) == ActionModel::Paste(""@),
        action_model("hotkey"@, Some(x)) == ActionModel::Hotkey(x),
        action_model("hotkey"@, None) == ActionModel::Hotkey(""@),
        action_model("mouse_move"@, Some(x)) == ActionModel::MouseMove(x),
        action_model("mouse_move"@, None) == ActionModel::MouseMove("right"@),
        action_model("mouse_click"@, Some(x)) == ActionModel::MouseClick(x),
        action_model("mouse_click"@, None) == ActionModel::MouseClick("left"@),
        action_model("mouse_scroll"@, Some(x)) == ActionModel::MouseScroll(x),
        action_model("mouse_scroll"@, None) == ActionModel::MouseScroll("down"@),
        action_model("mouse_scroll_max"@, Some(x)) == ActionModel::MouseScrollMax(x),
        action_model("mouse_scroll_max"@, None) == ActionModel::MouseScrollMax("down"@),
        action_model("mouse_monitor"@, Some(x)) == ActionModel::MouseMonitor(x),
        action_model("mouse_monitor"@, None) == ActionModel::MouseMonitor("1"@),
        action_model("mouse_continuous"@, Some(x)) == ActionModel::MouseContinuous(x),
        action_model("mouse_continuous"@, None) == ActionModel::MouseContinuous("right"@),
        action_model("mouse_stop"@, value) == ActionModel::MouseStop,
        action_model("focus_switch"@, value) == ActionModel::FocusSwitch,
        action_model("focus_save"@, value) == ActionModel::FocusSave,
        action_model("grid"@, Some(x)) == ActionModel::Grid(x),
        action_model("grid"@, None) == ActionModel::Grid(""@),
        action_model("grid_zoom"@, Some(x)) == ActionModel::GridZoom(x),
        action_model("grid_zoom"@, None) == ActionModel::GridZoom(""@),
        action_model("selection_more"@, value) == ActionModel::SelectionMore,
        action_model("selection_less"@, value) == ActionModel::SelectionLess,
        action_model("toggle_math_mode"@, Some("on"@)) == ActionModel::ToggleMathMode(true),
        value != Some("on"@) ==> action_model("toggle_math_mode"@, value) == ActionModel::ToggleMathMode(false),
        t != "paste"@ && t != "hotkey"@ && t != "mouse_move"@ && t != "mouse_click"@ && t != "mouse_scroll"@ && t != "mouse_scroll_max"@ && t != "mouse_monitor"@ && t != "mouse_continuous"@ && t != "mouse_stop"@ && t != "focus_switch"@ && t != "focus_save"@ && t != "grid"@ && t != "grid_zoom"@ && t != "selection_more"@ && t != "selection_less"@ && t != "toggle_math_mode"@ ==> action_model(t, value) == ActionModel::Nothing,
{
    reveal_strlit("paste");
    reveal_strlit("hotkey");
    reveal_strlit("mouse_move");
    reveal_strlit("mouse_click");
    reveal_strlit("mouse_scroll");
    reveal_strlit("mouse_scroll_max");
    reveal_strlit("mouse_monitor");
    reveal_strlit("mouse_continuous");
    reveal_strlit("mouse_stop");
    reveal_strlit("focus_switch");
    reveal_strlit("focus_save");
    reveal_strlit("grid");
    reveal_strlit("grid_zoom");
    reveal_strlit("selection_more");
    reveal_strlit("selection_less");
    reveal_strlit("toggle_math_mode");
    reveal_strlit("on");
    assert("hotkey"@.len() != "paste"@.len());
    assert("mouse_move"@.len() != "paste"@.len());
    assert("mouse_move"@.len() != "hotkey"@.len());
    assert("mouse_click"@.len() != "paste"@.len());
    assert("mouse_click"@.len() != "hotkey"@.len());
    assert("mouse_click"@.len() != "mouse_move"@.len());
    assert("mouse_scroll"@.len() != "paste"@.len());
    assert("mouse_scroll"@.len() != "hotkey"@.len());
    assert("mouse_scroll"@.len() != "mouse_move"@.len());
    assert("mouse_scroll"@.len() != "mouse_click"@.len());
    assert("mouse_scroll_max"@.len() != "paste"@.len());
    assert("mouse_scroll_max"@.len() != "hotkey"@.len());
    assert("mouse_scroll_max"@.len() != "mouse_move"@.len());
    assert("mouse_scroll_max"@.len() != "mouse_click"@.len());
    assert("mouse_scroll_max"@.len() != "mouse_scroll"@.len());
    assert("mouse_monitor"@.len() != "paste"@.len());
    assert("mouse_monitor"@.len() != "hotkey"@.len());
    assert("mouse_monitor"@.len() != "mouse_move"@.len());
    assert("mouse_monitor"@.len() != "mouse_click"@.len());
    assert("mouse_monitor"@.len() != "mouse_scroll"@.len());
    assert("mouse_monitor"@.len() != "mouse_scroll_max"@.len());
    assert("mouse_continuous"@.len() != "paste"@.len());
    assert("mouse_continuous"@.len() != "hotkey"@.len());
    assert("mouse_continuous"@.len() != "mouse_move"@.len());
    assert("mouse_continuous"@.len() != "mouse_click"@.len());
    assert("mouse_continuous"@.len() != "mouse_scroll"@.len());
    assert("mouse_continuous"@[6] != "mouse_scroll_max"@[6]);
    assert("mouse_continuous"@.len() != "mouse_monitor"@.len());
    assert("mouse_stop"@.len() != "paste"@.len());
    assert("mouse_stop"@.len() != "hotkey"@.len());
    assert("mouse_stop"@[6] != "mouse_move"@[6]);
    assert("mouse_stop"@.len() != "mouse_click"@.len());
    assert("mouse_stop"@.len() != "mouse_scroll"@.len());
    assert("mouse_stop"@.len() != "mouse_scroll_max"@.len());
    assert("mouse_stop"@.len() != "mouse_monitor"@.len());
    assert("mouse_stop"@.len() != "mouse_continuous"@.len());
    assert("focus_switch"@.len() != "paste"@.len());
    assert("focus_switch"@.len() != "hotkey"@.len());
    assert("focus_switch"@.len() != "mouse_move"@.len());
    assert("focus_switch"@.len() != "mouse_click"@.len());
    assert("focus_switch"@[0] != "mouse_scroll"@[0]);
    assert("focus_switch"@.len() != "mouse_scroll_max"@.len());
    assert("focus_switch"@.len() != "mouse_monitor"@.len());
    assert("focus_switch"@.len() != "mouse_continuous"@.len());
    assert("focus_switch"@.len() != "mouse_stop"@.len());
    assert("focus_save"@.len() != "paste"@.len());
    assert("focus_save"@.len() != "hotkey"@.len());
    assert("focus_save"@[0] != "mouse_move"@[0]);
    assert("focus_save"@.len() != "mouse_click"@.len());
    assert("focus_save"@.len() != "mouse_scroll"@.len());
    assert("focus_save"@.len() != "mouse_scroll_max"@.len());
    assert("focus_save"@.len() != "mouse_monitor"@.len());
    assert("focus_save"@.len() != "mouse_continuous"@.len());
    assert("focus_save"@[0] != "mouse_stop"@[0]);
    assert("focus_save"@.len() != "focus_switch"@.len());
    assert("grid"@.len() != "paste"@.len());
    assert("grid"@.len() != "hotkey"@.len());
    assert("grid"@.len() != "mouse_move"@.len());
    assert("grid"@.len() != "mouse_click"@.len());
    assert("grid"@.len() != "mouse_scroll"@.len());
    assert("grid"@.len() != "mouse_scroll_max"@.len());
    assert("grid"@.len() != "mouse_monitor"@.len());
    assert("grid"@.len() != "mouse_continuous"@.len());
    assert("grid"@.len() != "mouse_stop"@.len());
    assert("grid"@.len() != "focus_switch"@.len());
    assert("grid"@.len() != "focus_save"@.len());
    assert("grid_zoom"@.len() != "paste"@.len());
    assert("grid_zoom"@.len() != "hotkey"@.len());
    assert("grid_zoom"@.len() != "mouse_move"@.len());
    assert("grid_zoom"@.len() != "mouse_click"@.len());
    assert("grid_zoom"@.len() != "mouse_scroll"@.len());
    assert("grid_zoom"@.len() != "mouse_scroll_max"@.len());
    assert("grid_zoom"@.len() != "mouse_monitor"@.len());
    assert("grid_zoom"@.len() != "mouse_continuous"@.len());
    assert("grid_zoom"@.len() != "mouse_stop"@.len());
    assert("grid_zoom"@.len() != "focus_switch"@.len());
    assert("grid_zoom"@.len() != "focus_save"@.len());
    assert("grid_zoom"@.len() != "grid"@.len());
    assert("selection_more"@.len() != "paste"@.len());
    assert("selection_more"@.len() != "hotkey"@.len());
    assert("selection_more"@.len() != "mouse_move"@.len());
    assert("selection_more"@.len() != "mouse_click"@.len());
    assert("selection_more"@.len() != "mouse_scroll"@.len());
    assert("selection_more"@.len() != "mouse_scroll_max"@.len());
    assert("selection_more"@.len() != "mouse_monitor"@.len());
    assert("selection_more"@.len() != "mouse_continuous"@.len());
    assert("selection_more"@.len() != "mouse_stop"@.len());
    assert("selection_more"@.len() != "focus_switch"@.len());
    assert("selection_more"@.len() != "focus_save"@.len());
    assert("selection_more"@.len() != "grid"@.len());
    assert("selection_more"@.len() != "grid_zoom"@.len());
    assert("selection_less"@.len() != "paste"@.len());
    assert("selection_less"@.len() != "hotkey"@.len());
    assert("selection_less"@.len() != "mouse_move"@.len());
    assert("selection_less"@.len() != "mouse_click"@.len());
    assert("selection_less"@.len() != "mouse_scroll"@.len());
    assert("selection_less"@.len() != "mouse_scroll_max"@.len());
    assert("selection_less"@.len() != "mouse_monitor"@.len());
    assert("selection_less"@.len() != "mouse_continuous"@.len());
    assert("selection_less"@.len() != "mouse_stop"@.len());
    assert("selection_less"@.len() != "focus_switch"@.len());
    assert("selection_less"@.len() != "focus_save"@.len());
    assert("selection_less"@.len() != "grid"@.len());
    assert("selection_less"@.len() != "grid_zoom"@.len());
    assert("selection_less"@[10] != "selection_more"@[10]);
    assert("toggle_math_mode"@.len() != "paste"@.len());
    assert("toggle_math_mode"@.len() != "hotkey"@.len());
    assert("toggle_math_mode"@.len() != "mouse_move"@.len());
    assert("toggle_math_mode"@.len() != "mouse_click"@.len());
    assert("toggle_math_mode"@.len() != "mouse_scroll"@.len());
    assert("toggle_math_mode"@[0] != "mouse_scroll_max"@[0]);
    assert("toggle_math_mode"@.len() != "mouse_monitor"@.len());
    assert("toggle_math_mode"@[0] != "mouse_continuous"@[0]);
    assert("toggle_math_mode"@.len() != "mouse_stop"@.len());
    assert("toggle_math_mode"@.len() != "focus_switch"@.len());
    assert("toggle_math_mode"@.len() != "focus_save"@.len());
    assert("toggle_math_mode"@.len() != "grid"@.len());
    assert("toggle_math_mode"@.len() != "grid_zoom"@.len());
    assert("toggle_math_mode"@.len() != "selection_more"@.len());
    assert("toggle_math_mode"@.len() != "selection_less"@.len());
}

pub open spec fn opt_str_view(v: Option<&str>) -> Option<Seq<char>> {
    match v {
        Some(s) => Some(s@),
        None => None,
    }
}

fn is(s: &[char], lit: &str) -> (r: bool)
    ensures
        r == (s@ == lit@),
{
    chars_eq(s, to_chars(lit).as_slice())
}

fn value_or(value: Option<&str>, default: &str) -> (r: String)
    ensures
        r@ == opt_seq(opt_str_view(value), default@),
{
    match value {
        Some(v) => owned(v),
        None => owned(default),
    }
}

/// The action for a command of type `cmd_type`; an unknown type does nothing.
pub fn parse_action(name: &str, cmd_type: &str, value: Option<&str>) -> (r: CommandAction)
    ensures
        r@ == action_model(cmd_type@, opt_str_view(value)),
{
    let _ = name;
    let t = to_chars(cmd_type);
    let t = t.as_slice();
    if is(t, "paste") {
        CommandAction::Paste(value_or(value, ""))
    } else if is(t, "hotkey") {
        CommandAction::Hotkey(value_or(value, ""))
    } else if is(t, "mouse_move") {
        CommandAction::MouseMove(value_or(value, "right"))
    } else if is(t, "mouse_click") {
        CommandAction::MouseClick(value_or(value, "left"))
    } else if is(t, "mouse_scroll") {
        CommandAction::MouseScroll(value_or(value, "down"))
    } else if is(t, "mouse_scroll_max") {
        CommandAction::MouseScrollMax(value_or(value, "down"))
    } else if is(t, "mouse_monitor") {
        CommandAction::MouseMonitor(value_or(value, "1"))
    } else if is(t, "mouse_continuous") {
        CommandAction::MouseContinuous(value_or(value, "right"))
    } else if is(t, "mouse_stop") {
        CommandAction::MouseStop
    } else if is(t, "focus_switch") {
        CommandAction::FocusSwitch
    } else if is(t, "focus_save") {
        CommandAction::FocusSave
    } else if is(t, "grid") {
        CommandAction::Grid(value_or(value, ""))
    } else if is(t, "grid_zoom") {
        CommandAction::GridZoom(value_or(value, ""))
    } else if is(t, "selection_more") {
        CommandAction::SelectionMore
    } else if is(t, "selection_less") {
        CommandAction::SelectionLess
    } else if is(t, "toggle_math_mode") {
        let on = match value {
            Some(v) => is(to_chars(v).as_slice(), "on"),
            None => false,
        };
        CommandAction::ToggleMathMode(on)
    } else {
        CommandAction::Nothing
    }
}

fn push_strings(all: &mut Vec<String>, v: &Option<Vec<String>>)
    ensures
        final(all)@.map_values(|s: String| s@) == old(all)@.map_values(|s: String| s@) + string_seq(*v),
{
    match v {
        Some(list) => {
            let mut i: usize = 0;
            let ghost start = all@.map_values(|s: String| s@);
            while i < list.len()
                invariant
                    i <= list@.len(),
                    all@.map_values(|s: String| s@) == start + list@.map_values(|s: String| s@).take(i as int),
                decreases list@.len() - i,
            {
                let ghost before_all = all@;
                let o = owned(list[i].as_str());
                all.push(o);
                i = i + 1;
                proof {
                    let lv = list@.map_values(|s: String| s@);
                    assert(lv.take(i as int) =~= lv.take(i - 1).push(list@[i - 1]@));
                    assert(all@ == before_all.push(o));
                    assert(all@.map_values(|s: String| s@) =~= before_all.map_values(|s: String| s@).push(o@));
                    assert(all@.map_values(|s: String| s@) =~= start + list@.map_values(|s: String| s@).take(i as int));
                }
            }
            proof {
                assert(list@.map_values(|s: String| s@).take(i as int) =~= list@.map_values(|s: String| s@));
            }
        },
        None => {
            assert(string_seq(*v) =~= seq![]);
            assert(all@.map_values(|s: String| s@) =~= old(all)@.map_values(|s: String| s@) + string_seq(*v));
        },
    }
}

/// All trigger phrases of a command: common, Russian, English.
pub fn extract_triggers(triggers: &Option<RawTriggers>) -> (r: Vec<String>)
    ensures
        r@.map_values(|s: String| s@) == triggers_of(*triggers),
{
    let mut all: Vec<String> = Vec::new();
    match triggers {
        Some(t) => {
            push_strings(&mut all, &t.common);
            push_strings(&mut all, &t.ru);
            push_strings(&mut all, &t.en);
            proof {
                assert(seq![] + string_seq(t.common) + string_seq(t.ru) + string_seq(t.en) =~= triggers_of(*triggers));
            }
        },
        None => {},
    }
    assert(all@.map_values(|s: String| s@) =~= triggers_of(*triggers));
    all
}

pub open spec fn command_views(v: Seq<(Vec<char>, CommandAction)>) -> Seq<(Seq<char>, ActionModel)> {
    v.map_values(|e: (Vec<char>, CommandAction)| (e.0@, e.1@))
}

/// The `(trigger, action)` pairs that a command list yields: names starting
/// with `_` are skipped, every trigger of a command is lower-cased.
pub open spec fn commands_from(list: Seq<(String, RawCommand)>) -> Seq<(Seq<char>, ActionModel)>
    decreases list.len(),
{
    if list.len() == 0 {
        seq![]
    } else {
        let d = commands_from(list.drop_last());
        let (name, cmd) = list.last();
        if name@.len() > 0 && name@[0] == '_' {
            d
        } else {
            d + triggers_of(cmd.triggers).map_values(
                |t: Seq<char>| (lowercase(t), action_model(cmd.cmd_type@, option_view(cmd.value))),
            )
        }
    }
}

pub open spec fn option_view(v: Option<String>) -> Option<Seq<char>> {
    match v {
        Some(s) => Some(s@),
        None => None,
    }
}

/// The phrase a command is matched against: the alias of the lower-cased
/// text, or the lower-cased text itself.
pub open spec fn resolved(aliases: Seq<(Seq<char>, Seq<char>)>, text: Seq<char>) -> Seq<char> {
    match lookup(aliases, lowercase(text)) {
        Some(v) => v,
        None => lowercase(text),
    }
}

/// The phrase is the trigger, starts with it and a space, or ends with a
/// space and it.
pub open spec fn trigger_matches(t: Seq<char>, s: Seq<char>) -> bool {
    ||| s == t
    ||| (t.len() + 1 <= s.len() && s.take((t.len() + 1) as int) == t.push(' '))
    ||| (t.len() + 1 <= s.len() && s.skip(s.len() - (t.len() + 1)) == seq![' '] + t)
}

/// The first command, from position `i` on, whose trigger matches `s`.
pub open spec fn first_command(cmds: Seq<(Seq<char>, ActionModel)>, s: Seq<char>, i: int) -> Option<int>
    decreases cmds.len() - i,
{
    if i < 0 || i >= cmds.len() {
        None
    } else if trigger_matches(lowercase(cmds[i].0), s) {
        Some(i)
    } else {
        first_command(cmds, s, i + 1)
    }
}

/// The command a phrase runs: none when the phrase has at least `max_words`
/// words (it is dictation), else the first matching one.
pub open spec fn command_for(
    cmds: Seq<(Seq<char>, ActionModel)>,
    aliases: Seq<(Seq<char>, Seq<char>)>,
    text: Seq<char>,
    max_words: u32,
) -> Option<int> {
    let s = resolved(aliases, text);
    if words(s).len() >= max_words {
        None
    } else {
        first_command(cmds, s, 0)
    }
}

/// The pairs of every entry, entry after entry.
pub open spec fn flattened(v: Seq<(String, Vec<(String, String)>)>) -> Seq<(String, String)>
    decreases v.len(),
{
    if v.len() == 0 {
        Seq::empty()
    } else {
        flattened(v.drop_last()) + v.last().1@
    }
}

/// Voice commands with their triggers, and corrections of misheard phrases.
pub struct CommandExecutor {
    commands: Vec<(Vec<char>, CommandAction)>,
    aliases: StringMap,
}

impl CommandExecutor {
    /// The `(trigger, action)` pairs, in matching order.
    pub closed spec fn commands_view(&self) -> Seq<(Seq<char>, ActionModel)> {
        command_views(self.commands@)
    }

    /// The alias pairs; a later pair with the same phrase wins.
    pub closed spec fn aliases_view(&self) -> Seq<(Seq<char>, Seq<char>)> {
        self.aliases@
    }

    /// No commands, no aliases.
    pub fn new() -> (r: Self)
        ensures
            r.commands_view() == Seq::<(Seq<char>, ActionModel)>::empty(),
            r.aliases_view() == Seq::<(Seq<char>, Seq<char>)>::empty(),
    {
        let r = CommandExecutor { commands: Vec::new(), aliases: StringMap::new() };
        assert(r.commands_view() =~= Seq::<(Seq<char>, ActionModel)>::empty());
        r
    }

    /// Replaces the commands with those of `list`.
    pub fn set_commands(&mut self, list: &Vec<(String, RawCommand)>)
        ensures
            final(self).commands_view() == commands_from(list@),
            final(self).aliases_view() == old(self).aliases_view(),
    {
        let mut cmds: Vec<(Vec<char>, CommandAction)> = Vec::new();
        let mut i: usize = 0;
        while i < list.len()
            invariant
                i <= list@.len(),
                command_views(cmds@) == commands_from(list@.take(i as int)),
            decreases list@.len() - i,
        {
            proof {
                assert(list@.take(i + 1).drop_last() =~= list@.take(i as int));
                assert(list@.take(i + 1).last() == list@[i as int]);
            }
            let (name, cmd) = &list[i];
            let nc = to_chars(name.as_str());
            if !(nc.len() > 0 && nc[0] == '_') {
                let triggers = extract_triggers(&cmd.triggers);
                let ghost start = command_views(cmds@);
                let ghost ts = triggers_of(cmd.triggers);
                let value: Option<&str> = match &cmd.value {
                    Some(v) => Some(v.as_str()),
                    None => None,
                };
                assert(opt_str_view(value) == option_view(cmd.value));
                let mut k: usize = 0;
                while k < triggers.len()
                    invariant
                        k <= triggers@.len(),
                        triggers@.map_values(|s: String| s@) == ts,
                        opt_str_view(value) == option_view(cmd.value),
                        command_views(cmds@) == start + ts.take(k as int).map_values(
                            |t: Seq<char>| (lowercase(t), action_model(cmd.cmd_type@, option_view(cmd.value))),
                        ),
                    decreases triggers@.len() - k,
                {
                    let t = lowercase_chars(to_chars(triggers[k].as_str()).as_slice());
                    let a = parse_action(name.as_str(), cmd.cmd_type.as_str(), value);
                    let ghost before = command_views(cmds@);
                    cmds.push((t, a));
                    k = k + 1;
                    proof {
                        assert(ts[k - 1] == triggers@[k - 1]@);
                        let model = action_model(cmd.cmd_type@, option_view(cmd.value));
                        assert(command_views(cmds@) =~= before.push((lowercase(ts[k - 1]), model)));
                        assert(ts.take(k as int) =~= ts.take(k - 1).push(ts[k - 1]));
                        assert(ts.take(k as int).map_values(|t: Seq<char>| (lowercase(t), model)) =~= ts.take(
                            k - 1,
                        ).map_values(|t: Seq<char>| (lowercase(t), model)).push((lowercase(ts[k - 1]), model)));
                        assert(command_views(cmds@) =~= start + ts.take(k as int).map_values(
                            |t: Seq<char>| (lowercase(t), action_model(cmd.cmd_type@, option_view(cmd.value))),
                        ));
                    }
                }
                proof {
                    assert(ts.take(k as int) =~= ts);
                }
            }
            i = i + 1;
        }
        proof {
            assert(list@.take(i as int) =~= list@);
        }
        self.commands = cmds;
    }

    /// Replaces the aliases: each pair lower-cased on both sides.
    pub fn set_aliases(&mut self, pairs: &Vec<(String, String)>)
        ensures
            final(self).aliases_view() == pairs@.map_values(
                |p: (String, String)| (lowercase(p.0@), lowercase(p.1@)),
            ),
            final(self).commands_view() == old(self).commands_view(),
    {
        self.aliases.clear();
        let mut i: usize = 0;
        while i < pairs.len()
            invariant
                i <= pairs@.len(),
                self.commands_view() == old(self).commands_view(),
                self.aliases@ == pairs@.take(i as int).map_values(
                    |p: (String, String)| (lowercase(p.0@), lowercase(p.1@)),
                ),
            decreases pairs@.len() - i,
        {
            let k = lowercase_chars(to_chars(pairs[i].0.as_str()).as_slice());
            let v = lowercase_chars(to_chars(pairs[i].1.as_str()).as_slice());
            self.aliases.insert(k, v);
            i = i + 1;
            proof {
                assert(self.aliases@ =~= pairs@.take(i as int).map_values(
                    |p: (String, String)| (lowercase(p.0@), lowercase(p.1@)),
                ));
            }
        }
        proof {
            assert(pairs@.take(i as int) =~= pairs@);
        }
    }

    /// Loads the aliases from their JSON document, an object of tables by
    /// language, each an object of corrections by misheard phrase: the
    /// aliases become the pairs of every table, lower-cased, tables and pairs
    /// taken in an order that is left open. A document that is not such an
    /// object leaves the aliases as they were.
    pub fn set_aliases_json(&mut self, doc: &str)
        ensures
            json_nested_string_maps(doc@) is None ==> final(self).aliases_view() == old(self).aliases_view(),
            json_nested_string_maps(doc@) is Some ==> exists|v: Seq<(String, Vec<(String, String)>)>|
                #[trigger] nested_pair_map(v) == json_nested_string_maps(doc@)->0 && nested_distinct_keys(v)
                    && final(self).aliases_view() == flattened(v).map_values(
                    |p: (String, String)| (lowercase(p.0@), lowercase(p.1@)),
                ),
            final(self).commands_view() == old(self).commands_view(),
    {
        let tables = match parse_nested_string_maps(doc) {
            Some(t) => t,
            None => return,
        };
        let mut pairs: Vec<(String, String)> = Vec::new();
        let mut i: usize = 0;
        while i < tables.len()
            invariant
                i <= tables@.len(),
                pairs@ == flattened(tables@.take(i as int)),
            decreases tables@.len() - i,
        {
            let table = &tables[i].1;
            let ghost before = pairs@;
            let mut j: usize = 0;
            while j < table.len()
                invariant
                    j <= table@.len(),
                    table@ == tables@[i as int].1@,
                    pairs@ == before + table@.take(j as int),
                decreases table@.len() - j,
            {
                pairs.push((table[j].0.clone(), table[j].1.clone()));
                j = j + 1;
                proof {
                    assert(pairs@ =~= before + table@.take(j as int));
                }
            }
            proof {
                assert(tables@.take(i + 1).drop_last() =~= tables@.take(i as int));
                assert(table@.take(j as int) =~= table@);
            }
            i = i + 1;
        }
        proof {
            assert(tables@.take(i as int) =~= tables@);
        }
        self.set_aliases(&pairs);
    }

    /// The lower-cased text, or its alias when it has one.
    pub fn resolve_alias(&self, text: &str) -> (r: String)
        ensures
            r@ == resolved(self.aliases_view(), text@),
    {
        let lower = lowercase_chars(to_chars(text).as_slice());
        match self.aliases.get(lower.as_slice()) {
            Some(v) => crate::text::chars::to_string(v.as_slice()),
            None => crate::text::chars::to_string(lower.as_slice()),
        }
    }

    /// The action of the command that the phrase triggers: none for phrases of
    /// `max_words` words or more; otherwise the first command whose
    /// trigger is the phrase, begins it, or ends it.
    pub fn try_execute(&self, text: &str, max_words: u32) -> (r: Option<&CommandAction>)
        ensures
            match command_for(self.commands_view(), self.aliases_view(), text@, max_words) {
                Some(i) => r matches Some(a) && a@ == self.commands_view()[i].1,
                None => r is None,
            },
    {
        let lower = to_chars(self.resolve_alias(text).as_str());
        let count = split_words(lower.as_slice()).len();
        assert(words(lower@).len() == count);
        if count >= max_words as usize {
            return None;
        }
        let mut i: usize = 0;
        while i < self.commands.len()
            invariant
                i <= self.commands@.len(),
                lower@ == resolved(self.aliases_view(), text@),
                first_command(self.commands_view(), lower@, 0) == first_command(self.commands_view(), lower@, i as int),
                words(lower@).len() < max_words,
            decreases self.commands@.len() - i,
        {
            let t = lowercase_chars(self.commands[i].0.as_slice());
            proof {
                assert(self.commands_view()[i as int].0 == self.commands@[i as int].0@);
            }
            let mut with_space = copy_chars(t.as_slice());
            with_space.push(' ');
            let mut space_before: Vec<char> = Vec::new();
            space_before.push(' ');
            crate::text::chars::push_all(&mut space_before, t.as_slice());
            proof {
                assert(space_before@ =~= seq![' '] + t@);
            }
            if chars_eq(lower.as_slice(), t.as_slice()) || starts_with(lower.as_slice(), with_space.as_slice())
                || ends_with(lower.as_slice(), space_before.as_slice()) {
                proof {
                    assert(self.commands_view()[i as int].1 == self.commands@[i as int].1@);
                    assert(trigger_matches(lowercase(self.commands_view()[i as int].0), lower@));
                    assert(first_command(self.commands_view(), lower@, i as int) == Some(i as int));
                }
                return Some(&self.commands[i].1);
            }
            i = i + 1;
        }
        None
    }
}

/// A phrase of at least `max_words` words (after alias resolution)
/// is dictation: it never runs a command, whatever the commands are.
pub proof fn lemma_long_phrase_is_dictation(
    cmds: Seq<(Seq<char>, ActionModel)>,
    aliases: Seq<(Seq<char>, Seq<char>)>,
    text: Seq<char>,
    max_words: u32,
)
    requires
        words(resolved(aliases, text)).len() >= max_words,
    ensures
        command_for(cmds, aliases, text, max_words) is None,
{
}

/// A command runs only for a trigger that matches the resolved phrase: the
/// command found is the first whose trigger matches.
pub proof fn lemma_command_matches_trigger(
    cmds: Seq<(Seq<char>, ActionModel)>,
    aliases: Seq<(Seq<char>, Seq<char>)>,
    text: Seq<char>,
    max_words: u32,
)
    ensures
        command_for(cmds, aliases, text, max_words) matches Some(i) ==> 0 <= i < cmds.len() && trigger_matches(
            lowercase(cmds[i].0),
            resolved(aliases, text),
        ) && forall|j: int| 0 <= j < i ==> !trigger_matches(lowercase(#[trigger] cmds[j].0), resolved(aliases, text)),
{
    lemma_first_command(cmds, resolved(aliases, text), 0);
}

proof fn lemma_first_command(cmds: Seq<(Seq<char>, ActionModel)>, s: Seq<char>, i: int)
    requires
        0 <= i,
    ensures
        first_command(cmds, s, i) matches Some(k) ==> i <= k < cmds.len() && trigger_matches(lowercase(cmds[k].0), s)
            && forall|j: int| i <= j < k ==> !trigger_matches(lowercase(#[trigger] cmds[j].0), s),
    decreases cmds.len() - i,
{
    if i < cmds.len() && !trigger_matches(lowercase(cmds[i].0), s) {
        lemma_first_command(cmds, s, i + 1);
    }
}

} // verus!
