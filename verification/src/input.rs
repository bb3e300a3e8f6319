//! What a key press means to the compositor: a switch of virtual terminal,
//! a change of mouse mode, a window-manager action, a configured binding, or
//! nothing, in which case the key goes on to the focused client.

use crate::config::{Keybind, MouseMode};
use crate::text::{chars_of, str_eq};
use crate::twm::Action;
use crate::twm_model::ActionView;
use vstd::prelude::*;

verus! {

/// The modifier keys that are held while a key is pressed.
#[derive(Debug, Clone, Copy, PartialEq, Eq, Structural)]
pub struct Mods {
    pub logo: bool,
    pub shift: bool,
    pub ctrl: bool,
    pub alt: bool,
}

/// Whether `name` is one of `required`.
pub open spec fn names(required: Seq<String>, name: Seq<char>) -> bool {
    exists|i: int| 0 <= i < required.len() && (#[trigger] required[i])@ == name
}

fn listed(required: &[String], name: &str) -> (b: bool)
    ensures
        b == names(required@, name@),
{
    let mut i: usize = 0;
    while i < required.len()
        invariant
            i <= required@.len(),
            forall|j: int| 0 <= j < i ==> (#[trigger] required@[j])@ != name@,
        decreases required@.len() - i,
    {
        if str_eq(required[i].as_str(), name) {
            return true;
        }
        i = i + 1;
    }
    false
}

/// The held modifiers are exactly the required ones.
pub open spec fn mods_match_spec(mods: Mods, required: Seq<String>) -> bool {
    &&& mods.logo == names(required, "super"@)
    &&& mods.shift == names(required, "shift"@)
    &&& mods.ctrl == names(required, "ctrl"@)
    &&& mods.alt == names(required, "alt"@)
}

/// True if the held modifiers are the required ones and no others.
pub fn mods_match(mods: &Mods, required: &[String]) -> (b: bool)
    ensures
        b == mods_match_spec(*mods, required@),
{
    mods.logo == listed(required, "super") && mods.shift == listed(required, "shift") && mods.ctrl
        == listed(required, "ctrl") && mods.alt == listed(required, "alt")
}

/// First and last key symbol of the keys that switch the virtual terminal.
pub const VT_FIRST: u32 = 0x1008FE01;

pub const VT_LAST: u32 = 0x1008FE0C;

/// Key symbols of the function keys F1 and F12.
pub const F1: u32 = 0xFFBE;

pub const F12: u32 = 0xFFC9;

/// The virtual terminal, counted from 1, that a key symbol switches to.
pub open spec fn vt_of(raw: u32) -> Option<u32> {
    if VT_FIRST <= raw <= VT_LAST {
        Some((raw - VT_FIRST + 1) as u32)
    } else {
        None
    }
}

pub fn vt_from_keysym(raw: u32) -> (r: Option<u32>)
    ensures
        r == vt_of(raw),
        r matches Some(vt) ==> 1 <= vt <= 12,
{
    if raw >= VT_FIRST && raw <= VT_LAST {
        Some(raw - VT_FIRST + 1)
    } else {
        None
    }
}

/// The virtual terminal that Ctrl+Alt with this key asks for: by the key's
/// symbol with the modifiers applied, else by its plain symbol if that is a
/// function key.
pub open spec fn vt_for(modified: u32, base: u32) -> Option<u32> {
    if vt_of(modified) is Some {
        vt_of(modified)
    } else if F1 <= base <= F12 {
        Some((base - F1 + 1) as u32)
    } else {
        None
    }
}

pub fn vt_for_key(modified: u32, base: u32) -> (r: Option<u32>)
    ensures
        r == vt_for(modified, base),
        r matches Some(vt) ==> 1 <= vt <= 12,
{
    match vt_from_keysym(modified) {
        Some(vt) => Some(vt),
        None => if base >= F1 && base <= F12 {
            Some(base - F1 + 1)
        } else {
            None
        },
    }
}

/// The number on a key named by one of the digits 1 to 9.
pub open spec fn digit_key(name: Seq<char>) -> Option<u8> {
    if name.len() == 1 && '1' <= name[0] <= '9' {
        Some((name[0] as u32 - '0' as u32) as u8)
    } else {
        None
    }
}

fn digit_of_key(name: &str) -> (r: Option<u8>)
    ensures
        r == digit_key(name@),
{
    let v = chars_of(name);
    if v.len() == 1 && '1' <= v[0] && v[0] <= '9' {
        let d: u32 = v[0] as u32 - '0' as u32;
        Some(d as u8)
    } else {
        None
    }
}

/// The built-in bindings, held with the logo key: focus by `h j k l` or the
/// arrows, `q` closes, space cycles the layout, `b` toggles the bar, `f`
/// full screen, `=` and `-` resize the main pane, a digit switches the
/// workspace. With shift, `h` and `l` move the pane and a digit sends it to
/// that workspace.
pub open spec fn twm_key(name: Seq<char>, shift: bool) -> Option<ActionView> {
    if shift {
        if name == "h"@ || name == "left"@ {
            Some(ActionView::MoveLeft)
        } else if name == "l"@ || name == "right"@ {
            Some(ActionView::MoveRight)
        } else {
            match digit_key(name) {
                Some(n) => Some(ActionView::MoveToWorkspace(n)),
                None => None,
            }
        }
    } else if name == "h"@ || name == "left"@ {
        Some(ActionView::FocusLeft)
    } else if name == "l"@ || name == "right"@ {
        Some(ActionView::FocusRight)
    } else if name == "k"@ || name == "up"@ {
        Some(ActionView::FocusUp)
    } else if name == "j"@ || name == "down"@ {
        Some(ActionView::FocusDown)
    } else if name == "q"@ {
        Some(ActionView::Close)
    } else if name == "space"@ {
        Some(ActionView::NextLayout)
    } else if name == "b"@ {
        Some(ActionView::ToggleBar)
    } else if name == "f"@ {
        Some(ActionView::Fullscreen)
    } else if name == "equal"@ {
        Some(ActionView::GrowMain)
    } else if name == "minus"@ {
        Some(ActionView::ShrinkMain)
    } else {
        match digit_key(name) {
            Some(n) => Some(ActionView::Workspace(n)),
            None => None,
        }
    }
}

/// The window-manager action of a key, named in lower case.
pub fn twm_action_for(name: &str, shift: bool) -> (r: Option<Action>)
    ensures
        match twm_key(name@, shift) {
            Some(a) => r matches Some(x) && x@ == a,
            None => r is None,
        },
{
    if shift {
        if str_eq(name, "h") || str_eq(name, "left") {
            Some(Action::MoveLeft)
        } else if str_eq(name, "l") || str_eq(name, "right") {
            Some(Action::MoveRight)
        } else {
            match digit_of_key(name) {
                Some(n) => Some(Action::MoveToWorkspace(n)),
                None => None,
            }
        }
    } else if str_eq(name, "h") || str_eq(name, "left") {
        Some(Action::FocusLeft)
    } else if str_eq(name, "l") || str_eq(name, "right") {
        Some(Action::FocusRight)
    } else if str_eq(name, "k") || str_eq(name, "up") {
        Some(Action::FocusUp)
    } else if str_eq(name, "j") || str_eq(name, "down") {
        Some(Action::FocusDown)
    } else if str_eq(name, "q") {
        Some(Action::Close)
    } else if str_eq(name, "space") {
        Some(Action::NextLayout)
    } else if str_eq(name, "b") {
        Some(Action::ToggleBar)
    } else if str_eq(name, "f") {
        Some(Action::Fullscreen)
    } else if str_eq(name, "equal") {
        Some(Action::GrowMain)
    } else if str_eq(name, "minus") {
        Some(Action::ShrinkMain)
    } else {
        match digit_of_key(name) {
            Some(n) => Some(Action::Workspace(n)),
            None => None,
        }
    }
}

/// The mouse mode that a key held with the logo key alone switches to:
/// `i` to insert, escape or `[` back to normal. None if the mode is that
/// already.
pub open spec fn mouse_key(name: Seq<char>, mode: MouseMode) -> Option<MouseMode> {
    if name == "i"@ && mode != MouseMode::Insert {
        Some(MouseMode::Insert)
    } else if (name == "escape"@ || name == "bracketleft"@) && mode != MouseMode::Normal {
        Some(MouseMode::Normal)
    } else {
        None
    }
}

pub fn mouse_mode_for(name: &str, mode: MouseMode) -> (r: Option<MouseMode>)
    ensures
        r == mouse_key(name@, mode),
{
    if str_eq(name, "i") && mode != MouseMode::Insert {
        Some(MouseMode::Insert)
    } else if (str_eq(name, "escape") || str_eq(name, "bracketleft")) && mode != MouseMode::Normal {
        Some(MouseMode::Normal)
    } else {
        None
    }
}

/// Whether the binding is for this key with these modifiers.
pub open spec fn bound_to(bind: Keybind, mods: Mods, name: Seq<char>) -> bool {
    mods_match_spec(mods, bind.mods@) && bind.key@ == name
}

/// The first binding at or after `from` that is for this key, or the
/// number of bindings if none is.
pub open spec fn first_bind(binds: Seq<Keybind>, mods: Mods, name: Seq<char>, from: int) -> int
    decreases binds.len() - from,
{
    if from < 0 || from >= binds.len() {
        binds.len() as int
    } else if bound_to(binds[from], mods, name) {
        from
    } else {
        first_bind(binds, mods, name, from + 1)
    }
}

/// The first configured binding for this key, if there is one.
pub fn find_bind(binds: &Vec<Keybind>, mods: &Mods, name: &str) -> (r: Option<usize>)
    ensures
        match r {
            Some(i) => i < binds@.len() && i == first_bind(binds@, *mods, name@, 0),
            None => first_bind(binds@, *mods, name@, 0) == binds@.len(),
        },
{
    let mut i: usize = 0;
    while i < binds.len()
        invariant
            i <= binds@.len(),
            first_bind(binds@, *mods, name@, 0) == first_bind(binds@, *mods, name@, i as int),
        decreases binds@.len() - i,
    {
        if mods_match(mods, binds[i].mods.as_slice()) && str_eq(binds[i].key.as_str(), name) {
            return Some(i);
        }
        i = i + 1;
    }
    None
}

/// What the compositor does with a key event.
#[derive(Debug, Clone, PartialEq, Eq)]
pub enum KeyDecision {
    /// Switch to this virtual terminal.
    SwitchVt(u32),
    /// Change the mouse mode.
    Mouse(MouseMode),
    /// Hand the action to the window manager.
    Twm(Action),
    /// Run the configured binding with this index.
    Bind(usize),
    /// Not for the compositor: pass the key on to the client.
    Forward,
}

pub enum KeyDecisionView {
    SwitchVt(u32),
    Mouse(MouseMode),
    Twm(ActionView),
    Bind(int),
    Forward,
}

impl View for KeyDecision {
    type V = KeyDecisionView;

    open spec fn view(&self) -> KeyDecisionView {
        match *self {
            KeyDecision::SwitchVt(vt) => KeyDecisionView::SwitchVt(vt),
            KeyDecision::Mouse(m) => KeyDecisionView::Mouse(m),
            KeyDecision::Twm(a) => KeyDecisionView::Twm(a@),
            KeyDecision::Bind(i) => KeyDecisionView::Bind(i as int),
            KeyDecision::Forward => KeyDecisionView::Forward,
        }
    }
}

/// The key of one event: whether it went down, its name in lower case, its
/// symbol with the modifiers applied and its plain symbol.
#[derive(Debug, Clone)]
pub struct KeyPress {
    pub pressed: bool,
    pub name: String,
    pub modified: u32,
    pub base: u32,
}

/// The decision for a key event, in the order in which the rules apply: a
/// released key is passed on; Ctrl+Alt with a terminal key switches the
/// terminal; the logo key alone with a mode key changes the mouse mode; the
/// logo key, without Ctrl and Alt, with a built-in key acts on the window
/// manager; then the first configured binding that fits; else the key is
/// passed on.
pub open spec fn decide(
    key: KeyPress,
    mods: Mods,
    mode: MouseMode,
    binds: Seq<Keybind>,
) -> KeyDecisionView {
    let name = key.name@;
    let bare_logo = mods.logo && !mods.shift && !mods.ctrl && !mods.alt;
    if !key.pressed {
        KeyDecisionView::Forward
    } else if mods.ctrl && mods.alt && vt_for(key.modified, key.base) is Some {
        KeyDecisionView::SwitchVt(vt_for(key.modified, key.base)->0)
    } else if bare_logo && mouse_key(name, mode) is Some {
        KeyDecisionView::Mouse(mouse_key(name, mode)->0)
    } else if mods.logo && !mods.ctrl && !mods.alt && twm_key(name, mods.shift) is Some {
        KeyDecisionView::Twm(twm_key(name, mods.shift)->0)
    } else if first_bind(binds, mods, name, 0) < binds.len() {
        KeyDecisionView::Bind(first_bind(binds, mods, name, 0))
    } else {
        KeyDecisionView::Forward
    }
}

pub fn key_decision(key: &KeyPress, mods: &Mods, mode: MouseMode, binds: &Vec<Keybind>) -> (d:
    KeyDecision)
    ensures
        d@ == decide(*key, *mods, mode, binds@),
{
    if !key.pressed {
        return KeyDecision::Forward;
    }
    let name = key.name.as_str();
    if mods.ctrl && mods.alt {
        if let Some(vt) = vt_for_key(key.modified, key.base) {
            return KeyDecision::SwitchVt(vt);
        }
    }
    if mods.logo && !mods.shift && !mods.ctrl && !mods.alt {
        if let Some(m) = mouse_mode_for(name, mode) {
            return KeyDecision::Mouse(m);
        }
    }
    if mods.logo && !mods.ctrl && !mods.alt {
        if let Some(a) = twm_action_for(name, mods.shift) {
            return KeyDecision::Twm(a);
        }
    }
    match find_bind(binds, mods, name) {
        Some(i) => KeyDecision::Bind(i),
        None => KeyDecision::Forward,
    }
}

} // verus!
