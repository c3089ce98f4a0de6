use vstd::prelude::*;

verus! {

/// The key identity of an input event. The named keys occupy a reserved
/// region above the Unicode scalars; Enter is carried as the newline
/// character.
pub enum KeySym {
    Character(char),
    Enter,
    ArrowUp,
    ArrowDown,
    ArrowLeft,
    ArrowRight,
    Delete,
    Backspace,
}

/// Whether the key was pressed, released or held down.
#[derive(Clone, Copy)]
pub enum KeyAction {
    Press,
    Release,
    Repeat,
}

/// One key event as the host hands it over: the key, six modifier flags,
/// and the action.
pub struct KeyInput {
    pub sym: KeySym,
    pub shift: bool,
    pub control: bool,
    pub alt: bool,
    pub super_mod: bool,
    pub hyper: bool,
    pub meta: bool,
    pub action: KeyAction,
}

/// The first u32 value of the reserved region for named keys: bits 19 and
/// 20 set.
pub open spec fn named_key_base() -> int {
    0x180000
}

/// The key identity in the low 21 bits: a character's code point, or a slot
/// in the reserved region.
pub open spec fn key_sym_val(s: KeySym) -> int {
    match s {
        KeySym::Character(c) => c as int,
        KeySym::Enter => '\n' as int,
        KeySym::ArrowUp => named_key_base() + 0,
        KeySym::ArrowDown => named_key_base() + 1,
        KeySym::ArrowLeft => named_key_base() + 2,
        KeySym::ArrowRight => named_key_base() + 3,
        KeySym::Delete => named_key_base() + 0x10,
        KeySym::Backspace => named_key_base() + 0x11,
    }
}

/// The event kind in bits 27 and 28.
pub open spec fn key_action_val(a: KeyAction) -> int {
    match a {
        KeyAction::Press => 1,
        KeyAction::Release => 2,
        KeyAction::Repeat => 3,
    }
}

/// The value of one modifier flag.
pub open spec fn flag_val(on: bool) -> int {
    if on {
        1int
    } else {
        0int
    }
}

/// The integer encoding of a key event: the key identity in bits 0 to 20,
/// the modifiers Shift, Control, Alt, Super, Hyper, Meta in bits 21 to 26,
/// and the event kind in bits 27 and 28.
pub open spec fn key_event_val(k: KeyInput) -> int {
    key_sym_val(k.sym) + flag_val(k.shift) * 0x200000 + flag_val(k.control) * 0x400000 + flag_val(
        k.alt,
    ) * 0x800000 + flag_val(k.super_mod) * 0x1000000 + flag_val(k.hyper) * 0x2000000 + flag_val(
        k.meta,
    ) * 0x4000000 + key_action_val(k.action) * 0x8000000
}

/// Encodes a key event as the integer the `Sys Terminal wait` word pushes.
#[verifier::rlimit(60)]
pub fn encode_key_event(k: &KeyInput) -> (r: u32)
    ensures
        r as int == key_event_val(*k),
{
    let base: u32 = match k.sym {
        KeySym::Character(c) => {
            proof {
                vstd::utf8::char_is_scalar(c);
            }
            c as u32
        },
        KeySym::Enter => 10,
        KeySym::ArrowUp => 0x180000,
        KeySym::ArrowDown => 0x180001,
        KeySym::ArrowLeft => 0x180002,
        KeySym::ArrowRight => 0x180003,
        KeySym::Delete => 0x180010,
        KeySym::Backspace => 0x180011,
    };
    assert(base < 0x200000);
    let mut r: u32 = base;
    if k.shift {
        r = r + 0x200000;
    }
    if k.control {
        r = r + 0x400000;
    }
    if k.alt {
        r = r + 0x800000;
    }
    if k.super_mod {
        r = r + 0x1000000;
    }
    if k.hyper {
        r = r + 0x2000000;
    }
    if k.meta {
        r = r + 0x4000000;
    }
    let kind: u32 = match k.action {
        KeyAction::Press => 1,
        KeyAction::Release => 2,
        KeyAction::Repeat => 3,
    };
    r + kind * 0x8000000
}

} // verus!
