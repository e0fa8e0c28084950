//! Reading what the user asks for in recovery mode: a keyboard key or a
//! hardware button event.
use vstd::prelude::*;

verus! {

/// What the user asked for.
#[derive(Debug, PartialEq, Eq)]
pub enum UserAction {
    Reboot,
    PowerOff,
    /// Show the list of actions again.
    ShowMenu,
    /// Nothing that recovery mode acts on.
    Ignore,
}

/// The Linux key codes of the hardware buttons.
pub open spec fn key_volume_down() -> int {
    114
}

pub open spec fn key_volume_up() -> int {
    115
}

pub open spec fn key_power() -> int {
    116
}

/// The little-endian 16-bit number at `b[i..i + 2]`.
pub open spec fn le_u16(b: Seq<u8>, i: int) -> int {
    b[i] + 256 * b[i + 1]
}

/// The little-endian 32-bit two's complement number at `b[i..i + 4]`.
pub open spec fn le_i32(b: Seq<u8>, i: int) -> int {
    let u = b[i] + 256 * b[i + 1] + 65536 * b[i + 2] + 16777216 * b[i + 3];
    if u >= 0x8000_0000 {
        u - 0x1_0000_0000
    } else {
        u
    }
}

/// What a 24-byte `struct input_event` (time, then type, code and value at
/// bytes 16, 18 and 20) asks for: a key press (type 1, value 1) of Volume Up
/// or Power reboots, of Volume Down powers off; anything else is ignored.
pub open spec fn event_action(ev: Seq<u8>) -> UserAction {
    if le_u16(ev, 16) == 1 && le_i32(ev, 20) == 1 {
        if le_u16(ev, 18) == key_volume_up() || le_u16(ev, 18) == key_power() {
            UserAction::Reboot
        } else if le_u16(ev, 18) == key_volume_down() {
            UserAction::PowerOff
        } else {
            UserAction::Ignore
        }
    } else {
        UserAction::Ignore
    }
}

/// What a full input event read from `/dev/input/event*` asks for.
pub fn decode_input_event(ev: &[u8]) -> (r: UserAction)
    requires
        ev@.len() == 24,
    ensures
        r == event_action(ev@),
{
    let event_type: u32 = ev[16] as u32 + 256 * ev[17] as u32;
    let event_code: u32 = ev[18] as u32 + 256 * ev[19] as u32;
    let value: u64 = ev[20] as u64 + 256 * ev[21] as u64 + 65536 * ev[22] as u64 + 16777216
        * ev[23] as u64;
    if event_type == 1 && value == 1 {
        if event_code == 115 || event_code == 116 {
            UserAction::Reboot
        } else if event_code == 114 {
            UserAction::PowerOff
        } else {
            UserAction::Ignore
        }
    } else {
        UserAction::Ignore
    }
}

/// What a key typed on the terminal asks for: `p` powers off, `r` reboots
/// (either case), Enter shows the menu again.
pub open spec fn key_action(b: u8) -> UserAction {
    if b == 0x70 || b == 0x50 {
        UserAction::PowerOff
    } else if b == 0x72 || b == 0x52 {
        UserAction::Reboot
    } else if b == 0x0a || b == 0x0d {
        UserAction::ShowMenu
    } else {
        UserAction::Ignore
    }
}

/// What a byte read from the terminal asks for (`p`/`P` is 0x70/0x50, `r`/`R`
/// is 0x72/0x52, newline and carriage return are 0x0a and 0x0d).
pub fn decode_key(b: u8) -> (r: UserAction)
    ensures
        r == key_action(b),
{
    if b == 0x70 || b == 0x50 {
        UserAction::PowerOff
    } else if b == 0x72 || b == 0x52 {
        UserAction::Reboot
    } else if b == 0x0a || b == 0x0d {
        UserAction::ShowMenu
    } else {
        UserAction::Ignore
    }
}

/// Letter case does not matter to the keys of recovery mode.
pub proof fn lemma_key_case_insensitive(b: u8)
    requires
        0x41 <= b <= 0x5a,
    ensures
        key_action(b) == key_action((b + 32) as u8),
{
}

/// The hardware buttons act as the letters of the terminal: Volume Up and Power
/// as `r` (reboot), Volume Down as `p` (power off).
pub proof fn lemma_buttons_act_as_letters(ev: Seq<u8>)
    requires
        ev.len() == 24,
        le_u16(ev, 16) == 1,
        le_i32(ev, 20) == 1,
    ensures
        le_u16(ev, 18) == key_volume_up() ==> event_action(ev) == key_action(0x72),
        le_u16(ev, 18) == key_power() ==> event_action(ev) == key_action(0x72),
        le_u16(ev, 18) == key_volume_down() ==> event_action(ev) == key_action(0x70),
{
}

} // verus!
