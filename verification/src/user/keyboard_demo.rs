use vstd::prelude::*;
use crate::devices::cga::{CGA, LAST_WRAP_ROW_START, NEWLINE, del_result, print_byte_result};

verus! {

/// Scan code of the Enter key.
pub const SCAN_ENTER: u8 = 28;

/// Scan code of the Backspace key.
pub const SCAN_BACKSPACE: u8 = 14;

/// What the keyboard demo does with a valid key: Enter starts a new line,
/// Backspace deletes the last character, any other key prints its character.
pub fn keyboard_demo_key(cga: &mut CGA, scancode: u8, ascii: u8)
    requires
        old(cga).wf(),
        old(cga).cursor_spec() < LAST_WRAP_ROW_START,
    ensures
        final(cga).wf(),
        final(cga).cursor_spec() < LAST_WRAP_ROW_START,
        (final(cga).vram_spec(), final(cga).cursor_spec()) == if scancode == SCAN_ENTER {
            print_byte_result(old(cga).vram_spec(), old(cga).cursor_spec(), NEWLINE)
        } else if scancode == SCAN_BACKSPACE {
            del_result(old(cga).vram_spec(), old(cga).cursor_spec())
        } else {
            print_byte_result(old(cga).vram_spec(), old(cga).cursor_spec(), ascii)
        },
{
    if scancode == SCAN_ENTER {
        cga.print_byte(NEWLINE);
    } else if scancode == SCAN_BACKSPACE {
        cga.del();
    } else {
        cga.print_byte(ascii);
    }
}

} // verus!
