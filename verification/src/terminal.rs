//! A model of the terminal modes the application toggles: raw mode, the
//! alternate screen, and mouse capture. The real switching is escape
//! sequences written by the caller; this model is what the state machine
//! reasons about, and what makes the restore path checkable.
use vstd::prelude::*;

verus! {

/// The terminal modes the application may have switched on.
#[derive(Debug, Clone, Copy, PartialEq, Eq)]
pub struct TermModes {
    pub raw_mode: bool,
    pub alternate_screen: bool,
    pub mouse_capture: bool,
}

/// The state the terminal is handed back in: every mode off.
pub open spec fn restored(t: TermModes) -> TermModes {
    TermModes { raw_mode: false, alternate_screen: false, mouse_capture: false }
}

/// The state after the application takes the terminal: every mode on.
pub fn acquire_modes() -> (t: TermModes)
    ensures
        t.raw_mode && t.alternate_screen && t.mouse_capture,
{
    TermModes { raw_mode: true, alternate_screen: true, mouse_capture: true }
}

/// The state after handing the terminal back, whatever held before.
pub fn restore_modes(t: TermModes) -> (r: TermModes)
    ensures
        r == restored(t),
{
    TermModes { raw_mode: false, alternate_screen: false, mouse_capture: false }
}

/// Idempotent terminal restore: restoring twice leaves the terminal in
/// the same state as restoring once.
pub proof fn lemma_restore_idempotent(t: TermModes)
    ensures
        restored(restored(t)) == restored(t),
{
}

} // verus!