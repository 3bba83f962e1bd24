//! Windows details: global hotkeys, always-on-top and borderless windows
//! are handled by the windowing libraries.
use vstd::prelude::*;

verus! {

/// Windows sessions are never Wayland sessions.
pub fn is_wayland() -> (b: bool)
    ensures
        !b,
{
    false
}

} // verus!
