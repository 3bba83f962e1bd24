//! Small platform differences.
use vstd::prelude::*;

pub mod windows;

verus! {

/// Whether the session is a Wayland one, where global hotkeys may be
/// restricted. On Windows it never is; elsewhere the caller tells.
pub fn is_wayland(on_windows: bool, wayland_session: bool) -> (b: bool)
    ensures
        b == (!on_windows && wayland_session),
{
    if on_windows {
        windows::is_wayland()
    } else {
        wayland_session
    }
}

/// The hint shown when the hotkey is unavailable.
pub fn hotkey_fallback_hint(wayland: bool) -> (hint: &'static str)
    ensures
        wayland ==> hint@ == "Wayland 限制下可将系统快捷键绑定到：ClipRail --toggle"@,
        !wayland ==> hint@ == "可在设置中更换快捷键，或使用：ClipRail --toggle"@,
{
    if wayland {
        "Wayland 限制下可将系统快捷键绑定到：ClipRail --toggle"
    } else {
        "可在设置中更换快捷键，或使用：ClipRail --toggle"
    }
}

} // verus!
