//! Web permission requests of site windows: which kinds are granted, and
//! their names for the log.

use vstd::prelude::*;

verus! {

/// The permissions SAS needs and that are granted: notifications, reading
/// the clipboard, and several downloads at once.
pub open spec fn allowed_kind(kind: i32) -> bool {
    kind == 4 || kind == 6 || kind == 7
}

/// Whether a permission request of `kind` (a `COREWEBVIEW2_PERMISSION_KIND`)
/// is granted; the others keep WebView2's default answer.
pub fn permission_allowed(kind: i32) -> (r: bool)
    ensures
        r == allowed_kind(kind),
{
    kind == 4 || kind == 6 || kind == 7
}

/// The name of a permission kind, for the log.
pub open spec fn kind_name(kind: i32) -> Seq<char> {
    if kind == 1 {
        "microphone"@
    } else if kind == 2 {
        "camera"@
    } else if kind == 3 {
        "geolocation"@
    } else if kind == 4 {
        "notifications"@
    } else if kind == 5 {
        "other-sensors"@
    } else if kind == 6 {
        "clipboard-read"@
    } else if kind == 7 {
        "multiple-downloads"@
    } else if kind == 8 {
        "file-read-write"@
    } else if kind == 9 {
        "autoplay"@
    } else if kind == 10 {
        "local-fonts"@
    } else {
        "unknown"@
    }
}

/// See `kind_name`.
pub fn kind_label(kind: i32) -> (r: &'static str)
    ensures
        r@ == kind_name(kind),
{
    match kind {
        1 => "microphone",
        2 => "camera",
        3 => "geolocation",
        4 => "notifications",
        5 => "other-sensors",
        6 => "clipboard-read",
        7 => "multiple-downloads",
        8 => "file-read-write",
        9 => "autoplay",
        10 => "local-fonts",
        _ => "unknown",
    }
}

} // verus!
