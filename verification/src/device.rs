//! Connected devices and the mode strings the external tools report.

use vstd::prelude::*;
use crate::strutil::lower_of;

verus! {

/// The mode a connected device reports.
#[derive(Debug, Clone)]
pub enum DeviceMode {
    Fastboot,
    FastbootD,
    ADB,
    Recovery,
    Sideload,
    /// Any other mode string, kept verbatim.
    Unknown(String),
}

impl DeviceMode {
    /// Decode a reported mode string, case-insensitively; anything
    /// unrecognised is kept verbatim as `Unknown`.
    pub fn from_mode_str(s: &str) -> (r: DeviceMode)
        ensures
            lower_of(s@) == "fastboot"@ ==> r is Fastboot,
            lower_of(s@) == "fastbootd"@ ==> r is FastbootD,
            lower_of(s@) == "device"@ ==> r is ADB,
            lower_of(s@) == "recovery"@ ==> r is Recovery,
            lower_of(s@) == "sideload"@ ==> r is Sideload,
            (lower_of(s@) != "fastboot"@ && lower_of(s@) != "fastbootd"@ && lower_of(s@)
                != "device"@ && lower_of(s@) != "recovery"@ && lower_of(s@) != "sideload"@)
                ==> (r matches DeviceMode::Unknown(o) && o@ == s@),
    {
        proof {
            reveal_strlit("fastboot");
            reveal_strlit("fastbootd");
            reveal_strlit("device");
            reveal_strlit("recovery");
            reveal_strlit("sideload");
            assert("fastboot"@.len() == 8);
            assert("fastbootd"@.len() == 9);
            assert("device"@.len() == 6);
            assert("recovery"@.len() == 8);
            assert("sideload"@.len() == 8);
            assert("fastboot"@ != "fastbootd"@);
            assert("fastboot"@[0] == 'f' && "recovery"@[0] == 'r' && "sideload"@[0] == 's');
            assert("fastboot"@ != "recovery"@ && "fastboot"@ != "sideload"@);
            assert("recovery"@ != "sideload"@);
            assert("fastbootd"@ != "device"@ && "fastbootd"@ != "recovery"@ && "fastbootd"@
                != "sideload"@);
            assert("device"@ != "recovery"@ && "device"@ != "sideload"@);
            assert("fastboot"@ != "device"@);
        }
        let l = crate::strutil::to_lowercase(s);
        if string_eq(&l, "fastboot") {
            DeviceMode::Fastboot
        } else if string_eq(&l, "fastbootd") {
            DeviceMode::FastbootD
        } else if string_eq(&l, "device") {
            DeviceMode::ADB
        } else if string_eq(&l, "recovery") {
            DeviceMode::Recovery
        } else if string_eq(&l, "sideload") {
            DeviceMode::Sideload
        } else {
            DeviceMode::Unknown(s.to_owned())
        }
    }
}

/// Whether a string equals a literal, by characters.
fn string_eq(a: &String, b: &str) -> (r: bool)
    ensures
        r == (a@ == b@),
{
    let bo = b.to_owned();
    a.eq(&bo)
}

/// One device the external tools see, with what is known of it.
#[derive(Debug, Clone)]
pub struct ConnectedDevice {
    pub serial: String,
    pub mode: DeviceMode,
    pub status: String,
    pub product: Option<String>,
    pub current_slot: Option<String>,
}

} // verus!
