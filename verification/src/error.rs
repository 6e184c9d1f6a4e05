//! Failure kinds shared by the whole pipeline.

use vstd::prelude::*;

verus! {

/// Unified error taxonomy of the flashing pipeline.
///
/// Each variant is distinct and pattern-matchable; functions state in
/// their contracts exactly which variant they return and when.
#[derive(Debug, Clone)]
pub enum FlashError {
    /// No device is connected.
    DeviceNotFound,
    /// An external executable was not found at the expected path.
    ExecutableNotFound(String),
    /// An external tool exited with a failure; holds its captured stderr.
    ExternalToolError(String),
    /// Unpacking an OTA payload failed.
    UnpackError(String),
    /// A compressed ramdisk stream was truncated or corrupt.
    CodecError(String),
    /// A CPIO archive failed to decode; holds the byte offset reached.
    CpioParseError(usize, String),
    /// A boot image container failed to decode or re-encode.
    BootImgError(String),
    /// Building or signing an AVB block failed.
    AvbError(String),
    /// A root-patch transformation failed.
    PatchError(String),
    /// A menu or argument choice was not understood.
    InvalidChoice(String),
    /// The user interrupted the program.
    Interrupted,
    /// A cooperative cancellation flag was observed.
    Cancelled,
    /// A device property was queried but not reported.
    PropertyNotFound(String),
}

} // verus!
