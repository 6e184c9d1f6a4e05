//! Verified core of an Android firmware flashing toolkit.
//!
//! The library covers the image manipulation pipeline: ramdisk codec
//! detection and (de)compression, CPIO-newc archives, Android boot image
//! containers, AVB hash-footer signing, OTA payload unpack planning,
//! root-patch transformations of ramdisk entry lists, and the command
//! plans handed to the external `fastboot`/`adb` binaries.
//! All file and process I/O lives outside this crate; the functions here
//! work on plain values and carry contracts checked by Verus.

pub mod error;
pub mod codec;
pub mod cpio;
pub mod sepolicy;
pub mod avb;
pub mod strutil;
pub mod fastboot;
pub mod device;
pub mod finder;
pub mod payload;
pub mod patch;
