//! Binary SELinux policy blobs found inside ramdisks.

use vstd::prelude::*;
use vstd::utf8::encode_utf8;
use crate::error::FlashError;
use crate::cpio::extract_spec;

verus! {

/// Little-endian magic that opens a binary policy database.
pub const POLICYDB_MAGIC: u32 = 0xf97cff8f;

/// A loaded binary SELinux policy.
#[derive(Debug, Clone)]
pub struct Sepolicy {
    /// The raw policy bytes, magic included.
    pub data: Vec<u8>,
    /// The policy database version read from bytes four to eight.
    pub version: i32,
}

/// The little-endian 32-bit value announced by four bytes.
pub open spec fn le32_of(b0: u8, b1: u8, b2: u8, b3: u8) -> int {
    b0 + 256 * b1 + 65536 * b2 + 16777216 * b3
}

/// Whether a buffer opens with the policy magic and a version field.
pub open spec fn sepolicy_parses(d: Seq<u8>) -> bool {
    d.len() >= 8 && le32_of(d[0], d[1], d[2], d[3]) == POLICYDB_MAGIC as int
}

/// The version field of a parsable buffer, as the signed 32-bit value
/// of its little-endian bytes.
pub open spec fn sepolicy_version(d: Seq<u8>) -> int {
    let u = le32_of(d[4], d[5], d[6], d[7]);
    if u >= 0x8000_0000 {
        u - 0x1_0000_0000
    } else {
        u
    }
}

impl Sepolicy {
    /// Parse a policy blob: at least eight bytes, opening with the
    /// policy magic; keeps all bytes and decodes the version field.
    pub fn parse(data: &[u8]) -> (r: Result<Sepolicy, FlashError>)
        ensures
            r is Ok <==> sepolicy_parses(data@),
            r matches Ok(p) ==> p.data@ == data@ && p.version as int == sepolicy_version(
                data@),
            r matches Err(e) ==> e is PatchError,
    {
        if data.len() < 8 {
            return Err(FlashError::PatchError("sepolicy data too small".to_owned()));
        }
        let magic: u32 = data[0] as u32 + 256 * (data[1] as u32) + 65536 * (data[2] as u32)
            + 16777216 * (data[3] as u32);
        if magic != POLICYDB_MAGIC {
            return Err(FlashError::PatchError("invalid sepolicy magic".to_owned()));
        }
        let version_u: u32 = data[4] as u32 + 256 * (data[5] as u32) + 65536 * (
            data[6] as u32) + 16777216 * (data[7] as u32);
        let version: i32 = if version_u >= 0x8000_0000 {
            proof {
                assert(version_u - 0x1_0000_0000 >= i32::MIN);
            }
            (version_u as i64 - 0x1_0000_0000i64) as i32
        } else {
            version_u as i32
        };
        Ok(Sepolicy { data: vstd::slice::slice_to_vec(data), version })
    }

    /// A policy usable for patching: full header present and a
    /// version no older than fifteen.
    pub fn is_valid(&self) -> (r: bool)
        ensures
            r == (self.data@.len() >= 8 && self.version >= 15),
    {
        self.data.len() >= 8 && self.version >= 15
    }

    /// Append the Magisk rule bytes to the policy image.
    pub fn add_magisk_rules(&mut self)
        ensures
            final(self).data@ == old(self).data@ + magisk_avc_rules(),
            final(self).version == old(self).version,
    {
        let rules = Self::get_magisk_avc_rules();
        let mut k: usize = 0;
        let ghost pre = self.data@;
        while k < rules.len()
            invariant
                k <= rules@.len(),
                rules@ == magisk_avc_rules(),
                self.data@ == pre + rules@.subrange(0, k as int),
                self.version == old(self).version,
            decreases rules@.len() - k,
        {
            self.data.push(rules[k]);
            proof {
                assert(self.data@ =~= pre + rules@.subrange(0, k as int + 1));
            }
            k += 1;
        }
        proof {
            assert(rules@.subrange(0, rules@.len() as int) =~= rules@);
        }
    }

    /// The placeholder AVC rule bytes appended for Magisk.
    pub fn get_magisk_avc_rules() -> (r: Vec<u8>)
        ensures
            r@ == magisk_avc_rules(),
    {
        let mut v: Vec<u8> = Vec::new();
        v.push(0x61);
        v.push(0x6c);
        v.push(0x6c);
        v.push(0x6f);
        v.push(0x77);
        v.push(0x00);
        proof {
            assert(v@ =~= magisk_avc_rules());
        }
        v
    }
}

/// The bytes `allow\0` used as a placeholder rule block.
pub open spec fn magisk_avc_rules() -> Seq<u8> {
    seq![0x61u8, 0x6cu8, 0x6cu8, 0x6fu8, 0x77u8, 0x00u8]
}

/// The `sepolicy` file of a ramdisk archive, if one is present.
pub fn extract_sepolicy(ramdisk_data: &[u8]) -> (r: Option<Vec<u8>>)
    ensures
        r is Some <==> extract_spec(ramdisk_data@, encode_utf8("sepolicy"@)) is Some,
        r matches Some(v) ==> extract_spec(ramdisk_data@, encode_utf8("sepolicy"@))
            matches Some(p) && p.1 == v@,
{
    crate::cpio::cpio_extract_file(ramdisk_data, "sepolicy")
}

/// Human-readable SELinux rules that document what the binary rule
/// block stands for.
pub fn get_magisk_selinux_rules() -> (r: &'static str) {
    "allow magisk shell:file { read write open getattr };\nallow magisk su:unix_stream_socket { connectto getattr };\nallow magisk tmpfs:file { read write create unlink };\nallow magisk system_data_file:file { read write open };\nallow magisk proc_kernel:file { read open };\nallow magisk selinuxfs:file { read write open getattr };\nallow init_real shell:file { execute };\nallow init_real magisk_exec:file { execute };\nallow zygote magisk:unix_stream_socket { connectto };\nallow zygote magisk_exec:file { execute };\nallow system_server magisk:unix_stream_socket { connectto };\nallow system_server magisk_exec:file { execute };\ndontaudit magisk self:capability { sys_module };\ndontaudit magisk kernel:security { compute_avc };\n"
}

} // verus!
