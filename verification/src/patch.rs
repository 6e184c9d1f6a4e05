//! Root-patch transformations of a decoded ramdisk entry list:
//! installing Magisk or KernelSU-LKM by editing the entries.

use vstd::prelude::*;
use vstd::utf8::encode_utf8;
use sha1::Digest;
use crate::cpio::{entry_models, CpioEntry, CpioEntryModel};
use crate::codec::xz_of;
use crate::error::FlashError;
use crate::sepolicy::{magisk_avc_rules, sepolicy_parses, Sepolicy};

verus! {

/// What the SHA-1 hex digest of a byte string looks like; a function
/// of the bytes alone.
pub uninterp spec fn sha1_hex_of(d: Seq<u8>) -> Seq<char>;

/// Relies on the sha1 crate: forty lowercase hex characters of the
/// SHA-1 digest, depending on the input bytes alone.
#[verifier::external_body]
pub fn sha1_hex(data: &[u8]) -> (r: String)
    ensures
        r@ == sha1_hex_of(data@),
        r@.len() == 40,
{
    format!("{:x}", sha1::Sha1::digest(data))
}

// ---------------------------------------------------------------------------
// Names the transformations act on.

pub open spec fn init_name() -> Seq<u8> {
    encode_utf8("init"@)
}

pub open spec fn init_real_name() -> Seq<u8> {
    encode_utf8("init.real"@)
}

pub open spec fn overlay_prefix() -> Seq<u8> {
    encode_utf8("overlay.d"@)
}

pub open spec fn backup_prefix() -> Seq<u8> {
    encode_utf8(".backup"@)
}

pub open spec fn sepolicy_entry_name() -> Seq<u8> {
    encode_utf8("sepolicy"@)
}

pub open spec fn backup_magisk_name() -> Seq<u8> {
    encode_utf8(".backup/.magisk"@)
}

pub open spec fn kernelsu_ko_name() -> Seq<u8> {
    encode_utf8("kernelsu.ko"@)
}

/// Whether `p` is a prefix of `s`.
pub open spec fn starts_with(s: Seq<u8>, p: Seq<u8>) -> bool {
    p.len() <= s.len() && s.subrange(0, p.len() as int) == p
}

/// Whether some entry of `s` carries this name.
pub open spec fn any_name(s: Seq<CpioEntryModel>, n: Seq<u8>) -> bool {
    exists|i: int| 0 <= i < s.len() && (#[trigger] s[i]).name == n
}

// ---------------------------------------------------------------------------
// The Magisk transformation.

/// Entries the Magisk installation removes: the old `init` and any
/// previous `overlay.d/…` or `.backup/…` state.
pub open spec fn magisk_drops(e: CpioEntryModel) -> bool {
    e.name == init_name() || starts_with(e.name, overlay_prefix()) || starts_with(e.name,
        backup_prefix())
}

/// A `sepolicy` entry after the Magisk rule injection: the rule block
/// is appended when the data parses as a policy, else the entry is
/// kept as it is; name and mode are preserved.
pub open spec fn sepolicy_fixed(e: CpioEntryModel) -> CpioEntryModel {
    CpioEntryModel {
        name: e.name,
        mode: e.mode,
        data: if sepolicy_parses(e.data) {
            e.data + magisk_avc_rules()
        } else {
            e.data
        },
    }
}

/// The surviving entries: Magisk-owned names dropped, the `sepolicy`
/// entry patched in place, everything else untouched and in order.
pub open spec fn magisk_keep(s: Seq<CpioEntryModel>) -> Seq<CpioEntryModel>
    decreases s.len(),
{
    if s.len() == 0 {
        Seq::empty()
    } else {
        let rest = magisk_keep(s.drop_first());
        if magisk_drops(s[0]) {
            rest
        } else if s[0].name == sepolicy_entry_name() {
            seq![sepolicy_fixed(s[0])] + rest
        } else {
            seq![s[0]] + rest
        }
    }
}

/// An `overlay.d/sbin` asset: the XZ stream of the asset bytes at
/// mode `0o644`.
pub open spec fn xz_asset(name: Seq<char>, data: Seq<u8>) -> CpioEntryModel {
    CpioEntryModel { name: encode_utf8(name), mode: 0o644u32, data: xz_of(data) }
}

/// The `.backup/.magisk` configuration for this boot-image digest.
pub open spec fn magisk_config_bytes(sha1_hex: Seq<u8>) -> Seq<u8> {
    encode_utf8("KEEPVERITY=false\nKEEPFORCEENCRYPT=false\nRECOVERYMODE=false\nVENDORBOOT=false\nSHA1="@)
        + sha1_hex + seq![10u8]
}

/// The entries the Magisk installation appends: the new `init`, one
/// XZ asset per nonempty input, and the configuration record.
pub open spec fn magisk_suffix(
    mi: Seq<u8>,
    mb: Seq<u8>,
    stub: Seq<u8>,
    ild: Seq<u8>,
    sha1_hex: Seq<u8>,
) -> Seq<CpioEntryModel> {
    seq![CpioEntryModel { name: init_name(), mode: 0o750u32, data: mi }] + (if mb.len() > 0 {
        seq![xz_asset("overlay.d/sbin/magisk.xz"@, mb)]
    } else {
        Seq::empty()
    }) + (if stub.len() > 0 {
        seq![xz_asset("overlay.d/sbin/stub.xz"@, stub)]
    } else {
        Seq::empty()
    }) + (if ild.len() > 0 {
        seq![xz_asset("overlay.d/sbin/init-ld.xz"@, ild)]
    } else {
        Seq::empty()
    }) + seq![
        CpioEntryModel {
            name: backup_magisk_name(),
            mode: 0o000u32,
            data: magisk_config_bytes(sha1_hex),
        },
    ]
}

/// The whole Magisk transformation of an entry list.
pub open spec fn magisk_transform(
    s: Seq<CpioEntryModel>,
    mi: Seq<u8>,
    mb: Seq<u8>,
    stub: Seq<u8>,
    ild: Seq<u8>,
    sha1_hex: Seq<u8>,
) -> Seq<CpioEntryModel> {
    magisk_keep(s) + magisk_suffix(mi, mb, stub, ild, sha1_hex)
}

/// Appending one entry extends the kept entries by its image.
proof fn lemma_magisk_keep_push(s: Seq<CpioEntryModel>, e: CpioEntryModel)
    ensures
        magisk_keep(s.push(e)) == magisk_keep(s) + (if magisk_drops(e) {
            Seq::<CpioEntryModel>::empty()
        } else if e.name == sepolicy_entry_name() {
            seq![sepolicy_fixed(e)]
        } else {
            seq![e]
        }),
    decreases s.len(),
{
    let tail = if magisk_drops(e) {
        Seq::<CpioEntryModel>::empty()
    } else if e.name == sepolicy_entry_name() {
        seq![sepolicy_fixed(e)]
    } else {
        seq![e]
    };
    if s.len() == 0 {
        assert(s.push(e)[0] == e);
        assert(s.push(e).drop_first() =~= Seq::<CpioEntryModel>::empty());
        assert(magisk_keep(Seq::<CpioEntryModel>::empty()) == Seq::<CpioEntryModel>::empty());
        assert(magisk_keep(s.push(e)) =~= magisk_keep(s) + tail);
    } else {
        lemma_magisk_keep_push(s.drop_first(), e);
        assert(s.push(e)[0] == s[0]);
        assert(s.push(e).drop_first() =~= s.drop_first().push(e));
        assert(magisk_keep(s.push(e)) =~= magisk_keep(s) + tail);
    }
}

/// Whether this exec entry's name equals the literal.
fn name_is(e: &CpioEntry, lit: &str) -> (r: bool)
    ensures
        r == (e@.name == encode_utf8(lit@)),
{
    crate::strutil::bytes_equal(e.name.as_str().as_bytes(), lit.as_bytes())
}

/// Whether this exec entry's name starts with the literal.
fn name_starts(e: &CpioEntry, lit: &str) -> (r: bool)
    ensures
        r == starts_with(e@.name, encode_utf8(lit@)),
{
    let b = e.name.as_str().as_bytes();
    let p = lit.as_bytes();
    if p.len() > b.len() {
        return false;
    }
    let head = vstd::slice::slice_subrange(b, 0, p.len());
    let r = crate::strutil::bytes_equal(head, p);
    proof {
        assert(head@ =~= e@.name.subrange(0, p@.len() as int));
    }
    r
}

/// Copy an entry field by field.
fn copy_entry(e: &CpioEntry) -> (r: CpioEntry)
    ensures
        r@ == e@,
{
    CpioEntry {
        name: e.name.clone(),
        mode: e.mode,
        data: vstd::slice::slice_to_vec(e.data.as_slice()),
    }
}

/// Install Magisk into a decoded entry list: drop the old `init` and
/// any `overlay.d/…` or `.backup/…` entries, patch `sepolicy` in
/// place, then append the new `init` (mode `0o750`, the magiskinit
/// binary), one XZ-compressed `overlay.d/sbin` asset per nonempty
/// input, and the `.backup/.magisk` configuration carrying the boot
/// image's SHA-1.
pub fn magisk_patch_entries(
    entries: &mut Vec<CpioEntry>,
    magiskinit: &[u8],
    magiskbin: &[u8],
    stub: &[u8],
    init_ld: &[u8],
    sha1_hex: &str,
)
    ensures
        entry_models(final(entries)@) == magisk_transform(entry_models(old(entries)@),
            magiskinit@, magiskbin@, stub@, init_ld@, encode_utf8(sha1_hex@)),
{
    let ghost src = entry_models(entries@);
    let mut out: Vec<CpioEntry> = Vec::new();
    let n = entries.len();
    let mut i: usize = 0;
    proof {
        assert(entry_models(out@) =~= Seq::<CpioEntryModel>::empty());
        assert(src.take(0) =~= Seq::<CpioEntryModel>::empty());
        assert(magisk_keep(src.take(0)) == Seq::<CpioEntryModel>::empty());
    }
    while i < n
        invariant
            n == entries@.len(),
            i <= n,
            src == entry_models(entries@),
            entry_models(out@) == magisk_keep(src.take(i as int)),
        decreases n - i,
    {
        let e = &entries[i];
        proof {
            assert(src[i as int] == entries@[i as int]@);
        }
        let drops = name_is(e, "init") || name_starts(e, "overlay.d") || name_starts(e,
            ".backup");
        let ghost pre = entry_models(out@);
        if !drops {
            if name_is(e, "sepolicy") {
                let new_data: Vec<u8> = match Sepolicy::parse(e.data.as_slice()) {
                    Ok(p) => {
                        let mut pol = p;
                        pol.add_magisk_rules();
                        pol.data
                    }
                    Err(_) => vstd::slice::slice_to_vec(e.data.as_slice()),
                };
                let fixed = CpioEntry { name: e.name.clone(), mode: e.mode, data: new_data };
                proof {
                    assert(fixed@ == sepolicy_fixed(src[i as int]));
                }
                out.push(fixed);
                proof {
                    assert(entry_models(out@) =~= pre + seq![sepolicy_fixed(src[i as int])]);
                }
            } else {
                out.push(copy_entry(e));
                proof {
                    assert(entry_models(out@) =~= pre + seq![src[i as int]]);
                }
            }
        }
        proof {
            lemma_magisk_keep_push(src.take(i as int), src[i as int]);
            assert(src.take(i as int).push(src[i as int]) =~= src.take(i as int + 1));
        }
        i += 1;
    }
    proof {
        assert(src.take(n as int) =~= src);
    }
    // The Magisk-owned entries.
    let ghost kept = entry_models(out@);
    out.push(CpioEntry {
        name: "init".to_owned(),
        mode: 0o750,
        data: vstd::slice::slice_to_vec(magiskinit),
    });
    if magiskbin.len() > 0 {
        out.push(CpioEntry {
            name: "overlay.d/sbin/magisk.xz".to_owned(),
            mode: 0o644,
            data: crate::codec::xz_compress(magiskbin),
        });
    }
    if stub.len() > 0 {
        out.push(CpioEntry {
            name: "overlay.d/sbin/stub.xz".to_owned(),
            mode: 0o644,
            data: crate::codec::xz_compress(stub),
        });
    }
    if init_ld.len() > 0 {
        out.push(CpioEntry {
            name: "overlay.d/sbin/init-ld.xz".to_owned(),
            mode: 0o644,
            data: crate::codec::xz_compress(init_ld),
        });
    }
    let mut config: Vec<u8> = vstd::slice::slice_to_vec(
        "KEEPVERITY=false\nKEEPFORCEENCRYPT=false\nRECOVERYMODE=false\nVENDORBOOT=false\nSHA1=".as_bytes(),
    );
    config.extend_from_slice(sha1_hex.as_bytes());
    config.push(10);
    proof {
        assert(config@ =~= magisk_config_bytes(encode_utf8(sha1_hex@)));
    }
    out.push(CpioEntry { name: ".backup/.magisk".to_owned(), mode: 0o000, data: config });
    proof {
        assert(entry_models(out@) =~= kept + magisk_suffix(magiskinit@, magiskbin@, stub@,
            init_ld@, encode_utf8(sha1_hex@)));
    }
    *entries = out;
}

// ---------------------------------------------------------------------------
// The KernelSU-LKM transformation.

/// The first entry named `init`, whose mode and data are preserved.
pub open spec fn first_init(s: Seq<CpioEntryModel>) -> Option<CpioEntryModel>
    decreases s.len(),
{
    if s.len() == 0 {
        None
    } else if s[0].name == init_name() {
        Some(s[0])
    } else {
        first_init(s.drop_first())
    }
}

/// The entries surviving the KernelSU installation: everything but
/// `init`.
pub open spec fn ksu_keep(s: Seq<CpioEntryModel>) -> Seq<CpioEntryModel>
    decreases s.len(),
{
    if s.len() == 0 {
        Seq::empty()
    } else if s[0].name == init_name() {
        ksu_keep(s.drop_first())
    } else {
        seq![s[0]] + ksu_keep(s.drop_first())
    }
}

/// The KernelSU-LKM transformation: the old `init` is renamed to
/// `init.real` (same mode and data), the selected `ksuinit` becomes
/// `init` at mode `0o755`, the module is added as `kernelsu.ko` at
/// mode `0o755`, and the extra `ksuinit.d` entries follow.
pub open spec fn ksu_transform(
    s: Seq<CpioEntryModel>,
    ksuinit: Seq<u8>,
    ko: Seq<u8>,
    extra: Seq<CpioEntryModel>,
) -> Seq<CpioEntryModel> {
    ksu_keep(s) + (match first_init(s) {
        Some(e) => seq![CpioEntryModel { name: init_real_name(), mode: e.mode, data: e.data }],
        None => Seq::empty(),
    }) + seq![CpioEntryModel { name: init_name(), mode: 0o755u32, data: ksuinit }] + seq![
        CpioEntryModel { name: kernelsu_ko_name(), mode: 0o755u32, data: ko },
    ] + extra
}

proof fn lemma_ksu_keep_push(s: Seq<CpioEntryModel>, e: CpioEntryModel)
    ensures
        ksu_keep(s.push(e)) == ksu_keep(s) + (if e.name == init_name() {
            Seq::<CpioEntryModel>::empty()
        } else {
            seq![e]
        }),
    decreases s.len(),
{
    let tail = if e.name == init_name() {
        Seq::<CpioEntryModel>::empty()
    } else {
        seq![e]
    };
    if s.len() == 0 {
        assert(s.push(e)[0] == e);
        assert(s.push(e).drop_first() =~= Seq::<CpioEntryModel>::empty());
        assert(ksu_keep(Seq::<CpioEntryModel>::empty()) == Seq::<CpioEntryModel>::empty());
        assert(ksu_keep(s.push(e)) =~= ksu_keep(s) + tail);
    } else {
        lemma_ksu_keep_push(s.drop_first(), e);
        assert(s.push(e)[0] == s[0]);
        assert(s.push(e).drop_first() =~= s.drop_first().push(e));
        assert(ksu_keep(s.push(e)) =~= ksu_keep(s) + tail);
    }
}

/// `first_init` is decided by the first matching index.
proof fn lemma_first_init_at(s: Seq<CpioEntryModel>, i: int)
    requires
        0 <= i < s.len(),
        s[i].name == init_name(),
        forall|j: int| 0 <= j < i ==> (#[trigger] s[j]).name != init_name(),
    ensures
        first_init(s) == Some(s[i]),
    decreases s.len(),
{
    if i > 0 {
        lemma_first_init_at(s.drop_first(), i - 1);
    }
}

/// Without a matching entry there is no first `init`.
proof fn lemma_first_init_none(s: Seq<CpioEntryModel>)
    requires
        forall|j: int| 0 <= j < s.len() ==> (#[trigger] s[j]).name != init_name(),
    ensures
        first_init(s) is None,
    decreases s.len(),
{
    if s.len() > 0 {
        lemma_first_init_none(s.drop_first());
    }
}

/// Whether any entry carries this literal name.
fn find_name(entries: &Vec<CpioEntry>, lit: &str) -> (r: Option<usize>)
    ensures
        r matches Some(i) ==> i < entries@.len() && entries@[i as int]@.name == encode_utf8(
            lit@) && (forall|j: int|
            0 <= j < i ==> (#[trigger] entry_models(entries@)[j]).name != encode_utf8(lit@)),
        r is None ==> forall|j: int|
            0 <= j < entries@.len() ==> (#[trigger] entry_models(entries@)[j]).name
                != encode_utf8(lit@),
{
    let n = entries.len();
    let mut i: usize = 0;
    while i < n
        invariant
            n == entries@.len(),
            i <= n,
            forall|j: int|
                0 <= j < i ==> (#[trigger] entry_models(entries@)[j]).name != encode_utf8(
                    lit@),
        decreases n - i,
    {
        if name_is(&entries[i], lit) {
            proof {
                assert(entry_models(entries@)[i as int] == entries@[i as int]@);
            }
            return Some(i);
        }
        proof {
            assert(entry_models(entries@)[i as int] == entries@[i as int]@);
        }
        i += 1;
    }
    None
}

/// Install KernelSU-LKM into a decoded entry list.
///
/// Refuses a Magisk-patched ramdisk (a `.backup/.magisk` entry)
/// unless `force` is set, leaving the entries untouched. Otherwise
/// the old `init` is kept as `init.real`, `ksuinit` becomes `init`,
/// the module is added as `kernelsu.ko`, and the extra entries
/// follow; the returned flag tells whether a `kernelsu.ko` entry was
/// already present (a repeated installation).
pub fn kernelsu_patch_entries(
    entries: &mut Vec<CpioEntry>,
    ksuinit: &[u8],
    ko: &[u8],
    extra: &Vec<CpioEntry>,
    force: bool,
) -> (r: Result<bool, FlashError>)
    ensures
        r is Ok <==> (force || !any_name(entry_models(old(entries)@), backup_magisk_name())),
        r matches Ok(w) ==> w == any_name(entry_models(old(entries)@), kernelsu_ko_name())
            && entry_models(final(entries)@) == ksu_transform(entry_models(old(entries)@),
            ksuinit@, ko@, entry_models(extra@)),
        r is Err ==> final(entries)@ == old(entries)@,
        r matches Err(e) ==> e is PatchError,
{
    let ghost src = entry_models(entries@);
    let magisk_found = find_name(entries, ".backup/.magisk");
    if magisk_found.is_some() && !force {
        proof {
            let i = magisk_found.unwrap() as int;
            assert(any_name(src, backup_magisk_name())) by {
                assert(src[i].name == backup_magisk_name());
            }
        }
        return Err(FlashError::PatchError(
            "ramdisk already Magisk-patched; pass force to continue".to_owned(),
        ));
    }
    proof {
        if magisk_found is None {
            assert(!any_name(src, backup_magisk_name()));
        }
    }
    let ko_found = find_name(entries, "kernelsu.ko");
    let already = ko_found.is_some();
    proof {
        if already {
            let i = ko_found.unwrap() as int;
            assert(src[i] == entries@[i]@);
            assert(any_name(src, kernelsu_ko_name())) by {
                assert(src[i].name == kernelsu_ko_name());
            }
        } else {
            assert(!any_name(src, kernelsu_ko_name()));
        }
    }
    let old_init = find_name(entries, "init");
    let mut out: Vec<CpioEntry> = Vec::new();
    let n = entries.len();
    let mut i: usize = 0;
    proof {
        assert(entry_models(out@) =~= Seq::<CpioEntryModel>::empty());
        assert(src.take(0) =~= Seq::<CpioEntryModel>::empty());
        assert(ksu_keep(src.take(0)) == Seq::<CpioEntryModel>::empty());
    }
    while i < n
        invariant
            n == entries@.len(),
            i <= n,
            src == entry_models(entries@),
            entry_models(out@) == ksu_keep(src.take(i as int)),
        decreases n - i,
    {
        let e = &entries[i];
        proof {
            assert(src[i as int] == entries@[i as int]@);
        }
        let ghost pre = entry_models(out@);
        if !name_is(e, "init") {
            out.push(copy_entry(e));
            proof {
                assert(entry_models(out@) =~= pre + seq![src[i as int]]);
            }
        }
        proof {
            lemma_ksu_keep_push(src.take(i as int), src[i as int]);
            assert(src.take(i as int).push(src[i as int]) =~= src.take(i as int + 1));
        }
        i += 1;
    }
    proof {
        assert(src.take(n as int) =~= src);
    }
    let ghost kept = entry_models(out@);
    // Preserve the old init as init.real.
    match old_init {
        Some(idx) => {
            let e = &entries[idx];
            proof {
                lemma_first_init_at(src, idx as int);
            }
            out.push(CpioEntry {
                name: "init.real".to_owned(),
                mode: e.mode,
                data: vstd::slice::slice_to_vec(e.data.as_slice()),
            });
        }
        None => {
            proof {
                lemma_first_init_none(src);
            }
        }
    }
    out.push(CpioEntry {
        name: "init".to_owned(),
        mode: 0o755,
        data: vstd::slice::slice_to_vec(ksuinit),
    });
    out.push(CpioEntry {
        name: "kernelsu.ko".to_owned(),
        mode: 0o755,
        data: vstd::slice::slice_to_vec(ko),
    });
    let mut k: usize = 0;
    let ghost before_extra = entry_models(out@);
    while k < extra.len()
        invariant
            k <= extra@.len(),
            entry_models(out@) == before_extra + entry_models(extra@).take(k as int),
        decreases extra@.len() - k,
    {
        let ghost pre = entry_models(out@);
        out.push(copy_entry(&extra[k]));
        proof {
            assert(entry_models(extra@)[k as int] == extra@[k as int]@);
            assert(entry_models(out@) =~= pre + seq![entry_models(extra@)[k as int]]);
            assert(pre + seq![entry_models(extra@)[k as int]] =~= before_extra
                + entry_models(extra@).take(k as int + 1));
        }
        k += 1;
    }
    proof {
        assert(entry_models(extra@).take(extra@.len() as int) =~= entry_models(extra@));
        assert(entry_models(out@) =~= ksu_transform(src, ksuinit@, ko@, entry_models(
            extra@)));
    }
    *entries = out;
    Ok(already)
}

/// The archive path of a `ksuinit.d` payload file.
pub fn ksuinit_d_entry_name(file_name: &str) -> (r: String)
    ensures
        r@ == "ksuinit.d/"@ + file_name@,
{
    crate::strutil::concat_str("ksuinit.d/", file_name)
}

// ---------------------------------------------------------------------------
// Idempotence of the Magisk transformation.

/// `s` with only its `sepolicy` entries patched again.
pub open spec fn sepolicy_refix(s: Seq<CpioEntryModel>) -> Seq<CpioEntryModel> {
    s.map_values(
        |e: CpioEntryModel|
            if e.name == sepolicy_entry_name() {
                sepolicy_fixed(e)
            } else {
                e
            },
    )
}

/// The names the Magisk suffix uses fall under its own filters, and
/// `sepolicy` falls under none of them.
#[verifier::rlimit(100)]
proof fn lemma_magisk_name_facts()
    ensures
        starts_with(encode_utf8("overlay.d/sbin/magisk.xz"@), overlay_prefix()),
        starts_with(encode_utf8("overlay.d/sbin/stub.xz"@), overlay_prefix()),
        starts_with(encode_utf8("overlay.d/sbin/init-ld.xz"@), overlay_prefix()),
        starts_with(backup_magisk_name(), backup_prefix()),
        sepolicy_entry_name() != init_name(),
        !starts_with(sepolicy_entry_name(), overlay_prefix()),
        !starts_with(sepolicy_entry_name(), backup_prefix()),
{
    reveal_strlit("overlay.d/sbin/magisk.xz");
    reveal_strlit("overlay.d/sbin/stub.xz");
    reveal_strlit("overlay.d/sbin/init-ld.xz");
    reveal_strlit("overlay.d");
    reveal_strlit(".backup");
    reveal_strlit(".backup/.magisk");
    reveal_strlit("sepolicy");
    reveal_strlit("init");
    assert(vstd::utf8::is_ascii_chars("overlay.d/sbin/magisk.xz"@));
    assert(vstd::utf8::is_ascii_chars("overlay.d/sbin/stub.xz"@));
    assert(vstd::utf8::is_ascii_chars("overlay.d/sbin/init-ld.xz"@));
    assert(vstd::utf8::is_ascii_chars("overlay.d"@));
    assert(vstd::utf8::is_ascii_chars(".backup"@));
    assert(vstd::utf8::is_ascii_chars(".backup/.magisk"@));
    assert(vstd::utf8::is_ascii_chars("sepolicy"@));
    assert(vstd::utf8::is_ascii_chars("init"@));
    vstd::utf8::is_ascii_chars_encode_utf8("overlay.d/sbin/magisk.xz"@);
    vstd::utf8::is_ascii_chars_encode_utf8("overlay.d/sbin/stub.xz"@);
    vstd::utf8::is_ascii_chars_encode_utf8("overlay.d/sbin/init-ld.xz"@);
    vstd::utf8::is_ascii_chars_encode_utf8("overlay.d"@);
    vstd::utf8::is_ascii_chars_encode_utf8(".backup"@);
    vstd::utf8::is_ascii_chars_encode_utf8(".backup/.magisk"@);
    vstd::utf8::is_ascii_chars_encode_utf8("sepolicy"@);
    vstd::utf8::is_ascii_chars_encode_utf8("init"@);
    assert(encode_utf8("overlay.d/sbin/magisk.xz"@).subrange(0, 9) =~= encode_utf8(
        "overlay.d"@));
    assert(encode_utf8("overlay.d/sbin/stub.xz"@).subrange(0, 9) =~= encode_utf8(
        "overlay.d"@));
    assert(encode_utf8("overlay.d/sbin/init-ld.xz"@).subrange(0, 9) =~= encode_utf8(
        "overlay.d"@));
    assert(encode_utf8(".backup/.magisk"@).subrange(0, 7) =~= encode_utf8(".backup"@));
    assert(encode_utf8("sepolicy"@).len() == 8 && encode_utf8("init"@).len() == 4);
    assert(encode_utf8("sepolicy"@)[0] == 115 && encode_utf8(".backup"@)[0] == 46);
    assert(!starts_with(sepolicy_entry_name(), overlay_prefix())) by {
        assert(encode_utf8("overlay.d"@).len() == 9);
    }
    assert(!starts_with(sepolicy_entry_name(), backup_prefix())) by {
        if starts_with(sepolicy_entry_name(), backup_prefix()) {
            assert(sepolicy_entry_name().subrange(0, 7)[0] == backup_prefix()[0]);
        }
    }
}

/// Keeping distributes over concatenation.
proof fn lemma_magisk_keep_concat(a: Seq<CpioEntryModel>, b: Seq<CpioEntryModel>)
    ensures
        magisk_keep(a + b) == magisk_keep(a) + magisk_keep(b),
    decreases a.len(),
{
    if a.len() == 0 {
        assert(a + b =~= b);
        assert(magisk_keep(a) == Seq::<CpioEntryModel>::empty());
        assert(magisk_keep(a) + magisk_keep(b) =~= magisk_keep(b));
    } else {
        lemma_magisk_keep_concat(a.drop_first(), b);
        assert((a + b)[0] == a[0]);
        assert((a + b).drop_first() =~= a.drop_first() + b);
        assert(magisk_keep(a + b) =~= magisk_keep(a) + magisk_keep(b));
    }
}

/// Keeping a single entry follows its classification.
proof fn lemma_magisk_keep_singleton(e: CpioEntryModel)
    ensures
        magisk_keep(seq![e]) == (if magisk_drops(e) {
            Seq::<CpioEntryModel>::empty()
        } else if e.name == sepolicy_entry_name() {
            seq![sepolicy_fixed(e)]
        } else {
            seq![e]
        }),
{
    assert(seq![e].drop_first() =~= Seq::<CpioEntryModel>::empty());
    assert(seq![e][0] == e);
    assert(magisk_keep(Seq::<CpioEntryModel>::empty()) == Seq::<CpioEntryModel>::empty());
    if magisk_drops(e) {
        assert(magisk_keep(seq![e]) =~= Seq::<CpioEntryModel>::empty());
    } else if e.name == sepolicy_entry_name() {
        assert(magisk_keep(seq![e]) =~= seq![sepolicy_fixed(e)]);
    } else {
        assert(magisk_keep(seq![e]) =~= seq![e]);
    }
}

/// Every entry the suffix adds falls under the filters, so a second
/// keep removes the whole suffix.
proof fn lemma_magisk_keep_suffix(
    mi: Seq<u8>,
    mb: Seq<u8>,
    stub: Seq<u8>,
    ild: Seq<u8>,
    h: Seq<u8>,
)
    ensures
        magisk_keep(magisk_suffix(mi, mb, stub, ild, h)) == Seq::<CpioEntryModel>::empty(),
{
    lemma_magisk_name_facts();
    let a = seq![CpioEntryModel { name: init_name(), mode: 0o750u32, data: mi }];
    let b = if mb.len() > 0 {
        seq![xz_asset("overlay.d/sbin/magisk.xz"@, mb)]
    } else {
        Seq::<CpioEntryModel>::empty()
    };
    let c = if stub.len() > 0 {
        seq![xz_asset("overlay.d/sbin/stub.xz"@, stub)]
    } else {
        Seq::<CpioEntryModel>::empty()
    };
    let d = if ild.len() > 0 {
        seq![xz_asset("overlay.d/sbin/init-ld.xz"@, ild)]
    } else {
        Seq::<CpioEntryModel>::empty()
    };
    let f = seq![
        CpioEntryModel { name: backup_magisk_name(), mode: 0o000u32, data: magisk_config_bytes(h) },
    ];
    lemma_magisk_keep_concat(a + b + c + d, f);
    lemma_magisk_keep_concat(a + b + c, d);
    lemma_magisk_keep_concat(a + b, c);
    lemma_magisk_keep_concat(a, b);
    lemma_magisk_keep_singleton(a[0]);
    lemma_magisk_keep_singleton(f[0]);
    assert(magisk_keep(a) =~= Seq::<CpioEntryModel>::empty());
    assert(magisk_keep(f) =~= Seq::<CpioEntryModel>::empty());
    if mb.len() > 0 {
        lemma_magisk_keep_singleton(b[0]);
    }
    if stub.len() > 0 {
        lemma_magisk_keep_singleton(c[0]);
    }
    if ild.len() > 0 {
        lemma_magisk_keep_singleton(d[0]);
    }
    assert(magisk_keep(b) =~= Seq::<CpioEntryModel>::empty());
    assert(magisk_keep(c) =~= Seq::<CpioEntryModel>::empty());
    assert(magisk_keep(d) =~= Seq::<CpioEntryModel>::empty());
    assert(magisk_keep(magisk_suffix(mi, mb, stub, ild, h)) =~= Seq::<
        CpioEntryModel,
    >::empty());
}

/// Kept entries keep again to themselves, up to patching `sepolicy`
/// once more.
proof fn lemma_magisk_keep_keep(s: Seq<CpioEntryModel>)
    ensures
        magisk_keep(magisk_keep(s)) == sepolicy_refix(magisk_keep(s)),
    decreases s.len(),
{
    if s.len() == 0 {
        assert(magisk_keep(magisk_keep(s)) =~= sepolicy_refix(magisk_keep(s)));
    } else {
        lemma_magisk_keep_keep(s.drop_first());
        let e = s[0];
        let rest = magisk_keep(s.drop_first());
        if magisk_drops(e) {
            assert(magisk_keep(s) == rest);
        } else if e.name == sepolicy_entry_name() {
            let x = sepolicy_fixed(e);
            assert(magisk_keep(s) == seq![x] + rest);
            lemma_magisk_keep_concat(seq![x], rest);
            lemma_magisk_keep_singleton(x);
            assert(x.name == sepolicy_entry_name());
            assert(!magisk_drops(x));
            assert(magisk_keep(magisk_keep(s)) == seq![sepolicy_fixed(x)] + magisk_keep(
                rest));
            assert(sepolicy_refix(seq![x] + rest) =~= seq![sepolicy_fixed(x)]
                + sepolicy_refix(rest));
        } else {
            assert(magisk_keep(s) == seq![e] + rest);
            lemma_magisk_keep_concat(seq![e], rest);
            lemma_magisk_keep_singleton(e);
            assert(magisk_keep(magisk_keep(s)) == seq![e] + magisk_keep(rest));
            assert(sepolicy_refix(seq![e] + rest) =~= seq![e] + sepolicy_refix(rest));
        }
    }
}

/// Installing Magisk twice is installing it once, up to the
/// `sepolicy` entry: the second run removes exactly the entries the
/// first one added and re-adds them fresh, so the result carries a
/// single `init`, no duplicated `overlay.d` or `.backup` entries, and
/// the configuration of the second run; only a surviving `sepolicy`
/// entry differs, carrying the rule block once more.
pub proof fn lemma_magisk_patch_idempotent(
    s: Seq<CpioEntryModel>,
    mi: Seq<u8>,
    mb: Seq<u8>,
    stub: Seq<u8>,
    ild: Seq<u8>,
    h1: Seq<u8>,
    h2: Seq<u8>,
)
    ensures
        magisk_transform(magisk_transform(s, mi, mb, stub, ild, h1), mi, mb, stub, ild, h2)
            == sepolicy_refix(magisk_keep(s)) + magisk_suffix(mi, mb, stub, ild, h2),
{
    let once = magisk_transform(s, mi, mb, stub, ild, h1);
    lemma_magisk_keep_concat(magisk_keep(s), magisk_suffix(mi, mb, stub, ild, h1));
    lemma_magisk_keep_suffix(mi, mb, stub, ild, h1);
    lemma_magisk_keep_keep(s);
    assert(magisk_keep(once) =~= sepolicy_refix(magisk_keep(s)));
}

} // verus!
