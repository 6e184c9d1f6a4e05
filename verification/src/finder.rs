//! Locating KernelSU assets by file-name conventions.

use vstd::prelude::*;
use vstd::utf8::{encode_utf8, valid_utf8};

verus! {

/// One loadable kernel module with the KMI its file name carries.
#[derive(Debug, Clone)]
pub struct LkmPackage {
    pub ko_path: String,
    pub kmi: String,
}

/// One version directory of a KernelSU branch.
#[derive(Debug, Clone)]
pub struct KsuLkmVersion {
    pub version_name: String,
    pub ksuinit_path: String,
    pub ksuinit_d_path: String,
    pub ko_files: Vec<LkmPackage>,
}

/// One KernelSU branch with its versions.
#[derive(Debug, Clone)]
pub struct KsuLkmBranch {
    pub name: String,
    pub versions: Vec<KsuLkmVersion>,
}

/// Namespace for the file-name conventions.
pub struct FileFinder;

/// The bytes of `_kernelsu.ko`.
pub open spec fn kmi_suffix() -> Seq<u8> {
    seq![95u8, 107u8, 101u8, 114u8, 110u8, 101u8, 108u8, 115u8, 117u8, 46u8, 107u8, 111u8]
}

/// The bytes of `android`.
pub open spec fn android_bytes() -> Seq<u8> {
    seq![97u8, 110u8, 100u8, 114u8, 111u8, 105u8, 100u8]
}

/// Bytes allowed inside a KMI tag: ASCII alphanumerics, `-` and `.`.
pub open spec fn is_kmi_byte(b: u8) -> bool {
    (48 <= b <= 57) || (65 <= b <= 90) || (97 <= b <= 122) || b == 45 || b == 46
}

/// First offset of `android` in `w` at or after `i`.
pub open spec fn find_android(w: Seq<u8>, i: int) -> Option<int>
    decreases w.len() - i,
    when 0 <= i
{
    if i + 7 > w.len() {
        None
    } else if w.subrange(i, i + 7) == android_bytes() {
        Some(i)
    } else {
        find_android(w, i + 1)
    }
}

/// Length of the run of KMI bytes of `t` starting at `j`.
pub open spec fn kmi_run_len(t: Seq<u8>, j: int) -> int
    decreases t.len() - j,
    when 0 <= j <= t.len()
{
    if j == t.len() || !is_kmi_byte(t[j]) {
        j
    } else {
        kmi_run_len(t, j + 1)
    }
}

/// The KMI tag a file name carries: for `<kmi>_kernelsu.ko` names,
/// the run of KMI bytes starting at the first `android`, when that
/// run still opens with `android`.
pub open spec fn kmi_bytes_of(s: Seq<u8>) -> Option<Seq<u8>> {
    if s.len() < 12 || s.subrange(s.len() - 12, s.len() as int) != kmi_suffix() {
        None
    } else {
        let w = s.subrange(0, s.len() - 12);
        match find_android(w, 0) {
            None => None,
            Some(i) => {
                let t = w.skip(i);
                let k = kmi_run_len(t, 0);
                if k >= 7 && t.subrange(0, 7) == android_bytes() {
                    Some(t.subrange(0, k))
                } else {
                    None
                }
            }
        }
    }
}

/// Length of the run of KMI bytes opening `t`.
fn kmi_run(t: &[u8]) -> (k: usize)
    ensures
        k as int == kmi_run_len(t@, 0),
        k <= t@.len(),
{
    let tlen = t.len();
    let mut k: usize = 0;
    loop
        invariant
            tlen == t@.len(),
            k <= tlen,
            kmi_run_len(t@, 0) == kmi_run_len(t@, k as int),
        decreases tlen - k,
    {
        if k == tlen {
            proof {
                assert(kmi_run_len(t@, k as int) == k);
            }
            return k;
        }
        let c = t[k];
        let ok = (48 <= c && c <= 57) || (65 <= c && c <= 90) || (97 <= c && c <= 122)
            || c == 45 || c == 46;
        if !ok {
            proof {
                assert(!is_kmi_byte(t@[k as int]));
                assert(kmi_run_len(t@, k as int) == k);
            }
            return k;
        }
        k += 1;
    }
}

impl FileFinder {
    /// The KMI tag of an LKM file name such as
    /// `android14-6.1_kernelsu.ko`, when the name follows the
    /// convention.
    #[verifier::rlimit(100)]
    pub fn extract_kernelsu_kmi(filename: &str) -> (r: Option<String>)
        ensures
            r matches Some(v) ==> kmi_bytes_of(encode_utf8(filename@)) == Some(encode_utf8(
                v@)),
            r is None ==> kmi_bytes_of(encode_utf8(filename@)) is None || !valid_utf8(
                kmi_bytes_of(encode_utf8(filename@)).unwrap()),
    {
        let b = filename.as_bytes();
        let ghost s = encode_utf8(filename@);
        let n = b.len();
        if n < 12 {
            return None;
        }
        let suf = vstd::slice::slice_subrange(b, n - 12, n);
        let ok_suffix = suf.len() == 12 && suf[0] == 95 && suf[1] == 107 && suf[2] == 101
            && suf[3] == 114 && suf[4] == 110 && suf[5] == 101 && suf[6] == 108
            && suf[7] == 115 && suf[8] == 117 && suf[9] == 46 && suf[10] == 107
            && suf[11] == 111;
        proof {
            if ok_suffix {
                assert(s.subrange(s.len() - 12, s.len() as int) =~= kmi_suffix());
            } else {
                assert(suf@ =~= s.subrange(s.len() - 12, s.len() as int));
                if s.subrange(s.len() - 12, s.len() as int) == kmi_suffix() {
                    assert(suf@[0] == 95 && suf@[1] == 107 && suf@[2] == 101 && suf@[3]
                        == 114 && suf@[4] == 110 && suf@[5] == 101 && suf@[6] == 108
                        && suf@[7] == 115 && suf@[8] == 117 && suf@[9] == 46 && suf@[10]
                        == 107 && suf@[11] == 111);
                }
            }
        }
        if !ok_suffix {
            return None;
        }
        let wlen = n - 12;
        let w = vstd::slice::slice_subrange(b, 0, wlen);
        proof {
            assert(w@ =~= s.subrange(0, s.len() - 12));
        }
        // Find the first `android`.
        let mut i: usize = 0;
        let mut found: bool = false;
        if wlen >= 7 {
            while !found && i <= wlen - 7
                invariant
                    wlen == w@.len(),
                    wlen >= 7,
                    i <= wlen - 7 + 1,
                    found ==> i + 7 <= wlen && w@.subrange(i as int, i as int + 7)
                        == android_bytes() && find_android(w@, 0) == Some(i as int),
                    !found ==> find_android(w@, 0) == find_android(w@, i as int),
                decreases wlen - i + (if found { 0int } else { 1int }),
            {
                let hit = w[i] == 97 && w[i + 1] == 110 && w[i + 2] == 100 && w[i + 3]
                    == 114 && w[i + 4] == 111 && w[i + 5] == 105 && w[i + 6] == 100;
                proof {
                    if hit {
                        assert(w@.subrange(i as int, i as int + 7) =~= android_bytes());
                    } else {
                        if w@.subrange(i as int, i as int + 7) == android_bytes() {
                            assert(w@[i as int] == 97 && w@[i as int + 1] == 110
                                && w@[i as int + 2] == 100 && w@[i as int + 3] == 114
                                && w@[i as int + 4] == 111 && w@[i as int + 5] == 105
                                && w@[i as int + 6] == 100);
                        }
                    }
                }
                if hit {
                    found = true;
                } else {
                    i += 1;
                }
            }
        }
        if !found {
            proof {
                if wlen >= 7 {
                    assert(find_android(w@, i as int) is None);
                } else {
                    assert(find_android(w@, 0) is None);
                }
            }
            return None;
        }
        // The run of KMI bytes from the match.
        let t = vstd::slice::slice_subrange(w, i, wlen);
        proof {
            assert(t@ =~= w@.skip(i as int));
        }
        let k = kmi_run(t);
        if k < 7 {
            proof {
                assert(kmi_bytes_of(s) is None);
            }
            return None;
        }
        proof {
            assert(t@.subrange(0, 7) =~= android_bytes());
        }
        let run = vstd::slice::slice_subrange(t, 0, k);
        proof {
            assert(run@ =~= t@.subrange(0, k as int));
        }
        match crate::cpio::bytes_to_string(run) {
            Some(v) => {
                proof {
                    assert(kmi_bytes_of(s) == Some(run@));
                }
                Some(v)
            }
            None => None,
        }
    }
}

} // verus!
